use kurabase::ast::parse_json;
use kurabase::catalog::{AuthContext, Column, Database, ForeignKey, Row, Table};
use kurabase::embed::{filter_referenced_rows, fk_matches_hint, project, project_with_params, relation_params, relation_spec};
use kurabase::json::Datum;
use kurabase::ordmap::OrdMap;
use kurabase::postgrest::{get, ident, literal, mutation_sql, postgrest_string, select_sql, split, where_clause, Params};

fn json(text: &str) -> Datum {
    parse_json(text).unwrap()
}

fn params(pairs: &[(&str, &str)]) -> Params {
    pairs.iter().map(|(key, value)| (key.to_string(), value.to_string())).collect()
}

fn table(name: &str, columns: &[&str], foreign_keys: Vec<ForeignKey>, rows: Vec<Datum>) -> Table {
    let mut stored: OrdMap<u64, Row> = OrdMap::new();
    for (id, value) in rows.into_iter().enumerate() {
        let values = match value {
            Datum::Object(map) => map,
            _ => panic!("not an object"),
        };
        stored.insert(id as u64 + 1, Row { id: id as u64 + 1, version: 0, values });
    }
    Table {
        id: 1,
        name: name.to_string(),
        columns: columns.iter().enumerate().map(|(id, name)| Column {
            id: id as u64 + 1,
            name: name.to_string(),
            data_type: if *name == "id" || name.ends_with("_id") { "integer".to_string() } else if *name == "meta" { "json".to_string() } else { "text".to_string() },
            nullable: false,
            default: None,
            identity: None,
            generated: None,
        }).collect(),
        primary_key: vec!["id".to_string()],
        unique: vec![],
        deferred_unique: OrdMap::new(),
        foreign_keys,
        checks: vec![],
        rls_enabled: false,
        policies: vec![],
        rows: stored,
        next_row_id: 100,
    }
}

fn reference(column: &str) -> ForeignKey {
    ForeignKey {
        columns: vec![column.to_string()],
        foreign_table: "users".to_string(),
        referred_columns: vec!["id".to_string()],
        on_delete: None,
        on_update: None,
        deferred: false,
    }
}

fn fixture() -> Database {
    let mut db = Database::default();
    db.catalog.insert("users".to_string(), table("users", &["id", "name"], vec![], vec![json(r#"{"id": 1, "name": "Ada"}"#), json(r#"{"id": 2, "name": "Grace"}"#)]));
    db.catalog.insert("posts".to_string(), table("posts", &["id", "author_id", "editor_id", "title", "meta"], vec![reference("author_id"), reference("editor_id")], vec![
        json(r#"{"id": 10, "author_id": 1, "editor_id": 2, "title": "first", "meta": {"title": "first", "labels": ["red"]}}"#),
        json(r#"{"id": 11, "author_id": 2, "editor_id": 1, "title": "second", "meta": {"title": "second"}}"#),
    ]));
    db
}

#[test]
fn selects_json_paths_and_requires_explicit_fk_when_ambiguous() {
    let db = fixture();
    let context = AuthContext::admin();
    let posts = db.catalog.find("posts").unwrap();
    let rows = db.read_table("posts", &context).unwrap();
    let error = project(rows.clone(), "users(id)", &db, posts, &context).unwrap_err();
    assert!(error.message.contains("!<foreign-key-column>"));
    let projected = project(rows, "id,author:users!author_id(id),headline:meta->>title", &db, posts, &context).unwrap();
    assert_eq!(projected[0], json(r#"{"id": 10, "author": {"id": 1}, "headline": "first"}"#));
}

#[test]
fn referenced_filters_apply_to_embeds_and_inner_rows_before_pagination() {
    let db = fixture();
    let context = AuthContext::admin();
    let posts = db.catalog.find("posts").unwrap();
    let rows = db.read_table("posts", &context).unwrap();
    let params = params(&[("author.name", "eq.Ada")]);
    let select = "id,author:users!author_id!inner(id,name)";
    let filtered = filter_referenced_rows(rows, select, &params, &db, posts, &context).unwrap();
    assert_eq!(filtered.len(), 1);
    let projected = project_with_params(filtered, select, &params, &db, posts, &context).unwrap();
    assert_eq!(projected, vec![json(r#"{"id": 10, "author": {"id": 1, "name": "Ada"}}"#)]);
}

#[test]
fn dotted_filters_do_not_leak_into_root_sql_and_quoted_in_values_are_literals() {
    let db = fixture();
    let posts = db.catalog.find("posts").unwrap();
    let params = params(&[("author.name", "eq.Ada"), ("title", "in.(first,\"second,third\",\"1' OR 1=1 --\")")]);
    let sql = select_sql(posts, &params).unwrap();
    assert!(!sql.contains("author.name"));
    assert!(sql.contains("\"title\" IN ('first','second,third','1'' OR 1=1 --')"));
}

#[test]
fn text_null_is_a_literal_and_quoted_in_escapes_are_preserved_safely() {
    let db = fixture();
    let posts = db.catalog.find("posts").unwrap();
    let text_null = select_sql(posts, &params(&[("title", "eq.null")])).unwrap();
    let sql_null = select_sql(posts, &params(&[("title", "is.null")])).unwrap();
    let quoted = select_sql(posts, &params(&[("title", r#"in.("a,b","quoted\"value","x' OR 1=1 --")"#)])).unwrap();
    assert!(text_null.contains("\"title\" = 'null'"));
    assert!(sql_null.contains("\"title\" IS NULL"));
    assert!(quoted.contains("\"title\" IN ('a,b','quoted\"value','x'' OR 1=1 --')"));
}

#[test]
fn identifiers_and_literals_are_quoted() {
    assert_eq!(ident("a\"b").unwrap(), "\"a\"\"b\"");
    assert_eq!(ident("").unwrap_err().message, "Invalid identifier");
    assert_eq!(ident("a\0b").unwrap_err().code, "UnsupportedFeature");
    assert_eq!(literal(&json("null")).unwrap(), "NULL");
    assert_eq!(literal(&json("true")).unwrap(), "TRUE");
    assert_eq!(literal(&json("false")).unwrap(), "FALSE");
    assert_eq!(literal(&json("-12.5")).unwrap(), "-12.5");
    assert_eq!(literal(&json("\"it's\"")).unwrap(), "'it''s'");
    assert_eq!(literal(&json("{\"a\":\"it's\"}")).unwrap(), "'{\"a\":\"it''s\"}'");
}

#[test]
fn lists_are_cut_outside_parentheses_and_quotes() {
    assert_eq!(split("a, b(c,d) ,\"e,f\"").unwrap(), vec!["a", "b(c,d)", "\"e,f\""]);
    assert_eq!(split("").unwrap(), vec![""]);
    assert_eq!(split("a,").unwrap(), vec!["a", ""]);
    assert_eq!(split(r#""a\",b",c"#).unwrap(), vec![r#""a\",b""#, "c"]);
    for broken in ["(a", "a)", "\"a"] {
        assert_eq!(split(broken).unwrap_err().message, "Unbalanced expression");
    }
}

#[test]
fn quoted_filter_values_lose_their_escapes() {
    assert_eq!(postgrest_string("plain").unwrap(), "plain");
    assert_eq!(postgrest_string("").unwrap(), "");
    assert_eq!(postgrest_string(r#""a\"b\\c""#).unwrap(), r#"a"b\c"#);
    assert_eq!(postgrest_string("\"a").unwrap_err().message, "Unterminated quoted filter value");
    assert_eq!(postgrest_string("\"").unwrap_err().message, "Unterminated quoted filter value");
    assert_eq!(postgrest_string("\"a\\\"").unwrap_err().message, "Unterminated quoted filter escape");
}

#[test]
fn filters_become_conditions() {
    let db = fixture();
    let posts = db.catalog.find("posts").unwrap();
    let clause = |pairs: &[(&str, &str)]| where_clause(posts, &params(pairs));
    assert_eq!(clause(&[]).unwrap(), "");
    assert_eq!(clause(&[("id", "gte.3"), ("title", "not.like.a*")]).unwrap(), " WHERE \"id\" >= 3 AND NOT (\"title\" LIKE 'a%')");
    assert_eq!(clause(&[("id", "eq.null")]).unwrap(), " WHERE \"id\" = NULL");
    assert_eq!(clause(&[("id", "in.()")]).unwrap(), " WHERE FALSE");
    assert_eq!(clause(&[("or", "(id.eq.1,and(title.eq.a,id.lt.5))")]).unwrap_err().message, "Unknown column and(title");
    assert_eq!(clause(&[("or", "(id.eq.1,and.(title.eq.a,id.lt.5))")]).unwrap(), " WHERE (\"id\" = 1 OR (\"title\" = 'a' AND \"id\" < 5))");
    assert_eq!(clause(&[("id", "neq.1"), ("limit", "3"), ("select", "id")]).unwrap(), " WHERE \"id\" <> 1");
    assert_eq!(clause(&[("id", "fts.1")]).unwrap_err().message, "Filter fts is not yet supported");
    assert_eq!(clause(&[("id", "eq")]).unwrap_err().message, "Filter requires operator.value");
    assert_eq!(clause(&[("missing", "eq.1")]).unwrap_err().message, "Unknown column missing");
    assert_eq!(clause(&[("id", "eq.abc")]).unwrap_err().message, "Invalid typed filter value");
    assert_eq!(clause(&[("id", "in.1")]).unwrap_err().message, "IN requires parentheses");
    assert_eq!(clause(&[("or", "id.eq.1")]).unwrap_err().message, "Boolean filter requires parentheses");
    assert_eq!(clause(&[("or", "(id)")]).unwrap_err().message, "Invalid boolean filter");
}

#[test]
fn orders_become_clauses() {
    let db = fixture();
    let posts = db.catalog.find("posts").unwrap();
    assert_eq!(select_sql(posts, &params(&[("order", "id.desc.nullslast,title")])).unwrap(), "SELECT * FROM \"posts\" ORDER BY \"id\" DESC NULLS LAST,\"title\"");
    assert_eq!(select_sql(posts, &params(&[("order", "id.sideways")])).unwrap_err().message, "Unknown ordering option");
    assert_eq!(get(&params(&[("a", "1"), ("a", "2")]), "a"), Some("1"));
    assert_eq!(get(&params(&[]), "a"), None);
}

#[test]
fn bodies_become_mutations() {
    let db = fixture();
    let users = db.catalog.find("users").unwrap();
    let sql = |method: &str, pairs: &[(&str, &str)], body: &str, prefer: &str| mutation_sql(method, users, &params(pairs), &json(body), prefer);
    assert_eq!(sql("DELETE", &[("id", "eq.1")], "null", "").unwrap(), "DELETE FROM \"users\" WHERE \"id\" = 1 RETURNING *");
    assert_eq!(sql("PATCH", &[("id", "eq.1")], r#"{"name":"x'y"}"#, "").unwrap(), "UPDATE \"users\" SET \"name\"='x''y' WHERE \"id\" = 1 RETURNING *");
    assert_eq!(sql("POST", &[], r#"[{"id":1,"name":"a"},{"id":2,"name":null}]"#, "").unwrap(), "INSERT INTO \"users\" (\"id\",\"name\") VALUES (1,'a'),(2,NULL) RETURNING *");
    assert_eq!(sql("POST", &[], "{}", "").unwrap(), "INSERT INTO \"users\" DEFAULT VALUES RETURNING *");
    assert_eq!(sql("POST", &[], r#"{"id":1}"#, "resolution=merge-duplicates").unwrap(), "INSERT INTO \"users\" (\"id\") VALUES (1) ON CONFLICT (\"id\") DO UPDATE SET \"id\"=EXCLUDED.\"id\" RETURNING *");
    assert_eq!(sql("POST", &[("on_conflict", "id,name")], r#"{"id":1}"#, "resolution=ignore-duplicates").unwrap(), "INSERT INTO \"users\" (\"id\") VALUES (1) ON CONFLICT (\"id\",\"name\") DO NOTHING RETURNING *");
    assert_eq!(sql("PATCH", &[], "[]", "").unwrap_err().message, "UPDATE expects an object");
    assert_eq!(sql("PATCH", &[], "{}", "").unwrap_err().message, "UPDATE requires at least one column");
    assert_eq!(sql("POST", &[], "[]", "").unwrap_err().message, "INSERT expects at least one row");
    assert_eq!(sql("POST", &[], "[1]", "").unwrap_err().message, "INSERT expects objects");
    assert_eq!(sql("POST", &[], r#"[{"id":1},{"name":"a"}]"#, "").unwrap_err().message, "Bulk insert requires consistent columns");
    assert_eq!(sql("PUT", &[], "{}", "").unwrap_err().message, "Unsupported HTTP method");
    let mut keyless = users.clone();
    keyless.primary_key.clear();
    assert_eq!(mutation_sql("POST", &keyless, &params(&[]), &json("{}"), "resolution=merge-duplicates").unwrap_err().message, "Upsert requires a conflict target");
}

#[test]
fn relations_are_parsed_with_their_modifiers() {
    assert!(relation_spec("id").unwrap().is_none());
    let found = relation_spec("author : users!author_id!inner( id , name )").unwrap().unwrap();
    assert_eq!(found.alias, "author");
    assert_eq!(found.target, "users");
    assert_eq!(found.foreign_key, Some("author_id".to_string()));
    assert!(found.inner);
    assert_eq!(found.nested, "id , name");
    assert_eq!(relation_spec("users(id").unwrap_err().message, "Unclosed relation");
    assert_eq!(relation_spec("(id)").unwrap_err().message, "Nested relation requires a name");
    assert_eq!(relation_spec("users!(id)").unwrap_err().message, "Invalid relation modifier");
    assert_eq!(relation_spec("users!inner!inner(id)").unwrap_err().message, "Duplicate !inner relation modifier");
    assert_eq!(relation_spec("users!a!b(id)").unwrap_err().message, "Only one explicit foreign-key selector is supported");
    let own = relation_params(&params(&[("author.name", "eq.a"), ("users.id", "eq.1"), ("id", "eq.2")]), &found);
    assert_eq!(own, params(&[("name", "eq.a"), ("id", "eq.1")]));
    let mut pair = reference("a");
    pair.columns.push("b".to_string());
    assert!(fk_matches_hint(&pair, "b"));
    assert!(fk_matches_hint(&pair, "a_b"));
    assert!(!fk_matches_hint(&pair, "ab"));
}

#[test]
fn incoming_relations_embed_lists_and_paths_walk_json() {
    let db = fixture();
    let context = AuthContext::admin();
    let users = db.catalog.find("users").unwrap();
    let rows = db.read_table("users", &context).unwrap();
    let embedded = project(rows, "name,posts:posts!author_id(id)", &db, users, &context).unwrap();
    assert_eq!(embedded[0], json(r#"{"name": "Ada", "posts": [{"id": 10}]}"#));
    let posts = db.catalog.find("posts").unwrap();
    let rows = db.read_table("posts", &context).unwrap();
    let paths = project(rows.clone(), "first:meta->labels->0,text:meta->>labels,none:meta->missing,*", &db, posts, &context).unwrap();
    assert_eq!(paths[0].child("first"), &json("\"red\""));
    assert_eq!(paths[0].child("text"), &json(r#""[\"red\"]""#));
    assert!(paths[0].child("none").is_null());
    assert_eq!(paths[0].child("title"), &json("\"first\""));
    assert_eq!(project(rows.clone(), "missing", &db, posts, &context).unwrap_err().message, "Unknown selected column missing");
    assert_eq!(project(rows.clone(), "meta->", &db, posts, &context).unwrap_err().message, "JSON path requires a key");
    assert_eq!(project(rows.clone(), "title->x", &db, posts, &context).unwrap_err().message, "JSON path traverses a non-container at x");
    assert_eq!(project(rows.clone(), "other(id)", &db, posts, &context).unwrap_err().message, "Unknown nested relation other");
    assert_eq!(project(rows, "users!title(id)", &db, posts, &context).unwrap_err().message, "No relationship from posts to users matches !title");
}
