use kurabase::ast::parse_json;
use kurabase::catalog::{AuthContext, Database};
use kurabase::json::Datum;
use kurabase::normalize::admit_query_text;
use kurabase::relational::{
    backend_error, batches_to_rows, column_type, materialize, relation_batch, validate_plan, BackendFailure, FieldType,
    PlanExpr, PlanNode, PlanShape, PlanStep, RawCell, ResultBatch, ResultField, Scalar, Storage,
};
use kurabase::views::View;

fn json(text: &str) -> Datum {
    parse_json(text).unwrap()
}

fn fixture() -> Database {
    let mut db = Database::default();
    db.execute_sql(
        "CREATE TABLE authors (id bigint PRIMARY KEY, name text NOT NULL, owner text NOT NULL);
         CREATE TABLE books (id bigint PRIMARY KEY, author_id bigint REFERENCES authors(id), title text, pages bigint, owner text NOT NULL);
         INSERT INTO authors VALUES (1, 'Alice', 'alice'), (2, 'Bob', 'bob'), (3, 'Carol', 'alice');
         INSERT INTO books VALUES (10, 1, 'Alpha', 100, 'alice'), (11, 1, 'Beta', 200, 'alice'), (12, 2, 'Gamma', NULL, 'bob');",
        &AuthContext::admin(),
    ).unwrap();
    db
}

fn enable_rls(db: &mut Database) {
    db.execute_sql(
        "ALTER TABLE authors ENABLE ROW LEVEL SECURITY;
         CREATE POLICY own_authors ON authors FOR SELECT TO authenticated USING (owner = auth.uid());
         ALTER TABLE books ENABLE ROW LEVEL SECURITY;
         CREATE POLICY own_books ON books FOR SELECT TO authenticated USING (owner = auth.uid());",
        &AuthContext::admin(),
    ).unwrap();
}

fn view(sql: &str, materialized: bool) -> View {
    View { sql: sql.to_string(), materialized }
}

fn names(db: &Database, sql: &str) -> Vec<String> {
    let (_, found) = admit_query_text(db, sql, &AuthContext::admin()).unwrap();
    found.entries.into_iter().map(|(name, _)| name).collect()
}

#[test]
fn rejects_unsafe_sources_and_statements_including_nested_forms() {
    let db = fixture();
    for sql in [
        "DELETE FROM books", "CREATE EXTERNAL TABLE x STORED AS CSV LOCATION '/etc/passwd'",
        "SELECT 1; SELECT 2", "SELECT * INTO stolen FROM books", "SELECT * FROM books FOR UPDATE",
        "SELECT * FROM read_csv('/etc/passwd')", "SELECT * FROM '/etc/passwd'",
        "SELECT * FROM information_schema.tables", "SELECT read_file('/etc/passwd')",
        "WITH source AS (SELECT * FROM read_parquet('https://example.com/file')) SELECT * FROM source",
        "SELECT id FROM books WHERE EXISTS (SELECT 1 FROM read_csv('/etc/passwd'))",
        "SELECT * FROM (SELECT * INTO x FROM books) nested",
        "WITH changed AS (DELETE FROM books RETURNING *) SELECT * FROM changed",
        "SELECT CAST(id AS numeric(70,2)) FROM books",
        "SELECT arbitrary_extension(id) FROM books",
    ] {
        assert!(admit_query_text(&db, sql, &AuthContext::admin()).is_err(), "accepted unsafe SQL: {sql}");
    }
    assert_eq!(db.table("books").unwrap().rows.len(), 3);
}

#[test]
fn cyclic_and_uncached_materialized_views_fail_closed() {
    let mut db = fixture();
    db.views.insert("looped".to_string(), view("SELECT * FROM looped", false));
    assert_eq!(admit_query_text(&db, "SELECT * FROM looped", &AuthContext::admin()).unwrap_err().code, "UnsupportedFeature");
    db.views.insert("cached".to_string(), view("SELECT * FROM books", true));
    assert_eq!(admit_query_text(&db, "SELECT * FROM cached", &AuthContext::admin()).unwrap_err().code, "UnsupportedFeature");
}

#[test]
fn unknown_and_corrupted_canonical_types_fail_closed() {
    let mut db = fixture();
    let mut books = db.table("books").unwrap().clone();
    books.columns[3].data_type = "numeric(70,2)".to_string();
    db.catalog.insert("books".to_string(), books.clone());
    assert_eq!(relation_batch(&db, "books", &AuthContext::admin()).unwrap_err().code, "UnsupportedFeature");
    books.columns[3].data_type = "bigint".to_string();
    books.rows.entries[0].1.values.insert("pages".to_string(), json("\"100\""));
    db.catalog.insert("books".to_string(), books);
    assert_eq!(relation_batch(&db, "books", &AuthContext::admin()).unwrap_err().code, "TypeError");
}

#[test]
fn identities_are_bound_as_quoted_literals() {
    let db = fixture();
    let auth = AuthContext::authenticated("alice'; DROP TABLE books; --");
    let (sql, found) = admit_query_text(&db, "SELECT auth.uid() AS uid", &auth).unwrap();
    assert_eq!(sql, "SELECT 'alice''; DROP TABLE books; --' AS uid");
    assert_eq!(found.len(), 0);
    assert_eq!(admit_query_text(&db, "SELECT auth.uid()", &AuthContext::default()).unwrap().0, "SELECT NULL");
    assert_eq!(admit_query_text(&db, "SELECT auth.jwt() AS claims", &auth).unwrap_err().code, "UnsupportedFeature");
    assert_eq!(admit_query_text(&db, "SELECT auth.uid(1)", &auth).unwrap_err().message, "Identity functions accept no arguments or modifiers");
}

#[test]
fn views_are_expanded_and_catalog_names_are_qualified() {
    let mut db = fixture();
    db.views.insert("visible_books".to_string(), view("SELECT id, title, owner FROM books", false));
    db.views.insert("nested_books".to_string(), view("SELECT title FROM visible_books", false));
    let (sql, found) = admit_query_text(&db, "SELECT title FROM nested_books ORDER BY title", &AuthContext::admin()).unwrap();
    assert_eq!(sql, "SELECT title FROM (SELECT title FROM (SELECT id, title, owner FROM public.\"books\") AS \"visible_books\") AS \"nested_books\" ORDER BY title");
    assert!(found.holds("books"));
    let (sql, _) = admit_query_text(&db, "WITH books AS (SELECT 999 AS id) SELECT title FROM visible_books v, books", &AuthContext::admin()).unwrap();
    assert_eq!(sql, "WITH books AS (SELECT 999 AS id) SELECT title FROM (SELECT id, title, owner FROM public.\"books\") AS v, books");
    assert_eq!(names(&db, "SELECT a.id FROM authors a JOIN books b ON a.id = b.author_id WHERE b.id IN (SELECT id FROM books)"), vec!["authors", "books"]);
    assert_eq!(admit_query_text(&db, "SELECT * FROM missing", &AuthContext::admin()).unwrap_err().code, "UndefinedTable");
}

#[test]
fn admitted_forms_pass_and_limits_hold() {
    let db = fixture();
    let admin = AuthContext::admin();
    for sql in [
        "SELECT count(*), sum(pages) FROM books GROUP BY author_id HAVING count(*) > 1",
        "SELECT id, row_number() OVER (PARTITION BY owner ORDER BY id ROWS BETWEEN 1 PRECEDING AND CURRENT ROW) FROM books",
        "SELECT CASE WHEN pages IS NULL THEN 0 ELSE pages END FROM books ORDER BY 1 LIMIT 5 OFFSET 1",
        "SELECT id FROM books UNION ALL SELECT id FROM authors",
        "SELECT DISTINCT ON (owner) owner, substring(title FROM 1 FOR 2), trim(both 'x' from title) FROM books",
        "VALUES (1,'a'),(2,'b')",
        "SELECT title LIKE 'A%' AND pages BETWEEN 1 AND 5 OR NOT (id IN (1,2)) FROM books",
    ] {
        assert!(admit_query_text(&db, sql, &admin).is_ok(), "refused {sql}");
    }
    assert_eq!(admit_query_text(&db, "SELECT 1.5", &admin).unwrap_err().message, "Only signed 64-bit integer literals are currently supported");
    assert_eq!(admit_query_text(&db, "SELECT 1 # 2", &admin).unwrap_err().message, "Binary operator is not supported");
    assert_eq!(admit_query_text(&db, "SELECT foo(1)", &admin).unwrap_err().message, "Function foo is not supported by KuraSQL reads");
    assert_eq!(admit_query_text(&db, "SELECT ARRAY[1]", &admin).unwrap_err().message, "Expression form is not supported by KuraSQL reads");
    assert_eq!(admit_query_text(&db, "SELECT id::numeric FROM books", &admin).unwrap_err().message, "CAST target numeric is not supported");
    assert_eq!(admit_query_text(&db, "SELECT", &admin).unwrap_err().code, "SyntaxError");
    let long = format!("SELECT '{}'", "x".repeat(300_000));
    assert_eq!(admit_query_text(&db, &long, &admin).unwrap_err().code, "ResourceLimit");
}

#[test]
fn deep_views_reach_the_limit() {
    let mut db = fixture();
    db.views.insert("v0".to_string(), view("SELECT id FROM books", false));
    for level in 1..70 {
        db.views.insert(format!("v{level}"), view(&format!("SELECT id FROM v{}", level - 1), false));
    }
    assert_eq!(admit_query_text(&db, "SELECT id FROM v69", &AuthContext::admin()).unwrap_err().code, "ResourceLimit");
    assert!(admit_query_text(&db, "SELECT id FROM v10", &AuthContext::admin()).is_ok());
}

#[test]
fn only_readable_rows_reach_the_engine() {
    let mut db = fixture();
    enable_rls(&mut db);
    let batch = relation_batch(&db, "books", &AuthContext::authenticated("alice")).unwrap();
    assert_eq!(batch.len(), 5);
    assert_eq!(batch[0].name, "id");
    assert_eq!(batch[0].storage, Storage::Integer);
    assert_eq!(batch[0].cells, vec![Scalar::Integer(10), Scalar::Integer(11)]);
    assert_eq!(batch[2].cells, vec![Scalar::Text("Alpha".to_string()), Scalar::Text("Beta".to_string())]);
    assert_eq!(relation_batch(&db, "books", &AuthContext::default()).unwrap()[0].cells, vec![]);
    let all = relation_batch(&db, "books", &AuthContext::admin()).unwrap();
    assert_eq!(all[3].cells[2], Scalar::Absent);
    assert_eq!(relation_batch(&db, "missing", &AuthContext::admin()).unwrap_err().code, "UndefinedTable");
}

#[test]
fn stored_types_have_a_storage() {
    assert_eq!(column_type("INTEGER").unwrap(), Storage::Integer);
    assert_eq!(column_type("varchar(20)").unwrap(), Storage::Text);
    assert_eq!(column_type("boolean").unwrap(), Storage::Boolean);
    assert_eq!(column_type("numeric(10,2)").unwrap_err().message, "Projection type numeric(10,2) is not supported");
}

fn field(name: &str, kind: FieldType, logical: Option<&str>) -> ResultField {
    ResultField { name: name.to_string(), kind, nullable: true, logical: logical.map(|name| name.to_string()) }
}

fn cell(text: &str) -> RawCell {
    RawCell::Value(json(text))
}

#[test]
fn results_become_rows_and_tables() {
    let batch = ResultBatch {
        fields: vec![field("id", FieldType::Int32, None), field("payload", FieldType::Text, Some("jsonb"))],
        rows: vec![vec![cell("1"), cell("\"{\\\"a\\\":[1,true,null]}\"")], vec![cell("2"), cell("null")]],
    };
    let batches = vec![batch];
    assert_eq!(batches_to_rows(&batches).unwrap(), vec![json("{\"id\":1,\"payload\":{\"a\":[1,true,null]}}"), json("{\"id\":2,\"payload\":null}")]);
    let table = materialize(&batches[0].fields, &batches, "cached").unwrap();
    assert_eq!(table.name, "cached");
    assert_eq!(table.columns.iter().map(|c| (c.id, c.data_type.as_str())).collect::<Vec<_>>(), vec![(1, "integer"), (2, "jsonb")]);
    assert_eq!(table.rows.get(&1).unwrap().values.find("payload").unwrap(), &json("{\"a\":[1,true,null]}"));
    assert_eq!(table.next_row_id, 3);
    assert!(!table.rls_enabled);
    let empty = materialize(&vec![field("n", FieldType::UInt64, None), field("t", FieldType::Null, None)], &vec![], "empty").unwrap();
    assert_eq!(empty.columns.iter().map(|c| c.data_type.as_str()).collect::<Vec<_>>(), vec!["bigint", "text"]);
}

#[test]
fn bad_results_are_refused() {
    let one = |fields: Vec<ResultField>, rows: Vec<Vec<RawCell>>| batches_to_rows(&vec![ResultBatch { fields, rows }]);
    assert_eq!(one(vec![field("a", FieldType::Int8, None), field("a", FieldType::Int8, None)], vec![]).unwrap_err().code, "DuplicateColumn");
    assert_eq!(one(vec![field("a", FieldType::Float64, None)], vec![vec![RawCell::NonFinite]]).unwrap_err().message, "Non-finite query result");
    assert_eq!(one(vec![field("a", FieldType::Other("Date32".to_string()), None)], vec![vec![RawCell::Foreign("Date32".to_string())]]).unwrap_err().message, "Query result type Date32 is not supported");
    assert_eq!(one(vec![field("a", FieldType::Text, None)], vec![vec![RawCell::Broken]]).unwrap_err().code, "ExecutionFailure");
    assert_eq!(one(vec![field("a", FieldType::Text, Some("json"))], vec![vec![cell("\"{\"")]]).unwrap_err().message, "Invalid projected JSON value");
    let many: Vec<Vec<RawCell>> = (0..100_001).map(|_| vec![]).collect();
    assert_eq!(one(vec![], many).unwrap_err().code, "ResourceLimit");
    let wide = vec![field("n", FieldType::UInt64, None)];
    let batches = vec![ResultBatch { fields: vec![field("n", FieldType::UInt64, None)], rows: vec![vec![cell("18446744073709551615")]] }];
    assert_eq!(materialize(&wide, &batches, "wide").unwrap_err().code, "TypeError");
    assert_eq!(materialize(&vec![field("n", FieldType::Float32, None)], &vec![], "f").unwrap_err().message, "Materialized result type Float32 has no supported canonical table type");
}

fn expr(shape: PlanShape, operands: Option<(FieldType, FieldType)>, columns: &[&str]) -> PlanExpr {
    PlanExpr { shape, operands, columns: columns.iter().map(|name| name.to_string()).collect() }
}

fn node(step: PlanStep, expressions: Vec<PlanExpr>, fields: &[&str]) -> PlanNode {
    PlanNode { step, expressions, fields: fields.iter().map(|name| name.to_string()).collect() }
}

#[test]
fn plans_need_compatible_operands_and_plain_json() {
    let numbers = expr(PlanShape::Other, Some((FieldType::Int64, FieldType::Float64)), &[]);
    let missing = expr(PlanShape::Other, Some((FieldType::Null, FieldType::Text)), &["text"]);
    let handed = expr(PlanShape::Alias, None, &["jsonb"]);
    assert!(validate_plan(&vec![node(PlanStep::Other, vec![numbers, missing, handed], &["jsonb", "text"])]).is_ok());
    for shape in [PlanShape::Column, PlanShape::Alias, PlanShape::IsNull, PlanShape::IsNotNull] {
        assert!(validate_plan(&vec![node(PlanStep::Other, vec![expr(shape, None, &["json"])], &["json"])]).is_ok());
    }
    let mixed = node(PlanStep::Other, vec![expr(PlanShape::Other, Some((FieldType::Int64, FieldType::Text)), &[])], &[]);
    assert_eq!(validate_plan(&vec![mixed]).unwrap_err().message, "Incompatible operands require an explicit CAST");
    let computed = node(PlanStep::Other, vec![expr(PlanShape::Other, None, &["text", "json"])], &[]);
    assert_eq!(validate_plan(&vec![computed]).unwrap_err().code, "UnsupportedFeature");
    let plain = node(PlanStep::Sort, vec![expr(PlanShape::Other, None, &["text"])], &["json"]);
    assert!(validate_plan(&vec![plain]).is_ok());
    let sorted = node(PlanStep::Sort, vec![expr(PlanShape::Column, None, &["json"])], &[]);
    assert_eq!(validate_plan(&vec![sorted]).unwrap_err().message, "JSON sorting, grouping and aggregation are not implemented");
    let distinct = node(PlanStep::Distinct, vec![expr(PlanShape::Column, None, &["json"])], &["text", "jsonb"]);
    assert_eq!(validate_plan(&vec![distinct]).unwrap_err().message, "DISTINCT on JSON values requires native JSON equality semantics");
}

#[test]
fn engine_failures_have_stable_codes() {
    assert_eq!(backend_error(BackendFailure::Resources).code, "ResourceLimit");
    assert_eq!(backend_error(BackendFailure::NotImplemented).code, "UnsupportedFeature");
    assert_eq!(backend_error(BackendFailure::Plan).code, "TypeError");
    assert_eq!(backend_error(BackendFailure::Schema).code, "TypeError");
    assert_eq!(backend_error(BackendFailure::Syntax).code, "UnsupportedFeature");
    assert_eq!(backend_error(BackendFailure::Execution).code, "TypeError");
    assert_eq!(backend_error(BackendFailure::Arrow).code, "TypeError");
    assert_eq!(backend_error(BackendFailure::Other).code, "ExecutionFailure");
}
