use kurabase::api::ApiError;
use kurabase::ast::{column_option_text, expr_text, expression_uses, expressions, json_text, parse_expression, parse_json, parse_statements, rename_expression};
use kurabase::auth::{Auth, Envelope, SessionPayload};
use kurabase::catalog::{AuthContext, Database};
use kurabase::chain::{id, ChainSnapshot, Change};
use kurabase::error::err;
use kurabase::gateway::{authority, commit, rpc, Access, Commit, RpcRequest};
use kurabase::json::Datum;
use kurabase::normalize::admit_query_text;
use kurabase::postgrest::{ident, literal, split};
use kurabase::projection::{metadata, plan, rebuild};
use kurabase::relational::{
    batches_to_rows, materialize, relation_batch, FieldType, RawCell, ResultBatch, ResultField,
};
use kurabase::replies::{batch_reply, check_exchange, health, migrations, session_reply, without_rows};

fn json(text: &str) -> Datum {
    parse_json(text).unwrap()
}

fn notes() -> Database {
    let mut db = Database::default();
    db.execute_sql("CREATE TABLE notes(id bigint PRIMARY KEY, owner text, body text, weight integer); INSERT INTO notes VALUES(1,'ann','x',2),(2,'bob','y',NULL),(3,'ann','z',1),(4,'cid','w',2)", &AuthContext::admin()).unwrap();
    db
}

fn guarded() -> Database {
    let mut db = notes();
    db.execute_sql("ALTER TABLE notes ENABLE ROW LEVEL SECURITY; CREATE POLICY own ON notes FOR ALL USING (owner = auth.uid()) WITH CHECK (owner = auth.uid())", &AuthContext::admin()).unwrap();
    db
}

fn ids(db: &mut Database, sql: &str) -> Vec<String> {
    db.execute_sql(sql, &AuthContext::admin()).unwrap().rows.iter().map(|row| json_text(row.child("id"))).collect()
}

#[test]
fn ordered_results_hold_every_row_in_order() {
    let mut db = notes();
    assert_eq!(ids(&mut db, "SELECT id, weight FROM notes ORDER BY weight"), vec!["3", "1", "4", "2"]);
    assert_eq!(ids(&mut db, "SELECT id, weight FROM notes ORDER BY weight DESC"), vec!["2", "1", "4", "3"]);
    assert_eq!(ids(&mut db, "SELECT id, weight FROM notes ORDER BY weight DESC NULLS LAST, id DESC"), vec!["4", "1", "3", "2"]);
    assert_eq!(ids(&mut db, "SELECT id, owner, weight FROM notes ORDER BY owner, weight NULLS FIRST"), vec!["3", "1", "2", "4"]);
}

#[test]
fn quoted_names_and_texts_are_read_whole() {
    assert_eq!(ident("a\"b").unwrap(), "\"a\"\"b\"");
    assert_eq!(literal(&Datum::String("it's ''".to_string())).unwrap(), "'it''s '''''");
    let mut db = Database::default();
    let admin = AuthContext::admin();
    let name = ident("x\"; DROP TABLE y; --").unwrap();
    db.execute_sql(&format!("CREATE TABLE {name}(v text)"), &admin).unwrap();
    let text = "a'); DELETE FROM y; --";
    db.execute_sql(&format!("INSERT INTO {name} VALUES({})", literal(&Datum::String(text.to_string())).unwrap()), &admin).unwrap();
    let rows = db.execute_sql(&format!("SELECT v FROM {name}"), &admin).unwrap().rows;
    assert_eq!(rows[0].child("v").as_str(), Some(text));
}

#[test]
fn definitions_change_with_the_version() {
    let mut db = notes();
    let admin = AuthContext::admin();
    let version = db.schema_version;
    db.execute_sql("INSERT INTO notes VALUES(9,'dan','v',0); UPDATE notes SET weight = 5; DELETE FROM notes WHERE id = 1", &admin).unwrap();
    assert_eq!(db.schema_version, version);
    db.execute_sql("CREATE VIEW v AS SELECT id FROM notes", &admin).unwrap();
    assert_eq!(db.schema_version, version + 1);
    db.execute_sql("ALTER TABLE notes ENABLE ROW LEVEL SECURITY", &admin).unwrap();
    assert_eq!(db.schema_version, version + 2);
    db.execute_sql("CREATE POLICY p ON notes FOR SELECT USING (true)", &admin).unwrap();
    assert_eq!(db.schema_version, version + 3);
    db.execute_sql("ALTER TABLE notes ADD COLUMN extra text", &admin).unwrap();
    assert_eq!(db.schema_version, version + 4);
    db.execute_sql("CREATE TABLE IF NOT EXISTS notes(id bigint)", &admin).unwrap();
    assert_eq!(db.schema_version, version + 4);
}

#[test]
fn definitions_need_authority() {
    let mut db = notes();
    let before = db.clone();
    let user = AuthContext::authenticated("ann");
    for sql in [
        "CREATE TABLE t(id int)",
        "DROP TABLE notes",
        "ALTER TABLE notes DROP COLUMN body",
        "ALTER TABLE notes DISABLE ROW LEVEL SECURITY",
        "CREATE POLICY p ON notes FOR ALL USING (true)",
        "CREATE VIEW v AS SELECT 1",
        "CREATE INDEX i ON notes(id)",
        "CREATE FUNCTION f() RETURNS void LANGUAGE sql AS $$ SELECT 1 $$",
        "CREATE TABLE t(id int UNIQUE DEFERRABLE)",
    ] {
        assert_eq!(db.execute_sql(sql, &user).err().unwrap().code, "PrivilegeError", "{sql}");
    }
    assert_eq!(db, before);
}

#[test]
fn writes_respect_policies() {
    let mut db = guarded();
    let ann = AuthContext::authenticated("ann");
    let before = db.clone();
    assert_eq!(db.execute_sql("INSERT INTO notes VALUES(7,'bob','q',0)", &ann).err().unwrap().code, "RlsViolation");
    assert_eq!(db.execute_sql("UPDATE notes SET owner = 'bob' WHERE id = 1", &ann).err().unwrap().code, "RlsViolation");
    assert_eq!(db.execute_sql("INSERT INTO notes VALUES(2,'ann','q',0) ON CONFLICT (id) DO UPDATE SET body = 'taken'", &ann).err().unwrap().code, "RlsViolation");
    assert_eq!(db, before);
    assert_eq!(db.execute_sql("UPDATE notes SET body = 'mine'", &ann).unwrap().affected, 2);
    assert_eq!(db.execute_sql("DELETE FROM notes", &ann).unwrap().affected, 2);
    assert_eq!(ids(&mut db, "SELECT id FROM notes ORDER BY id"), vec!["2", "4"]);
    assert_eq!(db.execute_sql("INSERT INTO notes VALUES(7,'ann','q',0)", &ann).unwrap().affected, 1);
}

#[test]
fn admitted_queries_name_their_tables() {
    let mut db = notes();
    db.execute_sql("CREATE TABLE tags(id bigint); CREATE VIEW seen AS SELECT id FROM notes", &AuthContext::admin()).unwrap();
    let context = AuthContext::default();
    let (_, found) = admit_query_text(&db, "WITH c AS (SELECT id FROM seen) SELECT c.id FROM c JOIN tags ON tags.id = c.id", &context).unwrap();
    assert_eq!(found.len(), 2);
    assert!(found.contains(&"notes".to_string()) && found.contains(&"tags".to_string()));
    assert_eq!(admit_query_text(&db, "SELECT * FROM elsewhere", &context).err().unwrap().code, "UndefinedTable");
}

#[test]
fn only_posts_write() {
    let mut db = notes();
    db.execute_sql("CREATE FUNCTION wipe() RETURNS void LANGUAGE sql AS $$ DELETE FROM notes $$", &AuthContext::admin()).unwrap();
    let call = |method: &str| RpcRequest {
        name: "wipe".to_string(),
        method: method.to_string(),
        params: Vec::new(),
        body: Vec::new(),
        prefer: String::new(),
        accept: String::new(),
    };
    let admin = AuthContext::admin();
    assert_eq!(rpc(&db, &call("GET"), &admin).err().unwrap().message, "Mutating RPC requires POST");
    let answer = rpc(&db, &call("POST"), &admin).unwrap();
    assert!(!plan(&db, &answer.staged).unwrap().is_empty());
    let anonymous = Auth { context: AuthContext::default(), envelope: None };
    assert_eq!(commit(1, &anonymous).err().unwrap().status, 401);
    assert!(matches!(commit(0, &anonymous), Ok(Commit::Nothing)));
}

#[test]
fn unconfirmed_delegations_are_refused() {
    assert_eq!(authority(Access::Administrator, false).err().unwrap().message, "Gateway privileged delegation is absent or revoked");
    assert!(authority(Access::Administrator, true).unwrap().context.privileged);
    assert!(!authority(Access::Anonymous, false).unwrap().context.privileged);
}

#[test]
fn failures_are_shown() {
    assert_eq!(err("TypeError", "no").to_text(), "TypeError: no");
    assert_eq!(json_text(&ApiError::of(err("RlsViolation", "no")).body()), r#"{"code":"RlsViolation","details":null,"hint":null,"message":"no"}"#);
}

#[test]
fn states_are_shown_without_rows() {
    let db = notes();
    let shown = without_rows(&db);
    assert_eq!(shown.table("notes").unwrap().rows.len(), 0);
    assert_eq!(shown.table("notes").unwrap().next_row_id, db.table("notes").unwrap().next_row_id);
    assert_eq!(shown.table("notes").unwrap().columns, db.table("notes").unwrap().columns);
}

#[test]
fn bodies_of_replies() {
    let snapshot = ChainSnapshot { block_number: 7, block_hash: vec![0xab; 32], revision: 3, changes: Vec::new() };
    assert_eq!(json_text(&health(&snapshot)), format!("{{\"block_hash\":\"0x{}\",\"block_number\":7,\"revision\":3,\"status\":\"ok\"}}", "ab".repeat(32)));
    let mut db = Database::default();
    db.apply_migration("002", "CREATE TABLE b(id int)", &AuthContext::admin()).unwrap();
    db.apply_migration("001", "CREATE TABLE a(id int)", &AuthContext::admin()).unwrap();
    assert_eq!(json_text(&migrations(&db)), r#"{"migrations":["001","002"]}"#);
    let reply = batch_reply(vec![json("{\"id\":1}")], 2, &None, 9, 4);
    assert_eq!(json_text(&reply), r#"{"affected":2,"block_number":9,"revision":4,"rows":[{"id":1}],"transaction_hash":null}"#);
    let reply = batch_reply(Vec::new(), 0, &Some("0x01".to_string()), 9, 4);
    assert_eq!(reply.child("transaction_hash").as_str(), Some("0x01"));
}

#[test]
fn sessions_are_exchanged_for_tokens() {
    assert!(check_exchange("pub", "pub").is_ok());
    assert_eq!(check_exchange("secret", "pub").err().unwrap().message, "Use the publishable project key for session exchange");
    let mut uid = vec![0; 12];
    uid.extend(vec![0xab; 20]);
    let session = SessionPayload {
        gateway: vec![0x11; 20],
        user: vec![0xab; 20],
        uid,
        claims_hash: vec![0; 32],
        expires_at: "1700000000".to_string(),
        nonce: "1".to_string(),
        gateway_epoch: "0".to_string(),
    };
    let envelope = Envelope { session, signature: vec![1], claims: Datum::Null };
    let context = envelope.verify(true).unwrap();
    let reply = session_reply(&envelope, &context).unwrap();
    assert_eq!(reply.child("token_type").as_str(), Some("bearer"));
    assert_eq!(reply.child("expires_at").as_str(), Some("1700000000"));
    assert_eq!(reply.child("user").child("id").as_str(), Some(format!("0x{}", "ab".repeat(20)).as_str()));
    let token = reply.child("access_token").as_str().unwrap().to_string();
    assert_eq!(Envelope::decode(&token).unwrap(), envelope);
}

#[test]
fn identities_are_handed_out_once() {
    let mut db = notes();
    let admin = AuthContext::admin();
    let last = db.table("notes").unwrap().next_row_id;
    db.execute_sql("DELETE FROM notes WHERE id = 4", &admin).unwrap();
    db.execute_sql("INSERT INTO notes VALUES(4,'eve','u',9)", &admin).unwrap();
    let table = db.table("notes").unwrap();
    assert_eq!(table.next_row_id, last + 1);
    assert_eq!(table.rows.get(&last).unwrap().id, last);
    assert!(table.rows.get(&(last - 1)).is_none());
    db.execute_sql("INSERT INTO notes VALUES(4,'eve','u',9) ON CONFLICT (id) DO UPDATE SET body = 'again'", &admin).unwrap();
    let table = db.table("notes").unwrap();
    assert_eq!((table.next_row_id, table.rows.get(&last).unwrap().version), (last + 1, 2));
}

#[test]
fn restrictive_policies_narrow_permissive_ones() {
    let mut db = guarded();
    let admin = AuthContext::admin();
    db.execute_sql("CREATE POLICY all_rows ON notes FOR SELECT USING (true); CREATE POLICY heavy ON notes AS RESTRICTIVE FOR SELECT USING (weight > 1)", &admin).unwrap();
    let seen: Vec<String> = db.read_table("notes", &AuthContext::authenticated("bob")).unwrap().iter().map(|row| json_text(row.child("id"))).collect();
    assert_eq!(seen, vec!["1", "4"]);
    assert!(db.read_table("notes", &AuthContext::default()).unwrap().len() == 2);
    assert_eq!(db.read_table("notes", &admin).unwrap().len(), 4);
}

#[test]
fn pages_are_parts_of_the_whole_result() {
    let mut db = notes();
    let whole = ids(&mut db, "SELECT DISTINCT id, owner FROM notes ORDER BY owner, id DESC");
    assert_eq!(whole, vec!["3", "1", "2", "4"]);
    for (offset, limit) in [(0, 2), (1, 2), (3, 5), (4, 1), (9, 1), (1, 0)] {
        let page = ids(&mut db, &format!("SELECT DISTINCT id, owner FROM notes ORDER BY owner, id DESC LIMIT {limit} OFFSET {offset}"));
        assert_eq!(page, whole.iter().skip(offset).take(limit).cloned().collect::<Vec<_>>());
    }
    assert_eq!(ids(&mut db, "SELECT DISTINCT id, owner FROM notes ORDER BY owner, id DESC OFFSET 1"), whole[1..]);
    assert_eq!(ids(&mut db, "SELECT DISTINCT id, owner FROM notes ORDER BY owner, id DESC LIMIT 3"), whole[..3]);
}

#[test]
fn hidden_rows_do_not_show_in_queries() {
    let one = guarded();
    let mut other = guarded();
    other.execute_sql("UPDATE notes SET body = 'secret', weight = 77 WHERE owner = 'bob'; DELETE FROM notes WHERE owner = 'cid'", &AuthContext::admin()).unwrap();
    let ann = AuthContext::authenticated("ann");
    assert_eq!(one.read_table("notes", &ann).unwrap(), other.read_table("notes", &ann).unwrap());
    assert_eq!(relation_batch(&one, "notes", &ann).unwrap(), relation_batch(&other, "notes", &ann).unwrap());
    let bob = AuthContext::authenticated("bob");
    assert_ne!(relation_batch(&one, "notes", &bob).unwrap(), relation_batch(&other, "notes", &bob).unwrap());
    let sql = "SELECT n.id FROM notes n WHERE n.id IN (SELECT id FROM notes)";
    assert_eq!(admit_query_text(&one, sql, &ann).unwrap().0, admit_query_text(&other, sql, &ann).unwrap().0);
}

#[test]
fn materialized_tables_hold_their_result() {
    let field = |name: &str, kind: FieldType| ResultField { name: name.to_string(), kind, nullable: true, logical: None };
    let cell = |text: &str| RawCell::Value(json(text));
    let fields = || vec![field("n", FieldType::Int64), field("t", FieldType::Text)];
    let batches = vec![
        ResultBatch { fields: fields(), rows: vec![vec![cell("7"), cell("\"a\"")], vec![cell("5"), cell("null")]] },
        ResultBatch { fields: fields(), rows: vec![vec![cell("6"), cell("\"b\"")]] },
    ];
    let rows = batches_to_rows(&batches).unwrap();
    let table = materialize(&fields(), &batches, "totals").unwrap();
    assert_eq!((table.name.as_str(), table.rows.len(), table.next_row_id, table.rls_enabled), ("totals", 3, 4, false));
    for (i, row) in rows.iter().enumerate() {
        let stored = table.rows.value_at(i);
        assert_eq!((*table.rows.key_at(i), stored.id), (i as u64 + 1, i as u64 + 1));
        assert_eq!(Datum::Object(stored.values.clone()), *row);
    }
    let empty = materialize(&fields(), &vec![], "none").unwrap();
    assert_eq!((empty.columns.len(), empty.columns[0].data_type.as_str(), empty.next_row_id), (2, "bigint", 1));
}

#[test]
fn rows_are_created_before_their_cells() {
    let db = notes();
    let mut later = notes();
    later.execute_sql("INSERT INTO notes VALUES(5,'dan','v',3),(6,'eve',NULL,NULL); UPDATE notes SET body = 'q' WHERE id = 1", &AuthContext::admin()).unwrap();
    let writes = plan(&db, &later).unwrap();
    for (at, write) in writes.iter().enumerate() {
        let new = write.row_id == id(5) || write.row_id == id(6);
        if write.kind == 3 && new {
            assert!(writes[..at].iter().any(|earlier| earlier.kind == 2 && earlier.row_id == write.row_id));
        }
    }
    assert_eq!(writes.iter().filter(|write| write.kind == 2).count(), 2);
    assert_eq!(writes.iter().filter(|write| write.kind == 3).count(), 9);
}

#[test]
fn batches_are_rebuilt_from_their_writes() {
    let admin = AuthContext::admin();
    let mut changes: Vec<Change> = Vec::new();
    let mut state = Database::default();
    for (revision, sql) in [
        "CREATE TABLE notes(id bigint PRIMARY KEY, owner text, body jsonb); INSERT INTO notes VALUES(1,'ann','{\"a\":[1,null]}'::jsonb),(2,'bob',NULL)",
        "ALTER TABLE notes ADD COLUMN weight integer DEFAULT 3; UPDATE notes SET weight = 4 WHERE id = 2; CREATE VIEW seen AS SELECT id FROM notes",
        "DROP VIEW seen; ALTER TABLE notes RENAME COLUMN owner TO author; DELETE FROM notes WHERE id = 1; INSERT INTO notes VALUES(3,'cid',NULL,NULL)",
        "CREATE TABLE tags(id bigint REFERENCES notes(id)); INSERT INTO tags VALUES(3)",
    ].iter().enumerate() {
        let mut next = state.clone();
        next.execute_sql(sql, &admin).unwrap();
        for op in plan(&state, &next).unwrap() {
            changes.push(Change { revision: revision as u64 + 1, kind: op.kind, table: op.table_id, row: op.row_id, column: op.column_id, data: op.data });
        }
        let kept = changes.iter().map(|c| Change { revision: c.revision, kind: c.kind, table: c.table.clone(), row: c.row.clone(), column: c.column.clone(), data: c.data.clone() }).collect();
        let rebuilt = rebuild(&ChainSnapshot { block_number: 2, block_hash: id(0), revision: 9, changes: kept }).unwrap();
        assert_eq!(metadata(&rebuilt), metadata(&next));
        assert_eq!(rebuilt.read_table("notes", &admin).unwrap(), next.read_table("notes", &admin).unwrap());
        state = rebuilt;
    }
    assert_eq!(state.read_table("tags", &admin).unwrap(), vec![json("{\"id\":3}")]);
}

#[test]
fn lists_are_cut_between_outer_commas() {
    let text = " a, b(c, d(e,f)) ,\"g,\\\"h\", ,i";
    let pieces = split(text).unwrap();
    assert_eq!(pieces, vec!["a", "b(c, d(e,f))", "\"g,\\\"h\"", "", "i"]);
    for piece in &pieces {
        assert_eq!(split(piece).unwrap(), vec![piece.clone()]);
    }
    assert_eq!(split("").unwrap(), vec![""]);
    for text in ["a(b", "a)b", "\"a", "a,(\")"] {
        assert_eq!(split(text).unwrap_err().message, "Unbalanced expression");
    }
}

#[test]
fn renaming_replaces_one_name() {
    let expr = parse_expression("a + coalesce(B, \"c\") > abs(A) AND d IS NULL").unwrap();
    let after = rename_expression(&expr, "a", "x y");
    assert!(expression_uses(&expr, "a") && !expression_uses(&after, "a"));
    assert!(!expression_uses(&expr, "x y") && expression_uses(&after, "x y"));
    for name in ["b", "c", "d"] {
        assert!(expression_uses(&expr, name) && expression_uses(&after, name));
    }
    assert!(!expression_uses(&after, "e"));
    assert_eq!(rename_expression(&expr, "e", "f"), expr);
    assert_eq!(expressions(&after).len(), expressions(&expr).len());
}

#[test]
fn expressions_list_their_parts() {
    let parts = expressions(&parse_expression("a + coalesce(b, 1)").unwrap());
    let texts: Vec<String> = parts.iter().map(|part| expr_text(part)).collect();
    assert_eq!(texts, vec!["a + coalesce(b, 1)", "a", "coalesce(b, 1)", "b", "1"]);
    assert!(expressions(&json("{\"Nothing\":1}")).is_empty());
    let admin = AuthContext::admin();
    let mut db = Database::default();
    let refused = db.execute_sql("CREATE TABLE t(a int, b int GENERATED ALWAYS AS (a + (1 + abs(a))) STORED)", &admin).err().unwrap();
    assert_eq!(refused.message, "Generated expressions must be immutable and cannot reference generated columns");
    db.execute_sql("CREATE TABLE t(a int, b int GENERATED ALWAYS AS (a + coalesce(a, 1)) STORED)", &admin).unwrap();
}

#[test]
fn texts_beyond_the_parser_are_syntax_errors() {
    for sql in [
        "SELECT TOP 1.5 1",
        "SELECT DISTINCT TOP 18446744073709551616 a FROM t",
        "CREATE TABLE t(a int) AUTO_INCREMENT = 1.5",
        "EXPLAIN CREATE OR REPLACE TEMPORARY TABLE t(a int) ENGINE = x AUTO_INCREMENT 4294967296",
        "CREATE TABLE t LIKE ; AUTO_INCREMENT = 1.5",
        "GRANT SELECT ON t TO u GRANTED BY 1",
        "REVOKE SELECT ON t FROM u GRANTED BY 1",
    ] {
        let refused = parse_statements(sql).unwrap_err();
        assert_eq!((refused.code.as_str(), refused.message.as_str()), ("SyntaxError", "Malformed clause"), "{sql}");
    }
    for sql in [
        "SELECT TOP 1 a FROM t",
        "CREATE TABLE t(a int) AUTO_INCREMENT = 4294967295",
        "SELECT * FROM t WHERE auto_increment = 5000000000",
        "UPDATE t SET auto_increment = 5000000000",
        "CREATE TABLE t(a int); SELECT * FROM t WHERE auto_increment = 5000000000",
        "SELECT a FROM t WHERE top = 1.5",
        "SHOW granted by",
        "GRANT SELECT ON t TO u GRANTED BY owner",
    ] {
        assert!(parse_statements(sql).is_ok(), "{sql}");
    }
    let mut db = Database::default();
    let admin = AuthContext::admin();
    for sql in ["EXPLAIN CREATE EXTERNAL TABLE t (a int)", "TABLE t"] {
        assert!(db.execute_sql(sql, &admin).is_err(), "{sql}");
    }
    db.execute_sql("CREATE TABLE t(auto_increment bigint); INSERT INTO t VALUES(5000000000); UPDATE t SET auto_increment = auto_increment + 1 WHERE auto_increment = 5000000000", &admin).unwrap();
    assert_eq!(db.read_table("t", &admin).unwrap(), vec![json("{\"auto_increment\":5000000001}")]);
}

#[test]
fn views_keep_the_text_of_their_query() {
    let mut db = Database::default();
    let admin = AuthContext::admin();
    db.execute_sql("CREATE TABLE t(a int, b int)", &admin).unwrap();
    for (name, sql) in [
        ("custom", "SELECT CAST(a AS foo(10,2)) FROM t"),
        ("listed", "SELECT CAST(a AS ENUM('x', 'y')) FROM t"),
        ("chosen", "SELECT CAST(a AS SET('x', 'y')) FROM t"),
        ("operated", "SELECT a OPERATOR(pg_catalog.+) b FROM t"),
        ("timed", "SELECT INTERVAL '5' SECOND (1, 3) FROM t"),
    ] {
        db.execute_sql(&format!("CREATE VIEW {name} AS {sql}"), &admin).unwrap();
        assert_eq!(db.views.find(name).unwrap().sql.to_lowercase().replace(' ', ""), sql.to_lowercase().replace(' ', ""));
    }
    let refused = db.execute_sql("DROP TABLE t", &admin).err().unwrap();
    assert_eq!(refused.code, "DependencyViolation");
}

#[test]
fn trees_that_cannot_be_printed_have_no_text() {
    let interval = |last: &str| json(&format!("{{\"Interval\":{{\"value\":{{\"Value\":{{\"Number\":[\"5\",false]}}}},\"leading_field\":\"Second\",\"leading_precision\":1,\"last_field\":{last},\"fractional_seconds_precision\":3}}}}"));
    assert_eq!(expr_text(&interval("null")), "INTERVAL 5 SECOND (1, 3)");
    assert_eq!(expr_text(&interval("\"Second\"")), "");
    let listed = json("{\"Interval\":[{\"Value\":{\"Number\":[\"5\",false]}},\"Second\",1,\"Second\",3]}");
    assert_eq!(expr_text(&listed), "");
    let named = |style: &str| json(&format!("{{\"Identifier\":{{\"value\":\"a\",\"quote_style\":{style}}}}}"));
    assert_eq!(expr_text(&named("\"'\"")), "'a'");
    assert_eq!(expr_text(&named("\"x\"")), "");
    assert_eq!(expr_text(&json("{\"Identifier\":[\"a\",\"x\"]}")), "");
    let token = |style: &str| json(&format!("{{\"DialectSpecific\":[{{\"Word\":{{\"value\":\"a\",\"quote_style\":{style},\"keyword\":\"NoKeyword\"}}}}]}}"));
    assert_eq!(column_option_text(&token("\"`\"")), "`a`");
    assert_eq!(column_option_text(&token("\"'\"")), "");
}

#[test]
fn marked_objects_are_read_as_what_they_hold() {
    assert_eq!(json_text(&json("{\"$serde_json::private::RawValue\":\"[1]\"}")), "[1]");
    assert!(parse_json("{\"$serde_json::private::RawValue\":\"\"}").is_err());
    assert_eq!(json_text(&json("{\"a\":0,\"$serde_json::private::RawValue\":\"1\"}")), "{\"$serde_json::private::RawValue\":\"1\",\"a\":0}");
}

#[test]
fn calls_change_rows_only() {
    let mut db = guarded();
    let admin = AuthContext::admin();
    db.execute_sql("CREATE FUNCTION tidy(least integer) RETURNS void LANGUAGE sql SECURITY DEFINER AS $$ UPDATE notes SET weight = least WHERE weight IS NULL; DELETE FROM notes WHERE weight < least $$", &admin).unwrap();
    let definitions = metadata(&db);
    db.call_function("tidy", &json("{\"least\":2}"), &AuthContext::authenticated("ann")).unwrap();
    assert_eq!(metadata(&db), definitions);
    assert_eq!(ids(&mut db, "SELECT id FROM notes ORDER BY id"), vec!["1", "2", "4"]);
}
