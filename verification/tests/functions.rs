use kurabase::encode::write_database;
use kurabase::decode::read_database;
use kurabase::ast::parse_json;
use kurabase::catalog::{AuthContext, Database, FunctionReturn};
use kurabase::json::{Datum, Number};

fn json(text: &str) -> Datum {
    parse_json(text).unwrap()
}

#[test]
fn scalar_table_and_nested_sql_functions() {
    let mut db = Database::default();
    let admin = AuthContext::admin();
    db.execute_sql("CREATE TABLE posts(id bigint PRIMARY KEY,title text NOT NULL); INSERT INTO posts VALUES(1,'first'),(2,'second'); CREATE FUNCTION add_one(n bigint) RETURNS bigint LANGUAGE sql AS $$ SELECT n + 1 $$; CREATE FUNCTION nested(n bigint) RETURNS bigint LANGUAGE sql AS $$ SELECT add_one(n) $$; CREATE FUNCTION get_posts(minimum bigint DEFAULT 1) RETURNS TABLE(id bigint,title text) LANGUAGE sql STABLE AS $$ SELECT id,title FROM posts WHERE id >= minimum ORDER BY id $$", &admin).unwrap();
    let forty_two = Datum::Number(Number::Int(42));
    assert_eq!(db.call_function("add_one", &json(r#"{"n":41}"#), &admin).unwrap().rows, vec![forty_two.clone()]);
    assert_eq!(db.call_function("nested", &json(r#"{"n":41}"#), &admin).unwrap().rows, vec![forty_two]);
    assert_eq!(db.call_function("get_posts", &json(r#"{"minimum":2}"#), &admin).unwrap().rows, vec![json(r#"{"id":2,"title":"second"}"#)]);
    assert_eq!(db.call_function("get_posts", &json("{}"), &admin).unwrap().rows.len(), 2);
    assert!(db.call_function("add_one", &json(r#"{"n":"41"}"#), &admin).is_err());
    assert!(matches!(db.functions.find("get_posts").unwrap().return_kind, FunctionReturn::Table(_)));
}

#[test]
fn mutating_rpc_atomicity_and_safe_parameter_binding() {
    let mut db = Database::default();
    let admin = AuthContext::admin();
    db.execute_sql("CREATE TABLE posts(id bigint PRIMARY KEY,title text NOT NULL); CREATE FUNCTION add_post(p_id bigint,p_title text) RETURNS SETOF posts LANGUAGE sql AS $$ INSERT INTO posts VALUES(p_id,p_title) RETURNING * $$; CREATE FUNCTION fail_post(p_id bigint) RETURNS void LANGUAGE sql AS $$ INSERT INTO posts VALUES(p_id,'first'); INSERT INTO posts VALUES(p_id,'duplicate') $$", &admin).unwrap();
    let rows = db.call_function("add_post", &json(r#"{"p_id":1,"p_title":"'; DROP TABLE posts; --"}"#), &admin).unwrap().rows;
    assert_eq!(rows, vec![json(r#"{"id":1,"title":"'; DROP TABLE posts; --"}"#)]);
    let before = db.clone();
    assert_eq!(db.call_function("fail_post", &json(r#"{"p_id":2}"#), &admin).unwrap_err().code, "ConstraintViolation");
    assert_eq!(db, before);
}

#[test]
fn invoker_rls_and_explicit_definer_authority() {
    let mut db = Database::default();
    let admin = AuthContext::admin();
    let anon = AuthContext::default();
    db.execute_sql("CREATE TABLE posts(id bigint PRIMARY KEY,title text NOT NULL); ALTER TABLE posts ENABLE ROW LEVEL SECURITY; CREATE FUNCTION add_invoker(p_id bigint) RETURNS void LANGUAGE sql SECURITY INVOKER AS $$ INSERT INTO posts VALUES(p_id,'invoker') $$; CREATE FUNCTION add_definer(p_id bigint) RETURNS void LANGUAGE sql SECURITY DEFINER AS $$ INSERT INTO posts VALUES(p_id,'definer') $$", &admin).unwrap();
    assert_eq!(db.call_function("add_invoker", &json(r#"{"p_id":1}"#), &anon).unwrap_err().code, "RlsViolation");
    db.call_function("add_definer", &json(r#"{"p_id":2}"#), &anon).unwrap();
    assert_eq!(db.read_table("posts", &admin).unwrap().len(), 1);
    assert!(db.execute_sql("CREATE FUNCTION forged() RETURNS int LANGUAGE sql SECURITY DEFINER AS $$ SELECT 1 $$", &anon).is_err());
    let mut forged = db.functions.find("add_definer").unwrap().clone();
    forged.definer_context = None;
    db.functions.insert("add_definer".to_string(), forged);
    assert_eq!(db.call_function("add_definer", &json(r#"{"p_id":3}"#), &anon).unwrap_err().code, "PrivilegeError");
}

#[test]
fn views_are_catalog_metadata_and_indexes_are_noops() {
    let mut db = Database::default();
    let admin = AuthContext::admin();
    db.execute_sql("CREATE TABLE posts(id bigint PRIMARY KEY); CREATE VIEW latest AS SELECT id FROM posts; CREATE MATERIALIZED VIEW cached AS SELECT id FROM posts", &admin).unwrap();
    assert!(!db.views.find("latest").unwrap().materialized);
    assert!(db.views.find("cached").unwrap().materialized);
    let before = db.clone();
    db.execute_sql("CREATE INDEX post_ids ON posts(id)", &admin).unwrap();
    assert_eq!(before, db);
    db.execute_sql("DROP VIEW latest", &admin).unwrap();
    assert!(!db.views.holds("latest"));
    assert_eq!(read_database(&write_database(&db)).unwrap(), db);
}
