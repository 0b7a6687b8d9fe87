use kurabase::api::ApiError;
use kurabase::ast::parse_json;
use kurabase::auth::{hex, Auth, Envelope, SessionPayload};
use kurabase::cache::{advance, awaited, begin, cache_key, command, refresh, renew, supply, Cache, Command};
use kurabase::catalog::{AuthContext, Database, Table};
use kurabase::chain::{is_privileged, key, Word};
use kurabase::error::err;
use kurabase::gateway::{
    access, authority, belongs, check_version, commit, keys_differ, read_params, read_view, rpc, rpc_reply, table, table_reply,
    write_range, Access, Commit, RpcRequest, TableRequest,
};
use kurabase::json::Datum;
use kurabase::ordmap::OrdMap;
use kurabase::views::View;

fn json(text: &str) -> Datum {
    parse_json(text).unwrap()
}

fn posts() -> Database {
    let mut db = Database::default();
    db.execute_sql("CREATE TABLE posts(id bigint PRIMARY KEY, title text NOT NULL); INSERT INTO posts VALUES(1,'a'),(2,'b'),(3,'c'); CREATE FUNCTION add_one(n bigint) RETURNS bigint LANGUAGE sql AS $$ SELECT n + 1 $$; CREATE FUNCTION get_posts(minimum bigint DEFAULT 1) RETURNS TABLE(id bigint,title text) LANGUAGE sql STABLE AS $$ SELECT id,title FROM posts WHERE id >= minimum ORDER BY id $$; CREATE FUNCTION all_posts() RETURNS SETOF posts LANGUAGE sql AS $$ SELECT * FROM posts $$; CREATE FUNCTION drop_post(n bigint) RETURNS void LANGUAGE sql AS $$ DELETE FROM posts WHERE id = n $$", &AuthContext::admin()).unwrap();
    db
}

fn request(method: &str, query: &str, body: &str, prefer: &str, accept: &str, range: &str) -> TableRequest {
    TableRequest {
        name: "posts".to_string(),
        method: method.to_string(),
        params: read_params(query),
        body: body.as_bytes().to_vec(),
        prefer: prefer.to_string(),
        accept: accept.to_string(),
        range: range.to_string(),
    }
}

fn payload() -> SessionPayload {
    let mut user_word: Word = vec![0; 12];
    user_word.extend(vec![0xab; 20]);
    SessionPayload {
        gateway: vec![0x11; 20],
        user: vec![0xab; 20],
        uid: user_word,
        claims_hash: vec![0; 32],
        expires_at: "1700000000".to_string(),
        nonce: "0x10".to_string(),
        gateway_epoch: "0".to_string(),
    }
}

fn envelope() -> Envelope {
    Envelope { session: payload(), signature: vec![1, 2, 3], claims: Datum::Null }
}

#[test]
fn query_strings_are_decoded() {
    assert_eq!(read_params("a=1&b=x%20y+z&a=%C3%A9"), vec![("a".to_string(), "1".to_string()), ("b".to_string(), "x y z".to_string()), ("a".to_string(), "\u{e9}".to_string())]);
    assert!(read_params("").is_empty());
}

#[test]
fn reads_filter_page_and_count() {
    let db = posts();
    let admin = AuthContext::admin();
    let get = request("GET", "id=gte.2&order=id.desc&select=id", "", "count=exact", "", "");
    let answer = table(&db, &get, &admin).unwrap();
    assert_eq!(answer.rows, vec![json("{\"id\":3}"), json("{\"id\":2}")]);
    let reply = table_reply(&get, &answer);
    assert_eq!((reply.status, reply.content_range.as_str()), (200, "0-1/2"));
    assert_eq!(reply.body, Some(json("[{\"id\":3},{\"id\":2}]")));
    assert_eq!(answer.staged, db);
    let paged = request("GET", "order=id&limit=1&offset=1", "", "", "", "");
    let answer = table(&db, &paged, &admin).unwrap();
    assert_eq!(answer.rows.len(), 1);
    assert_eq!(answer.total, 3);
    assert_eq!(table_reply(&paged, &answer).content_range, "1-1/*");
    let ranged = request("GET", "order=id", "", "count=exact", "", "items=1-5");
    let answer = table(&db, &ranged, &admin).unwrap();
    assert_eq!(table_reply(&ranged, &answer).content_range, "1-2/3");
    let beyond = request("HEAD", "order=id", "", "", "", "7-");
    let answer = table(&db, &beyond, &admin).unwrap();
    let reply = table_reply(&beyond, &answer);
    assert_eq!((reply.body, reply.content_range.as_str()), (None, "*/*"));
}

#[test]
fn table_mistakes_are_named() {
    let db = posts();
    let admin = AuthContext::admin();
    let message = |request: TableRequest| table(&db, &request, &admin).err().unwrap().message;
    assert_eq!(message(request("GET", "limit=x", "", "", "", "")), "Invalid limit");
    assert_eq!(message(request("GET", "offset=-1", "", "", "", "")), "Invalid offset");
    assert_eq!(message(request("GET", "", "", "", "", "5")), "Invalid range");
    assert_eq!(message(request("GET", "", "", "", "", "x-2")), "Invalid range start");
    assert_eq!(message(request("GET", "", "", "", "", "1-x")), "Invalid range end");
    assert_eq!(message(request("GET", "", "", "", "", "3-1")), "Invalid range bounds");
    assert_eq!(message(request("POST", "", "{", "", "", "")), "Invalid JSON body");
    let mut unknown = request("GET", "", "", "", "", "");
    unknown.name = "nothing".to_string();
    assert_eq!(message(unknown), "Unknown table nothing");
    let single = request("GET", "", "", "", "application/vnd.pgrst.object+json", "");
    let error = table(&db, &single, &admin).err().unwrap();
    assert_eq!((error.status, error.code.as_str()), (406, "PGRST116"));
    assert!(error.message.contains("3 rows"));
    let duplicate = request("POST", "", "{\"id\":1,\"title\":\"x\"}", "", "", "");
    assert_eq!(table(&db, &duplicate, &admin).err().unwrap().status, 409);
}

#[test]
fn writes_are_staged_and_answered() {
    let db = posts();
    let admin = AuthContext::admin();
    let post = request("POST", "", "{\"id\":4,\"title\":\"d\"}", "return=representation", "application/vnd.pgrst.object+json", "");
    let answer = table(&db, &post, &admin).unwrap();
    assert_eq!(answer.staged.table("posts").unwrap().rows.len(), 4);
    assert_eq!(db.table("posts").unwrap().rows.len(), 3);
    let reply = table_reply(&post, &answer);
    assert_eq!((reply.status, reply.body), (201, Some(json("{\"id\":4,\"title\":\"d\"}"))));
    let delete = request("DELETE", "id=eq.1", "", "", "", "");
    let answer = table(&db, &delete, &admin).unwrap();
    let reply = table_reply(&delete, &answer);
    assert_eq!((reply.status, reply.body), (204, None));
    let patch = request("PATCH", "id=eq.1", "{\"title\":\"z\"}", "return=representation", "", "");
    let answer = table(&db, &patch, &admin).unwrap();
    assert_eq!(table_reply(&patch, &answer).status, 200);
    assert_eq!(read_view("a\"b").unwrap(), "SELECT * FROM \"a\"\"b\"");
    assert_eq!(write_range(usize::MAX, 2, 0, ""), format!("{}-{}/*", usize::MAX, usize::MAX as u128 + 1));
}

fn call(name: &str, method: &str, query: &str, body: &str, accept: &str) -> RpcRequest {
    RpcRequest {
        name: name.to_string(),
        method: method.to_string(),
        params: read_params(query),
        body: body.as_bytes().to_vec(),
        prefer: "count=exact".to_string(),
        accept: accept.to_string(),
    }
}

#[test]
fn calls_take_arguments_and_filter_results() {
    let db = posts();
    let admin = AuthContext::admin();
    let get = call("add_one", "GET", "n=41", "", "");
    let answer = rpc(&db, &get, &admin).unwrap();
    assert_eq!(rpc_reply(&get, &answer).body, Some(json("42")));
    let post = call("add_one", "POST", "", "{\"n\":1}", "");
    assert_eq!(rpc_reply(&post, &rpc(&db, &post, &admin).unwrap()).body, Some(json("2")));
    let rows = call("get_posts", "GET", "minimum=2&select=title&order=id.desc&limit=1", "", "");
    let answer = rpc(&db, &rows, &admin).unwrap();
    assert_eq!(answer.rows, vec![json("{\"title\":\"c\"}")]);
    assert_eq!(rpc_reply(&rows, &answer).content_range, "0-0/2");
    let all = call("all_posts", "HEAD", "id=eq.2", "", "");
    let answer = rpc(&db, &all, &admin).unwrap();
    assert_eq!(answer.rows, vec![json("{\"id\":2,\"title\":\"b\"}")]);
    assert_eq!(rpc_reply(&all, &answer).body, None);
}

#[test]
fn call_mistakes_are_named() {
    let db = posts();
    let admin = AuthContext::admin();
    let message = |request: RpcRequest| rpc(&db, &request, &admin).err().unwrap().message;
    assert_eq!(message(call("nothing", "GET", "", "", "")), "Unknown function nothing");
    assert_eq!(message(call("add_one", "PUT", "", "", "")), "RPC supports GET, HEAD and POST");
    assert_eq!(message(call("add_one", "POST", "", "{", "")), "Invalid RPC JSON");
    assert_eq!(message(call("add_one", "GET", "n=x", "", "")), "Invalid RPC parameter type");
    assert_eq!(message(call("add_one", "GET", "n=1&other=eq.2", "", "")), "Scalar RPC does not support relation filters");
    assert_eq!(message(call("drop_post", "GET", "n=1", "", "")), "Mutating RPC requires POST");
    assert_eq!(message(call("get_posts", "GET", "limit=x", "", "")), "Invalid limit");
    assert_eq!(message(call("get_posts", "GET", "", "", "application/vnd.pgrst.object+json")), "Result contains 3 rows");
    let done = rpc(&db, &call("drop_post", "POST", "", "{\"n\":1}", ""), &admin).unwrap();
    assert_eq!(done.staged.table("posts").unwrap().rows.len(), 2);
}

#[test]
fn project_keys_decide_access() {
    let refused = |result: Result<Access, ApiError>| result.err().unwrap().message;
    assert_eq!(refused(access("x", "", "pub", "sec", false)), "Invalid project key");
    assert!(matches!(access("sec", "", "pub", "sec", true), Ok(Access::Administrator)));
    assert!(matches!(access("sec", "Bearer sec", "pub", "sec", false), Ok(Access::Administrator)));
    assert_eq!(refused(access("pub", "", "pub", "sec", true)), "Administrative endpoint requires the project secret key");
    assert!(matches!(access("pub", "Basic x", "pub", "sec", false), Ok(Access::Anonymous)));
    assert!(matches!(access("pub", "Bearer pub", "pub", "sec", false), Ok(Access::Anonymous)));
    assert_eq!(refused(access("pub", "Bearer other", "pub", "sec", false)), "Expected signed Kurabase session");
    assert!(keys_differ("pub", "sec"));
    assert!(!keys_differ("pub", "pub"));
    assert!(!keys_differ("", "sec"));
    assert!(authority(Access::Administrator, true).unwrap().context.privileged);
    assert_eq!(authority(Access::Administrator, false).err().unwrap().message, "Gateway privileged delegation is absent or revoked");
    assert_eq!(authority(Access::Anonymous, false).unwrap().context, AuthContext::default());
    assert!(is_privileged(true, false, false, false) && is_privileged(false, false, true, true));
    assert!(!is_privileged(false, false, true, false));
}

#[test]
fn tokens_read_back() {
    let envelope = envelope();
    let token = envelope.token().unwrap();
    assert!(token.starts_with("kura."));
    assert_eq!(Envelope::decode(&token).unwrap(), envelope);
    assert_eq!(Envelope::decode("kura.***").err().unwrap().message, "Malformed session token");
    assert_eq!(Envelope::decode("kura.e30").err().unwrap().message, "Malformed session envelope");
    let Ok(Access::Signed(read)) = access("pub", &format!("Bearer {token}"), "pub", "sec", false) else { panic!("no session") };
    let auth = authority(Access::Signed(read), true).unwrap();
    assert_eq!(auth.context.uid, Some(hex(&vec![0xab; 20])));
    assert_eq!(auth.context.role, "authenticated");
}

#[test]
fn claims_are_checked_against_the_signature() {
    assert_eq!(envelope().verify(false).err().unwrap().message, "Session invalid, expired, revoked, or gateway not delegated");
    let mut unattested = envelope();
    unattested.claims = json("{\"sub\":\"me\"}");
    assert_eq!(unattested.verify(true).err().unwrap().message, "Unattested JWT claims");
    unattested.session.claims_hash = key("something");
    assert_eq!(unattested.verify(true).err().unwrap().message, "Claims do not match signed hash");
    let mut signed = unattested;
    signed.session.claims_hash = key("{\"sub\":\"me\"}");
    assert_eq!(signed.verify(true).err().unwrap().message, "Application subject does not match signed uid");
    signed.session.uid = key("me");
    let context = signed.verify(true).unwrap();
    assert_eq!(context.uid, Some("me".to_string()));
    assert!(!context.privileged);
    for (claims, expected) in [("{\"role\":\"anon\"}", Some("anon")), ("{\"role\":\"authenticated\"}", Some("authenticated")), ("{\"role\":\"service_role\"}", None)] {
        let mut roled = envelope();
        roled.claims = json(claims);
        roled.session.claims_hash = key(claims);
        match expected {
            Some(role) => assert_eq!(roled.verify(true).unwrap().role, role),
            None => assert_eq!(roled.verify(true).err().unwrap().message, "User sessions cannot claim administrative roles"),
        }
    }
    let mut other = envelope();
    other.session.uid = vec![7; 32];
    assert_eq!(other.verify(true).unwrap().uid, Some(format!("0x{}", "07".repeat(32))));
    let mut broken = envelope();
    broken.session.nonce = "ten".to_string();
    assert_eq!(broken.verify(true).err().unwrap().message, "Invalid session integer");
}

#[test]
fn commits_need_authority() {
    let anonymous = Auth { context: AuthContext::default(), envelope: None };
    assert!(matches!(commit(0, &anonymous), Ok(Commit::Nothing)));
    assert_eq!(commit(1, &anonymous).err().unwrap().message, "Writes require an independently signed user session");
    let admin = Auth { context: AuthContext::admin(), envelope: None };
    assert!(matches!(commit(1, &admin), Ok(Commit::Privileged)));
    let user = Auth { context: AuthContext::authenticated("me"), envelope: Some(envelope()) };
    match commit(1, &user).unwrap() {
        Commit::Signed(session, signature) => {
            assert_eq!(session.nonce[31], 16);
            assert_eq!(session.expires_at.len(), 32);
            assert_eq!(signature, vec![1, 2, 3]);
            assert!(belongs(&session, &vec![0x11; 20]));
            assert!(!belongs(&session, &vec![0x12; 20]));
        }
        _ => panic!("not signed"),
    }
}

#[test]
fn failures_have_statuses() {
    let status = |code: &str| ApiError::of(err(code, "m")).status;
    assert_eq!((status("RlsViolation"), status("PrivilegeError"), status("ConstraintViolation"), status("TypeError")), (403, 403, 409, 400));
    assert_eq!((ApiError::internal().status, ApiError::chain().status, ApiError::unauthorized("m").status, ApiError::invalid("m").status), (500, 409, 401, 400));
    assert!(check_version("20240101").is_ok());
    assert!(check_version("").is_err());
    assert!(check_version("v1").is_err());
}

fn built(name: &str) -> Table {
    let mut db = Database::default();
    db.execute_sql(&format!("CREATE TABLE {name}(id bigint)"), &AuthContext::admin()).unwrap();
    db.table(name).unwrap().clone()
}

#[test]
fn materialized_views_are_built_in_order_and_kept() {
    let mut db = posts();
    db.views.insert("base".to_string(), View { sql: "SELECT id FROM posts".to_string(), materialized: true });
    db.views.insert("plain".to_string(), View { sql: "SELECT id FROM base".to_string(), materialized: false });
    db.views.insert("top".to_string(), View { sql: "SELECT id FROM plain".to_string(), materialized: true });
    let admin = AuthContext::admin();
    let mut cache: Cache = OrdMap::new();
    let mut prepared = advance(&db, begin(&db, "SELECT * FROM top").unwrap(), &admin, &cache);
    let mut order = Vec::new();
    while let Some((name, sql)) = awaited(&db, &prepared) {
        assert!(sql.starts_with("SELECT id FROM"));
        order.push(name.clone());
        supply(&mut cache, &db, &name, &admin, built(&name));
        prepared = advance(&db, prepared, &admin, &cache);
    }
    assert_eq!(order, vec!["base", "top"]);
    assert!(prepared.database.catalog.holds("top") && !prepared.database.views.holds("top"));
    assert!(prepared.database.views.holds("plain"));
    let again = advance(&db, begin(&db, "SELECT * FROM top").unwrap(), &admin, &cache);
    assert!(awaited(&db, &again).is_none());
    let other = advance(&db, begin(&db, "SELECT * FROM top").unwrap(), &AuthContext::default(), &cache);
    assert!(awaited(&db, &other).is_some());
    assert_ne!(cache_key("top", "x", &admin, 1), cache_key("top", "x", &admin, 2));
    assert!(cache_key("top", "x", &admin, 1).starts_with("top:0x"));
    db.views.insert("looped".to_string(), View { sql: "SELECT * FROM looped".to_string(), materialized: true });
    assert_eq!(begin(&db, "SELECT * FROM looped").err().unwrap().message, "Cyclic or deeply nested view");
    assert_eq!(begin(&db, "SELEC").err().unwrap().message, "Invalid view definition");
}

#[test]
fn refresh_rebuilds_for_everyone() {
    let mut db = posts();
    db.views.insert("base".to_string(), View { sql: "SELECT id FROM posts".to_string(), materialized: true });
    let admin = AuthContext::admin();
    let alice = AuthContext::authenticated("alice");
    let mut cache: Cache = OrdMap::new();
    let name = "base".to_string();
    supply(&mut cache, &db, &name, &alice, built("base"));
    let list = refresh(&db, &name, &admin, &cache).unwrap();
    assert_eq!(list.iter().map(|item| item.context.role.as_str()).collect::<Vec<_>>(), vec!["authenticated", "service_role"]);
    for item in list {
        renew(&mut cache, &db, &name, item, built("renewed"));
    }
    assert_eq!(cache.len(), 2);
    assert_eq!(cache.value_at(0).table.name, "renewed");
    assert_eq!(refresh(&db, &"posts".to_string(), &admin, &cache).err().unwrap().message, "Unknown materialized view");
}

#[test]
fn statements_go_to_their_engine() {
    let admin = AuthContext::admin();
    assert_eq!(command("refresh /* c */ materialized view Public.\"Top\";", &admin).unwrap(), Command::Refresh("Top".to_string()));
    assert_eq!(command("REFRESH MATERIALIZED VIEW Top", &admin).unwrap(), Command::Refresh("top".to_string()));
    assert_eq!(command("REFRESH VIEW top", &admin).err().unwrap().message, "Expected REFRESH MATERIALIZED VIEW name");
    assert_eq!(command("REFRESH MATERIALIZED VIEW CONCURRENTLY top", &admin).err().unwrap().message, "Refresh requires one local view name; CONCURRENTLY is unsupported");
    assert_eq!(command("REFRESH MATERIALIZED VIEW top", &AuthContext::default()).err().unwrap().status, 401);
    assert_eq!(command("WITH a AS (SELECT 1) SELECT * FROM a", &admin).unwrap(), Command::Query);
    assert_eq!(command("SELECT 1; SELECT 2", &admin).unwrap(), Command::Core);
    assert_eq!(command("INSERT INTO a VALUES(1)", &admin).unwrap(), Command::Core);
    assert_eq!(command("not sql at all (", &admin).unwrap(), Command::Core);
}
