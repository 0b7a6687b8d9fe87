use kurabase::ast::parse_json;
use kurabase::catalog::{AuthContext, Column, Database};
use kurabase::chain::{id, key, number, operation, ChainSnapshot, Change, Operation};
use kurabase::json::Datum;
use kurabase::projection::{decode, encode, metadata, plan, rebuild, ReplayError, CATALOG_KEY};

fn json(text: &str) -> Datum {
    parse_json(text).unwrap()
}

fn change(revision: u64, op: Operation) -> Change {
    Change { revision, kind: op.kind, table: op.table_id, row: op.row_id, column: op.column_id, data: op.data }
}

fn snapshot(changes: Vec<Change>) -> ChainSnapshot {
    ChainSnapshot { block_number: 2, block_hash: id(0), revision: 2, changes }
}

fn column(data_type: &str) -> Column {
    Column {
        id: 7,
        name: "value".to_string(),
        data_type: data_type.to_string(),
        nullable: true,
        default: None,
        identity: None,
        generated: None,
    }
}

fn posts() -> Database {
    let mut db = Database::default();
    db.execute_sql("CREATE TABLE posts(id integer PRIMARY KEY, title text, meta jsonb); INSERT INTO posts VALUES (1, 'hello', '{\"b\":[1,null],\"a\":true}'::jsonb), (2, NULL, NULL);", &AuthContext::admin()).unwrap();
    db
}

#[test]
fn cell_replay_preserves_data_and_deleted_allocator() {
    let mut db = Database::default();
    db.execute_sql("CREATE TABLE posts(id integer PRIMARY KEY, title text); INSERT INTO posts VALUES (1, 'hello');", &AuthContext::admin()).unwrap();
    let mut deleted = db.clone();
    deleted.execute_sql("DELETE FROM posts", &AuthContext::admin()).unwrap();
    let mut events = Vec::new();
    for (revision, (before, after)) in [(1, (Database::default(), db.clone())), (2, (db.clone(), deleted))] {
        for op in plan(&before, &after).unwrap() {
            events.push(change(revision, op));
        }
    }
    let restored = rebuild(&snapshot(events)).unwrap();
    assert_eq!(restored.table("posts").unwrap().rows.len(), 0);
    assert_eq!(restored.table("posts").unwrap().next_row_id, 2);
}

#[test]
fn replay_restores_values_and_definitions() {
    let db = posts();
    let mut later = db.clone();
    later.execute_sql("UPDATE posts SET title='changed' WHERE id=1; ALTER TABLE posts RENAME COLUMN title TO body; INSERT INTO posts VALUES (3,'new',NULL); DELETE FROM posts WHERE id=2; CREATE VIEW titles AS SELECT body FROM posts", &AuthContext::admin()).unwrap();
    let mut events = Vec::new();
    for (revision, before, after) in [(1, &Database::default(), &db), (2, &db, &later)] {
        for op in plan(before, after).unwrap() {
            events.push(change(revision, op));
        }
    }
    let restored = rebuild(&snapshot(events)).unwrap();
    assert_eq!(metadata(&restored), metadata(&later));
    let admin = AuthContext::admin();
    assert_eq!(restored.read_table("posts", &admin).unwrap(), later.read_table("posts", &admin).unwrap());
    assert_eq!(restored.table("posts").unwrap().rows.value_at(0).version, 2);
}

#[test]
fn equal_states_need_no_writes() {
    let db = posts();
    assert!(plan(&db, &db.clone()).unwrap().is_empty());
}

#[test]
fn plans_write_only_what_changed() {
    let db = posts();
    let mut later = db.clone();
    later.execute_sql("UPDATE posts SET title='x' WHERE id=1", &AuthContext::admin()).unwrap();
    let ops = plan(&db, &later).unwrap();
    assert_eq!(ops.len(), 1);
    let table = db.table("posts").unwrap();
    assert_eq!(ops[0], operation(3, id(table.id), id(1), id(table.columns[1].id), b"{\"version\":1,\"sql_type\":\"text\",\"value\":\"x\"}".to_vec()));
    let mut migrated = db.clone();
    migrated.apply_migration("20240101", "DELETE FROM posts WHERE id=2", &AuthContext::admin()).unwrap();
    let ops = plan(&db, &migrated).unwrap();
    assert_eq!(ops.iter().map(|op| op.kind).collect::<Vec<_>>(), vec![0, 5, 6]);
    assert_eq!(ops[0].column_id, key(CATALOG_KEY));
    assert_eq!(ops[2].data, b"20240101".to_vec());
    assert_eq!(ops[2].column_id, key("20240101"));
}

#[test]
fn cells_have_a_fixed_text_and_read_back() {
    let text = column("jsonb");
    let value = json("{\"z\":1,\"a\":[\"\\u00e9\",null,2.5]}");
    let bytes = encode(&text, &value);
    assert_eq!(String::from_utf8(bytes.clone()).unwrap(), "{\"version\":1,\"sql_type\":\"jsonb\",\"value\":{\"a\":[\"\u{e9}\",null,2.5],\"z\":1}}");
    assert_eq!(decode(&text, &bytes).unwrap(), value);
    assert_eq!(decode(&column("text"), &bytes).unwrap_err(), ReplayError::CellForm);
    assert_eq!(decode(&text, &b"{\"version\":2,\"sql_type\":\"jsonb\",\"value\":1}".to_vec()).unwrap_err(), ReplayError::CellForm);
    assert_eq!(decode(&text, &b"{\"version\":256,\"sql_type\":\"jsonb\",\"value\":1}".to_vec()).unwrap_err(), ReplayError::Document);
    assert_eq!(decode(&text, &b"{\"version\":1,\"sql_type\":\"jsonb\"}".to_vec()).unwrap_err(), ReplayError::Document);
    assert_eq!(decode(&text, &vec![0xff, 0xfe]).unwrap_err(), ReplayError::Document);
}

#[test]
fn malformed_changes_are_refused() {
    let huge = vec![0xffu8; 32];
    let bad_row = change(1, operation(2, id(1), huge.clone(), id(0), vec![]));
    assert_eq!(rebuild(&snapshot(vec![bad_row])).unwrap_err(), ReplayError::Number);
    let orphan = change(1, operation(3, id(1), id(1), id(1), vec![]));
    assert_eq!(rebuild(&snapshot(vec![orphan])).unwrap_err(), ReplayError::NoRow);
    let broken = change(1, operation(0, id(0), id(0), key(CATALOG_KEY), b"{".to_vec()));
    assert_eq!(rebuild(&snapshot(vec![broken])).unwrap_err(), ReplayError::Document);
    let last = change(1, operation(2, id(1), id(u64::MAX), id(0), vec![]));
    assert_eq!(rebuild(&snapshot(vec![last])).unwrap_err(), ReplayError::Exhausted);
    let other = change(1, operation(0, id(0), id(0), key("something else"), b"{".to_vec()));
    assert_eq!(rebuild(&snapshot(vec![other])).unwrap(), Database::default());
}

#[test]
fn cleared_cells_read_as_null() {
    let db = posts();
    let table = db.table("posts").unwrap();
    let mut events: Vec<Change> = plan(&Database::default(), &db).unwrap().into_iter().map(|op| change(1, op)).collect();
    events.push(change(2, operation(4, id(table.id), id(1), id(table.columns[1].id), vec![])));
    let restored = rebuild(&snapshot(events)).unwrap();
    let row = restored.table("posts").unwrap().rows.value_at(0);
    assert_eq!(row.version, 2);
    assert!(row.values.find("title").unwrap().is_null());
}

#[test]
fn words_are_big_endian() {
    let word = id(0x0102_0304_0506_0708);
    assert_eq!(word.len(), 32);
    assert_eq!(&word[24..], &[1, 2, 3, 4, 5, 6, 7, 8]);
    assert!(word[..24].iter().all(|byte| *byte == 0));
    assert_eq!(number(&word), Some(0x0102_0304_0506_0708));
    assert_eq!(number(&vec![0xff; 32]), None);
    assert_eq!(number(&id(u64::MAX)), Some(u64::MAX));
}

#[test]
fn keys_are_keccak_hashes() {
    let empty = key("");
    assert_eq!(&empty[..4], &[0xc5, 0xd2, 0x46, 0x01]);
    assert_eq!(&key("hello")[..4], &[0x1c, 0x8a, 0xff, 0x95]);
}
