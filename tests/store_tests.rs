use tinydb::codec::{Row, TABLE_MAX_ROWS};
use tinydb::engine::{
    insert_entry, insert_result, key_for, lookup_result, map_engine_error, EngineError, KeyStore,
    MemoryEngine, StoreError,
};
use tinydb::codec::{encode, ROW_SIZE};
use tinydb::text::u32_to_decimal;
use tinydb::execute::{
    execute_insert, execute_select, execute_statement, render_row, ExecuteResult, Store,
};
use tinydb::parser::{Statement, StatementType};
use tinydb::table::Table;
use tinydb::codec::CodecError;
use tinydb::codec::Field;

fn row(id: u32, u: &str, e: &str) -> Row {
    Row::new(id, u.to_string(), e.to_string())
}

fn insert(id: u32, u: &str, e: &str) -> Statement {
    Statement::new(StatementType::Insert, row(id, u, e))
}

fn select(id: u32) -> Statement {
    let mut r = Row::empty();
    r.id = id;
    Statement::new(StatementType::Select, r)
}

#[test]
fn bounded_store_fills_then_reports_full() {
    let mut store = Store::Bounded(Table::new());
    for i in 0..TABLE_MAX_ROWS {
        let r = execute_statement(insert(i as u32, "u", "e"), &mut store);
        assert!(matches!(r, ExecuteResult::Success(ref v) if v.is_empty()));
    }
    let r = execute_statement(insert(9999, "u", "e"), &mut store);
    assert!(matches!(r, ExecuteResult::TableFull));
    match &store {
        Store::Bounded(t) => {
            assert_eq!(t.num_rows() as usize, TABLE_MAX_ROWS);
            let all = t.select_all();
            assert_eq!(all.len(), TABLE_MAX_ROWS);
            for (i, r) in all.iter().enumerate() {
                assert_eq!(r.id, i as u32);
            }
        }
        Store::Ordered(_) => panic!("wrong store"),
    }
}

#[test]
fn bounded_scan_keeps_order_and_repeats() {
    let mut t = Table::new();
    assert!(t.insert(row(3, "c", "c@x")).is_ok());
    assert!(t.insert(row(1, "a", "a@x")).is_ok());
    assert!(t.insert(row(3, "d", "d@x")).is_ok());
    let first = t.select_all();
    let second = t.select_all();
    let ids: Vec<u32> = first.iter().map(|r| r.id).collect();
    assert_eq!(ids, vec![3, 1, 3]);
    assert_eq!(second.len(), 3);
    assert_eq!(first[2].username, "d");
    let mut store = Store::Bounded(t);
    let all = Statement::new(StatementType::SelectAll, Row::empty());
    match execute_statement(all, &mut store) {
        ExecuteResult::Success(v) => assert_eq!(v.len(), 3),
        other => panic!("unexpected {:?}", other),
    }
}

#[test]
fn insert_then_select_alice() {
    let mut store = Store::Ordered(KeyStore::new());
    let r = execute_statement(insert(1, "alice", "alice@example.com"), &mut store);
    assert!(matches!(r, ExecuteResult::Success(_)));
    match execute_statement(select(1), &mut store) {
        ExecuteResult::Success(v) => {
            assert_eq!(v.len(), 1);
            assert_eq!(v[0].id, 1);
            assert_eq!(v[0].username, "alice");
            assert_eq!(v[0].email, "alice@example.com");
        }
        other => panic!("unexpected {:?}", other),
    }
}

#[test]
fn select_missing_key_is_not_found() {
    let store = KeyStore::new();
    assert!(matches!(execute_select(select(42), &store), ExecuteResult::Failed(StoreError::NotFound)));
    let mut s = Store::Ordered(KeyStore::new());
    assert!(matches!(execute_statement(select(42), &mut s), ExecuteResult::Failed(StoreError::NotFound)));
}

#[test]
fn duplicate_key_is_refused_and_keeps_first() {
    let mut store = Store::Ordered(KeyStore::new());
    assert!(matches!(execute_insert(insert(5, "first", "f@x"), &mut store), ExecuteResult::Success(_)));
    assert!(matches!(
        execute_insert(insert(5, "second", "s@x"), &mut store),
        ExecuteResult::Failed(StoreError::Duplicate)
    ));
    match execute_statement(select(5), &mut store) {
        ExecuteResult::Success(v) => assert_eq!(v[0].username, "first"),
        other => panic!("unexpected {:?}", other),
    }
}

#[test]
fn encoding_error_is_reported() {
    let mut store = Store::Ordered(KeyStore::new());
    let r = execute_insert(insert(1, &"u".repeat(40), "e"), &mut store);
    assert!(matches!(
        r,
        ExecuteResult::Failed(StoreError::Encoding(CodecError::FieldTooLong(Field::Username)))
    ));
    assert!(matches!(execute_statement(select(1), &mut store), ExecuteResult::Failed(StoreError::NotFound)));
}

#[test]
fn keys_are_decimal_text() {
    let mut ks = KeyStore::new();
    assert!(ks.insert(&row(10, "ten", "t@x")).is_ok());
    assert!(ks.insert(&row(1, "one", "o@x")).is_ok());
    assert_eq!(ks.lookup(10).unwrap().username, "ten");
    assert_eq!(ks.lookup(1).unwrap().username, "one");
    assert!(matches!(ks.lookup(100), Err(StoreError::NotFound)));
}

#[test]
fn memory_engine_contract() {
    let mut e = MemoryEngine::new();
    assert_eq!(e.search("1"), Err(EngineError::KeyNotFound));
    assert_eq!(e.insert("1".to_string(), vec![1, 2]), Ok(()));
    assert_eq!(e.insert("1".to_string(), vec![3]), Err(EngineError::DuplicateKey));
    assert_eq!(e.search("1"), Ok(vec![1, 2]));
    assert_eq!(map_engine_error(EngineError::KeyNotFound), StoreError::NotFound);
    assert_eq!(map_engine_error(EngineError::DuplicateKey), StoreError::Duplicate);
    assert_eq!(map_engine_error(EngineError::Io), StoreError::Engine(EngineError::Io));
}

#[test]
fn render_lines() {
    let lines = render_row(&row(1234, "bob", "bob@x.org"));
    assert_eq!(lines, vec!["1234".to_string(), "bob".to_string(), "bob@x.org".to_string()]);
    assert_eq!(render_row(&row(0, "", ""))[0], "0");
}

#[test]
fn engine_answers_map_to_store_results() {
    let (k, v) = insert_entry(&row(12, "al", "al@x")).unwrap();
    assert_eq!(k, "12");
    assert_eq!(v.len(), ROW_SIZE);
    assert!(matches!(
        insert_entry(&row(1, "a", &"e".repeat(300))),
        Err(StoreError::Encoding(CodecError::FieldTooLong(Field::Email)))
    ));
    assert_eq!(insert_result(Ok(())), Ok(()));
    assert_eq!(insert_result(Err(EngineError::DuplicateKey)), Err(StoreError::Duplicate));
    assert_eq!(insert_result(Err(EngineError::Io)), Err(StoreError::Engine(EngineError::Io)));
    let r = lookup_result(Ok(v)).unwrap();
    assert_eq!((r.id, r.username.as_str(), r.email.as_str()), (12, "al", "al@x"));
    assert!(matches!(lookup_result(Err(EngineError::KeyNotFound)), Err(StoreError::NotFound)));
    assert!(matches!(lookup_result(Err(EngineError::Io)), Err(StoreError::Engine(EngineError::Io))));
    assert!(matches!(
        lookup_result(Ok(vec![1, 2, 3])),
        Err(StoreError::Encoding(CodecError::WrongLength))
    ));
    let mut bad = encode(&row(1, "a", "b")).unwrap();
    bad[4] = 0xc3;
    assert!(matches!(
        lookup_result(Ok(bad)),
        Err(StoreError::Encoding(CodecError::InvalidUtf8(Field::Username)))
    ));
}

#[test]
fn decimal_keys() {
    assert_eq!(key_for(0), "0");
    assert_eq!(key_for(7), "7");
    assert_eq!(key_for(10), "10");
    assert_eq!(key_for(u32::MAX), "4294967295");
    assert_eq!(u32_to_decimal(1200), "1200");
}
