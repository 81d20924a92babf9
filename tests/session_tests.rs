use tinydb::engine::{KeyStore, StoreError};
use tinydb::execute::{ExecuteResult, LineOutcome, Session, SessionState, Store};
use tinydb::parser::PrepareResult;
use tinydb::table::Table;

#[test]
fn exit_ends_session_and_later_lines_are_ignored() {
    let mut s = Session::new(Store::Ordered(KeyStore::new()));
    assert!(matches!(s.handle_line("insert 1 a a@x"), LineOutcome::Executed(ExecuteResult::Success(_))));
    assert!(matches!(s.handle_line(".exit"), LineOutcome::Exited));
    assert_eq!(s.state, SessionState::Exited);
    assert!(matches!(s.handle_line("insert 2 b b@x"), LineOutcome::Ignored));
    assert!(matches!(s.handle_line(".exit"), LineOutcome::Ignored));
    assert_eq!(s.state, SessionState::Exited);
    match &s.store {
        Store::Ordered(k) => assert!(matches!(k.lookup(2), Err(StoreError::NotFound))),
        Store::Bounded(_) => panic!("wrong store"),
    }
}

#[test]
fn session_reports_parse_errors_and_continues() {
    let mut s = Session::new(Store::Bounded(Table::new()));
    assert!(matches!(s.handle_line(".help"), LineOutcome::Rejected(PrepareResult::UnrecognizedMeta)));
    assert!(matches!(
        s.handle_line("inserted 1 a b"),
        LineOutcome::Rejected(PrepareResult::UnrecognizedStatement)
    ));
    assert_eq!(s.state, SessionState::Idle);
    assert!(matches!(s.handle_line("insert 1 a b"), LineOutcome::Executed(ExecuteResult::Success(_))));
    match s.handle_line("select") {
        LineOutcome::Executed(ExecuteResult::Success(v)) => {
            assert_eq!(v.len(), 1);
            assert_eq!(v[0].email, "b");
        }
        other => panic!("unexpected {:?}", other),
    }
}

#[test]
fn session_select_by_key() {
    let mut s = Session::new(Store::Ordered(KeyStore::new()));
    assert!(matches!(
        s.handle_line("select 42"),
        LineOutcome::Executed(ExecuteResult::Failed(StoreError::NotFound))
    ));
    assert!(matches!(s.handle_line("select"), LineOutcome::Rejected(PrepareResult::MissingArgument)));
}
