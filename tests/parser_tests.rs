use tinydb::codec::{Field, EMAIL_SIZE, USERNAME_SIZE};
use tinydb::parser::{do_meta_command, prepare_statement, Command, MetaCommandResult, PrepareResult, StatementType};
use tinydb::text::{parse_u32, split_tokens, text_eq};

#[test]
fn exit_is_recognized() {
    assert_eq!(do_meta_command(".exit"), Ok(MetaCommandResult::Exit));
    assert!(matches!(prepare_statement(".exit", false), Ok(Command::Meta(MetaCommandResult::Exit))));
}

#[test]
fn unknown_meta_is_rejected() {
    assert_eq!(do_meta_command(".quit"), Err(PrepareResult::UnrecognizedMeta));
    assert_eq!(prepare_statement(".exit now", false).unwrap_err(), PrepareResult::UnrecognizedMeta);
    assert_eq!(prepare_statement(".", true).unwrap_err(), PrepareResult::UnrecognizedMeta);
}

#[test]
fn insert_parses() {
    match prepare_statement("insert 1 alice alice@example.com", false) {
        Ok(Command::Statement(s)) => {
            assert_eq!(s.kind, StatementType::Insert);
            assert_eq!(s.row.id, 1);
            assert_eq!(s.row.username, "alice");
            assert_eq!(s.row.email, "alice@example.com");
        }
        other => panic!("unexpected {:?}", other),
    }
}

#[test]
fn insert_tolerates_extra_whitespace() {
    match prepare_statement("  insert\t42   bob  b@x.org ", false) {
        Ok(Command::Statement(s)) => {
            assert_eq!(s.row.id, 42);
            assert_eq!(s.row.username, "bob");
            assert_eq!(s.row.email, "b@x.org");
        }
        other => panic!("unexpected {:?}", other),
    }
}

#[test]
fn prefix_of_keyword_is_not_a_statement() {
    assert_eq!(prepare_statement("inserted 1 a b", false).unwrap_err(), PrepareResult::UnrecognizedStatement);
    assert_eq!(prepare_statement("selection 1", true).unwrap_err(), PrepareResult::UnrecognizedStatement);
    assert_eq!(prepare_statement("ins 1 a b", false).unwrap_err(), PrepareResult::UnrecognizedStatement);
}

#[test]
fn unknown_or_empty_statement() {
    assert_eq!(prepare_statement("delete 1", false).unwrap_err(), PrepareResult::UnrecognizedStatement);
    assert_eq!(prepare_statement("", false).unwrap_err(), PrepareResult::UnrecognizedStatement);
    assert_eq!(prepare_statement("   ", true).unwrap_err(), PrepareResult::UnrecognizedStatement);
}

#[test]
fn insert_argument_count() {
    assert_eq!(prepare_statement("insert 1 a", false).unwrap_err(), PrepareResult::MissingArgument);
    assert_eq!(prepare_statement("insert", false).unwrap_err(), PrepareResult::MissingArgument);
    assert_eq!(prepare_statement("insert 1 a b c", false).unwrap_err(), PrepareResult::ExtraArgument);
}

#[test]
fn insert_invalid_arguments() {
    assert_eq!(
        prepare_statement("insert x a b", false).unwrap_err(),
        PrepareResult::InvalidArgument(Field::Id)
    );
    assert_eq!(
        prepare_statement("insert 4294967296 a b", false).unwrap_err(),
        PrepareResult::InvalidArgument(Field::Id)
    );
    assert_eq!(
        prepare_statement("insert -1 a b", false).unwrap_err(),
        PrepareResult::InvalidArgument(Field::Id)
    );
    let long_user = format!("insert 1 {} b", "u".repeat(USERNAME_SIZE + 1));
    assert_eq!(
        prepare_statement(&long_user, false).unwrap_err(),
        PrepareResult::InvalidArgument(Field::Username)
    );
    let long_email = format!("insert 1 a {}", "e".repeat(EMAIL_SIZE + 1));
    assert_eq!(
        prepare_statement(&long_email, false).unwrap_err(),
        PrepareResult::InvalidArgument(Field::Email)
    );
}

#[test]
fn insert_accepts_nul_within_budget() {
    match prepare_statement("insert +5 \0 e@x", false) {
        Ok(Command::Statement(s)) => {
            assert_eq!(s.row.id, 5);
            assert_eq!(s.row.username, "\0");
        }
        other => panic!("unexpected {:?}", other),
    }
    let line = format!("insert 1 \0 {}", "e".repeat(EMAIL_SIZE + 1));
    assert_eq!(
        prepare_statement(&line, false).unwrap_err(),
        PrepareResult::InvalidArgument(Field::Email)
    );
}

#[test]
fn insert_field_at_budget_is_accepted() {
    let line = format!("insert 4294967295 {} {}", "u".repeat(USERNAME_SIZE), "e".repeat(EMAIL_SIZE));
    match prepare_statement(&line, false) {
        Ok(Command::Statement(s)) => assert_eq!(s.row.id, u32::MAX),
        other => panic!("unexpected {:?}", other),
    }
}

#[test]
fn select_by_key() {
    match prepare_statement("select 42", false) {
        Ok(Command::Statement(s)) => {
            assert_eq!(s.kind, StatementType::Select);
            assert_eq!(s.row.id, 42);
            assert_eq!(s.row.username, "");
        }
        other => panic!("unexpected {:?}", other),
    }
}

#[test]
fn bare_select_depends_on_scan() {
    assert_eq!(prepare_statement("select", false).unwrap_err(), PrepareResult::MissingArgument);
    match prepare_statement("select", true) {
        Ok(Command::Statement(s)) => assert_eq!(s.kind, StatementType::SelectAll),
        other => panic!("unexpected {:?}", other),
    }
    assert_eq!(prepare_statement("select 1 2", false).unwrap_err(), PrepareResult::ExtraArgument);
    assert_eq!(
        prepare_statement("select one", false).unwrap_err(),
        PrepareResult::InvalidArgument(Field::Id)
    );
}

#[test]
fn tokens_and_numbers() {
    assert_eq!(split_tokens(" a  bc\td "), vec!["a".to_string(), "bc".to_string(), "d".to_string()]);
    assert!(split_tokens("").is_empty());
    assert_eq!(parse_u32("0"), Some(0));
    assert_eq!(parse_u32("007"), Some(7));
    assert_eq!(parse_u32("4294967295"), Some(u32::MAX));
    assert_eq!(parse_u32("99999999999"), None);
    assert_eq!(parse_u32("+1"), Some(1));
    assert_eq!(parse_u32("+"), None);
    assert_eq!(parse_u32("++1"), None);
    assert_eq!(parse_u32("1+"), None);
    assert_eq!(parse_u32(""), None);
    assert!(text_eq("abc", "abc"));
    assert!(!text_eq("abc", "abd"));
    assert!(!text_eq("abc", "ab"));
}
