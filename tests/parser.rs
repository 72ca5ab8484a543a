use rowdb::input_buffer::InputBuffer;
use rowdb::parser::{do_meta_command, prepare_statement, prepare_words};
use rowdb::statement::{MetaCommandResult, PrepareResult, Statement, StatementType};

fn line(s: &str) -> InputBuffer {
    InputBuffer {
        buffer: s.to_string(),
    }
}

#[test]
fn prepare_insert_statement() {
    let mut st = Statement::new();
    let r = prepare_statement(&line("insert 1 alice alice@example.com"), &mut st);
    assert_eq!(r, PrepareResult::Success);
    assert_eq!(st.stype, StatementType::Insert);
    let row = st.row_to_insert.as_ref().unwrap();
    assert_eq!(row.id, 1);
    assert_eq!(row.username_as_str(), "alice");
    assert_eq!(row.email_as_str(), "alice@example.com");
}

#[test]
fn prepare_insert_with_extra_spaces_and_plus_sign() {
    let mut st = Statement::new();
    let r = prepare_statement(&line("  insert   +42 \t bob   bob@x.org  "), &mut st);
    assert_eq!(r, PrepareResult::Success);
    let row = st.row_to_insert.as_ref().unwrap();
    assert_eq!(row.id, 42);
    assert_eq!(row.username_as_str(), "bob");
    assert_eq!(row.email_as_str(), "bob@x.org");
}

#[test]
fn prepare_select_statement() {
    let mut st = Statement::new();
    st.stype = StatementType::Insert;
    assert_eq!(prepare_statement(&line("select"), &mut st), PrepareResult::Success);
    assert_eq!(st.stype, StatementType::Select);
    assert!(st.row_to_insert.is_none());
}

#[test]
fn prepare_empty_line_is_syntax_error() {
    let mut st = Statement::new();
    assert_eq!(prepare_statement(&line(""), &mut st), PrepareResult::SyntaxError);
    assert_eq!(prepare_statement(&line("   "), &mut st), PrepareResult::SyntaxError);
}

#[test]
fn prepare_unknown_keyword() {
    let mut st = Statement::new();
    assert_eq!(
        prepare_statement(&line("delete 1"), &mut st),
        PrepareResult::UnrecognizedStatement
    );
    assert_eq!(
        prepare_statement(&line("INSERT 1 a b"), &mut st),
        PrepareResult::UnrecognizedStatement
    );
}

#[test]
fn prepare_insert_missing_fields() {
    let mut st = Statement::new();
    assert_eq!(prepare_statement(&line("insert 1 alice"), &mut st), PrepareResult::SyntaxError);
    assert_eq!(st.stype, StatementType::Select);
    assert!(st.row_to_insert.is_none());
}

#[test]
fn prepare_insert_bad_id() {
    let mut st = Statement::new();
    assert_eq!(prepare_statement(&line("insert abc a b"), &mut st), PrepareResult::SyntaxError);
    assert_eq!(prepare_statement(&line("insert -1 a b"), &mut st), PrepareResult::SyntaxError);
    assert_eq!(
        prepare_statement(&line("insert 4294967296 a b"), &mut st),
        PrepareResult::SyntaxError
    );
    assert_eq!(prepare_statement(&line("insert + a b"), &mut st), PrepareResult::SyntaxError);
    assert_eq!(
        prepare_statement(&line("insert 4294967295 a b"), &mut st),
        PrepareResult::Success
    );
    assert_eq!(st.row_to_insert.as_ref().unwrap().id, u32::MAX);
}

#[test]
fn prepare_insert_oversize_fields() {
    let mut st = Statement::new();
    let long_name = format!("insert 1 {} e@x", "n".repeat(33));
    assert_eq!(prepare_statement(&line(&long_name), &mut st), PrepareResult::SyntaxError);
    let long_email = format!("insert 1 n {}", "e".repeat(256));
    assert_eq!(prepare_statement(&line(&long_email), &mut st), PrepareResult::SyntaxError);
    assert!(st.row_to_insert.is_none());
}

#[test]
fn prepare_words_from_given_words() {
    let mut st = Statement::new();
    let words = vec!["insert".to_string(), "9".to_string(), "x".to_string(), "y".to_string()];
    assert_eq!(prepare_words(&words, &mut st), PrepareResult::Success);
    assert_eq!(st.row_to_insert.as_ref().unwrap().id, 9);
    let words: Vec<String> = Vec::new();
    assert_eq!(prepare_words(&words, &mut st), PrepareResult::SyntaxError);
}

#[test]
fn meta_command_exit() {
    assert_eq!(do_meta_command(&line(".exit")), MetaCommandResult::Exit);
}

#[test]
fn meta_command_unrecognized() {
    assert_eq!(do_meta_command(&line(".tables")), MetaCommandResult::UnrecognizedCommand);
    assert_eq!(do_meta_command(&line(".exit now")), MetaCommandResult::UnrecognizedCommand);
}
