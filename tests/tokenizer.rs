use rowstore::tokenizer::{do_meta_command, MetaCommandError, PrepareError, Statement, StatementType};

#[test]
fn parses_insert() {
    let s = Statement::prepare_statement("  insert   42 bob   bob@x.com  extra").unwrap();
    assert_eq!(s.stype, StatementType::Insert);
    let r = s.row.unwrap();
    assert_eq!(r.id, 42);
    assert_eq!(&r.username[..3], b"bob");
    assert!(r.username[3..].iter().all(|b| *b == 0));
    assert_eq!(&r.email[..9], b"bob@x.com");
    assert!(r.email[9..].iter().all(|b| *b == 0));
}

#[test]
fn parses_select() {
    let s = Statement::prepare_statement("select").unwrap();
    assert_eq!(s.stype, StatementType::Select);
    assert!(s.row.is_none());
}

#[test]
fn id_accepts_plus_sign_and_largest_u32() {
    let s = Statement::prepare_statement("insert +7 a b").unwrap();
    assert_eq!(s.row.unwrap().id, 7);
    let s = Statement::prepare_statement("insert 4294967295 a b").unwrap();
    assert_eq!(s.row.unwrap().id, u32::MAX);
}

#[test]
fn empty_line_is_invalid_input() {
    let e = Statement::prepare_statement("   ").unwrap_err();
    assert!(matches!(e, PrepareError::InvalidInput { input: "   " }));
}

#[test]
fn unknown_keyword_is_unrecognized() {
    let e = Statement::prepare_statement("update 1").unwrap_err();
    assert!(matches!(e, PrepareError::UnrecognizedStatement { statement: "update", input: "update 1" }));
}

#[test]
fn missing_fields_are_invalid_input() {
    for line in ["insert", "insert 1", "insert 1 alice"] {
        let e = Statement::prepare_statement(line).unwrap_err();
        assert!(matches!(e, PrepareError::InvalidInput { .. }), "{line}");
    }
}

#[test]
fn negative_id_is_rejected() {
    let e = Statement::prepare_statement("insert -1 a b").unwrap_err();
    assert!(matches!(e, PrepareError::NegativeNumber { id: "-1", .. }));
}

#[test]
fn bad_ids_are_invalid() {
    for (line, bad) in [
        ("insert abc a b", "abc"),
        ("insert 4294967296 a b", "4294967296"),
        ("insert + a b", "+"),
        ("insert 1x a b", "1x"),
    ] {
        let e = Statement::prepare_statement(line).unwrap_err();
        assert!(matches!(e, PrepareError::InvalidId { id, .. } if id == bad), "{line}");
    }
}

#[test]
fn username_width_is_bounded() {
    let ok = format!("insert 1 {} e", "u".repeat(32));
    assert!(Statement::prepare_statement(&ok).is_ok());
    let long = "u".repeat(33);
    let line = format!("insert 1 {long} e");
    let e = Statement::prepare_statement(&line).unwrap_err();
    assert!(matches!(e, PrepareError::UsernameTooLong { username, .. } if username == long));
}

#[test]
fn email_width_is_bounded() {
    let ok = format!("insert 1 u {}", "e".repeat(255));
    assert!(Statement::prepare_statement(&ok).is_ok());
    let long = "e".repeat(256);
    let line = format!("insert 1 u {long}");
    let e = Statement::prepare_statement(&line).unwrap_err();
    assert!(matches!(e, PrepareError::EmailTooLong { email, .. } if email == long));
}

#[test]
fn username_width_counts_bytes() {
    let name = "é".repeat(17);
    let line = format!("insert 1 {name} e");
    let e = Statement::prepare_statement(&line).unwrap_err();
    assert!(matches!(e, PrepareError::UsernameTooLong { .. }));
}

#[test]
fn exit_meta_command() {
    assert!(do_meta_command(".exit").is_ok());
    assert!(do_meta_command(".exitnow").is_ok());
}

#[test]
fn unknown_meta_command_names_first_word() {
    let e = do_meta_command(".tables now").unwrap_err();
    let MetaCommandError::UnrecognizedCommand { meta, input } = e;
    assert_eq!(meta, ".tables");
    assert_eq!(input, ".tables now");
    let MetaCommandError::UnrecognizedCommand { meta, .. } = do_meta_command("").unwrap_err();
    assert_eq!(meta, "");
}

#[test]
fn prepare_words_parses_given_words() {
    let words = vec!["insert", "5", "x y", "z"];
    let s = Statement::prepare_words("line", &words).unwrap();
    let r = s.row.unwrap();
    assert_eq!(r.id, 5);
    assert_eq!(&r.username[..3], b"x y");
    assert_eq!(r.email[0], b'z');
    let words = vec!["select", "ignored"];
    assert_eq!(Statement::prepare_words("line", &words).unwrap().stype, StatementType::Select);
    let words: Vec<&str> = Vec::new();
    let e = Statement::prepare_words("line", &words).unwrap_err();
    assert!(matches!(e, PrepareError::InvalidInput { input: "line" }));
    let words = vec!["Insert", "1", "a", "b"];
    let e = Statement::prepare_words("line", &words).unwrap_err();
    assert!(matches!(e, PrepareError::UnrecognizedStatement { statement: "Insert", .. }));
}
