use paintrobot::cql::{check_identifier, check_identifiers, quote_text, repo_error_reply, RepoError, TransportError};

#[test]
fn quote_escapes_single_quote() {
    assert_eq!(quote_text("ab'c"), "'ab''c'");
    assert_eq!(quote_text("plain"), "'plain'");
}

#[test]
fn identifier_bounds() {
    assert!(check_identifier("HD-A120").is_ok());
    assert!(check_identifier("edge-line-01").is_ok());
    assert!(check_identifier("01HV0123456789ABCDEFGHJKMN").is_ok());
    assert!(check_identifier("with.dots").is_ok());
    assert!(check_identifier("with:colons").is_ok());
    assert!(check_identifier("").is_err());
    assert!(check_identifier("bad; DROP TABLE").is_err());
    assert!(check_identifier("quote'here").is_err());
    assert!(check_identifier(&"x".repeat(129)).is_err());
}

#[test]
fn identifier_error_carries_the_input() {
    match check_identifier("a b") {
        Err(RepoError::InvalidIdentifier(s)) => assert_eq!(s, "a b"),
        other => panic!("unexpected {other:?}"),
    }
    assert!(check_identifier(&"y".repeat(128)).is_ok());
}

#[test]
fn first_bad_identifier_is_reported() {
    match check_identifiers(&vec!["ok-1", "bad one", "also bad"]) {
        Err(RepoError::InvalidIdentifier(s)) => assert_eq!(s, "bad one"),
        other => panic!("unexpected {other:?}"),
    }
    assert!(check_identifiers(&vec!["a", "b:c"]).is_ok());
}

#[test]
fn quoting_empty_and_all_quotes() {
    assert_eq!(quote_text(""), "''");
    assert_eq!(quote_text("''"), "''''''");
}

#[test]
fn transport_error_becomes_repo_error() {
    let e: RepoError = TransportError("timeout".into()).into();
    match e {
        RepoError::Transport(s) => assert_eq!(s, "timeout"),
        other => panic!("unexpected {other:?}"),
    }
}

#[test]
fn repo_errors_map_to_replies() {
    let (st, msg) = repo_error_reply(&RepoError::InvalidIdentifier("x y".into()));
    assert_eq!((st, msg.as_str()), (400, "invalid identifier: x y"));
    let (st, msg) = repo_error_reply(&RepoError::Db("boom".into()));
    assert_eq!((st, msg.as_str()), (502, "coredb error: boom"));
    let (st, msg) = repo_error_reply(&RepoError::Transport("t".into()));
    assert_eq!((st, msg.as_str()), (502, "coredb transport: t"));
    let (st, msg) = repo_error_reply(&RepoError::Decode("d".into()));
    assert_eq!((st, msg.as_str()), (502, "coredb decode: d"));
    assert_eq!(RepoError::Decode("d".into()).message(), "decode: d");
    assert_eq!(RepoError::Db("x".into()).message(), "coredb error: x");
}
