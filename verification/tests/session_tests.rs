use nanodb::session::{Session, SessionAction};
use nanodb::store::InMemoryDB;

#[test]
fn wrong_token_is_rejected_and_closes() {
    let mut session = Session::new();
    let mut db = InMemoryDB::new();
    let action = session.on_read(Some("WRONG_TOKEN"), "DEFAULT_AUTH_TOKEN", &mut db, 0);
    match action {
        SessionAction::ReplyClose(message) => {
            assert_eq!(message, "Invalid authentication token.\n");
        }
        _ => panic!("a wrong token must be answered and end the connection"),
    }
    assert!(!session.authenticated);
}

#[test]
fn correct_token_authenticates_silently() {
    let mut session = Session::new();
    let mut db = InMemoryDB::new();
    let action = session.on_read(Some("  DEFAULT_AUTH_TOKEN\r\n"), "DEFAULT_AUTH_TOKEN", &mut db, 0);
    assert!(matches!(action, SessionAction::Continue));
    assert!(session.authenticated);
}

#[test]
fn commands_flow_through_after_authentication() {
    let mut session = Session::new();
    let mut db = InMemoryDB::new();
    session.on_read(Some("token"), "token", &mut db, 0);
    let action = session.on_read(Some("set foo {\"a\":1}"), "token", &mut db, 0);
    match action {
        SessionAction::Reply(response) => {
            assert_eq!(response, "Set key 'foo' with JSON value '{\"a\":1}'\n");
        }
        _ => panic!("a command line must be answered"),
    }
    let action = session.on_read(Some("get foo"), "token", &mut db, 0);
    match action {
        SessionAction::Reply(response) => {
            assert!(response.contains("Value for 'foo': {\"a\":1}"));
        }
        _ => panic!("a command line must be answered"),
    }
}

#[test]
fn end_of_stream_closes_silently() {
    let mut session = Session::new();
    let mut db = InMemoryDB::new();
    assert!(matches!(session.on_read(None, "token", &mut db, 0), SessionAction::Close));
    session.on_read(Some("token"), "token", &mut db, 0);
    assert!(matches!(session.on_read(None, "token", &mut db, 0), SessionAction::Close));
}

#[test]
fn no_command_runs_before_authentication() {
    let mut session = Session::new();
    let mut db = InMemoryDB::new();
    // the command line is read as a token attempt, rejected, and nothing is stored
    let action = session.on_read(Some("set foo 1"), "token", &mut db, 0);
    assert!(matches!(action, SessionAction::ReplyClose(_)));
    assert_eq!(db.get("foo", 0), None);
}
