use mini_redis::connection::{response_line, ConnectionAction, ConnectionHandler, Request};
use mini_redis::error::{IoErrorKind, ServerError};
use mini_redis::store::KvStore;
use serde_json::Value;

#[test]
fn simple_request_eq() {
    assert_eq!(Request::Read("test".into()), Request::Read("test".into()));
}

#[test]
fn apply_insert_read_delete() {
    let mut store = KvStore::new();
    assert_eq!(store.apply(Request::Insert("k".into(), Value::from(5))), None);
    assert_eq!(store.apply(Request::Read("k".into())), Some(Value::from(5)));
    assert_eq!(store.apply(Request::Insert("k".into(), Value::from(6))), Some(Value::from(5)));
    assert_eq!(store.apply(Request::Delete("k".into())), Some(Value::from(6)));
    assert_eq!(store.apply(Request::Read("k".into())), None);
}

#[test]
fn response_line_is_pretty_json_and_newline() {
    assert_eq!(response_line(&None).unwrap(), b"null\n".to_vec());
    assert_eq!(response_line(&Some(Value::from(12))).unwrap(), b"12\n".to_vec());
    let arr = Value::from(vec![1, 2]);
    assert_eq!(response_line(&Some(arr)).unwrap(), b"[\n  1,\n  2\n]\n".to_vec());
}

#[test]
fn handle_request_responds() {
    let mut store = KvStore::new();
    let action = ConnectionHandler::handle(&mut store, Ok(Request::Insert("a".into(), Value::from("x"))));
    match action.unwrap() {
        ConnectionAction::Respond(line) => assert_eq!(line, b"null\n".to_vec()),
        other => panic!("unexpected {:?}", other),
    }
    let action = ConnectionHandler::handle(&mut store, Ok(Request::Read("a".into())));
    match action.unwrap() {
        ConnectionAction::Respond(line) => assert_eq!(line, b"\"x\"\n".to_vec()),
        other => panic!("unexpected {:?}", other),
    }
}

#[test]
fn handle_closing_stream_errors_close() {
    let kinds = [
        IoErrorKind::NotFound,
        IoErrorKind::PermissionDenied,
        IoErrorKind::ConnectionRefused,
        IoErrorKind::ConnectionReset,
        IoErrorKind::HostUnreachable,
        IoErrorKind::NetworkUnreachable,
        IoErrorKind::ConnectionAborted,
        IoErrorKind::TimedOut,
        IoErrorKind::StorageFull,
    ];
    for kind in kinds {
        let mut store = KvStore::new();
        let action = ConnectionHandler::handle(&mut store, Err(ServerError::StdIoError(kind)));
        assert!(matches!(action, Ok(ConnectionAction::Close)));
    }
}

#[test]
fn handle_other_errors_skip() {
    let mut store = KvStore::new();
    store.write("a", Value::from(1));
    let action = ConnectionHandler::handle(&mut store, Err(ServerError::StdIoError(IoErrorKind::Other)));
    assert!(matches!(action, Ok(ConnectionAction::Skip)));
    let parse_error = serde_json::from_str::<Value>("{").unwrap_err();
    let action = ConnectionHandler::handle(&mut store, Err(ServerError::SerdeJsonError(parse_error)));
    assert!(matches!(action, Ok(ConnectionAction::Skip)));
    assert_eq!(store.read("a"), Some(Value::from(1)));
}

#[test]
fn sequence_of_requests_gets_one_reply_each() {
    let mut store = KvStore::new();
    let requests = vec![
        Request::Insert("k".into(), Value::from(1)),
        Request::Read("k".into()),
        Request::Delete("k".into()),
        Request::Read("k".into()),
    ];
    let mut replies: Vec<Vec<u8>> = Vec::new();
    for r in requests {
        match ConnectionHandler::handle(&mut store, Ok(r)).unwrap() {
            ConnectionAction::Respond(line) => replies.push(line),
            other => panic!("unexpected {:?}", other),
        }
    }
    assert_eq!(replies, vec![b"null\n".to_vec(), b"1\n".to_vec(), b"1\n".to_vec(), b"null\n".to_vec()]);
    assert_eq!(store.len(), 0);
}
