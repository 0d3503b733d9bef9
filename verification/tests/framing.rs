use mini_redis::connection::{ConnectionAction, ConnectionHandler, Request};
use mini_redis::store::KvStore;
use mini_redis::error::ServerError;
use mini_redis::framing::{split_lines, FeedOutcome, RequestReader};
use serde_json::Value;

/// Reads a request as its externally tagged JSON form.
fn parse_request(line: &[u8]) -> Result<Request, ServerError> {
    let v: Value = serde_json::from_slice(line).map_err(ServerError::SerdeJsonError)?;
    let bad = || ServerError::SerdeJsonError(serde_json::from_str::<Value>("").unwrap_err());
    let obj = v.as_object().ok_or_else(bad)?;
    let (tag, body) = obj.iter().next().ok_or_else(bad)?;
    match (tag.as_str(), body) {
        ("Read", Value::String(k)) => Ok(Request::Read(k.clone())),
        ("Delete", Value::String(k)) => Ok(Request::Delete(k.clone())),
        ("Insert", Value::Array(a)) if a.len() == 2 => match &a[0] {
            Value::String(k) => Ok(Request::Insert(k.clone(), a[1].clone())),
            _ => Err(bad()),
        },
        _ => Err(bad()),
    }
}

fn read_one(reader: &mut RequestReader, chunks: &[&[u8]]) -> Result<Request, ServerError> {
    if let Some(queued) = reader.take_queued() {
        return queued;
    }
    reader.start_request();
    for chunk in chunks {
        match reader.feed(chunk) {
            FeedOutcome::NeedMore => continue,
            _ => break,
        }
    }
    let lines = reader.lines();
    let parsed: Vec<_> = lines.iter().map(|l| parse_request(l)).collect();
    reader.next_request(parsed)
}

#[test]
fn next_request_parses_simple_request() {
    let req = Request::Read("test\n".into());
    let mut reader = RequestReader::new();
    let got = read_one(&mut reader, &[br#"{"Read":"test\n"}"#, b""]).unwrap();
    assert_eq!(got, req);
}

#[test]
fn next_request_invalid_data_errors() {
    let mut reader = RequestReader::new();
    assert!(read_one(&mut reader, &[b"unparsable text\n"]).is_err());
}

#[test]
fn next_request_answers_oldest_first() {
    let mut reader = RequestReader::new();
    let got = read_one(&mut reader, &[br#"{"Delete":"a"}"#, b"\n{\"Read\":\"b\"}"]);
    assert_eq!(got.unwrap(), Request::Delete("a".into()));
    let got = read_one(&mut reader, &[]);
    assert_eq!(got.unwrap(), Request::Read("b".into()));
}

#[test]
fn newline_terminated_request_is_answered() {
    let mut reader = RequestReader::new();
    let got = read_one(&mut reader, &[b"{\"Read\":\"a\"}\n"]);
    assert_eq!(got.unwrap(), Request::Read("a".into()));
    // the empty piece after the newline is what is left; it is no request
    assert!(read_one(&mut reader, &[]).is_err());
    assert!(reader.take_queued().is_none());
}

#[test]
fn several_requests_in_one_read_come_out_in_order() {
    let mut reader = RequestReader::new();
    let data: &[u8] = b"{\"Read\":\"a\"}\n{\"Read\":\"b\"}\n";
    assert_eq!(read_one(&mut reader, &[data]).unwrap(), Request::Read("a".into()));
    assert_eq!(read_one(&mut reader, &[]).unwrap(), Request::Read("b".into()));
}

#[test]
fn malformed_line_is_skipped_then_request_answered() {
    let mut store = KvStore::new();
    store.write("k", Value::from(1));
    let mut reader = RequestReader::new();
    let mut replies: Vec<u8> = Vec::new();
    let chunks: [&[u8]; 2] = [b"oops\n", b"{\"Read\":\"k\"}\n"];
    let mut next_chunk = 0;
    for _ in 0..6 {
        let next = if let Some(queued) = reader.take_queued() {
            queued
        } else if next_chunk < chunks.len() {
            next_chunk += 1;
            read_one(&mut reader, &chunks[next_chunk - 1..next_chunk])
        } else {
            break;
        };
        match ConnectionHandler::handle(&mut store, next).unwrap() {
            ConnectionAction::Respond(line) => replies.extend(line),
            ConnectionAction::Skip => {}
            ConnectionAction::Close => break,
        }
    }
    assert_eq!(replies, b"1\n".to_vec());
    assert_eq!(store.read("k"), Some(Value::from(1)));
}

#[test]
fn feed_outcomes() {
    let mut reader = RequestReader::new();
    assert_eq!(reader.feed(b"abc"), FeedOutcome::NeedMore);
    assert_eq!(reader.feed(b"d\n"), FeedOutcome::EndOfLine);
    assert_eq!(reader.feed(b""), FeedOutcome::EndOfStream);
    assert_eq!(reader.lines(), vec![b"abcd".to_vec(), Vec::new()]);
    reader.start_request();
    assert_eq!(reader.lines(), vec![Vec::<u8>::new()]);
}

#[test]
fn split_lines_examples() {
    assert_eq!(split_lines(b""), vec![Vec::<u8>::new()]);
    assert_eq!(split_lines(b"a"), vec![b"a".to_vec()]);
    assert_eq!(split_lines(b"a\n"), vec![b"a".to_vec(), Vec::new()]);
    assert_eq!(split_lines(b"a\nbc\n\nd"), vec![b"a".to_vec(), b"bc".to_vec(), Vec::new(), b"d".to_vec()]);
}

#[test]
fn split_then_join_gives_back_bytes() {
    let data = b"x\ny\n\nzz".to_vec();
    let lines = split_lines(&data);
    assert_eq!(lines.join(&b'\n'), data);
}
