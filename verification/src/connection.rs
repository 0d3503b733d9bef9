//! The line protocol of the server: framing of incoming bytes into requests,
//! and what the server does with each request or error.

use crate::error::{IoErrorKind, ServerError};
use crate::json::{pretty_bytes, pretty_json};
use crate::store::{spec_delete, spec_read, spec_write, KvStore};
use serde_json::Value;
use vstd::prelude::*;

verus! {

/// A request of a client.
#[derive(PartialEq, Eq, Debug)]
pub enum Request {
    Insert(String, Value),
    Delete(String),
    Read(String),
}

/// The store after a request, and the value that the request answers with.
pub open spec fn spec_apply(m: Map<Seq<char>, Value>, request: Request) -> (Map<
    Seq<char>,
    Value,
>, Option<Value>) {
    match request {
        Request::Insert(key, value) => spec_write(m, key@, value),
        Request::Delete(key) => spec_delete(m, key@),
        Request::Read(key) => (m, spec_read(m, key@)),
    }
}

impl KvStore {
    /// Carries out a request and hands back the value it answers with: the
    /// replaced value of an insert, the removed value of a delete, the
    /// stored value of a read.
    pub fn apply(&mut self, request: Request) -> (response: Option<Value>)
        ensures
            (final(self)@, response) == spec_apply(old(self)@, request),
            match request {
                Request::Insert(key, value) => {
                    &&& final(self)@ == old(self)@.insert(key@, value)
                    &&& response == if old(self)@.contains_key(key@) {
                        Some(old(self)@[key@])
                    } else {
                        None
                    }
                },
                Request::Delete(key) => {
                    &&& final(self)@ == old(self)@.remove(key@)
                    &&& response == if old(self)@.contains_key(key@) {
                        Some(old(self)@[key@])
                    } else {
                        None
                    }
                },
                Request::Read(key) => {
                    &&& final(self)@ == old(self)@
                    &&& response == if old(self)@.contains_key(key@) {
                        Some(old(self)@[key@])
                    } else {
                        None
                    }
                },
            },
    {
        match request {
            Request::Insert(key, value) => self.write(key.as_str(), value),
            Request::Delete(key) => self.delete(key.as_str()),
            Request::Read(key) => self.read(key.as_str()),
        }
    }
}

/// Whether what the stream gave changes the store: an insert or a delete.
pub open spec fn spec_changes_store(next: Result<Request, ServerError>) -> bool {
    next matches Ok(request) && (request is Insert || request is Delete)
}

/// Whether carrying out what the stream gave changes the store, so that the
/// store must be written back: for an insert or a delete.
pub fn changes_store(next: &Result<Request, ServerError>) -> (b: bool)
    ensures
        b == spec_changes_store(*next),
        b == (*next matches Ok(request) && (request is Insert || request is Delete)),
{
    match next {
        Ok(Request::Insert(_, _)) => true,
        Ok(Request::Delete(_)) => true,
        _ => false,
    }
}

/// The stream errors after which the server stops serving a connection.
pub open spec fn closes_connection(kind: IoErrorKind) -> bool {
    match kind {
        IoErrorKind::Other => false,
        _ => true,
    }
}

/// The bytes that answer a request: the value as pretty JSON, then a newline.
pub open spec fn response_line_bytes(response: Option<Value>) -> Seq<u8> {
    pretty_json(response).push(10u8)
}

/// The line that the server writes back for a response.
pub fn response_line(response: &Option<Value>) -> (r: Result<Vec<u8>, serde_json::Error>)
    ensures
        r matches Ok(line) && line@ == pretty_json(*response).push(10u8),
{
    match pretty_bytes(response) {
        Ok(mut bytes) => {
            bytes.push(10u8);
            Ok(bytes)
        },
        Err(e) => Err(e),
    }
}

/// What the server does next on a connection.
#[derive(Debug)]
pub enum ConnectionAction {
    /// Stop serving the connection.
    Close,
    /// Drop what was read and wait for the next request.
    Skip,
    /// Write these bytes back to the client.
    Respond(Vec<u8>),
}

/// Serves a connection: turns each incoming request into a response.
pub struct ConnectionHandler;

impl ConnectionHandler {
    /// The server's decision on what the stream gave: a request is carried
    /// out on the store and answered with its response line; a stream error
    /// of a closing kind closes the connection; any other error is skipped.
    /// The result is never an error: the `Err` side is that of serde_json's
    /// serialisation of the response, which does not fail.
    pub fn handle(store: &mut KvStore, next: Result<Request, ServerError>) -> (r: Result<
        ConnectionAction,
        serde_json::Error,
    >)
        ensures
            match next {
                Ok(request) => {
                    &&& final(store)@ == spec_apply(old(store)@, request).0
                    &&& r matches Ok(ConnectionAction::Respond(line)) && line@ == pretty_json(
                        spec_apply(old(store)@, request).1,
                    ).push(10u8)
                },
                Err(ServerError::StdIoError(kind)) => {
                    &&& final(store)@ == old(store)@
                    &&& match r {
                        Ok(ConnectionAction::Close) => closes_connection(kind),
                        Ok(ConnectionAction::Skip) => !closes_connection(kind),
                        _ => false,
                    }
                },
                Err(_) => final(store)@ == old(store)@ && r matches Ok(ConnectionAction::Skip),
            },
    {
        match next {
            Ok(request) => {
                let response = store.apply(request);
                match response_line(&response) {
                    Ok(line) => Ok(ConnectionAction::Respond(line)),
                    Err(e) => Err(e),
                }
            },
            Err(ServerError::StdIoError(kind)) => {
                match kind {
                    IoErrorKind::Other => Ok(ConnectionAction::Skip),
                    _ => Ok(ConnectionAction::Close),
                }
            },
            Err(_) => Ok(ConnectionAction::Skip),
        }
    }
}

} // verus!

verus! {

/// The store after carrying out the requests in order.
pub open spec fn spec_apply_all(m: Map<Seq<char>, Value>, requests: Seq<Request>) -> Map<
    Seq<char>,
    Value,
>
    decreases requests.len(),
{
    if requests.len() == 0 {
        m
    } else {
        spec_apply(spec_apply_all(m, requests.drop_last()), requests.last()).0
    }
}

/// The request writes or deletes `key`.
pub open spec fn touches(request: Request, key: Seq<char>) -> bool {
    match request {
        Request::Insert(k, _) => k@ == key,
        Request::Delete(k) => k@ == key,
        Request::Read(_) => false,
    }
}

/// Requests that neither write nor delete `key` leave what it holds as it was.
pub proof fn law_untouched_key_kept(m: Map<Seq<char>, Value>, requests: Seq<Request>, key: Seq<char>)
    requires
        forall|i: int| 0 <= i < requests.len() ==> !touches(#[trigger] requests[i], key),
    ensures
        spec_read(spec_apply_all(m, requests), key) == spec_read(m, key),
    decreases requests.len(),
{
    if requests.len() > 0 {
        let rest = requests.drop_last();
        assert forall|i: int| 0 <= i < rest.len() implies !touches(#[trigger] rest[i], key) by {
            assert(rest[i] == requests[i]);
        }
        law_untouched_key_kept(m, rest, key);
        assert(!touches(requests[requests.len() - 1], key));
    }
}

/// After a write of `value` under `key`, any requests that neither write nor
/// delete `key` leave `value` there: a read then gives back `value`.
pub proof fn law_write_survives_other_requests(
    m: Map<Seq<char>, Value>,
    key: Seq<char>,
    value: Value,
    requests: Seq<Request>,
)
    requires
        forall|i: int| 0 <= i < requests.len() ==> !touches(#[trigger] requests[i], key),
    ensures
        spec_read(spec_apply_all(spec_write(m, key, value).0, requests), key) == Some(value),
{
    law_untouched_key_kept(spec_write(m, key, value).0, requests, key);
}

/// After a delete of `key`, any requests that neither write nor delete `key`
/// leave it absent: a read gives nothing, and a second delete hands back
/// nothing and changes nothing.
pub proof fn law_delete_survives_other_requests(
    m: Map<Seq<char>, Value>,
    key: Seq<char>,
    requests: Seq<Request>,
)
    requires
        forall|i: int| 0 <= i < requests.len() ==> !touches(#[trigger] requests[i], key),
    ensures
        spec_read(spec_apply_all(spec_delete(m, key).0, requests), key) is None,
        spec_delete(spec_apply_all(spec_delete(m, key).0, requests), key) == (
            spec_apply_all(spec_delete(m, key).0, requests),
            None::<Value>,
        ),
{
    let after = spec_apply_all(spec_delete(m, key).0, requests);
    law_untouched_key_kept(spec_delete(m, key).0, requests, key);
    assert(after.remove(key) =~= after);
}

} // verus!

verus! {

/// The line that answers a response is its pretty JSON followed by exactly
/// one newline byte: it begins with the pretty JSON, is one byte longer, and
/// ends with the newline.
pub proof fn law_response_line_is_pretty_json_then_newline(response: Option<Value>)
    ensures
        response_line_bytes(response).len() == pretty_json(response).len() + 1,
        response_line_bytes(response).subrange(0, pretty_json(response).len() as int)
            == pretty_json(response),
        response_line_bytes(response).last() == 10u8,
{
    assert(response_line_bytes(response).subrange(0, pretty_json(response).len() as int)
        =~= pretty_json(response));
}

/// The value that a request answers with is what the store held under its
/// key before: an insert and a delete answer as a read of that key would.
pub proof fn law_requests_answer_what_was_stored(m: Map<Seq<char>, Value>, key: String, value: Value)
    ensures
        spec_apply(m, Request::Read(key)).1 == (if m.contains_key(key@) {
            Some(m[key@])
        } else {
            None
        }),
        spec_apply(m, Request::Insert(key, value)).1 == spec_apply(m, Request::Read(key)).1,
        spec_apply(m, Request::Delete(key)).1 == spec_apply(m, Request::Read(key)).1,
{
}

/// After an insert of `value`, a read of the key answers `value`, and a
/// delete of it answers `value` and leaves the store without the key.
pub proof fn law_insert_then_read_or_delete(
    m: Map<Seq<char>, Value>,
    key: String,
    value: Value,
    again: String,
)
    requires
        again@ == key@,
    ensures
        spec_apply(spec_apply(m, Request::Insert(key, value)).0, Request::Read(again)).1 == Some(
            value,
        ),
        spec_apply(spec_apply(m, Request::Insert(key, value)).0, Request::Delete(again)) == (
            m.remove(key@),
            Some(value),
        ),
{
    assert(m.insert(key@, value).remove(key@) =~= m.remove(key@));
}

/// After a delete, a read of the key answers nothing, and the store no longer
/// holds the key.
pub proof fn law_delete_then_read(m: Map<Seq<char>, Value>, key: String, again: String)
    requires
        again@ == key@,
    ensures
        spec_apply(spec_apply(m, Request::Delete(key)).0, Request::Read(again)).1 is None,
        !spec_apply(m, Request::Delete(key)).0.contains_key(key@),
{
}

/// Every insert and every delete is written back, whatever its key and
/// value, and a request that is not written back leaves every store as it
/// was: no change to the store is ever left unwritten.
pub proof fn law_every_change_is_written_back(
    m: Map<Seq<char>, Value>,
    request: Request,
    key: String,
    value: Value,
)
    ensures
        spec_changes_store(Ok::<Request, ServerError>(Request::Insert(key, value))),
        spec_changes_store(Ok::<Request, ServerError>(Request::Delete(key))),
        !spec_changes_store(Ok::<Request, ServerError>(Request::Read(key))),
        spec_apply(m, request).0 != m ==> spec_changes_store(Ok::<Request, ServerError>(request)),
{
}

} // verus!
