//! The HTTP flavour of the server: the request bodies it takes and the text
//! it answers with.

use crate::json::{display_value, json_text};
use crate::store::{spec_delete, spec_read, spec_write, KvStore};
use serde_json::Value;
use vstd::prelude::*;

verus! {

/// The body of an insert: the key and the value to store under it.
pub struct InsertRequest {
    pub key: String,
    pub value: Value,
}

/// The body of a read.
pub struct ReadRequest {
    pub key: String,
}

/// The body of a delete.
pub struct DeleteRequest {
    pub key: String,
}

/// The text that answers with a value: its compact JSON, or `null`.
pub open spec fn value_reply(v: Option<Value>) -> Seq<char> {
    match v {
        Some(v) => json_text(v),
        None => "null"@,
    }
}

/// The text that answers an insert: the replaced value, or `null`.
pub open spec fn insert_reply(old_value: Option<Value>) -> Seq<char> {
    match old_value {
        Some(v) => "Old value: "@ + json_text(v),
        None => "null"@,
    }
}

fn reply_with(v: &Option<Value>) -> (text: String)
    ensures
        text@ == value_reply(*v),
        text@ == match *v {
            Some(v) => json_text(v),
            None => "null"@,
        },
{
    match v {
        Some(v) => display_value(v),
        None => "null".to_owned(),
    }
}

/// Stores the value of the body under its key; answers with the value it
/// replaced.
pub fn insert(store: &mut KvStore, payload: InsertRequest) -> (text: String)
    ensures
        final(store)@ == spec_write(old(store)@, payload.key@, payload.value).0,
        text@ == insert_reply(spec_read(old(store)@, payload.key@)),
        final(store)@ == old(store)@.insert(payload.key@, payload.value),
        text@ == if old(store)@.contains_key(payload.key@) {
            "Old value: "@ + json_text(old(store)@[payload.key@])
        } else {
            "null"@
        },
{
    let old_value = store.write(payload.key.as_str(), payload.value);
    match old_value {
        Some(v) => "Old value: ".to_owned().concat(display_value(&v).as_str()),
        None => "null".to_owned(),
    }
}

/// Answers with the value stored under the body's key. The body is that of
/// an insert, whose value is not looked at.
pub fn read(store: &KvStore, payload: InsertRequest) -> (text: String)
    ensures
        text@ == value_reply(spec_read(store@, payload.key@)),
        text@ == if store@.contains_key(payload.key@) {
            json_text(store@[payload.key@])
        } else {
            "null"@
        },
{
    let v = store.read(payload.key.as_str());
    reply_with(&v)
}

/// Removes the body's key; answers with the value it held. The body is that
/// of an insert, whose value is not looked at.
pub fn delete(store: &mut KvStore, payload: InsertRequest) -> (text: String)
    ensures
        final(store)@ == spec_delete(old(store)@, payload.key@).0,
        text@ == value_reply(spec_read(old(store)@, payload.key@)),
        final(store)@ == old(store)@.remove(payload.key@),
        text@ == if old(store)@.contains_key(payload.key@) {
            json_text(old(store)@[payload.key@])
        } else {
            "null"@
        },
{
    let v = store.delete(payload.key.as_str());
    reply_with(&v)
}

} // verus!

verus! {

/// A present value is answered with its JSON text, whatever the value, and
/// an absent one with `null`; an insert reports a replaced value with the
/// same text after `Old value: `.
pub proof fn law_replies_carry_json_text(v: Value)
    ensures
        value_reply(Some(v)) == json_text(v),
        value_reply(None) == "null"@,
        insert_reply(Some(v)) == "Old value: "@ + json_text(v),
        insert_reply(Some(v)) == "Old value: "@ + value_reply(Some(v)),
        insert_reply(None) == value_reply(None),
{
}

/// After an insert of `value` under `key`, a second insert there reports
/// `Old value: ` and the JSON text of `value`, and a read or a delete of the
/// key answers the JSON text of `value`. Where the key is absent, an insert
/// and a read answer `null`.
pub proof fn law_replies_after_insert(m: Map<Seq<char>, Value>, key: Seq<char>, value: Value)
    ensures
        insert_reply(spec_read(spec_write(m, key, value).0, key)) == "Old value: "@ + json_text(
            value,
        ),
        value_reply(spec_read(spec_write(m, key, value).0, key)) == json_text(value),
        value_reply(spec_delete(spec_write(m, key, value).0, key).1) == json_text(value),
        !m.contains_key(key) ==> insert_reply(spec_read(m, key)) == "null"@ && value_reply(
            spec_read(m, key),
        ) == "null"@,
{
}

} // verus!
