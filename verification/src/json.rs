//! The outside JSON types and the serde_json calls the store relies on.

use crate::store::{distinct_keys, entries_map};
use serde_json::Value;
use vstd::prelude::*;

verus! {

/// `serde_json::Value`: carried through the store without being looked into.
#[verifier::external_type_specification]
#[verifier::external_body]
pub struct ExValue(serde_json::Value);

/// `serde_json::Error`: the error of a failed parse or serialisation.
#[verifier::external_type_specification]
#[verifier::external_body]
pub struct ExJsonError(serde_json::Error);

/// The JSON object that serde_json reads from `bytes` as a map from string
/// keys to values, or `None` where `bytes` do not hold exactly one such
/// object.
pub uninterp spec fn json_object(bytes: Seq<u8>) -> Option<Map<Seq<char>, Value>>;

/// The pretty-printed JSON text (as bytes) that serde_json writes for an
/// object holding exactly the entries of `m`.
pub uninterp spec fn pretty_json_object(m: Map<Seq<char>, Value>) -> Seq<u8>;

/// The pretty-printed JSON text (as bytes) that serde_json writes for an
/// optional value (`null` for `None`).
pub uninterp spec fn pretty_json(v: Option<Value>) -> Seq<u8>;

/// The compact JSON text that `Value`'s `Display` writes.
pub uninterp spec fn json_text(v: Value) -> Seq<char>;

/// The text of `v` where `v` is a JSON string, `None` for any other value.
pub uninterp spec fn json_string(v: Value) -> Option<Seq<char>>;

/// `<serde_json::Value as Clone>::clone`, which serde_json derives: the copy
/// is the same JSON value as the original.
#[verifier::external_body]
pub(crate) fn clone_value(v: &Value) -> (r: Value)
    ensures
        r == *v,
{
    v.clone()
}

/// `serde_json::from_reader` into a `HashMap<String, Value>`, whose entries
/// are handed back as pairs: on success their keys are distinct and they
/// hold the object that `bytes` spell; the call fails exactly where `bytes`
/// spell no such object.
#[verifier::external_body]
pub(crate) fn parse_object(bytes: &[u8]) -> (r: Result<Vec<(String, Value)>, serde_json::Error>)
    ensures
        match r {
            Ok(entries) => distinct_keys(entries@) && json_object(bytes@) == Some(
                entries_map(entries@),
            ),
            Err(_) => json_object(bytes@) is None,
        },
{
    match serde_json::from_reader::<&[u8], std::collections::HashMap<String, Value>>(bytes) {
        Ok(map) => Ok(map.into_iter().collect()),
        Err(e) => Err(e),
    }
}

/// `serde_json::to_vec_pretty` of the object that holds the given entries,
/// collected into a `BTreeMap`, which serde walks in order of the keys: the
/// text depends on the entries alone, whatever serde_json's features, and is
/// `pretty_json_object` of the entries. serde_json documents that serialisation fails only where a
/// `Serialize` impl decides to fail or a map has keys that are not strings;
/// `Value`'s impl never fails, the keys are strings, and writing into a
/// `Vec` cannot fail, so the call succeeds.
#[verifier::external_body]
pub(crate) fn pretty_object_bytes(entries: &Vec<(String, Value)>) -> (r: Result<
    Vec<u8>,
    serde_json::Error,
>)
    requires
        distinct_keys(entries@),
    ensures
        match r {
            Ok(bytes) => bytes@ == pretty_json_object(entries_map(entries@)),
            Err(_) => false,
        },
{
    let object: std::collections::BTreeMap<&String, &Value> =
        entries.iter().map(|(k, v)| (k, v)).collect();
    serde_json::to_vec_pretty(&object)
}

/// `serde_json::to_vec_pretty` of an optional value: the bytes `pretty_json`
/// of the value. As for `pretty_object_bytes`, none of the failures that
/// serde_json documents can happen for a `Value`, so the call succeeds.
#[verifier::external_body]
pub(crate) fn pretty_bytes(v: &Option<Value>) -> (r: Result<Vec<u8>, serde_json::Error>)
    ensures
        match r {
            Ok(bytes) => bytes@ == pretty_json(*v),
            Err(_) => false,
        },
{
    serde_json::to_vec_pretty(v)
}

/// `Value`'s `Display` (`format!("{}", v)`): the compact JSON text of `v`.
#[verifier::external_body]
pub(crate) fn display_value(v: &Value) -> (r: String)
    ensures
        r@ == json_text(*v),
{
    format!("{}", v)
}

/// `serde_json::Value::as_str`, copied into an owned string.
#[verifier::external_body]
pub(crate) fn value_as_string(v: &Value) -> (r: Option<String>)
    ensures
        match r {
            Some(s) => json_string(*v) == Some(s@),
            None => json_string(*v) is None,
        },
{
    match v.as_str() {
        Some(s) => Some(s.to_string()),
        None => None,
    }
}

} // verus!
