use mini_redis::store::KvStore;
use serde_json::Value;

#[test]
fn new_store_is_empty() {
    let store = KvStore::new();
    assert_eq!(store.len(), 0);
    assert_eq!(store.read("a"), None);
}

#[test]
fn read_after_write_gives_written_value() {
    let mut store = KvStore::new();
    assert_eq!(store.write("a", Value::from(1)), None);
    assert_eq!(store.read("a"), Some(Value::from(1)));
    assert_eq!(store.len(), 1);
}

#[test]
fn write_hands_back_previous_value() {
    let mut store = KvStore::new();
    store.write("k", Value::from("first"));
    assert_eq!(store.write("k", Value::from("second")), Some(Value::from("first")));
    assert_eq!(store.read("k"), Some(Value::from("second")));
    assert_eq!(store.len(), 1);
}

#[test]
fn write_keeps_other_keys() {
    let mut store = KvStore::new();
    store.write("a", Value::from(1));
    store.write("b", Value::from(2));
    store.write("a", Value::from(3));
    assert_eq!(store.read("b"), Some(Value::from(2)));
    assert_eq!(store.read("a"), Some(Value::from(3)));
    assert_eq!(store.len(), 2);
}

#[test]
fn delete_hands_back_removed_value() {
    let mut store = KvStore::new();
    store.write("a", Value::from(true));
    store.write("b", Value::from(false));
    assert_eq!(store.delete("a"), Some(Value::from(true)));
    assert_eq!(store.read("a"), None);
    assert_eq!(store.delete("a"), None);
    assert_eq!(store.read("b"), Some(Value::from(false)));
    assert_eq!(store.len(), 1);
}

#[test]
fn delete_of_missing_key_changes_nothing() {
    let mut store = KvStore::new();
    store.write("x", Value::Null);
    assert_eq!(store.delete("y"), None);
    assert_eq!(store.len(), 1);
    assert_eq!(store.read("x"), Some(Value::Null));
}

#[test]
fn load_of_json_object() {
    let store = KvStore::from_json_bytes(br#"{"a": 1, "b": [true, null]}"#);
    assert_eq!(store.len(), 2);
    assert_eq!(store.read("a"), Some(Value::from(1)));
    assert_eq!(store.read("b"), Some(Value::from(vec![Value::Bool(true), Value::Null])));
}

#[test]
fn load_of_unparsable_bytes_is_empty() {
    assert_eq!(KvStore::from_json_bytes(b"not json").len(), 0);
    assert_eq!(KvStore::from_json_bytes(b"").len(), 0);
    assert_eq!(KvStore::from_json_bytes(b"[1, 2]").len(), 0);
}

#[test]
fn saved_bytes_load_back_to_same_store() {
    let mut store = KvStore::new();
    store.write("b", Value::from("two"));
    store.write("a", Value::from(1));
    let bytes = store.to_json_bytes().unwrap();
    let loaded = KvStore::from_json_bytes(&bytes);
    assert_eq!(loaded.len(), 2);
    assert_eq!(loaded.read("a"), Some(Value::from(1)));
    assert_eq!(loaded.read("b"), Some(Value::from("two")));
}

#[test]
fn saved_bytes_are_pretty_json_in_key_order() {
    let mut store = KvStore::new();
    store.write("b", Value::from(2));
    store.write("a", Value::from(1));
    let bytes = store.to_json_bytes().unwrap();
    assert_eq!(String::from_utf8(bytes).unwrap(), "{\n  \"a\": 1,\n  \"b\": 2\n}");
    assert_eq!(KvStore::new().to_json_bytes().unwrap(), b"{}".to_vec());
}

#[test]
fn written_value_survives_other_keys_requests() {
    let mut store = KvStore::new();
    store.write("k", Value::from("v"));
    store.write("a", Value::from(1));
    store.delete("a");
    store.write("b", Value::from(2));
    store.read("k");
    assert_eq!(store.read("k"), Some(Value::from("v")));
}

#[test]
fn deleted_key_stays_absent_under_other_keys_requests() {
    let mut store = KvStore::new();
    store.write("k", Value::from("v"));
    store.write("a", Value::from(1));
    assert_eq!(store.delete("k"), Some(Value::from("v")));
    store.write("b", Value::from(2));
    store.delete("a");
    assert_eq!(store.read("k"), None);
    assert_eq!(store.delete("k"), None);
    assert_eq!(store.len(), 1);
    assert_eq!(store.read("b"), Some(Value::from(2)));
}
