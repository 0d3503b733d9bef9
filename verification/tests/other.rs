use mini_redis::connection::{changes_store, Request};
use mini_redis::config::{data_path_from_setting, Configuration};
use mini_redis::error::{CrateError, ServerError};
use mini_redis::http::{delete, insert, read, InsertRequest};
use mini_redis::profiling::SampleLog;
use mini_redis::store::KvStore;
use serde_json::Value;

#[test]
fn default_configuration_names_data_json() {
    assert_eq!(Configuration::default().data_path, "data.json");
}

#[test]
fn data_path_from_setting_takes_strings_only() {
    assert_eq!(data_path_from_setting(&Some(Value::from("/tmp/d.json"))), "/tmp/d.json");
    assert_eq!(data_path_from_setting(&Some(Value::from(3))), "data/data.json");
    assert_eq!(data_path_from_setting(&None), "data/data.json");
}

fn body(key: &str, value: Value) -> InsertRequest {
    InsertRequest { key: key.into(), value }
}

#[test]
fn http_replies() {
    let mut store = KvStore::new();
    assert_eq!(insert(&mut store, body("k", Value::from("v"))), "null");
    assert_eq!(insert(&mut store, body("k", Value::from(2))), "Old value: \"v\"");
    assert_eq!(read(&store, body("k", Value::Null)), "2");
    assert_eq!(read(&store, body("missing", Value::Null)), "null");
    assert_eq!(delete(&mut store, body("k", Value::Null)), "2");
    assert_eq!(delete(&mut store, body("k", Value::Null)), "null");
}

#[test]
fn crate_error_messages() {
    assert_eq!(CrateError::EmptyWindow.message(), "\"from\" needs to be before \"to\"");
    assert_eq!(CrateError::NoElements.message(), "Could not find any elements");
}

fn log_of(times: &[u64]) -> SampleLog<usize> {
    let mut log = SampleLog::new();
    for (i, t) in times.iter().enumerate() {
        log.push(i, *t);
    }
    log
}

#[test]
fn window_bounds_finds_samples_in_window() {
    let log = log_of(&[10, 20, 30, 40, 50]);
    assert_eq!(log.window_bounds(20, 20).unwrap(), (1, 3));
    assert_eq!(log.window_bounds(15, 10).unwrap(), (1, 1));
    assert_eq!(log.window_bounds(0, 100).unwrap(), (0, 4));
}

#[test]
fn window_bounds_errors() {
    let log = log_of(&[10, 20, 30]);
    assert!(matches!(log.window_bounds(20, 0), Err(ServerError::CrateError(CrateError::EmptyWindow))));
    assert!(matches!(log.window_bounds(21, 5), Err(ServerError::CrateError(CrateError::NoElements))));
    assert!(matches!(log.window_bounds(31, 5), Err(ServerError::CrateError(CrateError::NoElements))));
}

#[test]
fn sort_is_stable_by_time() {
    let mut log = log_of(&[30, 10, 30, 20, 10]);
    assert_eq!(log.first_time(), Some(10));
    log.sort();
    let order: Vec<(u64, usize)> = (0..log.len()).map(|i| (log.get(i).time, log.get(i).data)).collect();
    assert_eq!(order, vec![(10, 1), (10, 4), (20, 3), (30, 0), (30, 2)]);
}

#[test]
fn sorting_a_sorted_log_changes_nothing() {
    let mut log = log_of(&[5, 5, 7, 9]);
    log.sort();
    let order: Vec<(u64, usize)> = (0..log.len()).map(|i| (log.get(i).time, log.get(i).data)).collect();
    assert_eq!(order, vec![(5, 0), (5, 1), (7, 2), (9, 3)]);
    let mut twice = log_of(&[3, 1, 3, 1]);
    twice.sort();
    let once: Vec<(u64, usize)> = (0..twice.len()).map(|i| (twice.get(i).time, twice.get(i).data)).collect();
    twice.sort();
    let again: Vec<(u64, usize)> = (0..twice.len()).map(|i| (twice.get(i).time, twice.get(i).data)).collect();
    assert_eq!(once, again);
}

#[test]
fn zero_window_is_refused_whatever_the_samples() {
    let log = log_of(&[30, 10, 20]);
    assert!(matches!(log.window_bounds(100, 0), Err(ServerError::CrateError(CrateError::EmptyWindow))));
    assert!(matches!(log.window_bounds(0, 0), Err(ServerError::CrateError(CrateError::EmptyWindow))));
}

#[test]
fn store_from_parse_result() {
    let parse_error = serde_json::from_str::<Value>("{").unwrap_err();
    assert_eq!(KvStore::from_parsed(Err(parse_error)).len(), 0);
    let store = KvStore::from_parsed(Ok(vec![("a".to_string(), Value::from(1)), ("b".to_string(), Value::Null)]));
    assert_eq!(store.len(), 2);
    assert_eq!(store.read("a"), Some(Value::from(1)));
    assert_eq!(store.read("b"), Some(Value::Null));
}

#[test]
fn only_inserts_and_deletes_change_the_store() {
    assert!(changes_store(&Ok(Request::Insert("a".into(), Value::Null))));
    assert!(changes_store(&Ok(Request::Delete("a".into()))));
    assert!(!changes_store(&Ok(Request::Read("a".into()))));
    let parse_error = serde_json::from_str::<Value>("{").unwrap_err();
    assert!(!changes_store(&Err(ServerError::SerdeJsonError(parse_error))));
}

#[test]
fn samples_pushed_in_time_order_go_at_the_end() {
    let log = log_of(&[1, 2, 2, 5]);
    let order: Vec<(u64, usize)> = (0..log.len()).map(|i| (log.get(i).time, log.get(i).data)).collect();
    assert_eq!(order, vec![(1, 0), (2, 1), (2, 2), (5, 3)]);
    assert_eq!(SampleLog::<usize>::new().first_time(), None);
}
