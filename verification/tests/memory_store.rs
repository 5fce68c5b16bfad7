use drainer::errors::DrainerError;
use drainer::gate::SetnxReply;
use drainer::memory_store::MemoryStore;
use drainer::parser::parse_stream_entries;
use drainer::trimmer::removed_count;
use std::collections::HashMap;

fn store_fields(field: &str, value: &str) -> HashMap<String, String> {
    let mut fields = HashMap::new();
    fields.insert(field.to_string(), value.to_string());
    fields
}

fn store_with_ids(stream: &str, ids: &[&str]) -> MemoryStore {
    let mut store = MemoryStore::new();
    for id in ids {
        assert_eq!(store.append_entry(stream, id, store_fields("id", id)), Ok(()));
    }
    store
}

fn ids_read(store: &MemoryStore, stream: &str, start: &str, count: Option<u64>) -> Vec<String> {
    let result = store.stream_read_entries(stream, start, count).unwrap();
    match result.get(stream) {
        Some(entries) => entries.iter().map(|entry| entry.0.clone()).collect(),
        None => Vec::new(),
    }
}

#[test]
fn of_many_acquires_exactly_one_creates_the_flag() {
    let mut store = MemoryStore::new();
    let mut wins = 0;
    for _ in 0..10 {
        if store.set_key_if_not_exist("drainer_shard_3_in_use") == SetnxReply::KeySet {
            wins += 1;
        }
    }
    assert_eq!(wins, 1);
    assert!(store.is_key_set("drainer_shard_3_in_use"));
}

#[test]
fn first_acquire_wins_and_the_next_loses() {
    let mut store = MemoryStore::new();
    assert_eq!(store.set_key_if_not_exist("k"), SetnxReply::KeySet);
    assert_eq!(store.set_key_if_not_exist("k"), SetnxReply::KeyNotSet);
    assert_eq!(store.set_key_if_not_exist("other"), SetnxReply::KeySet);
}

#[test]
fn acquire_release_acquire_creates_the_flag_again() {
    let mut store = MemoryStore::new();
    assert_eq!(store.set_key_if_not_exist("k"), SetnxReply::KeySet);
    store.delete_key("k");
    assert!(!store.is_key_set("k"));
    assert_eq!(store.set_key_if_not_exist("k"), SetnxReply::KeySet);
}

#[test]
fn release_is_idempotent() {
    let mut store = MemoryStore::new();
    store.delete_key("never_set");
    assert!(!store.is_key_set("never_set"));
    assert_eq!(store.set_key_if_not_exist("k"), SetnxReply::KeySet);
    store.delete_key("k");
    store.delete_key("k");
    assert!(!store.is_key_set("k"));
}

#[test]
fn read_returns_entries_oldest_first() {
    let store = store_with_ids("s", &["1-1", "1-2", "2-0", "10-0"]);
    assert_eq!(ids_read(&store, "s", "0-0", None), ["1-1", "1-2", "2-0", "10-0"]);
    assert_eq!(store.stream_len("s"), 4);
}

#[test]
fn read_is_bounded_by_the_count() {
    let store = store_with_ids("s", &["1-1", "1-2", "2-0", "10-0"]);
    assert_eq!(ids_read(&store, "s", "0-0", Some(2)), ["1-1", "1-2"]);
    assert_eq!(ids_read(&store, "s", "0-0", Some(4)), ["1-1", "1-2", "2-0", "10-0"]);
    assert_eq!(ids_read(&store, "s", "0-0", Some(9)), ["1-1", "1-2", "2-0", "10-0"]);
    assert_eq!(ids_read(&store, "s", "0-0", Some(1)), ["1-1"]);
}

#[test]
fn read_starts_above_the_start_id() {
    let store = store_with_ids("s", &["1-1", "1-2", "2-0", "10-0"]);
    assert_eq!(ids_read(&store, "s", "1-1", None), ["1-2", "2-0", "10-0"]);
    assert_eq!(ids_read(&store, "s", "1-5", Some(1)), ["2-0"]);
    assert_eq!(ids_read(&store, "s", "10-0", None), Vec::<String>::new());
}

#[test]
fn read_keeps_the_fields() {
    let store = store_with_ids("s", &["1-1"]);
    let result = store.stream_read_entries("s", "0-0", Some(5)).unwrap();
    let entries = result.get("s").unwrap();
    assert_eq!(entries.len(), 1);
    assert_eq!(entries[0].0, "1-1");
    assert_eq!(entries[0].1, store_fields("id", "1-1"));
}

#[test]
fn read_of_a_stream_without_entries_records_nothing() {
    let store = MemoryStore::new();
    let result = store.stream_read_entries("s", "0-0", Some(5)).unwrap();
    assert!(result.is_empty());
    assert_eq!(
        parse_stream_entries(&result, "s").err(),
        Some(DrainerError::StreamNotFound)
    );
}

#[test]
fn read_does_not_change_the_stream() {
    let store = store_with_ids("s", &["1-1", "1-2"]);
    let first = ids_read(&store, "s", "0-0", Some(10));
    let second = ids_read(&store, "s", "0-0", Some(10));
    assert_eq!(first, second);
    assert_eq!(store.stream_len("s"), 2);
}

#[test]
fn read_refuses_a_malformed_start_id() {
    let store = store_with_ids("s", &["1-1"]);
    assert_eq!(
        store.stream_read_entries("s", "zero", None).err(),
        Some(DrainerError::InvalidEntryId)
    );
}

#[test]
fn trim_removes_what_lies_strictly_below() {
    let mut store = store_with_ids("s", &["1-1", "1-2", "2-0", "10-0"]);
    assert_eq!(store.stream_trim_entries("s", "2-0"), Ok(2));
    assert_eq!(ids_read(&store, "s", "0-0", None), ["2-0", "10-0"]);
    assert_eq!(store.stream_trim_entries("s", "2-0"), Ok(0));
    assert_eq!(store.stream_trim_entries("s", "3-0"), Ok(1));
    assert_eq!(ids_read(&store, "s", "0-0", None), ["10-0"]);
    assert_eq!(store.stream_trim_entries("s", "99-0"), Ok(1));
    assert_eq!(store.stream_len("s"), 0);
}

#[test]
fn trim_of_an_unknown_stream_removes_nothing() {
    let mut store = MemoryStore::new();
    assert_eq!(store.stream_trim_entries("s", "2-0"), Ok(0));
}

#[test]
fn trim_and_delete_refuse_a_malformed_id() {
    let mut store = store_with_ids("s", &["1-1", "1-2"]);
    assert_eq!(
        store.stream_trim_entries("s", "1"),
        Err(DrainerError::InvalidEntryId)
    );
    assert_eq!(
        store.stream_delete_entries("s", "1-"),
        Err(DrainerError::InvalidEntryId)
    );
    assert_eq!(store.stream_len("s"), 2);
}

#[test]
fn delete_removes_the_one_entry() {
    let mut store = store_with_ids("s", &["1-1", "1-2", "2-0"]);
    assert_eq!(store.stream_delete_entries("s", "1-2"), Ok(1));
    assert_eq!(ids_read(&store, "s", "0-0", None), ["1-1", "2-0"]);
    assert_eq!(store.stream_delete_entries("s", "1-2"), Ok(0));
    assert_eq!(store.stream_delete_entries("s", "5-5"), Ok(0));
    assert_eq!(store.stream_delete_entries("unknown", "1-1"), Ok(0));
    assert_eq!(store.stream_delete_entries("s", "2-0"), Ok(1));
    assert_eq!(store.stream_delete_entries("s", "1-1"), Ok(1));
    assert_eq!(store.stream_len("s"), 0);
}

#[test]
fn trim_through_an_id_removes_those_below_and_one() {
    let mut store = store_with_ids("s", &["1-1", "1-2", "2-0", "3-0", "10-0"]);
    let below = store.stream_trim_entries("s", "2-0").unwrap();
    assert_eq!(below, 2);
    assert_eq!(store.stream_delete_entries("s", "2-0"), Ok(1));
    assert_eq!(removed_count(below), 3);
    assert_eq!(store.stream_len("s"), 2);
    assert_eq!(ids_read(&store, "s", "0-0", None), ["3-0", "10-0"]);
}

#[test]
fn trim_through_the_last_id_of_two_removes_two() {
    let mut store = MemoryStore::new();
    assert_eq!(store.append_entry("s", "1-1", store_fields("a", "1")), Ok(()));
    assert_eq!(store.append_entry("s", "1-2", store_fields("a", "2")), Ok(()));
    let result = store.stream_read_entries("s", "0-0", Some(10)).unwrap();
    let (entries, last_id) = parse_stream_entries(&result, "s").unwrap();
    assert_eq!(entries.len(), 2);
    assert_eq!(entries[0], ("1-1".to_string(), store_fields("a", "1")));
    assert_eq!(entries[1], ("1-2".to_string(), store_fields("a", "2")));
    assert_eq!(last_id, "1-2");
    let below = store.stream_trim_entries("s", &last_id).unwrap();
    store.stream_delete_entries("s", &last_id).unwrap();
    assert_eq!(removed_count(below), 2);
    let again = store.stream_read_entries("s", "0-0", Some(10)).unwrap();
    assert_eq!(
        parse_stream_entries(&again, "s").err(),
        Some(DrainerError::StreamNotFound)
    );
}

#[test]
fn append_refuses_ids_that_do_not_ascend() {
    let mut store = store_with_ids("s", &["1-1", "1-5"]);
    assert_eq!(
        store.append_entry("s", "1-5", store_fields("a", "1")),
        Err(DrainerError::InvalidEntryId)
    );
    assert_eq!(
        store.append_entry("s", "1-3", store_fields("a", "1")),
        Err(DrainerError::InvalidEntryId)
    );
    assert_eq!(
        store.append_entry("s", "0-9", store_fields("a", "1")),
        Err(DrainerError::InvalidEntryId)
    );
    assert_eq!(store.append_entry("s", "1-6", store_fields("a", "1")), Ok(()));
    assert_eq!(store.append_entry("other", "1-1", store_fields("a", "1")), Ok(()));
    assert_eq!(store.stream_len("s"), 3);
    assert_eq!(store.stream_len("other"), 1);
}

#[test]
fn append_refuses_the_origin_and_malformed_ids() {
    let mut store = MemoryStore::new();
    assert_eq!(
        store.append_entry("s", "0-0", store_fields("a", "1")),
        Err(DrainerError::InvalidEntryId)
    );
    assert_eq!(
        store.append_entry("s", "one-two", store_fields("a", "1")),
        Err(DrainerError::InvalidEntryId)
    );
    assert_eq!(store.stream_len("s"), 0);
    assert_eq!(store.append_entry("s", "0-1", store_fields("a", "1")), Ok(()));
    assert_eq!(store.stream_len("s"), 1);
}

#[test]
fn streams_and_flags_do_not_touch_each_other() {
    let mut store = store_with_ids("a", &["1-1", "1-2"]);
    assert_eq!(store.append_entry("b", "1-1", store_fields("x", "y")), Ok(()));
    assert_eq!(store.set_key_if_not_exist("a"), SetnxReply::KeySet);
    assert_eq!(store.stream_trim_entries("a", "9-9"), Ok(2));
    assert_eq!(store.stream_len("a"), 0);
    assert_eq!(store.stream_len("b"), 1);
    assert!(store.is_key_set("a"));
    store.delete_key("a");
    assert_eq!(store.stream_len("b"), 1);
}
