use drainer::errors::DrainerError;
use drainer::parser::parse_stream_entries;
use drainer::stream::{StreamEntries, StreamReadResult};
use std::collections::HashMap;

fn parser_entry(id: &str, field: &str, value: &str) -> (String, HashMap<String, String>) {
    let mut fields = HashMap::new();
    fields.insert(field.to_string(), value.to_string());
    (id.to_string(), fields)
}

#[test]
fn absent_stream_is_nothing_to_drain() {
    let read_result = StreamReadResult::new();
    let parsed = parse_stream_entries(&read_result, "drainer_shard_0");
    assert_eq!(parsed.err(), Some(DrainerError::StreamNotFound));
}

#[test]
fn absent_stream_beside_other_streams_is_nothing_to_drain() {
    let mut read_result = StreamReadResult::new();
    read_result.insert(
        "drainer_shard_1".to_string(),
        vec![parser_entry("1-1", "a", "1")],
    );
    let parsed = parse_stream_entries(&read_result, "drainer_shard_0");
    assert_eq!(parsed.err(), Some(DrainerError::StreamNotFound));
}

#[test]
fn recorded_stream_without_entries_is_told_apart() {
    let mut read_result = StreamReadResult::new();
    let none: StreamEntries = Vec::new();
    read_result.insert("drainer_shard_0".to_string(), none);
    let parsed = parse_stream_entries(&read_result, "drainer_shard_0");
    assert_eq!(parsed.err(), Some(DrainerError::EmptyStream));
    assert_ne!(DrainerError::EmptyStream, DrainerError::StreamNotFound);
}

#[test]
fn batch_comes_back_whole_with_its_last_id() {
    let mut read_result = StreamReadResult::new();
    let entries = vec![
        parser_entry("1-1", "a", "1"),
        parser_entry("1-2", "a", "2"),
        parser_entry("7-0", "b", "x"),
    ];
    read_result.insert("drainer_shard_0".to_string(), entries.clone());
    read_result.insert(
        "drainer_shard_1".to_string(),
        vec![parser_entry("9-9", "z", "z")],
    );
    let (batch, last_id) = parse_stream_entries(&read_result, "drainer_shard_0").unwrap();
    assert_eq!(batch, &entries);
    assert_eq!(last_id, "7-0");
}

#[test]
fn single_entry_is_its_own_last() {
    let mut read_result = StreamReadResult::new();
    read_result.insert("s".to_string(), vec![parser_entry("5-3", "k", "v")]);
    let (batch, last_id) = parse_stream_entries(&read_result, "s").unwrap();
    assert_eq!(batch.len(), 1);
    assert_eq!(last_id, "5-3");
}
