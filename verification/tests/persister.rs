use drainer::persister::MemoryPersister;
use drainer::stream::StreamEntries;
use std::collections::HashMap;

fn row(field: &str, value: &str) -> HashMap<String, String> {
    let mut fields = HashMap::new();
    fields.insert(field.to_string(), value.to_string());
    fields
}

fn sample_batch() -> StreamEntries {
    vec![
        ("1-1".to_string(), row("a", "1")),
        ("1-2".to_string(), row("a", "2")),
        ("2-0".to_string(), row("b", "x")),
    ]
}

#[test]
fn applied_batch_is_stored_by_id() {
    let mut persister = MemoryPersister::new();
    assert_eq!(persister.len(), 0);
    assert!(persister.get("1-1").is_none());
    assert_eq!(persister.apply(&sample_batch()), Ok(()));
    assert_eq!(persister.len(), 3);
    assert_eq!(persister.get("1-1"), Some(&row("a", "1")));
    assert_eq!(persister.get("1-2"), Some(&row("a", "2")));
    assert_eq!(persister.get("2-0"), Some(&row("b", "x")));
    assert!(persister.get("3-0").is_none());
}

#[test]
fn applying_a_batch_twice_is_applying_it_once() {
    let mut persister = MemoryPersister::new();
    persister.apply(&vec![("0-7".to_string(), row("kept", "yes"))]).unwrap();
    persister.apply(&sample_batch()).unwrap();
    let once: Vec<Option<HashMap<String, String>>> = ["0-7", "1-1", "1-2", "2-0"]
        .iter()
        .map(|id| persister.get(id).cloned())
        .collect();
    let len_once = persister.len();
    persister.apply(&sample_batch()).unwrap();
    let twice: Vec<Option<HashMap<String, String>>> = ["0-7", "1-1", "1-2", "2-0"]
        .iter()
        .map(|id| persister.get(id).cloned())
        .collect();
    assert_eq!(once, twice);
    assert_eq!(persister.len(), len_once);
    assert_eq!(len_once, 4);
}

#[test]
fn later_entry_under_the_same_id_replaces_the_earlier() {
    let mut persister = MemoryPersister::new();
    let batch: StreamEntries = vec![
        ("1-1".to_string(), row("a", "old")),
        ("1-1".to_string(), row("a", "new")),
    ];
    persister.apply(&batch).unwrap();
    assert_eq!(persister.len(), 1);
    assert_eq!(persister.get("1-1"), Some(&row("a", "new")));
}

#[test]
fn empty_batch_changes_nothing() {
    let mut persister = MemoryPersister::new();
    persister.apply(&sample_batch()).unwrap();
    persister.apply(&Vec::new()).unwrap();
    assert_eq!(persister.len(), 3);
}
