use drainer::attempt::run_attempt;
use drainer::drain_loop::{AttemptOutcome, DrainEvent, DrainLoop, DrainerConfig};
use drainer::memory_store::MemoryStore;
use drainer::persister::MemoryPersister;
use std::collections::HashMap;

fn attempt_loop(shards: u8, max_read_count: u64) -> DrainLoop {
    DrainLoop::new(DrainerConfig {
        stream_prefix: "drainer".to_string(),
        num_partitions: shards,
        max_read_count,
    })
    .unwrap()
}

fn attempt_fields(value: &str) -> HashMap<String, String> {
    HashMap::from([("a".to_string(), value.to_string())])
}

#[test]
fn whole_attempt_drains_two_entries_and_the_next_finds_nothing() {
    let mut store = MemoryStore::new();
    let mut persister = MemoryPersister::new();
    store.append_entry("drainer_shard_0", "1-1", attempt_fields("1")).unwrap();
    store.append_entry("drainer_shard_0", "1-2", attempt_fields("2")).unwrap();
    let (instance, outcome, sleep) =
        run_attempt(attempt_loop(1, 10), &mut store, &mut persister).ok().unwrap();
    assert_eq!(outcome, AttemptOutcome::Drained { removed: 2 });
    assert!(!sleep);
    assert!(instance.is_idle());
    assert_eq!(instance.shard(), 0);
    assert_eq!(store.stream_len("drainer_shard_0"), 0);
    assert!(!store.is_key_set("drainer_shard_0_in_use"));
    assert_eq!(persister.len(), 2);
    assert_eq!(persister.get("1-1"), Some(&attempt_fields("1")));
    assert_eq!(persister.get("1-2"), Some(&attempt_fields("2")));
    let (_, outcome, sleep) = run_attempt(instance, &mut store, &mut persister).ok().unwrap();
    assert_eq!(outcome, AttemptOutcome::Empty);
    assert!(sleep);
    assert_eq!(persister.len(), 2);
}

#[test]
fn whole_attempt_takes_no_more_than_one_read() {
    let mut store = MemoryStore::new();
    let mut persister = MemoryPersister::new();
    for id in ["1-1", "1-2", "1-3"] {
        store.append_entry("drainer_shard_0", id, attempt_fields(id)).unwrap();
    }
    let (instance, outcome, _) =
        run_attempt(attempt_loop(2, 2), &mut store, &mut persister).ok().unwrap();
    assert_eq!(outcome, AttemptOutcome::Drained { removed: 2 });
    assert_eq!(instance.shard(), 1);
    assert_eq!(store.stream_len("drainer_shard_0"), 1);
    assert_eq!(persister.len(), 2);
    assert!(persister.get("1-3").is_none());
}

#[test]
fn whole_attempt_skips_a_held_shard() {
    let mut store = MemoryStore::new();
    let mut persister = MemoryPersister::new();
    store.append_entry("drainer_shard_0", "1-1", attempt_fields("1")).unwrap();
    store.set_key_if_not_exist("drainer_shard_0_in_use");
    let (instance, outcome, sleep) =
        run_attempt(attempt_loop(3, 10), &mut store, &mut persister).ok().unwrap();
    assert_eq!(outcome, AttemptOutcome::Skipped);
    assert!(!sleep);
    assert_eq!(instance.shard(), 1);
    assert_eq!(store.stream_len("drainer_shard_0"), 1);
    assert!(store.is_key_set("drainer_shard_0_in_use"));
    assert_eq!(persister.len(), 0);
}

#[test]
fn whole_attempt_hands_back_an_instance_that_is_not_idle() {
    let mut store = MemoryStore::new();
    let mut persister = MemoryPersister::new();
    let (probing, _) = attempt_loop(3, 10).step(DrainEvent::Wake { shutdown: false });
    let back = run_attempt(probing, &mut store, &mut persister).err().unwrap();
    assert!(!back.is_idle());
    assert!(!store.is_key_set("drainer_shard_0_in_use"));
    let (stopped, _) = attempt_loop(3, 10).step(DrainEvent::Wake { shutdown: true });
    let back = run_attempt(stopped, &mut store, &mut persister).err().unwrap();
    assert!(back.is_stopped());
}

#[test]
fn rotation_of_whole_attempts_drains_every_shard() {
    let shards = 4u8;
    let mut store = MemoryStore::new();
    let mut persister = MemoryPersister::new();
    for shard in 0..shards {
        for sequence in 1..=3u8 {
            let id = format!("{}-{}", shard + 1, sequence);
            store
                .append_entry(&format!("drainer_shard_{shard}"), &id, attempt_fields(&id))
                .unwrap();
        }
    }
    let mut instance = attempt_loop(shards, 2);
    let mut slept = 0;
    let mut attempts = 0;
    while slept == 0 {
        let (next, _, sleep) = run_attempt(instance, &mut store, &mut persister).ok().unwrap();
        instance = next;
        attempts += 1;
        if sleep {
            slept += 1;
        }
        assert!(attempts <= 100);
    }
    assert_eq!(attempts, 12);
    assert_eq!(persister.len(), 12);
    for shard in 0..shards {
        assert_eq!(store.stream_len(&format!("drainer_shard_{shard}")), 0);
    }
}
