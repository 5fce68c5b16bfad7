use drainer::drain_loop::{DrainAction, DrainEvent, DrainLoop, DrainerConfig};
use drainer::memory_store::MemoryStore;
use drainer::persister::MemoryPersister;
use std::collections::HashMap;

struct Member {
    instance: Option<DrainLoop>,
    request: Option<DrainAction>,
}

fn fleet_member(shards: u8) -> Member {
    let config = DrainerConfig {
        stream_prefix: "fleet".to_string(),
        num_partitions: shards,
        max_read_count: 2,
    };
    Member { instance: DrainLoop::new(config), request: None }
}

/// Serves one instance: carries out its request under way and hands it the
/// answer.
fn serve(member: &mut Member, store: &mut MemoryStore, persister: &mut MemoryPersister) {
    let event = match member.request.take() {
        None | Some(DrainAction::Finished { .. }) => DrainEvent::Wake { shutdown: false },
        Some(DrainAction::Persist { entries }) => DrainEvent::Persisted(persister.apply(&entries)),
        Some(request) => store.perform(&request).expect("a request for the store"),
    };
    let (instance, request) = member.instance.take().unwrap().step(event);
    assert!(!matches!(request, DrainAction::Ignored));
    member.instance = Some(instance);
    member.request = Some(request);
}

fn assert_no_shard_is_held_twice(members: &[Member], store: &MemoryStore) {
    let mut holders: HashMap<u8, usize> = HashMap::new();
    for member in members {
        let instance = member.instance.as_ref().unwrap();
        if instance.holds_lock() {
            *holders.entry(instance.shard()).or_insert(0) += 1;
            assert!(store.is_key_set(&format!("fleet_shard_{}_in_use", instance.shard())));
        }
    }
    for (shard, count) in holders {
        assert_eq!(count, 1, "shard {shard} is held by more than one instance");
    }
}

#[test]
fn interleaved_instances_never_share_a_shard() {
    let shards = 3u8;
    let mut store = MemoryStore::new();
    let mut persister = MemoryPersister::new();
    let mut appended = 0usize;
    for shard in 0..shards {
        for sequence in 1..=5u32 {
            let fields = HashMap::from([("n".to_string(), sequence.to_string())]);
            let id = format!("{}-{}", shard + 1, sequence);
            store.append_entry(&format!("fleet_shard_{shard}"), &id, fields).unwrap();
            appended += 1;
        }
    }
    let mut members: Vec<Member> = (0..4).map(|_| fleet_member(shards)).collect();
    let mut state: u64 = 0x2545_f491_4f6c_dd1d;
    for _ in 0..4000 {
        state = state
            .wrapping_mul(6364136223846793005)
            .wrapping_add(1442695040888963407);
        let at = ((state >> 33) % members.len() as u64) as usize;
        serve(&mut members[at], &mut store, &mut persister);
        assert_no_shard_is_held_twice(&members, &store);
    }
    for shard in 0..shards {
        assert_eq!(store.stream_len(&format!("fleet_shard_{shard}")), 0);
    }
    assert_eq!(persister.len(), appended);
}

#[test]
fn instances_served_in_turn_drain_every_shard() {
    let shards = 2u8;
    let mut store = MemoryStore::new();
    let mut persister = MemoryPersister::new();
    for shard in 0..shards {
        let fields = HashMap::from([("shard".to_string(), shard.to_string())]);
        store.append_entry(&format!("fleet_shard_{shard}"), "7-1", fields).unwrap();
    }
    let mut members: Vec<Member> = (0..2).map(|_| fleet_member(shards)).collect();
    for round in 0..200 {
        serve(&mut members[round % 2], &mut store, &mut persister);
        assert_no_shard_is_held_twice(&members, &store);
    }
    assert_eq!(store.stream_len("fleet_shard_0"), 0);
    assert_eq!(store.stream_len("fleet_shard_1"), 0);
    assert_eq!(persister.len(), 1);
    assert!(persister.get("7-1").is_some());
}
