//! One whole drain attempt in memory: an instance, run against the store
//! and the persister that live in memory, from its wake to the end of the
//! attempt.

use crate::drain_loop::{
    ActionModel, AttemptOutcome, DrainAction, DrainEvent, DrainLoop, LoopModel,
};
use crate::entry_id::entry_id_key;
use crate::memory_store::MemoryStore;
use crate::persister::{apply_by_id, DurableModel, MemoryPersister};
use crate::store_model::{entries_of_records, StoreModel};
use crate::system::{
    answers, batch_size, deliver, lemma_attempt_drains_batch, lemma_batch_end_is_boundary,
    lemma_drained_shard_reads_empty, lemma_first_entry_id_is_origin, lemma_read_leads_to_persist,
    wake,
};
use vstd::pervasive::unreached;
use vstd::prelude::*;

verus! {

/// How an attempt ends and what it leaves behind.
pub struct AttemptModel {
    /// The instance, idle before the next shard.
    pub instance: LoopModel,
    /// The store after the attempt.
    pub store: StoreModel,
    /// What is durably stored after the attempt.
    pub durable: DurableModel,
    /// How the attempt ended.
    pub outcome: AttemptOutcome,
    /// Whether the runner is to sleep before the next attempt.
    pub sleep: bool,
}

/// What an attempt of an idle instance comes to, against a store that
/// carries every request out and a persister that files every batch.
///
/// A shard whose flag is set is skipped. A shard without entries ends the
/// attempt as empty. Otherwise the oldest entries of the shard, as many as
/// one read may take, are filed by the persister and then removed from the
/// stream. In every case the flags and all other streams are as before.
pub open spec fn attempt(
    instance: LoopModel,
    store: StoreModel,
    durable: DurableModel,
) -> AttemptModel {
    let records = store.records(instance.stream());
    if store.flags.contains(instance.key()) {
        let (next, report) = instance.finish(AttemptOutcome::Skipped);
        AttemptModel {
            instance: next,
            store,
            durable,
            outcome: AttemptOutcome::Skipped,
            sleep: report->Finished_sleep,
        }
    } else if records.len() == 0 {
        let (next, report) = instance.finish(AttemptOutcome::Empty);
        AttemptModel {
            instance: next,
            store,
            durable,
            outcome: AttemptOutcome::Empty,
            sleep: report->Finished_sleep,
        }
    } else {
        let taken = batch_size(records.len(), instance.config.max_read_count) as int;
        let outcome = AttemptOutcome::Drained { removed: taken as usize };
        let found = LoopModel {
            config: instance.config,
            shard: instance.shard,
            phase: instance.phase,
            cycle_start: instance.cycle_start,
            drained_in_cycle: true,
        };
        AttemptModel {
            instance: found.finish(outcome).0,
            store: store.with_records(instance.stream(), records.skip(taken)),
            durable: apply_by_id(durable, entries_of_records(records.take(taken))),
            outcome,
            sleep: false,
        }
    }
}

/// Runs one attempt of an idle instance to its end. An instance that is
/// not idle is handed back untouched.
pub fn run_attempt(
    instance: DrainLoop,
    store: &mut MemoryStore,
    persister: &mut MemoryPersister,
) -> (ended: Result<(DrainLoop, AttemptOutcome, bool), DrainLoop>)
    ensures
        match ended {
            Ok((next, outcome, sleep)) => {
                let model = attempt(instance@, old(store)@, old(persister)@);
                &&& instance@.phase is Idle
                &&& next@ == model.instance
                &&& final(store)@ == model.store
                &&& final(persister)@ == model.durable
                &&& outcome == model.outcome
                &&& sleep == model.sleep
            },
            Err(same) => {
                &&& !(instance@.phase is Idle)
                &&& same == instance
                &&& final(store)@ == old(store)@
                &&& final(persister)@ == old(persister)@
            },
        },
{
    if !instance.is_idle() {
        return Err(instance);
    }
    let ghost start = instance@;
    let ghost store0 = store@;
    let ghost probing = wake(start, store0);

    let (instance, request) = instance.step(DrainEvent::Wake { shutdown: false });
    let acquired = store.perform(&request).unwrap();
    let ghost acquired_event = acquired;
    let ghost reading = deliver(probing, acquired_event);
    let ghost locked = store@;
    let (instance, request) = instance.step(acquired);
    if let DrainAction::Finished { outcome, sleep } = request {
        assert(store@.flags =~= store0.flags);
        return Ok((instance, outcome, sleep));
    }
    let read = store.perform(&request).unwrap();
    let ghost read_event = read;
    let ghost draining = deliver(reading, read_event);
    let ghost reading_instance = instance@;
    proof {
        lemma_first_entry_id_is_origin();
        if store0.records(start.stream()).len() > 0 {
            lemma_read_leads_to_persist(reading_instance, locked, read_event);
        } else {
            lemma_drained_shard_reads_empty(
                reading_instance,
                locked,
                read_event,
                DrainEvent::Released(Ok(())),
            );
        }
    }
    let (instance, request) = instance.step(read);
    if let DrainAction::Release { .. } = request {
        let released = store.perform(&request).unwrap();
        let (instance, request) = instance.step(released);
        assert(store@.flags =~= store0.flags);
        return match request {
            DrainAction::Finished { outcome, sleep } => Ok((instance, outcome, sleep)),
            _ => unreached(),
        };
    }
    let persisted = match request {
        DrainAction::Persist { entries } => {
            assert(entries.len() == batch_size(
                store0.records(start.stream()).len(),
                start.config.max_read_count,
            ));
            persister.apply(&entries)
        },
        _ => unreached(),
    };
    let persisted = DrainEvent::Persisted(persisted);
    let ghost persisted_event = persisted;
    let ghost trimming = deliver(draining, persisted_event);
    let (instance, request) = instance.step(persisted);
    assert(request@ == trimming.request);
    assert(store@ == locked);
    let trimmed = store.perform(&request).unwrap();
    let ghost trimmed_event = trimmed;
    let ghost deleting = deliver(trimming, trimmed_event);
    proof {
        let stream = start.stream();
        let records = store0.records(stream);
        let taken = batch_size(records.len(), start.config.max_read_count) as int;
        let last = records[taken - 1];
        assert(trimming.request == ActionModel::Trim { stream, min_id: last.entry.0 });
        assert(entry_id_key(last.entry.0) == Some(last.key));
        assert(locked.records(stream) == records);
        assert(answers(locked, trimming.request, trimmed_event));
        lemma_batch_end_is_boundary(records, taken);
        assert(trimmed_event.in_range());
    }
    let (instance, request) = instance.step(trimmed);
    let deleted = store.perform(&request).unwrap();
    let ghost deleted_event = deleted;
    let ghost releasing = deliver(deleting, deleted_event);
    let (instance, request) = instance.step(deleted);
    let released = store.perform(&request).unwrap();
    proof {
        lemma_attempt_drains_batch(
            start,
            store0,
            acquired_event,
            read_event,
            persisted_event,
            trimmed_event,
            deleted_event,
            released,
        );
    }
    let (instance, request) = instance.step(released);
    match request {
        DrainAction::Finished { outcome, sleep } => Ok((instance, outcome, sleep)),
        _ => unreached(),
    }
}

} // verus!
