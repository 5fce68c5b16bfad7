//! Drainer instances together with the store that they share: what the
//! store does with each request, what it answers, and what follows for
//! whole attempts.

use crate::drain_loop::{
    first_entry_id, transition, ActionModel, AttemptOutcome, DrainEvent, LoopModel, PhaseModel,
};
use crate::entry_id::{entry_id_key, key_below};
use crate::errors::DrainerError;
use crate::parser::parsed_stream;
use crate::rotation::{lemma_next_is_a_shard, next_index};
use crate::store_model::{
    ascending, count_below, entries_of_records, holds_key, key_within, keyed_by_id,
    lemma_boundary_is_count, lemma_trim_through_id, origin, read_records, RecordModel, StoreModel,
};
use crate::stream::{batch_model, read_model, EntryModel};
use vstd::prelude::*;

verus! {

/// What a request leaves of the store, once carried out. Requests that
/// only read, and those that go to the persister or to the runner, leave it
/// as it was.
pub open spec fn store_after(store: StoreModel, request: ActionModel) -> StoreModel {
    match request {
        ActionModel::Acquire { key } => store.set_if_absent(key).0,
        ActionModel::Release { key } => store.delete_key(key),
        ActionModel::Trim { stream, min_id } => match entry_id_key(min_id) {
            Some(min) => store.trim(stream, min).0,
            None => store,
        },
        ActionModel::Delete { stream, id } => match entry_id_key(id) {
            Some(key) => store.delete_entry(stream, key).0,
            None => store,
        },
        _ => store,
    }
}

/// Whether `event` is what comes back for `request` from a store in the
/// state `store` that carries every request out. For a batch handed to the
/// persister either answer can come back.
pub open spec fn answers(store: StoreModel, request: ActionModel, event: DrainEvent) -> bool {
    match request {
        ActionModel::Acquire { key } => event matches DrainEvent::Acquired(Ok(reply)) && reply
            == store.set_if_absent(key).1,
        ActionModel::Read { stream, start_id, count } => event matches DrainEvent::Read(Ok(result))
            && entry_id_key(start_id) matches Some(start) && read_model(result) == store.read(
            stream,
            start,
            Some(count),
        ),
        ActionModel::Persist { entries } => event is Persisted,
        ActionModel::Trim { stream, min_id } => event matches DrainEvent::Trimmed(Ok(trimmed))
            && entry_id_key(min_id) matches Some(min) && trimmed == store.trim(stream, min).1,
        ActionModel::Delete { stream, id } => event matches DrainEvent::Deleted(Ok(deleted))
            && entry_id_key(id) matches Some(key) && deleted == store.delete_entry(stream, key).1,
        ActionModel::Release { key } => event is Released,
        ActionModel::Finished { outcome, sleep } => event is Wake,
        ActionModel::Stop => false,
        ActionModel::Ignored => false,
    }
}

/// Whether a request is one for the store.
pub open spec fn is_store_request(request: ActionModel) -> bool {
    request is Acquire || request is Read || request is Trim || request is Delete
        || request is Release
}

/// Whether a request names an entry by an id that is not of the form
/// `<milliseconds>-<sequence>`. The store refuses such a request and
/// changes nothing.
pub open spec fn refused(request: ActionModel) -> bool {
    match request {
        ActionModel::Read { start_id, .. } => entry_id_key(start_id) is None,
        ActionModel::Trim { min_id, .. } => entry_id_key(min_id) is None,
        ActionModel::Delete { id, .. } => entry_id_key(id) is None,
        _ => false,
    }
}

/// An instance, the store, and the request of the instance that is under
/// way.
pub struct SystemModel {
    pub instance: LoopModel,
    pub store: StoreModel,
    pub request: ActionModel,
}

/// The system after the request under way was carried out and its answer
/// was handed to the instance.
pub open spec fn deliver(system: SystemModel, event: DrainEvent) -> SystemModel {
    let (instance, request) = transition(system.instance, event);
    SystemModel { instance, store: store_after(system.store, system.request), request }
}

/// The system after an idle instance was woken to start its next attempt.
pub open spec fn wake(instance: LoopModel, store: StoreModel) -> SystemModel {
    let (woken, request) = transition(instance, DrainEvent::Wake { shutdown: false });
    SystemModel { instance: woken, store, request }
}

/// How many entries one read hands out of a stream that holds `held`.
pub open spec fn batch_size(held: nat, max_read_count: u64) -> nat {
    if max_read_count < held {
        max_read_count as nat
    } else {
        held
    }
}

/// The first read of a stream returns its oldest entries, as many as the
/// read may take.
pub proof fn lemma_read_returns_oldest(records: Seq<RecordModel>, count: u64)
    requires
        ascending(records),
        keyed_by_id(records),
    ensures
        read_records(records, origin(), Some(count)) == entries_of_records(
            records.take(batch_size(records.len(), count) as int),
        ),
{
    lemma_boundary_is_count(records, origin(), true, 0);
    assert(records.skip(0) =~= records);
    assert(records.take(records.len() as int) =~= records);
}

/// In an ascending stream, the entries below the last entry of a batch of
/// the oldest entries are the rest of that batch.
pub proof fn lemma_batch_end_is_boundary(records: Seq<RecordModel>, taken: int)
    requires
        ascending(records),
        1 <= taken <= records.len(),
    ensures
        count_below(records, records[taken - 1].key) == taken - 1,
        holds_key(records, records[taken - 1].key),
{
    let last = records[taken - 1];
    assert forall|i: int| 0 <= i < taken - 1 implies key_within(
        (#[trigger] records[i]).key,
        last.key,
        false,
    ) by {
        assert(key_below(records[i].key, records[taken - 1].key));
    }
    assert forall|i: int| taken - 1 <= i < records.len() implies !key_within(
        (#[trigger] records[i]).key,
        last.key,
        false,
    ) by {
        if i > taken - 1 {
            assert(key_below(records[taken - 1].key, records[i].key));
        }
    }
    lemma_boundary_is_count(records, last.key, false, taken - 1);
}

/// The literal from which reads start writes the origin.
pub proof fn lemma_first_entry_id_is_origin()
    ensures
        entry_id_key(first_entry_id()) == Some(origin()),
{
    let id = first_entry_id();
    let millis = id.subrange(0, 1);
    let sequence = id.subrange(2, 3);
    assert(millis =~= seq!['0']);
    assert(sequence =~= seq!['0']);
    assert(crate::entry_id::splits_at(id, 1));
    let dash = choose|dash: int| crate::entry_id::splits_at(id, dash);
    crate::entry_id::lemma_dash_unique(id, 1, dash);
    reveal_with_fuel(crate::entry_id::numeral_value, 2);
    assert(millis.drop_last() =~= Seq::<char>::empty());
    assert(crate::entry_id::numeral_value(millis) == 0);
    assert(crate::entry_id::numeral_value(sequence) == 0);
}

/// What the read of an attempt's shard hands to the instance, when the
/// shard's stream holds entries: the instance asks the persister to apply
/// the oldest entries, in order, and remembers the id of the newest of them.
pub proof fn lemma_read_leads_to_persist(instance: LoopModel, store: StoreModel, read: DrainEvent)
    requires
        instance.wf(),
        instance.phase is Reading,
        store.wf(),
        store.records(instance.stream()).len() > 0,
        answers(
            store,
            ActionModel::Read {
                stream: instance.stream(),
                start_id: first_entry_id(),
                count: instance.config.max_read_count,
            },
            read,
        ),
    ensures
        ({
            let records = store.records(instance.stream());
            let taken = batch_size(records.len(), instance.config.max_read_count) as int;
            let (next, request) = transition(instance, read);
            &&& 1 <= taken <= records.len()
            &&& request == ActionModel::Persist { entries: entries_of_records(records.take(taken)) }
            &&& next.phase == PhaseModel::Draining { last_id: records[taken - 1].entry.0 }
            &&& next.shard == instance.shard
            &&& next.config == instance.config
            &&& next.cycle_start == instance.cycle_start
            &&& next.drained_in_cycle
        }),
{
    let records = store.records(instance.stream());
    let stream = instance.stream();
    let count = instance.config.max_read_count;
    let taken = batch_size(records.len(), count) as int;
    lemma_first_entry_id_is_origin();
    assert(store.streams.contains_key(stream));
    lemma_read_returns_oldest(records, count);
    let handed = entries_of_records(records.take(taken));
    assert(handed.len() == taken);
    assert(store.read(stream, origin(), Some(count)) == Map::<
        Seq<char>,
        Seq<EntryModel>,
    >::empty().insert(stream, handed));
    let result = read->Read_0->Ok_0;
    assert(read_model(result).contains_key(stream));
    assert(result@.contains_key(stream));
    let batch = result@[stream]@;
    assert(read_model(result)[stream] == batch_model(batch));
    assert(batch_model(batch) == handed);
    assert(batch.len() == taken);
    assert(batch_model(batch)[taken - 1] == crate::stream::entry_model(batch[taken - 1]));
    assert(handed[taken - 1] == records.take(taken)[taken - 1].entry);
}

/// An attempt on a shard whose flag is clear and whose stream holds
/// entries, against a store that carries every request out and a persister
/// that applies the batch: the oldest entries are persisted, in order; the
/// stream is then trimmed through the newest of them and through no other
/// id; the attempt reports as many entries removed as it persisted; the
/// flag is clear again, the rest of the stream and every other stream are
/// untouched, and the instance stands idle before the next shard.
pub proof fn lemma_attempt_drains_batch(
    instance: LoopModel,
    store: StoreModel,
    acquired: DrainEvent,
    read: DrainEvent,
    persisted: DrainEvent,
    trimmed: DrainEvent,
    deleted: DrainEvent,
    released: DrainEvent,
)
    requires
        instance.wf(),
        instance.phase is Idle,
        store.wf(),
        !store.flags.contains(instance.key()),
        store.records(instance.stream()).len() > 0,
        ({
            let probing = wake(instance, store);
            let reading = deliver(probing, acquired);
            let draining = deliver(reading, read);
            let trimming = deliver(draining, persisted);
            let deleting = deliver(trimming, trimmed);
            let releasing = deliver(deleting, deleted);
            &&& answers(probing.store, probing.request, acquired)
            &&& answers(reading.store, reading.request, read)
            &&& persisted matches DrainEvent::Persisted(Ok(_))
            &&& answers(trimming.store, trimming.request, trimmed)
            &&& trimmed.in_range()
            &&& answers(deleting.store, deleting.request, deleted)
            &&& answers(releasing.store, releasing.request, released)
        }),
    ensures
        ({
            let probing = wake(instance, store);
            let reading = deliver(probing, acquired);
            let draining = deliver(reading, read);
            let trimming = deliver(draining, persisted);
            let deleting = deliver(trimming, trimmed);
            let releasing = deliver(deleting, deleted);
            let done = deliver(releasing, released);
            let stream = instance.stream();
            let records = store.records(stream);
            let taken = batch_size(records.len(), instance.config.max_read_count) as int;
            &&& 1 <= taken <= records.len()
            &&& draining.request == ActionModel::Persist {
                entries: entries_of_records(records.take(taken)),
            }
            &&& draining.store.streams == store.streams
            &&& trimming.request == ActionModel::Trim {
                stream,
                min_id: records[taken - 1].entry.0,
            }
            &&& deleting.request == ActionModel::Delete { stream, id: records[taken - 1].entry.0 }
            &&& releasing.request == ActionModel::Release { key: instance.key() }
            &&& done.request == ActionModel::Finished {
                outcome: AttemptOutcome::Drained { removed: taken as usize },
                sleep: false,
            }
            &&& taken as usize == taken
            &&& done.instance.phase is Idle
            &&& done.instance.shard == next_index(
                instance.shard as int,
                instance.config.num_partitions as int,
            )
            &&& done.store.flags == store.flags
            &&& done.store.streams == store.streams.insert(stream, records.skip(taken))
            &&& done.store.wf()
        }),
{
    let probing = wake(instance, store);
    let reading = deliver(probing, acquired);
    let draining = deliver(reading, read);
    let trimming = deliver(draining, persisted);
    let deleting = deliver(trimming, trimmed);
    let releasing = deliver(deleting, deleted);
    let done = deliver(releasing, released);
    let stream = instance.stream();
    let key = instance.key();
    let records = store.records(stream);
    let taken = batch_size(records.len(), instance.config.max_read_count) as int;
    let locked = store.set_if_absent(key).0;
    lemma_next_is_a_shard(instance.shard as int, instance.config.num_partitions as int);
    assert(reading.store == locked);
    assert(reading.instance == instance.in_phase(PhaseModel::Reading));
    assert(draining.store == locked);
    assert(locked.records(stream) == records);
    assert(locked.wf());
    lemma_read_leads_to_persist(reading.instance, locked, read);
    let last = records[taken - 1];
    assert(entry_id_key(last.entry.0) == Some(last.key));
    assert(trimming.store == locked);
    lemma_batch_end_is_boundary(records, taken);
    lemma_trim_through_id(locked, stream, last.key);
    let cleared = locked.trim(stream, last.key).0.delete_entry(stream, last.key).0;
    assert(releasing.store == cleared);
    assert(done.store == cleared.delete_key(key));
    assert(done.store.flags =~= store.flags);
    assert(done.store.streams =~= store.streams.insert(stream, records.skip(taken)));
}

/// An attempt whose batch the persister does not apply: the instance
/// releases the flag without asking for a trim, the store is left exactly
/// as it was before the attempt, and a later read of the shard hands out
/// the same batch again.
pub proof fn lemma_failed_persist_leaves_batch(
    instance: LoopModel,
    store: StoreModel,
    acquired: DrainEvent,
    read: DrainEvent,
    error: DrainerError,
    released: DrainEvent,
    read_again: DrainEvent,
)
    requires
        instance.wf(),
        instance.phase is Idle,
        store.wf(),
        !store.flags.contains(instance.key()),
        store.records(instance.stream()).len() > 0,
        ({
            let probing = wake(instance, store);
            let reading = deliver(probing, acquired);
            let draining = deliver(reading, read);
            let releasing = deliver(draining, DrainEvent::Persisted(Err(error)));
            let done = deliver(releasing, released);
            &&& answers(probing.store, probing.request, acquired)
            &&& answers(reading.store, reading.request, read)
            &&& answers(releasing.store, releasing.request, released)
            &&& answers(done.store, reading.request, read_again)
        }),
    ensures
        ({
            let probing = wake(instance, store);
            let reading = deliver(probing, acquired);
            let draining = deliver(reading, read);
            let releasing = deliver(draining, DrainEvent::Persisted(Err(error)));
            let done = deliver(releasing, released);
            &&& draining.request is Persist
            &&& releasing.request == ActionModel::Release { key: instance.key() }
            &&& releasing.store.streams == store.streams
            &&& done.request == ActionModel::Finished {
                outcome: AttemptOutcome::PersistError(error),
                sleep: false,
            }
            &&& done.instance.phase is Idle
            &&& done.instance.shard == next_index(
                instance.shard as int,
                instance.config.num_partitions as int,
            )
            &&& done.store == store
            &&& transition(reading.instance, read_again).1 == draining.request
        }),
{
    let probing = wake(instance, store);
    let reading = deliver(probing, acquired);
    let draining = deliver(reading, read);
    let releasing = deliver(draining, DrainEvent::Persisted(Err(error)));
    let done = deliver(releasing, released);
    let key = instance.key();
    let locked = store.set_if_absent(key).0;
    lemma_next_is_a_shard(instance.shard as int, instance.config.num_partitions as int);
    assert(reading.store == locked);
    assert(locked.records(instance.stream()) == store.records(instance.stream()));
    lemma_read_leads_to_persist(reading.instance, locked, read);
    assert(done.store == locked.delete_key(key));
    assert(done.store.flags =~= store.flags);
    lemma_read_leads_to_persist(reading.instance, store, read_again);
}

/// An attempt that is cut short after its batch went to the persister and
/// before the trim was carried out, whatever the persister answered: the
/// stream still holds every entry of the batch, so that a later read of
/// the shard hands out the same batch again.
pub proof fn lemma_interrupted_attempt_repeats_batch(
    instance: LoopModel,
    store: StoreModel,
    acquired: DrainEvent,
    read: DrainEvent,
    persisted: DrainEvent,
    read_again: DrainEvent,
)
    requires
        instance.wf(),
        instance.phase is Idle,
        store.wf(),
        !store.flags.contains(instance.key()),
        store.records(instance.stream()).len() > 0,
        persisted is Persisted,
        ({
            let probing = wake(instance, store);
            let reading = deliver(probing, acquired);
            let draining = deliver(reading, read);
            let interrupted = deliver(draining, persisted);
            &&& answers(probing.store, probing.request, acquired)
            &&& answers(reading.store, reading.request, read)
            &&& answers(interrupted.store, reading.request, read_again)
        }),
    ensures
        ({
            let probing = wake(instance, store);
            let reading = deliver(probing, acquired);
            let draining = deliver(reading, read);
            let interrupted = deliver(draining, persisted);
            &&& draining.request is Persist
            &&& interrupted.store.streams == store.streams
            &&& interrupted.request is Trim || interrupted.request is Release
            &&& transition(reading.instance, read_again).1 == draining.request
        }),
{
    let probing = wake(instance, store);
    let reading = deliver(probing, acquired);
    let draining = deliver(reading, read);
    let interrupted = deliver(draining, persisted);
    let locked = store.set_if_absent(instance.key()).0;
    assert(reading.store == locked);
    assert(locked.records(instance.stream()) == store.records(instance.stream()));
    lemma_read_leads_to_persist(reading.instance, locked, read);
    assert(interrupted.store == locked);
    lemma_read_leads_to_persist(reading.instance, locked, read_again);
}

/// Two instances that probe the same shard at the same moment, its flag
/// being clear: whichever attempt the store serves first goes on to read
/// the shard, and the other is skipped and stands idle before the next
/// shard, having asked the store for nothing else.
pub proof fn lemma_one_of_two_instances_reads(
    first: LoopModel,
    second: LoopModel,
    store: StoreModel,
    first_reply: DrainEvent,
    second_reply: DrainEvent,
)
    requires
        first.wf(),
        second.wf(),
        first.phase is Probing,
        second.phase is Probing,
        first.config == second.config,
        first.shard == second.shard,
        !store.flags.contains(first.key()),
        answers(store, ActionModel::Acquire { key: first.key() }, first_reply),
        answers(
            store_after(store, ActionModel::Acquire { key: first.key() }),
            ActionModel::Acquire { key: second.key() },
            second_reply,
        ),
    ensures
        transition(first, first_reply).0.phase is Reading,
        transition(first, first_reply).1 == (ActionModel::Read {
            stream: first.stream(),
            start_id: first_entry_id(),
            count: first.config.max_read_count,
        }),
        transition(second, second_reply) == second.finish(AttemptOutcome::Skipped),
        transition(second, second_reply).0.phase is Idle,
        transition(second, second_reply).0.shard == next_index(
            second.shard as int,
            second.config.num_partitions as int,
        ),
        transition(second, second_reply).1 is Finished,
{
    lemma_next_is_a_shard(second.shard as int, second.config.num_partitions as int);
}

/// A shard that an attempt has drained to the end has nothing to drain for
/// the attempt that follows: the read records no stream, and the attempt
/// ends as empty, with its flag released and no request to the persister.
pub proof fn lemma_drained_shard_reads_empty(
    instance: LoopModel,
    store: StoreModel,
    read: DrainEvent,
    released: DrainEvent,
)
    requires
        instance.wf(),
        instance.phase is Reading,
        store.wf(),
        store.records(instance.stream()).len() == 0,
        answers(
            store,
            ActionModel::Read {
                stream: instance.stream(),
                start_id: first_entry_id(),
                count: instance.config.max_read_count,
            },
            read,
        ),
        released is Released,
    ensures
        ({
            let (releasing, request) = transition(instance, read);
            let (done, report) = transition(releasing, released);
            &&& read matches DrainEvent::Read(Ok(result)) && parsed_stream(
                result@,
                instance.stream(),
            ) is Absent
            &&& request == ActionModel::Release { key: instance.key() }
            &&& report matches ActionModel::Finished { outcome, .. } && outcome
                == AttemptOutcome::Empty
            &&& done.phase is Idle
        }),
{
    lemma_first_entry_id_is_origin();
    let stream = instance.stream();
    let records = store.records(stream);
    assert(read_records(records, origin(), Some(instance.config.max_read_count)).len() == 0);
    let result = read->Read_0->Ok_0;
    assert(!read_model(result).contains_key(stream));
    assert(!result@.contains_key(stream));
}

} // verus!
