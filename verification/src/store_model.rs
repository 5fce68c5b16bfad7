//! The shared store as a value: which lock flags are set, and what each
//! stream holds. The five operations that the drainer relies on are
//! functions on that value.

use crate::entry_id::{entry_id_key, key_below};
use crate::gate::SetnxReply;
use crate::stream::EntryModel;
use vstd::prelude::*;

verus! {

/// One entry of a stream in the store: the pair of numbers that its id
/// writes, and the entry.
pub struct RecordModel {
    pub key: (u64, u64),
    pub entry: EntryModel,
}

/// Whether `key` lies below `bound`, or, if `inclusive`, is `bound`.
pub open spec fn key_within(key: (u64, u64), bound: (u64, u64), inclusive: bool) -> bool {
    key_below(key, bound) || (inclusive && key == bound)
}

/// A stream holds its entries oldest first: each id above the one before.
pub open spec fn ascending(records: Seq<RecordModel>) -> bool {
    forall|i: int, j: int|
        0 <= i < j < records.len() ==> key_below(
            #[trigger] records[i].key,
            #[trigger] records[j].key,
        )
}

/// The id below every entry: reads start from it, and no entry carries it.
pub open spec fn origin() -> (u64, u64) {
    (0, 0)
}

/// Every entry's key is the pair of numbers that its id writes, and lies
/// above the origin.
pub open spec fn keyed_by_id(records: Seq<RecordModel>) -> bool {
    forall|i: int|
        0 <= i < records.len() ==> entry_id_key((#[trigger] records[i]).entry.0) == Some(
            records[i].key,
        ) && key_below(origin(), records[i].key)
}

/// How many of `records` have an id below `bound` (or equal to it, if
/// `inclusive`).
pub open spec fn count_within(records: Seq<RecordModel>, bound: (u64, u64), inclusive: bool) -> nat
    decreases records.len(),
{
    if records.len() == 0 {
        0
    } else {
        count_within(records.drop_last(), bound, inclusive) + if key_within(
            records.last().key,
            bound,
            inclusive,
        ) {
            1nat
        } else {
            0nat
        }
    }
}

/// How many of `records` have an id strictly below `bound`.
pub open spec fn count_below(records: Seq<RecordModel>, bound: (u64, u64)) -> nat {
    count_within(records, bound, false)
}

/// The entries of `records`, without their keys.
pub open spec fn entries_of_records(records: Seq<RecordModel>) -> Seq<EntryModel> {
    records.map_values(|record: RecordModel| record.entry)
}

/// What a read of an ascending stream returns: the entries above `start`,
/// oldest first, and no more than `count` of them where a count is given.
pub open spec fn read_records(
    records: Seq<RecordModel>,
    start: (u64, u64),
    count: Option<u64>,
) -> Seq<EntryModel> {
    let above = records.skip(count_within(records, start, true) as int);
    let taken = match count {
        Some(limit) => if limit < above.len() {
            above.take(limit as int)
        } else {
            above
        },
        None => above,
    };
    entries_of_records(taken)
}

/// What a trim leaves of an ascending stream: the entries that are not
/// below `min`.
pub open spec fn trim_records(records: Seq<RecordModel>, min: (u64, u64)) -> Seq<RecordModel> {
    records.skip(count_below(records, min) as int)
}

/// Whether `records` holds an entry with the id `key`.
pub open spec fn holds_key(records: Seq<RecordModel>, key: (u64, u64)) -> bool {
    exists|i: int| 0 <= i < records.len() && (#[trigger] records[i]).key == key
}

/// What a deletion leaves of an ascending stream: every entry but the one
/// with the id `key`.
pub open spec fn delete_record(records: Seq<RecordModel>, key: (u64, u64)) -> Seq<RecordModel> {
    if holds_key(records, key) {
        records.remove(count_below(records, key) as int)
    } else {
        records
    }
}

/// The store as a value.
pub struct StoreModel {
    /// The keys of the lock flags that are set.
    pub flags: Set<Seq<char>>,
    /// The entries of each stream that the store knows, oldest first.
    pub streams: Map<Seq<char>, Seq<RecordModel>>,
}

impl StoreModel {
    /// A store without flags or streams.
    pub open spec fn empty() -> StoreModel {
        StoreModel { flags: Set::empty(), streams: Map::empty() }
    }

    /// Every stream holds its entries in ascending order of their ids.
    pub open spec fn wf(self) -> bool {
        forall|name: Seq<char>| #[trigger]
            self.streams.contains_key(name) ==> ascending(self.streams[name]) && keyed_by_id(
                self.streams[name],
            )
    }

    /// The entries of a stream; none for a stream that the store does not
    /// know.
    pub open spec fn records(self, stream: Seq<char>) -> Seq<RecordModel> {
        if self.streams.contains_key(stream) {
            self.streams[stream]
        } else {
            Seq::empty()
        }
    }

    /// The same store with other entries in one stream.
    pub open spec fn with_records(
        self,
        stream: Seq<char>,
        records: Seq<RecordModel>,
    ) -> StoreModel {
        StoreModel { flags: self.flags, streams: self.streams.insert(stream, records) }
    }

    /// Sets the flag `key` unless it is set, and says which of the two
    /// happened.
    pub open spec fn set_if_absent(self, key: Seq<char>) -> (StoreModel, SetnxReply) {
        if self.flags.contains(key) {
            (self, SetnxReply::KeyNotSet)
        } else {
            (
                StoreModel { flags: self.flags.insert(key), streams: self.streams },
                SetnxReply::KeySet,
            )
        }
    }

    /// Clears the flag `key`, set or not.
    pub open spec fn delete_key(self, key: Seq<char>) -> StoreModel {
        StoreModel { flags: self.flags.remove(key), streams: self.streams }
    }

    /// What a read returns: a record of the stream where entries above
    /// `start` exist, and nothing where none does.
    pub open spec fn read(self, stream: Seq<char>, start: (u64, u64), count: Option<u64>) -> Map<
        Seq<char>,
        Seq<EntryModel>,
    > {
        let entries = read_records(self.records(stream), start, count);
        if entries.len() == 0 {
            Map::empty()
        } else {
            Map::empty().insert(stream, entries)
        }
    }

    /// Removes the entries of a stream that lie strictly below `min`, and
    /// says how many they were.
    pub open spec fn trim(self, stream: Seq<char>, min: (u64, u64)) -> (StoreModel, nat) {
        if self.streams.contains_key(stream) {
            (
                self.with_records(stream, trim_records(self.streams[stream], min)),
                count_below(self.streams[stream], min),
            )
        } else {
            (self, 0)
        }
    }

    /// Deletes the entry `key` of a stream, and says how many entries that
    /// removed.
    pub open spec fn delete_entry(self, stream: Seq<char>, key: (u64, u64)) -> (StoreModel, nat) {
        if self.streams.contains_key(stream) && holds_key(self.streams[stream], key) {
            (self.with_records(stream, delete_record(self.streams[stream], key)), 1)
        } else {
            (self, 0)
        }
    }

    /// Whether the store takes `key` as the id of a new entry of `stream`:
    /// it must lie above the origin and above every id that the stream
    /// holds.
    pub open spec fn accepts(self, stream: Seq<char>, key: (u64, u64)) -> bool {
        &&& key_below(origin(), key)
        &&& self.records(stream).len() > 0 ==> key_below(self.records(stream).last().key, key)
    }

    /// Appends an entry to a stream.
    pub open spec fn append(self, stream: Seq<char>, record: RecordModel) -> StoreModel {
        self.with_records(stream, self.records(stream).push(record))
    }
}

/// In an ascending stream the entries within a bound are its first ones:
/// as many as `count_within` says, and no others.
pub proof fn lemma_within_is_prefix(records: Seq<RecordModel>, bound: (u64, u64), inclusive: bool)
    requires
        ascending(records),
    ensures
        count_within(records, bound, inclusive) <= records.len(),
        forall|i: int|
            0 <= i < count_within(records, bound, inclusive) ==> key_within(
                (#[trigger] records[i]).key,
                bound,
                inclusive,
            ),
        forall|i: int|
            count_within(records, bound, inclusive) <= i < records.len() ==> !key_within(
                (#[trigger] records[i]).key,
                bound,
                inclusive,
            ),
    decreases records.len(),
{
    if records.len() > 0 {
        let front = records.drop_last();
        assert(ascending(front)) by {
            assert forall|i: int, j: int| 0 <= i < j < front.len() implies key_below(
                #[trigger] front[i].key,
                #[trigger] front[j].key,
            ) by {
                assert(front[i] == records[i] && front[j] == records[j]);
            }
        }
        lemma_within_is_prefix(front, bound, inclusive);
        let inner = count_within(front, bound, inclusive);
        assert forall|i: int| 0 <= i < front.len() implies front[i] == records[i] by {}
        if key_within(records.last().key, bound, inclusive) {
            if inner < front.len() {
                assert(!key_within(front[inner as int].key, bound, inclusive));
                assert(key_below(records[inner as int].key, records[records.len() - 1].key));
            }
        }
        assert forall|i: int| 0 <= i < count_within(records, bound, inclusive) implies key_within(
            (#[trigger] records[i]).key,
            bound,
            inclusive,
        ) by {
            if i < front.len() {
                assert(records[i] == front[i]);
            }
        }
        assert forall|i: int|
            count_within(records, bound, inclusive) <= i < records.len() implies !key_within(
            (#[trigger] records[i]).key,
            bound,
            inclusive,
        ) by {
            if i < front.len() {
                assert(records[i] == front[i]);
            }
        }
    }
}

/// A position that parts an ascending stream into the entries within a
/// bound and the others is the count of the entries within it.
pub proof fn lemma_boundary_is_count(
    records: Seq<RecordModel>,
    bound: (u64, u64),
    inclusive: bool,
    boundary: int,
)
    requires
        ascending(records),
        0 <= boundary <= records.len(),
        forall|i: int|
            0 <= i < boundary ==> key_within((#[trigger] records[i]).key, bound, inclusive),
        forall|i: int|
            boundary <= i < records.len() ==> !key_within(
                (#[trigger] records[i]).key,
                bound,
                inclusive,
            ),
    ensures
        boundary == count_within(records, bound, inclusive),
{
    lemma_within_is_prefix(records, bound, inclusive);
    let count = count_within(records, bound, inclusive) as int;
    if count < boundary {
        assert(key_within(records[count].key, bound, inclusive));
    } else if boundary < count {
        assert(key_within(records[boundary].key, bound, inclusive));
    }
}

/// What `attempts` acquire attempts on one flag, one after the other, leave
/// of the store, and how many of them were told that they created the flag.
pub open spec fn acquire_repeatedly(store: StoreModel, key: Seq<char>, attempts: nat) -> (
    StoreModel,
    nat,
)
    decreases attempts,
{
    if attempts == 0 {
        (store, 0)
    } else {
        let (before, wins) = acquire_repeatedly(store, key, (attempts - 1) as nat);
        let (after, reply) = before.set_if_absent(key);
        (
            after,
            wins + if reply == SetnxReply::KeySet {
                1nat
            } else {
                0nat
            },
        )
    }
}

/// Of any number of acquire attempts on a flag that is not released in
/// between, exactly one creates the flag if it was clear before, and none
/// does if it was set. The flag is set afterwards, and the streams are as
/// they were.
pub proof fn lemma_gate_is_exclusive(store: StoreModel, key: Seq<char>, attempts: nat)
    requires
        attempts >= 1,
    ensures
        acquire_repeatedly(store, key, attempts).1 == if store.flags.contains(key) {
            0nat
        } else {
            1nat
        },
        acquire_repeatedly(store, key, attempts).0.flags == store.flags.insert(key),
        acquire_repeatedly(store, key, attempts).0.streams == store.streams,
    decreases attempts,
{
    if attempts > 1 {
        lemma_gate_is_exclusive(store, key, (attempts - 1) as nat);
        assert(store.flags.insert(key).insert(key) =~= store.flags.insert(key));
    } else {
        assert(acquire_repeatedly(store, key, 0) == (store, 0nat));
        if store.flags.contains(key) {
            assert(store.flags.insert(key) =~= store.flags);
        }
    }
}

/// A flag that was acquired and released can be acquired again, whatever
/// the store held before: the acquire after the release creates the flag.
pub proof fn lemma_gate_cycles(store: StoreModel, key: Seq<char>)
    ensures
        store.set_if_absent(key).0.flags.contains(key),
        !store.set_if_absent(key).0.delete_key(key).flags.contains(key),
        store.set_if_absent(key).0.delete_key(key).set_if_absent(key).1 == SetnxReply::KeySet,
{
}

/// Releasing a flag twice is releasing it once.
pub proof fn lemma_release_is_idempotent(store: StoreModel, key: Seq<char>)
    ensures
        store.delete_key(key).delete_key(key) == store.delete_key(key),
{
    assert(store.flags.remove(key).remove(key) =~= store.flags.remove(key));
}

/// Trimming an ascending stream through an id that it holds: the trim below
/// the id, followed by the deletion of the id itself, removes the entries
/// below the id and one more, and leaves exactly the entries above it.
pub proof fn lemma_trim_through_id(store: StoreModel, stream: Seq<char>, min: (u64, u64))
    requires
        store.wf(),
        holds_key(store.records(stream), min),
    ensures
        ({
            let records = store.records(stream);
            let (trimmed, below) = store.trim(stream, min);
            let (left, deleted) = trimmed.delete_entry(stream, min);
            &&& below == count_below(records, min)
            &&& deleted == 1
            &&& left.records(stream) == records.skip(below as int + 1)
            &&& records.len() - left.records(stream).len() == below + 1
            &&& forall|i: int|
                0 <= i < left.records(stream).len() ==> key_below(
                    min,
                    (#[trigger] left.records(stream)[i]).key,
                )
            &&& left.flags == store.flags
            &&& left.wf()
        }),
{
    let records = store.records(stream);
    assert(store.streams.contains_key(stream));
    let (trimmed, below) = store.trim(stream, min);
    let rest = trim_records(records, min);
    lemma_within_is_prefix(records, min, false);
    let at = choose|i: int| 0 <= i < records.len() && (#[trigger] records[i]).key == min;
    assert(below <= at);
    if below < at {
        assert(key_below(records[below as int].key, records[at].key));
    }
    assert(rest[0] == records[below as int]);
    assert(holds_key(rest, min));
    lemma_skip_is_well_formed(records, below as int);
    assert forall|i: int| 0 <= i < rest.len() implies !key_within(
        (#[trigger] rest[i]).key,
        min,
        false,
    ) by {
        assert(rest[i] == records[below + i]);
    }
    lemma_boundary_is_count(rest, min, false, 0);
    assert(trimmed.records(stream) == rest);
    let (left, deleted) = trimmed.delete_entry(stream, min);
    assert(left.records(stream) =~= records.skip(below as int + 1));
    lemma_skip_is_well_formed(records, below as int + 1);
    assert forall|i: int| 0 <= i < left.records(stream).len() implies key_below(
        min,
        (#[trigger] left.records(stream)[i]).key,
    ) by {
        assert(left.records(stream)[i] == records[below + 1 + i]);
        assert(key_below(records[below as int].key, records[below + 1 + i].key));
    }
    assert(left.wf()) by {
        assert forall|name: Seq<char>| #[trigger] left.streams.contains_key(name) implies ascending(
            left.streams[name],
        ) && keyed_by_id(left.streams[name]) by {
            if name != stream {
                assert(store.streams.contains_key(name));
                assert(left.streams[name] == store.streams[name]);
            }
        }
    }
}

/// A run of consecutive entries of a well-formed stream is well-formed.
pub proof fn lemma_part_is_well_formed(records: Seq<RecordModel>, from: int, to: int)
    requires
        ascending(records),
        keyed_by_id(records),
        0 <= from <= to <= records.len(),
    ensures
        ascending(records.subrange(from, to)),
        keyed_by_id(records.subrange(from, to)),
{
    let part = records.subrange(from, to);
    assert forall|i: int, j: int| 0 <= i < j < part.len() implies key_below(
        #[trigger] part[i].key,
        #[trigger] part[j].key,
    ) by {
        assert(key_below(records[from + i].key, records[from + j].key));
    }
    assert forall|i: int| 0 <= i < part.len() implies entry_id_key((#[trigger] part[i]).entry.0)
        == Some(part[i].key) && key_below(origin(), part[i].key) by {
        assert(part[i] == records[from + i]);
    }
}

/// A well-formed stream without one of its entries is well-formed.
pub proof fn lemma_removal_is_well_formed(records: Seq<RecordModel>, at: int)
    requires
        ascending(records),
        keyed_by_id(records),
        0 <= at < records.len(),
    ensures
        ascending(records.remove(at)),
        keyed_by_id(records.remove(at)),
{
    let rest = records.remove(at);
    assert forall|i: int, j: int| 0 <= i < j < rest.len() implies key_below(
        #[trigger] rest[i].key,
        #[trigger] rest[j].key,
    ) by {
        let from = if i < at { i } else { i + 1 };
        let to = if j < at { j } else { j + 1 };
        assert(key_below(records[from].key, records[to].key));
    }
    assert forall|i: int| 0 <= i < rest.len() implies entry_id_key((#[trigger] rest[i]).entry.0)
        == Some(rest[i].key) && key_below(origin(), rest[i].key) by {
        let from = if i < at { i } else { i + 1 };
        assert(rest[i] == records[from]);
    }
}

/// A well-formed stream without its first entries is well-formed.
pub proof fn lemma_skip_is_well_formed(records: Seq<RecordModel>, from: int)
    requires
        ascending(records),
        keyed_by_id(records),
        0 <= from <= records.len(),
    ensures
        ascending(records.skip(from)),
        keyed_by_id(records.skip(from)),
{
    assert(records.skip(from) =~= records.subrange(from, records.len() as int));
    lemma_part_is_well_formed(records, from, records.len() as int);
}

/// A well-formed stream with one more entry, whose key is that of its id
/// and lies above the origin and above the stream's last, is well-formed.
pub proof fn lemma_push_is_well_formed(records: Seq<RecordModel>, record: RecordModel)
    requires
        ascending(records),
        keyed_by_id(records),
        entry_id_key(record.entry.0) == Some(record.key),
        key_below(origin(), record.key),
        records.len() > 0 ==> key_below(records.last().key, record.key),
    ensures
        ascending(records.push(record)),
        keyed_by_id(records.push(record)),
{
    let after = records.push(record);
    assert forall|i: int, j: int| 0 <= i < j < after.len() implies key_below(
        #[trigger] after[i].key,
        #[trigger] after[j].key,
    ) by {
        if j == after.len() - 1 {
            if i < records.len() - 1 {
                assert(key_below(records[i].key, records[records.len() - 1].key));
            }
        } else {
            assert(key_below(records[i].key, records[j].key));
        }
    }
    assert forall|i: int| 0 <= i < after.len() implies entry_id_key((#[trigger] after[i]).entry.0)
        == Some(after[i].key) && key_below(origin(), after[i].key) by {
        if i < records.len() {
            assert(after[i] == records[i]);
        }
    }
}

/// Every operation of the store keeps its streams well-formed: whatever is
/// trimmed, deleted or set, the ids of every stream still ascend; and so
/// they do after an entry is appended that the store accepts.
pub proof fn lemma_operations_keep_well_formed(
    store: StoreModel,
    key: Seq<char>,
    stream: Seq<char>,
    bound: (u64, u64),
    record: RecordModel,
)
    requires
        store.wf(),
    ensures
        store.set_if_absent(key).0.wf(),
        store.delete_key(key).wf(),
        store.trim(stream, bound).0.wf(),
        store.delete_entry(stream, bound).0.wf(),
        store.accepts(stream, record.key) && entry_id_key(record.entry.0) == Some(record.key)
            ==> store.append(stream, record).wf(),
{
    if store.streams.contains_key(stream) {
        let records = store.streams[stream];
        lemma_within_is_prefix(records, bound, false);
        lemma_skip_is_well_formed(records, count_below(records, bound) as int);
        if holds_key(records, bound) {
            let at = choose|i: int| 0 <= i < records.len() && (#[trigger] records[i]).key == bound;
            if count_below(records, bound) >= records.len() {
                assert(key_within(records[at].key, bound, false));
            }
            lemma_removal_is_well_formed(records, count_below(records, bound) as int);
        }
    }
    if store.accepts(stream, record.key) && entry_id_key(record.entry.0) == Some(record.key) {
        lemma_push_is_well_formed(store.records(stream), record);
    }
    assert forall|name: Seq<char>| #[trigger]
        store.trim(stream, bound).0.streams.contains_key(name) implies ascending(
        store.trim(stream, bound).0.streams[name],
    ) && keyed_by_id(store.trim(stream, bound).0.streams[name]) by {
        if name != stream {
            assert(store.streams.contains_key(name));
        }
    }
    assert forall|name: Seq<char>| #[trigger]
        store.delete_entry(stream, bound).0.streams.contains_key(name) implies ascending(
        store.delete_entry(stream, bound).0.streams[name],
    ) && keyed_by_id(store.delete_entry(stream, bound).0.streams[name]) by {
        if name != stream {
            assert(store.streams.contains_key(name));
        }
    }
    assert forall|name: Seq<char>| #[trigger]
        store.append(stream, record).streams.contains_key(name) && store.accepts(
            stream,
            record.key,
        ) && entry_id_key(record.entry.0) == Some(record.key) implies ascending(
        store.append(stream, record).streams[name],
    ) && keyed_by_id(store.append(stream, record).streams[name]) by {
        if name != stream {
            assert(store.streams.contains_key(name));
        }
    }
}

} // verus!
