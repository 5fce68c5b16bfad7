//! A store that lives in memory and offers the five operations that the
//! drainer relies on, each proved to do what the store's model says.

use crate::drain_loop::{DrainAction, DrainEvent};
use crate::entry_id::{entry_id_key, id_below, key_below, parse_entry_id};
use crate::errors::{DrainerError, DrainerResult};
use crate::gate::SetnxReply;
use crate::store_model::{
    ascending, count_within, entries_of_records, holds_key, key_within, keyed_by_id,
    lemma_boundary_is_count, lemma_part_is_well_formed, lemma_push_is_well_formed,
    lemma_removal_is_well_formed, lemma_within_is_prefix, RecordModel, StoreModel,
};
use crate::stream::{
    batch_model, lemma_same_fields_same_value, read_model, EntryModel, StreamEntries,
    StreamReadResult,
};
use crate::system::{answers, is_store_request, refused, store_after};
use std::collections::HashMap;
use vstd::hash_map::StringHashMap;
use vstd::prelude::*;
use vstd::string::StringExecFns;

verus! {

/// One entry as the store keeps it: the entry, and the numbers of its id.
struct StoredEntry {
    millis: u64,
    sequence: u64,
    id: String,
    fields: HashMap<String, String>,
}

impl StoredEntry {
    spec fn record(self) -> RecordModel {
        RecordModel {
            key: (self.millis, self.sequence),
            entry: (self.id@, self.fields.deep_view()),
        }
    }

    fn key(&self) -> (key: (u64, u64))
        ensures
            key == self.record().key,
    {
        (self.millis, self.sequence)
    }

    fn copy(&self) -> (copy: StoredEntry)
        ensures
            copy.record() == self.record(),
    {
        let fields = self.fields.clone();
        proof {
            lemma_same_fields_same_value(fields, self.fields);
        }
        StoredEntry { millis: self.millis, sequence: self.sequence, id: self.id.clone(), fields }
    }
}

spec fn records_of(entries: Seq<StoredEntry>) -> Seq<RecordModel> {
    entries.map_values(|entry: StoredEntry| entry.record())
}

spec fn stream_records(entries: Vec<StoredEntry>) -> Seq<RecordModel> {
    records_of(entries@)
}

/// Where the entries within `bound` end in an ascending stream.
fn boundary(entries: &Vec<StoredEntry>, bound: (u64, u64), inclusive: bool) -> (at: usize)
    requires
        ascending(records_of(entries@)),
    ensures
        at == count_within(records_of(entries@), bound, inclusive),
        at <= entries.len(),
{
    let mut at: usize = 0;
    let mut more: bool = true;
    while more && at < entries.len()
        invariant
            at <= entries.len(),
            forall|i: int|
                0 <= i < at ==> key_within(
                    (#[trigger] records_of(entries@)[i]).key,
                    bound,
                    inclusive,
                ),
            !more ==> at < entries.len() && !key_within(
                records_of(entries@)[at as int].key,
                bound,
                inclusive,
            ),
        decreases entries.len() - at + if more { 1nat } else { 0nat },
    {
        let key = entries[at].key();
        if id_below(key, bound) || (inclusive && key.0 == bound.0 && key.1 == bound.1) {
            at += 1;
        } else {
            more = false;
        }
    }
    proof {
        let records = records_of(entries@);
        assert forall|i: int| at <= i < records.len() implies !key_within(
            (#[trigger] records[i]).key,
            bound,
            inclusive,
        ) by {
            if i > at {
                assert(key_below(records[at as int].key, records[i].key));
            }
        }
        lemma_boundary_is_count(records, bound, inclusive, at as int);
    }
    at
}

/// Copies the stored entries from `from` up to `to`.
fn copy_stored(entries: &Vec<StoredEntry>, from: usize, to: usize) -> (copy: Vec<StoredEntry>)
    requires
        from <= to <= entries.len(),
    ensures
        records_of(copy@) == records_of(entries@).subrange(from as int, to as int),
{
    let mut copy: Vec<StoredEntry> = Vec::new();
    let mut at: usize = from;
    while at < to
        invariant
            from <= at <= to <= entries.len(),
            copy.len() == at - from,
            forall|i: int|
                0 <= i < at - from ==> (#[trigger] copy[i]).record() == entries[from + i].record(),
        decreases to - at,
    {
        copy.push(entries[at].copy());
        at += 1;
    }
    assert(records_of(copy@) =~= records_of(entries@).subrange(from as int, to as int));
    copy
}

/// Hands out the stored entries from `from` up to `to`, without their keys.
fn hand_out(entries: &Vec<StoredEntry>, from: usize, to: usize) -> (batch: StreamEntries)
    requires
        from <= to <= entries.len(),
    ensures
        batch_model(batch@) == entries_of_records(
            records_of(entries@).subrange(from as int, to as int),
        ),
{
    let mut batch: StreamEntries = Vec::new();
    let mut at: usize = from;
    while at < to
        invariant
            from <= at <= to <= entries.len(),
            batch.len() == at - from,
            forall|i: int|
                0 <= i < at - from ==> crate::stream::entry_model(#[trigger] batch[i])
                    == entries[from + i].record().entry,
        decreases to - at,
    {
        let fields = entries[at].fields.clone();
        proof {
            lemma_same_fields_same_value(fields, entries[at as int].fields);
        }
        batch.push((entries[at].id.clone(), fields));
        at += 1;
    }
    assert(batch_model(batch@) =~= entries_of_records(
        records_of(entries@).subrange(from as int, to as int),
    ));
    batch
}

/// A store in memory: lock flags and streams.
pub struct MemoryStore {
    flags: StringHashMap<bool>,
    streams: StringHashMap<Vec<StoredEntry>>,
}

impl View for MemoryStore {
    type V = StoreModel;

    closed spec fn view(&self) -> StoreModel {
        StoreModel {
            flags: self.flags@.dom(),
            streams: self.streams@.map_values(|entries: Vec<StoredEntry>| stream_records(entries)),
        }
    }
}

impl MemoryStore {
    #[verifier::type_invariant]
    spec fn well_formed(&self) -> bool {
        forall|name: Seq<char>| #[trigger]
            self.streams@.contains_key(name) ==> ascending(stream_records(self.streams@[name]))
                && keyed_by_id(stream_records(self.streams@[name]))
    }

    /// A store without flags or streams.
    pub fn new() -> (store: MemoryStore)
        ensures
            store@ == StoreModel::empty(),
    {
        let store = MemoryStore { flags: StringHashMap::new(), streams: StringHashMap::new() };
        assert(store@.flags =~= Set::<Seq<char>>::empty());
        assert(store@.streams =~= Map::<Seq<char>, Seq<RecordModel>>::empty());
        store
    }

    /// Sets the flag `key` unless it is set already.
    pub fn set_key_if_not_exist(&mut self, key: &str) -> (reply: SetnxReply)
        ensures
            (final(self)@, reply) == old(self)@.set_if_absent(key@),
            final(self)@.wf(),
    {
        proof {
            use_type_invariant(&*self);
        }
        if self.flags.contains_key(key) {
            SetnxReply::KeyNotSet
        } else {
            let mut flags: StringHashMap<bool> = StringHashMap::new();
            std::mem::swap(&mut flags, &mut self.flags);
            flags.insert(String::from_str(key), true);
            self.flags = flags;
            assert(self@.flags =~= old(self)@.flags.insert(key@));
            SetnxReply::KeySet
        }
    }

    /// Clears the flag `key`, whether it is set or not.
    pub fn delete_key(&mut self, key: &str)
        ensures
            final(self)@ == old(self)@.delete_key(key@),
            final(self)@.wf(),
    {
        proof {
            use_type_invariant(&*self);
        }
        let mut flags: StringHashMap<bool> = StringHashMap::new();
        std::mem::swap(&mut flags, &mut self.flags);
        flags.remove(key);
        self.flags = flags;
        assert(self@.flags =~= old(self)@.flags.remove(key@));
    }

    /// Whether the flag `key` is set.
    pub fn is_key_set(&self, key: &str) -> (set: bool)
        ensures
            set == self@.flags.contains(key@),
    {
        self.flags.contains_key(key)
    }

    /// How many entries the stream holds.
    pub fn stream_len(&self, stream: &str) -> (len: usize)
        ensures
            len == self@.records(stream@).len(),
            self@.wf(),
    {
        proof {
            use_type_invariant(self);
        }
        match self.streams.get(stream) {
            Some(entries) => entries.len(),
            None => 0,
        }
    }

    /// Appends an entry to a stream. The id must be of the form
    /// `<milliseconds>-<sequence>` and lie above `0-0` and above every id
    /// that the stream holds; any other id is refused and changes nothing.
    pub fn append_entry(
        &mut self,
        stream: &str,
        id: &str,
        fields: HashMap<String, String>,
    ) -> (appended: DrainerResult<()>)
        ensures
            match entry_id_key(id@) {
                Some(key) => if old(self)@.accepts(stream@, key) {
                    let record = RecordModel { key, entry: (id@, fields.deep_view()) };
                    appended is Ok && final(self)@ == old(self)@.append(stream@, record)
                } else {
                    appended == Err::<(), DrainerError>(DrainerError::InvalidEntryId)
                        && final(self)@ == old(self)@
                },
                None => appended == Err::<(), DrainerError>(DrainerError::InvalidEntryId)
                    && final(self)@ == old(self)@,
            },
            final(self)@.wf(),
    {
        proof {
            use_type_invariant(&*self);
        }
        let key = match parse_entry_id(id) {
            Some(key) => key,
            None => {
                return Err(DrainerError::InvalidEntryId);
            },
        };
        if !id_below((0, 0), key) {
            return Err(DrainerError::InvalidEntryId);
        }
        let mut entries: Vec<StoredEntry> = match self.streams.get(stream) {
            Some(present) => {
                let len = present.len();
                assert(len > 0 ==> old(self)@.records(stream@).last() == present[len - 1].record());
                if len > 0 && !id_below(present[len - 1].key(), key) {
                    return Err(DrainerError::InvalidEntryId);
                }
                copy_stored(present, 0, len)
            },
            None => Vec::new(),
        };
        let ghost before = records_of(entries@);
        assert(before =~= old(self)@.records(stream@));
        let stored = StoredEntry {
            millis: key.0,
            sequence: key.1,
            id: String::from_str(id),
            fields,
        };
        entries.push(stored);
        proof {
            assert(records_of(entries@) =~= before.push(stored.record()));
            lemma_push_is_well_formed(before, stored.record());
        }
        self.replace_stream(stream, entries);
        Ok(())
    }

    /// Puts `entries` in the place of what the stream held.
    fn replace_stream(&mut self, stream: &str, entries: Vec<StoredEntry>)
        requires
            ascending(records_of(entries@)),
            keyed_by_id(records_of(entries@)),
        ensures
            final(self)@ == old(self)@.with_records(stream@, records_of(entries@)),
            final(self)@.wf(),
    {
        proof {
            use_type_invariant(&*self);
        }
        let mut streams: StringHashMap<Vec<StoredEntry>> = StringHashMap::new();
        std::mem::swap(&mut streams, &mut self.streams);
        streams.insert(String::from_str(stream), entries);
        self.streams = streams;
        assert(self@.streams =~= old(self)@.streams.insert(stream@, records_of(entries@)));
    }

    /// Reads up to `count` entries of a stream that lie above `start_id`,
    /// oldest first. A stream without such entries is not recorded in the
    /// result. A start id that is not of the form `<milliseconds>-<sequence>`
    /// is refused.
    pub fn stream_read_entries(&self, stream: &str, start_id: &str, count: Option<u64>) -> (read:
        DrainerResult<StreamReadResult>)
        ensures
            match entry_id_key(start_id@) {
                Some(start) => read is Ok && read_model(read->Ok_0) == self@.read(
                    stream@,
                    start,
                    count,
                ),
                None => read is Err && read->Err_0 == DrainerError::InvalidEntryId,
            },
            self@.wf(),
    {
        proof {
            use_type_invariant(self);
        }
        let start = match parse_entry_id(start_id) {
            Some(start) => start,
            None => {
                return Err(DrainerError::InvalidEntryId);
            },
        };
        let mut result: StreamReadResult = StringHashMap::new();
        assert(read_model(result) =~= Map::<Seq<char>, Seq<EntryModel>>::empty());
        match self.streams.get(stream) {
            Some(entries) => {
                let from = boundary(entries, start, true);
                let available = entries.len() - from;
                let to = match count {
                    Some(limit) => if limit < available as u64 {
                        from + limit as usize
                    } else {
                        entries.len()
                    },
                    None => entries.len(),
                };
                if to > from {
                    let batch = hand_out(entries, from, to);
                    proof {
                        let records = records_of(entries@);
                        assert(records.skip(from as int).take(to - from) =~= records.subrange(
                            from as int,
                            to as int,
                        ));
                        assert(records.skip(from as int) =~= records.subrange(
                            from as int,
                            entries.len() as int,
                        ));
                    }
                    let ghost handed = batch_model(batch@);
                    result.insert(String::from_str(stream), batch);
                    assert(read_model(result) =~= Map::<Seq<char>, Seq<EntryModel>>::empty().insert(
                        stream@,
                        handed,
                    ));
                } else {
                    proof {
                        let records = records_of(entries@);
                        assert(records.skip(from as int).take(0) =~= records.subrange(
                            from as int,
                            from as int,
                        ));
                        assert(records.skip(from as int) =~= records.subrange(
                            from as int,
                            entries.len() as int,
                        ));
                    }
                }
            },
            None => {},
        }
        Ok(result)
    }

    /// Removes the entries of a stream that lie strictly below `min_id`,
    /// and says how many they were. An id that is not of the form
    /// `<milliseconds>-<sequence>` is refused and changes nothing.
    pub fn stream_trim_entries(&mut self, stream: &str, min_id: &str) -> (trimmed: DrainerResult<
        usize,
    >)
        ensures
            match entry_id_key(min_id@) {
                Some(min) => {
                    let before = old(self)@;
                    trimmed is Ok && (final(self)@, trimmed->Ok_0 as nat) == before.trim(
                        stream@,
                        min,
                    )
                },
                None => trimmed == Err::<usize, DrainerError>(DrainerError::InvalidEntryId)
                    && final(self)@ == old(self)@,
            },
            final(self)@.wf(),
    {
        proof {
            use_type_invariant(&*self);
        }
        let min = match parse_entry_id(min_id) {
            Some(min) => min,
            None => {
                return Err(DrainerError::InvalidEntryId);
            },
        };
        let (kept, removed) = match self.streams.get(stream) {
            Some(entries) => {
                let cut = boundary(entries, min, false);
                let kept = copy_stored(entries, cut, entries.len());
                proof {
                    let records = records_of(entries@);
                    assert(records.skip(cut as int) =~= records.subrange(
                        cut as int,
                        entries.len() as int,
                    ));
                    lemma_part_is_well_formed(records, cut as int, entries.len() as int);
                }
                (kept, cut)
            },
            None => {
                return Ok(0);
            },
        };
        self.replace_stream(stream, kept);
        Ok(removed)
    }

    /// Deletes the entry `id` from a stream, and says how many entries that
    /// removed: one, or none where the stream does not hold the id. An id
    /// that is not of the form `<milliseconds>-<sequence>` is refused and
    /// changes nothing.
    pub fn stream_delete_entries(&mut self, stream: &str, id: &str) -> (deleted: DrainerResult<
        usize,
    >)
        ensures
            match entry_id_key(id@) {
                Some(key) => {
                    let before = old(self)@;
                    deleted is Ok && (final(self)@, deleted->Ok_0 as nat) == before.delete_entry(
                        stream@,
                        key,
                    )
                },
                None => deleted == Err::<usize, DrainerError>(DrainerError::InvalidEntryId)
                    && final(self)@ == old(self)@,
            },
            final(self)@.wf(),
    {
        proof {
            use_type_invariant(&*self);
        }
        let key = match parse_entry_id(id) {
            Some(key) => key,
            None => {
                return Err(DrainerError::InvalidEntryId);
            },
        };
        let kept = match self.streams.get(stream) {
            Some(entries) => {
                let at = boundary(entries, key, false);
                let ghost records = records_of(entries@);
                proof {
                    lemma_within_is_prefix(records, key, false);
                }
                if at < entries.len() && entries[at].millis == key.0 && entries[at].sequence
                    == key.1 {
                    assert(records[at as int].key == key);
                    let mut kept = copy_stored(entries, 0, at);
                    let mut rest = copy_stored(entries, at + 1, entries.len());
                    let ghost head = records_of(kept@);
                    let ghost tail = records_of(rest@);
                    kept.append(&mut rest);
                    proof {
                        assert(records_of(kept@) =~= head + tail);
                        assert(head + tail =~= records.remove(at as int));
                        lemma_removal_is_well_formed(records, at as int);
                    }
                    kept
                } else {
                    proof {
                        if holds_key(records, key) {
                            let i = choose|i: int|
                                0 <= i < records.len() && (#[trigger] records[i]).key == key;
                            if i < at {
                                assert(key_within(records[i].key, key, false));
                            } else if i > at {
                                assert(key_below(records[at as int].key, records[i].key));
                                assert(!key_within(records[at as int].key, key, false));
                            }
                        }
                    }
                    return Ok(0);
                }
            },
            None => {
                return Ok(0);
            },
        };
        self.replace_stream(stream, kept);
        Ok(1)
    }

    /// Carries out a request of a drainer instance, if it is one for the
    /// store, and gives the answer to hand back to the instance. Requests
    /// for the persister or for the runner are not carried out.
    pub fn perform(&mut self, request: &DrainAction) -> (event: Option<DrainEvent>)
        ensures
            final(self)@ == store_after(old(self)@, request@),
            final(self)@.wf(),
            event is Some <==> is_store_request(request@),
            is_store_request(request@) && !refused(request@) ==> answers(
                old(self)@,
                request@,
                event->Some_0,
            ),
            refused(request@) ==> match event->Some_0 {
                DrainEvent::Read(Err(error)) => request@ is Read && error
                    == DrainerError::InvalidEntryId,
                DrainEvent::Trimmed(Err(error)) => request@ is Trim && error
                    == DrainerError::InvalidEntryId,
                DrainEvent::Deleted(Err(error)) => request@ is Delete && error
                    == DrainerError::InvalidEntryId,
                _ => false,
            },
            request@ is Release ==> event == Some(DrainEvent::Released(Ok(()))),
    {
        proof {
            use_type_invariant(&*self);
        }
        match request {
            DrainAction::Acquire { key } => {
                let reply = self.set_key_if_not_exist(key.as_str());
                Some(DrainEvent::Acquired(Ok(reply)))
            },
            DrainAction::Read { stream, start_id, count } => {
                let read = self.stream_read_entries(
                    stream.as_str(),
                    start_id.as_str(),
                    Some(*count),
                );
                Some(DrainEvent::Read(read))
            },
            DrainAction::Trim { stream, min_id } => {
                let trimmed = self.stream_trim_entries(stream.as_str(), min_id.as_str());
                Some(DrainEvent::Trimmed(trimmed))
            },
            DrainAction::Delete { stream, id } => {
                let deleted = self.stream_delete_entries(stream.as_str(), id.as_str());
                Some(DrainEvent::Deleted(deleted))
            },
            DrainAction::Release { key } => {
                self.delete_key(key.as_str());
                Some(DrainEvent::Released(Ok(())))
            },
            _ => None,
        }
    }
}

} // verus!
