//! Entries of a shard's stream, as the store hands them out, and their
//! mathematical model.

use std::collections::HashMap;
use vstd::hash_map::StringHashMap;
use vstd::prelude::*;

verus! {

/// One record of a stream: its id and its fields.
pub type StreamEntry = (String, HashMap<String, String>);

/// The entries of one stream, oldest first.
pub type StreamEntries = Vec<StreamEntry>;

/// What a read returns: for each stream that had entries, those entries.
pub type StreamReadResult = StringHashMap<StreamEntries>;

/// An entry as a value: the characters of its id, and the value of each of
/// its fields by the field's name.
pub type EntryModel = (Seq<char>, Map<Seq<char>, Seq<char>>);

/// The value that an entry stands for.
pub open spec fn entry_model(entry: StreamEntry) -> EntryModel {
    (entry.0@, entry.1.deep_view())
}

/// Two sets of fields with the same contents stand for the same value.
pub proof fn lemma_same_fields_same_value(a: HashMap<String, String>, b: HashMap<String, String>)
    requires
        a@ == b@,
    ensures
        a.deep_view() == b.deep_view(),
{
    reveal(vstd::std_specs::hash::hash_map_deep_view_impl);
    assert(a.deep_view() =~= b.deep_view());
}

/// The values that a batch of entries stands for, in the batch's order.
pub open spec fn batch_model(entries: Seq<StreamEntry>) -> Seq<EntryModel> {
    entries.map_values(|entry: StreamEntry| entry_model(entry))
}

/// What a read result holds, as values: for each stream that it records,
/// the values of its entries.
pub open spec fn read_model(result: StreamReadResult) -> Map<Seq<char>, Seq<EntryModel>> {
    result@.map_values(|entries: StreamEntries| batch_model(entries@))
}

/// Copies a batch entry by entry, keeping ids, fields and order.
pub fn copy_entries(entries: &StreamEntries) -> (copy: StreamEntries)
    ensures
        batch_model(copy@) == batch_model(entries@),
{
    let mut copy: StreamEntries = Vec::new();
    let mut at: usize = 0;
    while at < entries.len()
        invariant
            at <= entries.len(),
            copy.len() == at,
            forall|i: int|
                0 <= i < at ==> entry_model(copy[i]) == entry_model(#[trigger] entries[i]),
        decreases entries.len() - at,
    {
        let id = entries[at].0.clone();
        let fields = entries[at].1.clone();
        proof {
            lemma_same_fields_same_value(fields, entries[at as int].1);
        }
        copy.push((id, fields));
        at += 1;
    }
    assert(batch_model(copy@) =~= batch_model(entries@));
    copy
}

} // verus!
