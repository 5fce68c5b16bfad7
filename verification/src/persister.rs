//! What the drainer relies on in a persister, and a persister in memory
//! that meets it.
//!
//! A batch that was persisted but not trimmed is handed out again by the
//! next read. A persister must therefore take the same batch twice without
//! harm. One that files each entry under its id does.

use crate::errors::DrainerResult;
use crate::stream::{batch_model, lemma_same_fields_same_value, EntryModel, StreamEntries};
use std::collections::HashMap;
use vstd::hash_map::StringHashMap;
use vstd::prelude::*;

verus! {

/// What is durably stored: for each id the fields last applied under it.
pub type DurableModel = Map<Seq<char>, Map<Seq<char>, Seq<char>>>;

/// The durable state after a batch was applied to it, entry by entry in the
/// batch's order, each entry filed under its id.
pub open spec fn apply_by_id(durable: DurableModel, batch: Seq<EntryModel>) -> DurableModel
    decreases batch.len(),
{
    if batch.len() == 0 {
        durable
    } else {
        apply_by_id(durable, batch.drop_last()).insert(batch.last().0, batch.last().1)
    }
}

/// Applying a batch files its entries over whatever was stored before:
/// the result is the earlier state, overridden by the batch applied to
/// nothing.
pub proof fn lemma_apply_overrides(durable: DurableModel, batch: Seq<EntryModel>)
    ensures
        apply_by_id(durable, batch) == durable.union_prefer_right(
            apply_by_id(Map::empty(), batch),
        ),
    decreases batch.len(),
{
    if batch.len() == 0 {
        assert(durable.union_prefer_right(Map::empty()) =~= durable);
    } else {
        lemma_apply_overrides(durable, batch.drop_last());
        let before = apply_by_id(Map::empty(), batch.drop_last());
        assert(durable.union_prefer_right(before).insert(batch.last().0, batch.last().1)
            =~= durable.union_prefer_right(before.insert(batch.last().0, batch.last().1)));
    }
}

/// Applying a batch a second time changes nothing.
pub proof fn lemma_apply_is_idempotent(durable: DurableModel, batch: Seq<EntryModel>)
    ensures
        apply_by_id(apply_by_id(durable, batch), batch) == apply_by_id(durable, batch),
{
    let filed = apply_by_id(Map::empty(), batch);
    lemma_apply_overrides(durable, batch);
    lemma_apply_overrides(apply_by_id(durable, batch), batch);
    assert(durable.union_prefer_right(filed).union_prefer_right(filed)
        =~= durable.union_prefer_right(filed));
}

/// Once a batch was applied, each of its ids has fields stored under it:
/// those of the last entry of the batch that carries the id.
pub proof fn lemma_apply_stores_the_batch(durable: DurableModel, batch: Seq<EntryModel>, at: int)
    requires
        0 <= at < batch.len(),
        forall|later: int| at < later < batch.len() ==> (#[trigger] batch[later]).0 != batch[at].0,
    ensures
        apply_by_id(durable, batch).contains_key(batch[at].0),
        apply_by_id(durable, batch)[batch[at].0] == batch[at].1,
    decreases batch.len(),
{
    if at < batch.len() - 1 {
        let front = batch.drop_last();
        assert(front[at] == batch[at]);
        assert forall|later: int| at < later < front.len() implies (#[trigger] front[later]).0
            != front[at].0 by {
            assert(front[later] == batch[later]);
        }
        lemma_apply_stores_the_batch(durable, front, at);
        assert(batch[batch.len() - 1].0 != batch[at].0);
    }
}

/// What is stored under an id that a batch does not carry is as it was
/// before the batch was applied.
pub proof fn lemma_apply_leaves_other_ids(
    durable: DurableModel,
    batch: Seq<EntryModel>,
    id: Seq<char>,
)
    requires
        forall|i: int| 0 <= i < batch.len() ==> (#[trigger] batch[i]).0 != id,
    ensures
        apply_by_id(durable, batch).contains_key(id) == durable.contains_key(id),
        durable.contains_key(id) ==> apply_by_id(durable, batch)[id] == durable[id],
    decreases batch.len(),
{
    if batch.len() > 0 {
        let front = batch.drop_last();
        assert forall|i: int| 0 <= i < front.len() implies (#[trigger] front[i]).0 != id by {
            assert(front[i] == batch[i]);
        }
        lemma_apply_leaves_other_ids(durable, front, id);
        assert(batch[batch.len() - 1].0 != id);
    }
}

/// A persister in memory that files each entry under its id.
pub struct MemoryPersister {
    rows: StringHashMap<HashMap<String, String>>,
}

impl View for MemoryPersister {
    type V = DurableModel;

    closed spec fn view(&self) -> DurableModel {
        self.rows@.map_values(|fields: HashMap<String, String>| fields.deep_view())
    }
}

impl MemoryPersister {
    /// A persister that has stored nothing.
    pub fn new() -> (persister: MemoryPersister)
        ensures
            persister@ == Map::<Seq<char>, Map<Seq<char>, Seq<char>>>::empty(),
    {
        let persister = MemoryPersister { rows: StringHashMap::new() };
        assert(persister@ =~= Map::<Seq<char>, Map<Seq<char>, Seq<char>>>::empty());
        persister
    }

    /// Applies a batch in its order, filing each entry under its id. It
    /// never fails.
    pub fn apply(&mut self, entries: &StreamEntries) -> (applied: DrainerResult<()>)
        ensures
            applied is Ok,
            final(self)@ == apply_by_id(old(self)@, batch_model(entries@)),
    {
        let mut at: usize = 0;
        let ghost batch = batch_model(entries@);
        assert(batch.take(0) =~= Seq::<EntryModel>::empty());
        while at < entries.len()
            invariant
                at <= entries.len(),
                batch == batch_model(entries@),
                self@ == apply_by_id(old(self)@, batch.take(at as int)),
            decreases entries.len() - at,
        {
            let ghost before = self@;
            let fields = entries[at].1.clone();
            proof {
                lemma_same_fields_same_value(fields, entries[at as int].1);
            }
            self.rows.insert(entries[at].0.clone(), fields);
            proof {
                assert(batch.take(at + 1).drop_last() =~= batch.take(at as int));
                assert(batch.take(at + 1).last() == batch[at as int]);
                assert(self@ =~= before.insert(batch[at as int].0, batch[at as int].1));
            }
            at += 1;
        }
        assert(batch.take(at as int) =~= batch);
        Ok(())
    }

    /// How many ids have fields stored under them.
    pub fn len(&self) -> (len: usize)
        ensures
            len == self@.len(),
    {
        proof {
            assert(self@.dom() =~= self.rows@.dom());
        }
        self.rows.len()
    }

    /// The fields stored under an id, if any are.
    pub fn get(&self, id: &str) -> (fields: Option<&HashMap<String, String>>)
        ensures
            fields is Some <==> self@.contains_key(id@),
            fields matches Some(stored) ==> stored.deep_view() == self@[id@],
    {
        self.rows.get(id)
    }
}

} // verus!
