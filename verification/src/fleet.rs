//! Any number of drainer instances on one store. Whatever the order in
//! which the store serves them, no two of them hold the same lock flag.

use crate::drain_loop::{transition, ActionModel, DrainEvent, LoopModel, PhaseModel};
use crate::naming::lemma_shards_have_their_own_names;
use crate::store_model::StoreModel;
use crate::system::{answers, store_after};
use vstd::prelude::*;

verus! {

/// One instance of a fleet: its state, and its request that is under way,
/// if it has made one yet.
pub struct MemberModel {
    pub state: LoopModel,
    pub request: Option<ActionModel>,
}

impl MemberModel {
    /// An instance that has not been woken yet.
    pub open spec fn fresh(state: LoopModel) -> MemberModel {
        MemberModel { state, request: None }
    }

    /// Whether the instance holds its shard's lock flag.
    pub open spec fn holds_lock(self) -> bool {
        self.state.phase.holds_lock()
    }

    /// The request under way is the one that the instance's phase waits on.
    pub open spec fn consistent(self) -> bool {
        match self.state.phase {
            PhaseModel::Idle => self.request matches Some(request) ==> request is Finished,
            PhaseModel::Probing => self.request == Some(
                ActionModel::Acquire { key: self.state.key() },
            ),
            PhaseModel::Reading => self.request matches Some(request) && request is Read,
            PhaseModel::Draining { .. } => self.request matches Some(request) && request is Persist,
            PhaseModel::Trimming { .. } => self.request matches Some(request) && request is Trim,
            PhaseModel::Deleting { .. } => self.request matches Some(request) && request is Delete,
            PhaseModel::Releasing { .. } => self.request == Some(
                ActionModel::Release { key: self.state.key() },
            ),
            PhaseModel::Stopped => self.request == Some(ActionModel::Stop),
        }
    }

    /// Whether `event` is what comes back to the instance: the answer to
    /// its request under way, or the first wake of a fresh instance.
    pub open spec fn answered_by(self, store: StoreModel, event: DrainEvent) -> bool {
        match self.request {
            Some(request) => answers(store, request, event),
            None => event is Wake,
        }
    }
}

/// The instances and the store that they share.
pub struct FleetModel {
    pub members: Seq<MemberModel>,
    pub store: StoreModel,
}

impl FleetModel {
    /// A fleet of fresh instances on a store without flags.
    pub open spec fn launched(self) -> bool {
        &&& self.store.flags == Set::<Seq<char>>::empty()
        &&& forall|i: int|
            0 <= i < self.members.len() ==> {
                &&& (#[trigger] self.members[i]).request is None
                &&& self.members[i].state.wf()
                &&& self.members[i].state.phase is Idle
            }
    }

    /// Mutual exclusion: every instance is well-formed and waits on its own
    /// request; the flag of every instance that holds one is set in the
    /// store; and no two instances hold the same flag.
    pub open spec fn exclusive(self) -> bool {
        &&& forall|i: int|
            0 <= i < self.members.len() ==> (#[trigger] self.members[i]).state.wf()
                && self.members[i].consistent()
        &&& forall|i: int|
            0 <= i < self.members.len() && (#[trigger] self.members[i]).holds_lock()
                ==> self.store.flags.contains(self.members[i].state.key())
        &&& forall|i: int, j: int|
            0 <= i < self.members.len() && 0 <= j < self.members.len() && i != j && (
            #[trigger] self.members[i]).holds_lock() && (#[trigger] self.members[j]).holds_lock()
                ==> self.members[i].state.key() != self.members[j].state.key()
    }

    /// The fleet after the store carried out the request of the instance
    /// `at` and the instance took the answer.
    pub open spec fn deliver(self, at: int, event: DrainEvent) -> FleetModel {
        let member = self.members[at];
        let (state, request) = transition(member.state, event);
        FleetModel {
            members: self.members.update(at, MemberModel { state, request: Some(request) }),
            store: match member.request {
                Some(request) => store_after(self.store, request),
                None => self.store,
            },
        }
    }
}

/// A fleet that was just launched is in mutual exclusion.
pub proof fn lemma_launched_fleet_is_exclusive(fleet: FleetModel)
    requires
        fleet.launched(),
    ensures
        fleet.exclusive(),
{
}

/// Mutual exclusion is kept by every step of every instance: whichever
/// instance the store serves next, and whatever comes back to it, the fleet
/// is in mutual exclusion afterwards if it was before.
pub proof fn lemma_exclusion_is_kept(fleet: FleetModel, at: int, event: DrainEvent)
    requires
        fleet.exclusive(),
        0 <= at < fleet.members.len(),
        fleet.members[at].answered_by(fleet.store, event),
        event.in_range(),
    ensures
        fleet.deliver(at, event).exclusive(),
{
    let after = fleet.deliver(at, event);
    let member = fleet.members[at];
    let moved = after.members[at];
    assert(member.state.wf() && member.consistent());
    assert(moved.state.wf() && moved.consistent());
    assert forall|i: int| 0 <= i < after.members.len() implies (
    #[trigger] after.members[i]).state.wf() && after.members[i].consistent() by {
        if i != at {
            assert(after.members[i] == fleet.members[i]);
        }
    }
    assert forall|i: int|
        0 <= i < after.members.len() && (
        #[trigger] after.members[i]).holds_lock() implies after.store.flags.contains(
        after.members[i].state.key(),
    ) by {
        if i != at {
            assert(after.members[i] == fleet.members[i]);
            assert(fleet.members[i].holds_lock());
            if member.holds_lock() {
                assert(fleet.members[i].state.key() != member.state.key());
            }
        }
    }
    assert forall|i: int, j: int|
        0 <= i < after.members.len() && 0 <= j < after.members.len() && i != j && (
        #[trigger] after.members[i]).holds_lock() && (
        #[trigger] after.members[j]).holds_lock() implies after.members[i].state.key()
        != after.members[j].state.key() by {
        if i != at && j != at {
            assert(after.members[i] == fleet.members[i]);
            assert(after.members[j] == fleet.members[j]);
        } else {
            let other = if i == at { j } else { i };
            assert(after.members[other] == fleet.members[other]);
            assert(fleet.members[other].holds_lock());
            assert(fleet.store.flags.contains(fleet.members[other].state.key()));
            if member.holds_lock() {
                assert(fleet.members[other].state.key() != member.state.key());
            }
        }
    }
}

/// At most one instance drains a shard at a time: in a fleet in mutual
/// exclusion, two instances under one prefix that both hold a flag are at
/// different shards.
pub proof fn lemma_one_instance_per_shard(fleet: FleetModel, first: int, second: int)
    requires
        fleet.exclusive(),
        0 <= first < fleet.members.len(),
        0 <= second < fleet.members.len(),
        first != second,
        fleet.members[first].holds_lock(),
        fleet.members[second].holds_lock(),
        fleet.members[first].state.config.stream_prefix
            == fleet.members[second].state.config.stream_prefix,
    ensures
        fleet.members[first].state.shard != fleet.members[second].state.shard,
        fleet.members[first].state.stream() != fleet.members[second].state.stream(),
{
    let a = fleet.members[first].state;
    let b = fleet.members[second].state;
    assert(a.key() != b.key());
    if a.shard != b.shard {
        lemma_shards_have_their_own_names(a.config.stream_prefix, a.shard, b.shard);
    }
}

} // verus!
