//! Trimming of consumed entries: the store removes what lies strictly below
//! an id, and the id itself is deleted afterwards.

use vstd::prelude::*;

verus! {

/// How many entries a trim through an id removes in all, when the store's
/// trim removed `trimmed_below` entries strictly below it: those, and the
/// entry of the id itself.
pub open spec fn entries_removed(trimmed_below: nat) -> nat {
    trimmed_below + 1
}

/// The number of entries that a trim through an id has removed, given the
/// number that the store removed below the id.
pub fn removed_count(trimmed_below: usize) -> (removed: usize)
    requires
        trimmed_below < usize::MAX,
    ensures
        removed == entries_removed(trimmed_below as nat),
{
    trimmed_below + 1
}

} // verus!
