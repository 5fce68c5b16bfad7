//! The per-shard lock flag: what a store's reply to an acquire attempt
//! means for the drainer.

use crate::errors::DrainerResult;
use vstd::prelude::*;

verus! {

/// The store's answer to "set this key unless it exists".
#[derive(Debug, Clone, Copy, PartialEq, Eq, Structural)]
pub enum SetnxReply {
    /// The key was absent, and this call created it.
    KeySet,
    /// The key existed already, and was left as it was.
    KeyNotSet,
}

/// Whether a reply to an acquire attempt gives the caller the shard: only
/// the reply that says that this very call created the flag does. A failed
/// call counts as not acquired.
pub open spec fn lock_acquired(reply: DrainerResult<SetnxReply>) -> bool {
    reply == Ok::<SetnxReply, crate::errors::DrainerError>(SetnxReply::KeySet)
}

/// Whether the caller now holds the shard, given the store's reply to its
/// attempt to set the shard's lock flag.
pub fn is_stream_available(reply: &DrainerResult<SetnxReply>) -> (available: bool)
    ensures
        available == lock_acquired(*reply),
{
    match reply {
        Ok(SetnxReply::KeySet) => true,
        Ok(SetnxReply::KeyNotSet) => false,
        Err(_) => false,
    }
}

} // verus!
