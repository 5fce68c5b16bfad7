//! The kinds of failure that a drain attempt can meet.

use vstd::prelude::*;

verus! {

/// Why an operation of the drainer did not produce its result.
#[derive(Debug, Clone, Copy, PartialEq, Eq, Structural)]
pub enum DrainerError {
    /// The store could not be reached, or did not answer in time.
    Transport,
    /// The read result has no record of the stream: there is nothing to drain.
    StreamNotFound,
    /// The read result records the stream, but without a single entry.
    EmptyStream,
    /// The persister did not apply the batch.
    Persist,
    /// An entry id is not of the form `<milliseconds>-<sequence>`, or is not
    /// above the ids that its stream holds already.
    InvalidEntryId,
}

impl DrainerError {
    /// Whether the error is the harmless "nothing to drain" condition, which
    /// ends an attempt without anything having gone wrong.
    pub open spec fn is_benign(self) -> bool {
        self == DrainerError::StreamNotFound || self == DrainerError::EmptyStream
    }

    /// Whether the error is a harmless "nothing to drain" condition.
    pub fn benign(&self) -> (benign: bool)
        ensures
            benign == self.is_benign(),
    {
        match self {
            DrainerError::StreamNotFound => true,
            DrainerError::EmptyStream => true,
            _ => false,
        }
    }
}

/// The result of an operation of the drainer.
pub type DrainerResult<T> = Result<T, DrainerError>;

} // verus!
