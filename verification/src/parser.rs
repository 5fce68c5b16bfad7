//! Interpretation of a read result for one stream.

use crate::errors::{DrainerError, DrainerResult};
use crate::stream::{StreamEntries, StreamReadResult};
use vstd::prelude::*;

verus! {

/// What a read result says about one stream.
pub enum ParsedStream {
    /// The read result does not record the stream.
    Absent,
    /// The read result records the stream, with no entries.
    Empty,
    /// The stream's entries, oldest first, and the id of the newest.
    Batch { entries: Seq<crate::stream::StreamEntry>, last_id: Seq<char> },
}

/// What `read_result` says about the stream `stream_name`.
pub open spec fn parsed_stream(
    read_result: Map<Seq<char>, StreamEntries>,
    stream_name: Seq<char>,
) -> ParsedStream {
    if !read_result.contains_key(stream_name) {
        ParsedStream::Absent
    } else if read_result[stream_name]@.len() == 0 {
        ParsedStream::Empty
    } else {
        ParsedStream::Batch {
            entries: read_result[stream_name]@,
            last_id: read_result[stream_name]@.last().0@,
        }
    }
}

/// Picks the batch of `stream_name` out of a read result, together with the
/// id of its newest entry. A stream that the result does not record gives
/// `StreamNotFound`; one recorded without entries gives `EmptyStream`.
pub fn parse_stream_entries<'a>(read_result: &'a StreamReadResult, stream_name: &str) -> (parsed:
    DrainerResult<(&'a StreamEntries, String)>)
    ensures
        match parsed_stream(read_result@, stream_name@) {
            ParsedStream::Absent => parsed == Err::<(&StreamEntries, String), DrainerError>(
                DrainerError::StreamNotFound,
            ),
            ParsedStream::Empty => parsed == Err::<(&StreamEntries, String), DrainerError>(
                DrainerError::EmptyStream,
            ),
            ParsedStream::Batch { entries, last_id } => parsed is Ok && *parsed->Ok_0.0
                == read_result@[stream_name@] && parsed->Ok_0.0@ == entries && parsed->Ok_0.1@
                == last_id,
        },
{
    match read_result.get(stream_name) {
        None => Err(DrainerError::StreamNotFound),
        Some(entries) => {
            if entries.len() == 0 {
                Err(DrainerError::EmptyStream)
            } else {
                let last_id = entries[entries.len() - 1].0.clone();
                Ok((entries, last_id))
            }
        },
    }
}

} // verus!
