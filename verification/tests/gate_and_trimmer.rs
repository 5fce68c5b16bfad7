use drainer::errors::DrainerError;
use drainer::gate::{is_stream_available, SetnxReply};
use drainer::trimmer::removed_count;

#[test]
fn created_flag_means_acquired() {
    assert!(is_stream_available(&Ok(SetnxReply::KeySet)));
}

#[test]
fn existing_flag_means_not_acquired() {
    assert!(!is_stream_available(&Ok(SetnxReply::KeyNotSet)));
}

#[test]
fn failed_acquire_means_not_acquired() {
    assert!(!is_stream_available(&Err(DrainerError::Transport)));
    assert!(!is_stream_available(&Err(DrainerError::StreamNotFound)));
}

#[test]
fn removed_count_adds_the_deleted_id() {
    assert_eq!(removed_count(0), 1);
    assert_eq!(removed_count(1), 2);
    assert_eq!(removed_count(41), 42);
    assert_eq!(removed_count(usize::MAX - 1), usize::MAX);
}

#[test]
fn only_absent_and_empty_streams_are_benign() {
    assert!(DrainerError::StreamNotFound.benign());
    assert!(DrainerError::EmptyStream.benign());
    assert!(!DrainerError::Transport.benign());
    assert!(!DrainerError::Persist.benign());
    assert!(!DrainerError::InvalidEntryId.benign());
}
