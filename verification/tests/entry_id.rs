use drainer::entry_id::{id_below, parse_entry_id};

#[test]
fn well_formed_ids_are_read() {
    assert_eq!(parse_entry_id("0-0"), Some((0, 0)));
    assert_eq!(parse_entry_id("1-1"), Some((1, 1)));
    assert_eq!(parse_entry_id("1-2"), Some((1, 2)));
    assert_eq!(parse_entry_id("1526919030474-55"), Some((1526919030474, 55)));
    assert_eq!(parse_entry_id("007-010"), Some((7, 10)));
    assert_eq!(
        parse_entry_id("18446744073709551615-18446744073709551615"),
        Some((u64::MAX, u64::MAX))
    );
}

#[test]
fn malformed_ids_are_refused() {
    assert_eq!(parse_entry_id(""), None);
    assert_eq!(parse_entry_id("-"), None);
    assert_eq!(parse_entry_id("1"), None);
    assert_eq!(parse_entry_id("1-"), None);
    assert_eq!(parse_entry_id("-1"), None);
    assert_eq!(parse_entry_id("1-2-3"), None);
    assert_eq!(parse_entry_id("1--2"), None);
    assert_eq!(parse_entry_id("a-1"), None);
    assert_eq!(parse_entry_id("1-b"), None);
    assert_eq!(parse_entry_id("1 - 2"), None);
    assert_eq!(parse_entry_id("1-2 "), None);
    assert_eq!(parse_entry_id("+1-2"), None);
    assert_eq!(parse_entry_id("١-٢"), None);
}

#[test]
fn numbers_beyond_64_bits_are_refused() {
    assert_eq!(parse_entry_id("18446744073709551616-0"), None);
    assert_eq!(parse_entry_id("0-18446744073709551616"), None);
    assert_eq!(parse_entry_id("99999999999999999999999-1"), None);
    assert_eq!(parse_entry_id("18446744073709551615-0"), Some((u64::MAX, 0)));
}

#[test]
fn ids_are_ordered_by_milliseconds_then_sequence() {
    assert!(id_below((1, 1), (1, 2)));
    assert!(id_below((1, 9), (2, 0)));
    assert!(id_below((2, 1), (10, 0)));
    assert!(!id_below((1, 2), (1, 2)));
    assert!(!id_below((1, 3), (1, 2)));
    assert!(!id_below((2, 0), (1, 9)));
}
