//! Ids of stream entries: `<milliseconds>-<sequence>`, two decimal numerals
//! that each fit in 64 bits, ordered as pairs of numbers.

use vstd::prelude::*;
use vstd::string::StrSliceExecFns;

verus! {

/// Whether `c` is a decimal digit.
pub open spec fn is_digit(c: char) -> bool {
    '0' <= c && c <= '9'
}

/// The number that the digit `c` writes.
pub open spec fn digit_value(c: char) -> nat {
    (c as u32 - '0' as u32) as nat
}

/// Whether `digits` is a decimal numeral: one digit or more, nothing else.
pub open spec fn is_numeral(digits: Seq<char>) -> bool {
    digits.len() > 0 && forall|i: int| 0 <= i < digits.len() ==> is_digit(#[trigger] digits[i])
}

/// The number that a run of digits writes.
pub open spec fn numeral_value(digits: Seq<char>) -> nat
    decreases digits.len(),
{
    if digits.len() == 0 {
        0
    } else {
        numeral_value(digits.drop_last()) * 10 + digit_value(digits.last())
    }
}

/// Whether `id` is a numeral, a dash at position `dash`, and a numeral.
pub open spec fn splits_at(id: Seq<char>, dash: int) -> bool {
    &&& 0 < dash < id.len() - 1
    &&& id[dash] == '-'
    &&& is_numeral(id.subrange(0, dash))
    &&& is_numeral(id.subrange(dash + 1, id.len() as int))
}

/// The pair of numbers that an id writes, if it is of the form
/// `<milliseconds>-<sequence>` with both numbers below 2^64.
pub open spec fn entry_id_key(id: Seq<char>) -> Option<(u64, u64)> {
    if exists|dash: int| splits_at(id, dash) {
        let dash = choose|dash: int| splits_at(id, dash);
        let millis = numeral_value(id.subrange(0, dash));
        let sequence = numeral_value(id.subrange(dash + 1, id.len() as int));
        if millis <= u64::MAX && sequence <= u64::MAX {
            Some((millis as u64, sequence as u64))
        } else {
            None
        }
    } else {
        None
    }
}

/// The order of ids: by milliseconds, then by sequence number.
pub open spec fn key_below(a: (u64, u64), b: (u64, u64)) -> bool {
    a.0 < b.0 || (a.0 == b.0 && a.1 < b.1)
}

/// Whether the id `a` lies strictly below the id `b`.
pub fn id_below(a: (u64, u64), b: (u64, u64)) -> (below: bool)
    ensures
        below == key_below(a, b),
{
    a.0 < b.0 || (a.0 == b.0 && a.1 < b.1)
}

/// An id has its dash in one place only.
pub proof fn lemma_dash_unique(id: Seq<char>, first: int, second: int)
    requires
        splits_at(id, first),
        splits_at(id, second),
    ensures
        first == second,
{
    if first < second {
        assert(id.subrange(0, second)[first] == id[first]);
    } else if second < first {
        assert(id.subrange(0, first)[second] == id[second]);
    }
}

fn digit_of(c: char) -> (digit: Option<u8>)
    ensures
        digit is Some <==> is_digit(c),
        digit matches Some(d) ==> d == digit_value(c) && d < 10,
{
    if '0' <= c && c <= '9' {
        Some((c as u32 - '0' as u32) as u8)
    } else {
        None
    }
}

/// Reads the run of digits of `text` that begins at `from`. Returns where
/// the run ends, and the number it writes unless that exceeds 64 bits.
fn scan_numeral(text: &str, from: usize, len: usize) -> (scanned: (usize, Option<u64>))
    requires
        len == text@.len(),
        from <= len,
    ensures
        from <= scanned.0 <= len,
        forall|i: int| from <= i < scanned.0 ==> is_digit(#[trigger] text@[i]),
        scanned.0 < len ==> !is_digit(text@[scanned.0 as int]),
        match scanned.1 {
            Some(value) => value == numeral_value(text@.subrange(from as int, scanned.0 as int)),
            None => numeral_value(text@.subrange(from as int, scanned.0 as int)) > u64::MAX,
        },
{
    let mut at: usize = from;
    let mut value: u64 = 0;
    let mut fits: bool = true;
    let mut more: bool = true;
    assert(text@.subrange(from as int, from as int) =~= Seq::<char>::empty());
    while more && at < len
        invariant
            len == text@.len(),
            from <= at <= len,
            forall|i: int| from <= i < at ==> is_digit(#[trigger] text@[i]),
            !more ==> at < len && !is_digit(text@[at as int]),
            fits ==> value == numeral_value(text@.subrange(from as int, at as int)),
            !fits ==> numeral_value(text@.subrange(from as int, at as int)) > u64::MAX,
        decreases len - at + if more { 1nat } else { 0nat },
    {
        let c = text.get_char(at);
        match digit_of(c) {
            Some(digit) => {
                proof {
                    let run = text@.subrange(from as int, at + 1);
                    assert(run.drop_last() =~= text@.subrange(from as int, at as int));
                    assert(run.last() == c);
                }
                if fits {
                    if value > (u64::MAX - digit as u64) / 10 {
                        fits = false;
                    } else {
                        value = value * 10 + digit as u64;
                    }
                }
                at += 1;
            },
            None => {
                more = false;
            },
        }
    }
    if fits {
        (at, Some(value))
    } else {
        (at, None)
    }
}

/// Reads an id of the form `<milliseconds>-<sequence>`.
pub fn parse_entry_id(id: &str) -> (key: Option<(u64, u64)>)
    ensures
        key == entry_id_key(id@),
{
    let len = id.unicode_len();
    let (dash, millis) = scan_numeral(id, 0, len);
    if dash == 0 || dash >= len {
        proof {
            assert forall|other: int| !splits_at(id@, other) by {
                if splits_at(id@, other) {
                    lemma_run_ends_at_dash(id@, dash as int, other);
                    if dash == 0 {
                        assert(id@.subrange(0, other)[0] == id@[0]);
                    }
                }
            }
        }
        return None;
    }
    if id.get_char(dash) != '-' {
        proof {
            assert forall|other: int| !splits_at(id@, other) by {
                if splits_at(id@, other) {
                    lemma_run_ends_at_dash(id@, dash as int, other);
                }
            }
        }
        return None;
    }
    let (end, sequence) = scan_numeral(id, dash + 1, len);
    if end != len || end == dash + 1 {
        proof {
            assert forall|other: int| !splits_at(id@, other) by {
                if splits_at(id@, other) {
                    lemma_run_ends_at_dash(id@, dash as int, other);
                    if end < len {
                        let rest = id@.subrange(dash + 1, len as int);
                        assert(rest[end - dash - 1] == id@[end as int]);
                    }
                }
            }
        }
        return None;
    }
    proof {
        assert(id@.subrange(0, dash as int).len() == dash);
        assert forall|i: int| 0 <= i < dash implies is_digit(
            #[trigger] id@.subrange(0, dash as int)[i],
        ) by {
            assert(id@.subrange(0, dash as int)[i] == id@[i]);
        }
        assert forall|i: int| 0 <= i < len - dash - 1 implies is_digit(
            #[trigger] id@.subrange(dash + 1, len as int)[i],
        ) by {
            assert(id@.subrange(dash + 1, len as int)[i] == id@[dash + 1 + i]);
        }
        assert(splits_at(id@, dash as int));
        let chosen = choose|other: int| splits_at(id@, other);
        lemma_dash_unique(id@, dash as int, chosen);
    }
    match (millis, sequence) {
        (Some(millis), Some(sequence)) => Some((millis, sequence)),
        _ => None,
    }
}

/// Where the digits at the head of an id stop, at a character that is no
/// digit or at the end, the dash of the id can stand nowhere else.
proof fn lemma_run_ends_at_dash(id: Seq<char>, stop: int, dash: int)
    requires
        0 <= stop <= id.len(),
        forall|i: int| 0 <= i < stop ==> is_digit(#[trigger] id[i]),
        stop < id.len() ==> !is_digit(id[stop]),
        splits_at(id, dash),
    ensures
        dash == stop,
{
    if dash < stop {
        assert(is_digit(id[dash]));
    } else if stop < dash {
        assert(id.subrange(0, dash)[stop] == id[stop]);
    }
}

} // verus!
