//! Names of a shard's stream and of its lock flag in the store.

use vstd::prelude::*;
use vstd::string::StringExecFns;

verus! {

/// The character that writes the digit `digit`.
pub open spec fn digit_char(digit: int) -> char {
    if digit == 0 {
        '0'
    } else if digit == 1 {
        '1'
    } else if digit == 2 {
        '2'
    } else if digit == 3 {
        '3'
    } else if digit == 4 {
        '4'
    } else if digit == 5 {
        '5'
    } else if digit == 6 {
        '6'
    } else if digit == 7 {
        '7'
    } else if digit == 8 {
        '8'
    } else {
        '9'
    }
}

/// The decimal numeral of `number`, without leading zeros.
pub open spec fn decimal(number: nat) -> Seq<char>
    decreases number,
{
    if number < 10 {
        seq![digit_char(number as int)]
    } else {
        decimal(number / 10).push(digit_char((number % 10) as int))
    }
}

/// What stands between the namespace prefix and the shard's number.
pub open spec fn shard_infix() -> Seq<char> {
    seq!['_', 's', 'h', 'a', 'r', 'd', '_']
}

/// What follows a stream's name in the name of its lock flag.
pub open spec fn lock_suffix() -> Seq<char> {
    seq!['_', 'i', 'n', '_', 'u', 's', 'e']
}

/// The name of the stream of shard `index` under the namespace `prefix`:
/// the prefix, `_shard_`, and the shard's number.
pub open spec fn stream_name(prefix: Seq<char>, index: u8) -> Seq<char> {
    prefix + shard_infix() + decimal(index as nat)
}

/// The key of the lock flag of shard `index`: the stream's name and `_in_use`.
pub open spec fn lock_key(prefix: Seq<char>, index: u8) -> Seq<char> {
    stream_name(prefix, index) + lock_suffix()
}

/// A decimal numeral is never empty, and ends with the digit of the units.
pub proof fn lemma_decimal_ends_with_units(number: nat)
    ensures
        decimal(number).len() >= 1,
        number >= 10 ==> decimal(number).len() >= 2,
        decimal(number).last() == digit_char((number % 10) as int),
    decreases number,
{
    if number >= 10 {
        lemma_decimal_ends_with_units(number / 10);
    }
}

/// Different numbers have different decimal numerals.
pub proof fn lemma_decimal_is_injective(a: nat, b: nat)
    requires
        decimal(a) == decimal(b),
    ensures
        a == b,
    decreases a,
{
    lemma_decimal_ends_with_units(a);
    lemma_decimal_ends_with_units(b);
    if a >= 10 && b >= 10 {
        let front_a = decimal(a / 10);
        let front_b = decimal(b / 10);
        assert(front_a =~= decimal(a).drop_last());
        assert(front_b =~= decimal(b).drop_last());
        lemma_decimal_is_injective(a / 10, b / 10);
    }
}

/// Each shard has a stream name and a lock key of its own: under one
/// prefix, two different shards share neither.
pub proof fn lemma_shards_have_their_own_names(prefix: Seq<char>, a: u8, b: u8)
    requires
        a != b,
    ensures
        stream_name(prefix, a) != stream_name(prefix, b),
        lock_key(prefix, a) != lock_key(prefix, b),
{
    let head = prefix + shard_infix();
    let name_a = stream_name(prefix, a);
    let name_b = stream_name(prefix, b);
    if name_a == name_b {
        assert(name_a.skip(head.len() as int) =~= decimal(a as nat));
        assert(name_b.skip(head.len() as int) =~= decimal(b as nat));
        lemma_decimal_is_injective(a as nat, b as nat);
    }
    if lock_key(prefix, a) == lock_key(prefix, b) {
        assert(lock_key(prefix, a).len() == name_a.len() + lock_suffix().len());
        assert(lock_key(prefix, b).len() == name_b.len() + lock_suffix().len());
        assert(lock_key(prefix, a).take(name_a.len() as int) =~= name_a);
        assert(lock_key(prefix, b).take(name_b.len() as int) =~= name_b);
    }
}

/// No lock key is the name of a stream: a stream name ends with a digit,
/// a lock key does not.
pub proof fn lemma_lock_key_is_no_stream_name(prefix: Seq<char>, locked: u8, named: u8)
    ensures
        lock_key(prefix, locked) != stream_name(prefix, named),
{
    lemma_decimal_ends_with_units(named as nat);
    let name = stream_name(prefix, named);
    let key = lock_key(prefix, locked);
    assert(name.last() == decimal(named as nat).last());
    assert(key.last() == lock_suffix().last());
    assert(lock_suffix().last() == 'e');
}

fn digit_text(digit: u8) -> (text: &'static str)
    requires
        digit < 10,
    ensures
        text@ == seq![digit_char(digit as int)],
{
    proof {
        reveal_strlit("0");
        reveal_strlit("1");
        reveal_strlit("2");
        reveal_strlit("3");
        reveal_strlit("4");
        reveal_strlit("5");
        reveal_strlit("6");
        reveal_strlit("7");
        reveal_strlit("8");
        reveal_strlit("9");
    }
    let text = match digit {
        0 => "0",
        1 => "1",
        2 => "2",
        3 => "3",
        4 => "4",
        5 => "5",
        6 => "6",
        7 => "7",
        8 => "8",
        _ => "9",
    };
    assert(text@ =~= seq![digit_char(digit as int)]);
    text
}

/// Appends the decimal numeral of a shard index to `text`.
fn append_shard_number(text: &mut String, index: u8)
    ensures
        final(text)@ == old(text)@ + decimal(index as nat),
{
    let hundreds: u8 = index / 100;
    let tens: u8 = (index / 10) % 10;
    let ones: u8 = index % 10;
    proof {
        reveal_with_fuel(decimal, 3);
    }
    if index >= 100 {
        text.append(digit_text(hundreds));
    }
    if index >= 10 {
        text.append(digit_text(tens));
    }
    text.append(digit_text(ones));
    assert(text@ =~= old(text)@ + decimal(index as nat));
}

/// The name of the stream of shard `stream_index` under the namespace
/// `stream_prefix`.
pub fn get_drainer_stream_name(stream_prefix: &str, stream_index: u8) -> (name: String)
    ensures
        name@ == stream_name(stream_prefix@, stream_index),
{
    let mut name = String::from_str(stream_prefix);
    let infix = "_shard_";
    proof {
        reveal_strlit("_shard_");
    }
    assert(infix@ =~= shard_infix());
    name.append(infix);
    append_shard_number(&mut name, stream_index);
    name
}

/// The key under which the store records that shard `stream_index` is being
/// drained.
pub fn get_stream_key_flag(stream_prefix: &str, stream_index: u8) -> (key: String)
    ensures
        key@ == lock_key(stream_prefix@, stream_index),
{
    let mut key = get_drainer_stream_name(stream_prefix, stream_index);
    let suffix = "_in_use";
    proof {
        reveal_strlit("_in_use");
    }
    assert(suffix@ =~= lock_suffix());
    key.append(suffix);
    key
}

} // verus!
