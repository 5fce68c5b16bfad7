//! Round-robin rotation over shard indices.

use vstd::prelude::*;

verus! {

/// The shard that follows `index` in a rotation over `total` shards: the
/// index plus one, modulo the number of shards.
pub open spec fn next_index(index: int, total: int) -> int {
    (index + 1) % total
}

/// The shard reached from `index` after `steps` advances.
pub open spec fn advance(index: int, total: int, steps: nat) -> int
    decreases steps,
{
    if steps == 0 {
        index
    } else {
        next_index(advance(index, total, (steps - 1) as nat), total)
    }
}

/// The shard that precedes `index` in the rotation.
pub open spec fn prev_index(index: int, total: int) -> int {
    if index == 0 {
        total - 1
    } else {
        index - 1
    }
}

/// Advances a shard index by one position, wrapping after the last shard.
/// Whatever the index, the result is a shard of the rotation.
pub fn increment_stream_index(index: u8, total_streams: u8) -> (next: u8)
    requires
        total_streams >= 1,
    ensures
        next == next_index(index as int, total_streams as int),
        next == (index + 1) % (total_streams as int),
        next < total_streams,
{
    proof {
        lemma_next_is_a_shard(index as int, total_streams as int);
    }
    let sum: u16 = index as u16 + 1;
    let next: u16 = sum % (total_streams as u16);
    next as u8
}

/// The successor of any index is a shard of the rotation.
pub proof fn lemma_next_is_a_shard(index: int, total: int)
    requires
        total >= 1,
    ensures
        0 <= next_index(index, total) < total,
{
    assert(0 <= (index + 1) % total < total) by (nonlinear_arith)
        requires
            total >= 1,
    ;
}

/// Within the rotation the last shard wraps to the first, and every other
/// shard moves up by one.
pub proof fn lemma_next_wraps_after_last(index: int, total: int)
    requires
        total >= 1,
        0 <= index < total,
    ensures
        0 <= next_index(index, total) < total,
        next_index(index, total) == if index == total - 1 {
            0
        } else {
            index + 1
        },
        next_index(total - 1, total) == 0,
{
    assert(total % total == 0) by (nonlinear_arith)
        requires
            total >= 1,
    ;
    if index < total - 1 {
        assert((index + 1) % total == index + 1) by (nonlinear_arith)
            requires
                0 <= index + 1 < total,
        ;
    }
}

/// Two different shards never share a successor.
pub proof fn lemma_next_injective(a: int, b: int, total: int)
    requires
        total >= 1,
        0 <= a < total,
        0 <= b < total,
        next_index(a, total) == next_index(b, total),
    ensures
        a == b,
{
    lemma_next_wraps_after_last(a, total);
    lemma_next_wraps_after_last(b, total);
}

/// Every shard is the successor of exactly the shard before it.
pub proof fn lemma_next_surjective(target: int, total: int)
    requires
        total >= 1,
        0 <= target < total,
    ensures
        0 <= prev_index(target, total) < total,
        next_index(prev_index(target, total), total) == target,
        prev_index(next_index(target, total), total) == target,
{
    lemma_next_wraps_after_last(target, total);
    lemma_next_wraps_after_last(prev_index(target, total), total);
}

/// After `steps` advances, with `steps` at most the number of shards, the
/// rotation stands `steps` positions further on, wrapped once at most.
pub proof fn lemma_advance_within_cycle(index: int, total: int, steps: nat)
    requires
        total >= 1,
        0 <= index < total,
        steps <= total,
    ensures
        advance(index, total, steps) == if index + steps < total {
            index + steps
        } else {
            index + steps - total
        },
    decreases steps,
{
    if steps > 0 {
        lemma_advance_within_cycle(index, total, (steps - 1) as nat);
        lemma_next_wraps_after_last(advance(index, total, (steps - 1) as nat), total);
    }
}

/// After any number of advances the rotation stands at the start index plus
/// that number, modulo the number of shards.
pub proof fn lemma_advance_is_addition_modulo(index: int, total: int, steps: nat)
    requires
        total >= 1,
        0 <= index < total,
    ensures
        0 <= advance(index, total, steps) < total,
        advance(index, total, steps) == (index + steps) % total,
    decreases steps,
{
    if steps == 0 {
        assert(index % total == index) by (nonlinear_arith)
            requires
                0 <= index < total,
        ;
    } else {
        let before = advance(index, total, (steps - 1) as nat);
        lemma_advance_is_addition_modulo(index, total, (steps - 1) as nat);
        lemma_next_is_a_shard(before, total);
        let sum = index + steps - 1;
        assert(((sum % total) + 1) % total == (sum + 1) % total) by (nonlinear_arith)
            requires
                total >= 1,
        ;
    }
}

/// The rotation has period `total`: a full cycle returns to the start, and
/// no shorter run of advances does.
pub proof fn lemma_rotation_period(index: int, total: int, steps: nat)
    requires
        total >= 1,
        0 <= index < total,
        0 < steps < total,
    ensures
        advance(index, total, total as nat) == index,
        advance(index, total, steps) != index,
{
    lemma_advance_within_cycle(index, total, total as nat);
    lemma_advance_within_cycle(index, total, steps);
}

/// One full cycle visits every shard: `target` is reached after fewer than
/// `total` advances, and the number of advances that reaches it is unique.
pub proof fn lemma_cycle_visits_each_shard_once(index: int, target: int, total: int) -> (steps: nat)
    requires
        total >= 1,
        0 <= index < total,
        0 <= target < total,
    ensures
        steps < total,
        advance(index, total, steps) == target,
        forall|other: nat|
            other < total && advance(index, total, other) == target ==> other == steps,
{
    let steps: nat = if target >= index {
        (target - index) as nat
    } else {
        (target - index + total) as nat
    };
    lemma_advance_within_cycle(index, total, steps);
    assert forall|other: nat| other < total && advance(index, total, other) == target implies other
        == steps by {
        lemma_advance_within_cycle(index, total, other);
    }
    steps
}

} // verus!
