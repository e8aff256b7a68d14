//! Cursor arithmetic: positions in a ring of slots, counted modulo its
//! capacity.

use vstd::prelude::*;
use vstd::arithmetic::div_mod::{
    lemma_add_mod_noop_right,
    lemma_fundamental_div_mod_converse_mod,
    lemma_mod_bound,
    lemma_mod_equivalence,
    lemma_small_mod,
};

verus! {

/// The position `offset` slots after `start` in a ring of `capacity` slots.
pub open spec fn slot_after(start: int, offset: int, capacity: int) -> int {
    (start + offset) % capacity
}

/// The cursor position that follows `index` in a ring of `capacity` slots.
pub open spec fn advance(index: int, capacity: int) -> int {
    (index + 1) % capacity
}

/// The number of steps a cursor takes from `from` until it stands on `to`.
pub open spec fn distance(from: int, to: int, capacity: int) -> int {
    (to - from) % capacity
}

/// Moving a cursor by at most one full turn wraps around at most once.
pub proof fn lemma_slot_after(start: int, offset: int, capacity: int)
    requires
        0 <= start < capacity,
        0 <= offset <= capacity,
    ensures
        slot_after(start, offset, capacity) == if start + offset < capacity {
            start + offset
        } else {
            start + offset - capacity
        },
        0 <= slot_after(start, offset, capacity) < capacity,
{
    if start + offset < capacity {
        lemma_fundamental_div_mod_converse_mod(start + offset, capacity, 0, start + offset);
    } else {
        lemma_fundamental_div_mod_converse_mod(
            start + offset,
            capacity,
            1,
            start + offset - capacity,
        );
    }
}

/// A cursor that advances stays a valid position: it moves to the next slot,
/// and from the last slot back to the first.
pub proof fn lemma_advance(index: int, capacity: int)
    requires
        0 <= index < capacity,
    ensures
        advance(index, capacity) == if index + 1 == capacity {
            0
        } else {
            index + 1
        },
        0 <= advance(index, capacity) < capacity,
{
    lemma_slot_after(index, 1, capacity);
}

/// Between two valid positions the distance is less than one full turn.
pub proof fn lemma_distance(from: int, to: int, capacity: int)
    requires
        0 <= from < capacity,
        0 <= to < capacity,
    ensures
        distance(from, to, capacity) == if from <= to {
            to - from
        } else {
            to - from + capacity
        },
        0 <= distance(from, to, capacity) < capacity,
{
    if from <= to {
        lemma_fundamental_div_mod_converse_mod(to - from, capacity, 0, to - from);
    } else {
        lemma_fundamental_div_mod_converse_mod(to - from, capacity, -1, to - from + capacity);
    }
}

/// The position `offset` slots after `start` lies `offset` steps from
/// `start`, for less than one full turn.
pub proof fn lemma_distance_of_slot_after(start: int, offset: int, capacity: int)
    requires
        0 <= start < capacity,
        0 <= offset < capacity,
    ensures
        distance(start, slot_after(start, offset, capacity), capacity) == offset,
{
    lemma_slot_after(start, offset, capacity);
    lemma_distance(start, slot_after(start, offset, capacity), capacity);
}

/// Wherever a cursor stands after any number of steps, it stands on a valid
/// position.
pub proof fn lemma_slot_after_in_bounds(start: int, offset: int, capacity: int)
    requires
        0 < capacity,
    ensures
        0 <= slot_after(start, offset, capacity) < capacity,
{
    lemma_mod_bound(start + offset, capacity);
}

/// Advancing from the position `offset` after `start` leads to the position
/// `offset + 1` after `start`.
pub proof fn lemma_advance_slot_after(start: int, offset: int, capacity: int)
    requires
        0 < capacity,
    ensures
        advance(slot_after(start, offset, capacity), capacity) == slot_after(
            start,
            offset + 1,
            capacity,
        ),
{
    lemma_add_mod_noop_right(1, start + offset, capacity);
}

/// Two positions less than one full turn apart are different slots.
pub proof fn lemma_slots_differ(start: int, nearer: int, farther: int, capacity: int)
    requires
        0 < farther - nearer < capacity,
    ensures
        slot_after(start, nearer, capacity) != slot_after(start, farther, capacity),
{
    lemma_mod_equivalence(start + farther, start + nearer, capacity);
    lemma_small_mod((farther - nearer) as nat, capacity as nat);
}

} // verus!
