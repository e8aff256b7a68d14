//! What holds of the ring buffer model over sequences of operations.

use vstd::prelude::*;
use crate::cursor::{
    advance,
    distance,
    lemma_advance,
    lemma_advance_slot_after,
    lemma_distance,
    lemma_distance_of_slot_after,
    lemma_slot_after,
    lemma_slot_after_in_bounds,
    lemma_slots_differ,
    slot_after,
};
use crate::model::{Operation, RingState};

verus! {

/// A fresh state of any positive capacity is well formed: it has that many
/// slots, every one of them empty, and both cursors on the first slot.
pub proof fn lemma_fresh<T>(capacity: nat)
    requires
        capacity > 0,
    ensures
        RingState::<T>::fresh(capacity).wf(),
        RingState::<T>::fresh(capacity).capacity() == capacity,
        RingState::<T>::fresh(capacity).is_empty(),
        RingState::<T>::fresh(capacity).read_index == 0,
        RingState::<T>::fresh(capacity).write_index == 0,
{
}

/// A write keeps a well-formed state well formed and its capacity unchanged.
pub proof fn lemma_write_preserves_wf<T>(state: RingState<T>, value: T)
    requires
        state.wf(),
    ensures
        state.write(value).wf(),
        state.write(value).capacity() == state.capacity(),
{
    lemma_advance(state.write_index, state.capacity() as int);
}

/// A read keeps a well-formed state well formed and its capacity unchanged.
pub proof fn lemma_read_preserves_wf<T>(state: RingState<T>)
    requires
        state.wf(),
    ensures
        state.read().wf(),
        state.read().capacity() == state.capacity(),
{
    lemma_advance(state.read_index, state.capacity() as int);
}

/// Index bounds: whatever operations are applied to a well-formed state, in
/// whatever order, both cursors stay valid slot positions and the capacity
/// stays what it was.
pub proof fn lemma_run_preserves_wf<T>(state: RingState<T>, operations: Seq<Operation<T>>)
    requires
        state.wf(),
    ensures
        state.run(operations).wf(),
        state.run(operations).capacity() == state.capacity(),
        0 <= state.run(operations).read_index < state.capacity(),
        0 <= state.run(operations).write_index < state.capacity(),
    decreases operations.len(),
{
    if operations.len() > 0 {
        let before = state.run(operations.drop_last());
        lemma_run_preserves_wf(state, operations.drop_last());
        match operations.last() {
            Operation::Write(value) => lemma_write_preserves_wf(before, value),
            Operation::Read => lemma_read_preserves_wf(before),
        }
    }
}

/// After any number of writes, the newest values are in place: each of the
/// last `capacity` values written lies in the slot that the write cursor
/// stood on when it was written, every older value is lost, and a slot that
/// the write cursor has not reached holds what it held before.  The read
/// cursor stays where it was.
pub proof fn lemma_write_all<T>(state: RingState<T>, values: Seq<T>)
    requires
        state.wf(),
    ensures
        ({
            let written = state.write_all(values);
            let n = state.capacity() as int;
            let start = state.write_index;
            let count = values.len() as int;
            &&& written.wf()
            &&& written.capacity() == state.capacity()
            &&& written.read_index == state.read_index
            &&& written.write_index == slot_after(start, count, n)
            &&& forall|i: int|
                0 <= i < count && count - n <= i ==> (#[trigger] written.slots[slot_after(
                    start,
                    i,
                    n,
                )]) == Some(values[i])
            &&& forall|slot: int|
                0 <= slot < n && count <= distance(start, slot, n) ==> (
                #[trigger] written.slots[slot]) == state.slots[slot]
        }),
    decreases values.len(),
{
    let n = state.capacity() as int;
    let start = state.write_index;
    let count = values.len() as int;
    if count == 0 {
        lemma_slot_after(start, 0, n);
    } else {
        let front = values.drop_last();
        let before = state.write_all(front);
        let written = before.write(values.last());
        lemma_write_all(state, front);
        lemma_slot_after_in_bounds(start, count - 1, n);
        lemma_slot_after_in_bounds(start, count, n);
        lemma_advance_slot_after(start, count - 1, n);
        assert forall|i: int| 0 <= i < count && count - n <= i implies (
        #[trigger] written.slots[slot_after(start, i, n)]) == Some(values[i]) by {
            if i < count - 1 {
                lemma_slots_differ(start, i, count - 1, n);
                assert(front[i] == values[i]);
            }
        }
        assert forall|slot: int| 0 <= slot < n && count <= distance(start, slot, n) implies (
        #[trigger] written.slots[slot]) == state.slots[slot] by {
            lemma_distance(start, slot, n);
            if slot == before.write_index {
                lemma_distance_of_slot_after(start, count - 1, n);
            }
        }
    }
}

/// Reading a run of occupied slots returns their values in slot order from
/// the read cursor on and leaves them empty; the other slots and the write
/// cursor stay as they were.
pub proof fn lemma_read_times_occupied<T>(state: RingState<T>, count: nat)
    requires
        state.wf(),
        count <= state.capacity(),
        forall|i: int|
            0 <= i < count ==> (#[trigger] state.slots[slot_after(
                state.read_index,
                i,
                state.capacity() as int,
            )]) is Some,
    ensures
        ({
            let after = state.read_times(count);
            let n = state.capacity() as int;
            let start = state.read_index;
            &&& after.wf()
            &&& after.capacity() == state.capacity()
            &&& after.write_index == state.write_index
            &&& after.read_index == slot_after(start, count as int, n)
            &&& forall|slot: int|
                0 <= slot < n ==> (#[trigger] after.slots[slot]) == if distance(start, slot, n)
                    < count {
                    None
                } else {
                    state.slots[slot]
                }
            &&& forall|i: int|
                0 <= i < count ==> (#[trigger] state.read_times(i as nat)).head()
                    == state.slots[slot_after(start, i, n)]
        }),
    decreases count,
{
    let n = state.capacity() as int;
    let start = state.read_index;
    if count == 0 {
        lemma_slot_after(start, 0, n);
        assert forall|slot: int| 0 <= slot < n implies distance(start, slot, n) >= 0 by {
            lemma_distance(start, slot, n);
        }
    } else {
        let fewer = (count - 1) as nat;
        let before = state.read_times(fewer);
        let after = before.read();
        lemma_read_times_occupied(state, fewer);
        lemma_slot_after_in_bounds(start, count as int, n);
        lemma_advance_slot_after(start, fewer as int, n);
        lemma_distance_of_slot_after(start, fewer as int, n);
        assert(before.head() == state.slots[slot_after(start, fewer as int, n)]);
        assert forall|slot: int| 0 <= slot < n implies (#[trigger] after.slots[slot])
            == if distance(start, slot, n) < count {
            None
        } else {
            state.slots[slot]
        } by {
            lemma_distance(start, slot, n);
            lemma_distance(start, before.read_index, n);
        }
        assert forall|i: int| 0 <= i < count implies (#[trigger] state.read_times(
            i as nat,
        )).head() == state.slots[slot_after(start, i, n)] by {
            if i == fewer {
                assert(state.read_times(i as nat) == before);
            }
        }
    }
}

/// A read that finds the slot under the read cursor empty changes nothing
/// and returns `None`, however often it is repeated.  Every read of an empty
/// buffer is such a read.
pub proof fn lemma_empty_read_is_idempotent<T>(state: RingState<T>, count: nat)
    requires
        state.head() is None,
    ensures
        state.read() == state,
        state.read_times(count) == state,
        state.read_results(count) == Seq::new(count, |i: int| None::<T>),
    decreases count,
{
    if count > 0 {
        lemma_empty_read_is_idempotent(state, (count - 1) as nat);
    }
    assert forall|i: int| 0 <= i < count implies (#[trigger] state.read_times(i as nat))
        == state by {
        lemma_empty_read_is_idempotent(state, i as nat);
    }
}

/// With both cursors on the same slot, a write followed by a read returns
/// the value just written, whether or not the slot held an unread value
/// before; the slot is then empty and both cursors have advanced by one.
pub proof fn lemma_write_then_read<T>(state: RingState<T>, value: T)
    requires
        state.wf(),
        state.read_index == state.write_index,
    ensures
        state.write(value).head() == Some(value),
        state.write(value).read() == (RingState {
            slots: state.slots.update(state.write_index, None),
            read_index: advance(state.read_index, state.capacity() as int),
            write_index: advance(state.write_index, state.capacity() as int),
        }),
{
}

/// Overwrite on full: one full turn of writes from cursors that stand on the
/// same slot occupies every slot and brings the write cursor back onto the
/// read cursor, with the oldest value under both.  One more write replaces
/// that oldest value, and the next read returns the newest value instead.
pub proof fn lemma_overwrite_on_full<T>(state: RingState<T>, values: Seq<T>, newest: T)
    requires
        state.wf(),
        state.read_index == state.write_index,
        values.len() == state.capacity(),
    ensures
        ({
            let full = state.write_all(values);
            let n = state.capacity() as int;
            let start = state.write_index;
            &&& full.read_index == start
            &&& full.write_index == start
            &&& forall|slot: int|
                0 <= slot < n ==> (#[trigger] full.slots[slot]) == Some(
                    values[distance(start, slot, n)],
                )
            &&& full.head() == Some(values[0])
            &&& full.write(newest).head() == Some(newest)
            &&& full.write(newest).read().read_index == advance(start, n)
            &&& full.write(newest).read().slots == full.slots.update(start, None)
        }),
{
    let full = state.write_all(values);
    let n = state.capacity() as int;
    let start = state.write_index;
    lemma_write_all(state, values);
    lemma_slot_after(start, n, n);
    lemma_write_then_read(full, newest);
    assert forall|slot: int| 0 <= slot < n implies (#[trigger] full.slots[slot]) == Some(
        values[distance(start, slot, n)],
    ) by {
        lemma_distance(start, slot, n);
        lemma_slot_after(start, distance(start, slot, n), n);
        assert(full.slots[slot_after(start, distance(start, slot, n), n)] == Some(
            values[distance(start, slot, n)],
        ));
    }
}

/// Round trip of a single element through a fresh buffer: the read returns
/// the value written and leaves every slot empty, with both cursors on the
/// second slot, or on the only slot where the capacity is one.
pub proof fn lemma_round_trip<T>(capacity: nat, value: T)
    requires
        capacity > 0,
    ensures
        ({
            let written = RingState::<T>::fresh(capacity).write(value);
            let next: int = if capacity > 1 {
                1
            } else {
                0
            };
            &&& written.head() == Some(value)
            &&& written.read().is_empty()
            &&& written.read() == (RingState {
                slots: RingState::<T>::fresh(capacity).slots,
                read_index: next,
                write_index: next,
            })
        }),
{
    let fresh = RingState::<T>::fresh(capacity);
    lemma_fresh::<T>(capacity);
    lemma_write_then_read(fresh, value);
    lemma_advance(0, capacity as int);
}

/// First in, first out within capacity: after at most one full turn of
/// writes into an empty buffer whose cursors stand on the same slot, as many
/// reads return the values in the order written, and the read after them
/// returns `None`.  The buffer is then empty again, with both cursors on the
/// slot after the last one used.
pub proof fn lemma_fifo_within_capacity<T>(state: RingState<T>, values: Seq<T>)
    requires
        state.wf(),
        state.is_empty(),
        state.read_index == state.write_index,
        values.len() <= state.capacity(),
    ensures
        ({
            let written = state.write_all(values);
            let count = values.len();
            let stop = slot_after(state.write_index, count as int, state.capacity() as int);
            &&& written.read_results(count + 1) == values.map_values(|v: T| Some(v)).push(None)
            &&& written.read_times(count + 1) == written.read_times(count)
            &&& written.read_times(count) == (RingState {
                slots: state.slots,
                read_index: stop,
                write_index: stop,
            })
        }),
{
    let n = state.capacity() as int;
    let start = state.write_index;
    let count = values.len();
    let written = state.write_all(values);
    let drained = written.read_times(count);
    lemma_write_all(state, values);
    lemma_read_times_occupied(written, count);
    assert(drained.slots =~= state.slots);
    assert(written.read_times(count + 1) == drained.read());
    assert forall|i: int| 0 <= i < count + 1 implies (#[trigger] written.read_results(
        count + 1,
    )[i]) == values.map_values(|v: T| Some(v)).push(None)[i] by {
        if i < count {
            assert(written.read_times(i as nat).head() == written.slots[slot_after(start, i, n)]);
        } else {
            assert(written.read_times(i as nat) == drained);
        }
    }
}

} // verus!
