//! The mathematical model of a ring buffer: a sequence of slots and two
//! cursors, with the two operations as functions from state to state.

use vstd::prelude::*;
use crate::cursor::advance;

verus! {

/// The abstract state of a ring buffer.
///
/// A slot is either occupied (`Some`) by a value that has not been read yet,
/// or empty (`None`).  Occupancy is tracked per slot: there is no element
/// count, and the two cursors move independently of each other.
#[verifier::ext_equal]
pub struct RingState<T> {
    /// The slots, in storage order.
    pub slots: Seq<Option<T>>,
    /// The slot that the next read inspects.
    pub read_index: int,
    /// The slot that the next write fills.
    pub write_index: int,
}

/// One operation on a ring buffer.
pub enum Operation<T> {
    /// Write the given value.
    Write(T),
    /// Read once.
    Read,
}

impl<T> RingState<T> {
    /// The number of slots.
    pub open spec fn capacity(self) -> nat {
        self.slots.len()
    }

    /// A state is well formed when it has at least one slot and both cursors
    /// are valid slot positions.
    pub open spec fn wf(self) -> bool {
        &&& self.capacity() > 0
        &&& 0 <= self.read_index < self.capacity()
        &&& 0 <= self.write_index < self.capacity()
    }

    /// The state of a newly made buffer of `capacity` slots: every slot
    /// empty, both cursors on the first slot.
    pub open spec fn fresh(capacity: nat) -> Self {
        RingState { slots: Seq::new(capacity, |i: int| None), read_index: 0, write_index: 0 }
    }

    /// No slot holds a value.
    pub open spec fn is_empty(self) -> bool {
        forall|i: int| 0 <= i < self.capacity() ==> self.slots[i] is None
    }

    /// The content of the slot under the read cursor: what the next read
    /// returns.
    pub open spec fn head(self) -> Option<T> {
        self.slots[self.read_index]
    }

    /// The state after writing `value`: the slot under the write cursor holds
    /// `value`, whatever it held before, and the write cursor has advanced.
    pub open spec fn write(self, value: T) -> Self {
        RingState {
            slots: self.slots.update(self.write_index, Some(value)),
            read_index: self.read_index,
            write_index: advance(self.write_index, self.capacity() as int),
        }
    }

    /// The state after one read.  Where the slot under the read cursor is
    /// occupied, it is emptied and the read cursor advances; where it is
    /// empty, nothing changes.
    pub open spec fn read(self) -> Self {
        match self.head() {
            Some(_) => RingState {
                slots: self.slots.update(self.read_index, None),
                read_index: advance(self.read_index, self.capacity() as int),
                write_index: self.write_index,
            },
            None => self,
        }
    }

    /// The state after writing `values` one after the other, first to last.
    pub open spec fn write_all(self, values: Seq<T>) -> Self
        decreases values.len(),
    {
        if values.len() == 0 {
            self
        } else {
            self.write_all(values.drop_last()).write(values.last())
        }
    }

    /// The state after `count` reads in a row.
    pub open spec fn read_times(self, count: nat) -> Self
        decreases count,
    {
        if count == 0 {
            self
        } else {
            self.read_times((count - 1) as nat).read()
        }
    }

    /// What `count` reads in a row return, in order: each read returns the
    /// head of the state that the reads before it have left.
    pub open spec fn read_results(self, count: nat) -> Seq<Option<T>> {
        Seq::new(count, |i: int| self.read_times(i as nat).head())
    }

    /// The state after one operation.
    pub open spec fn apply(self, operation: Operation<T>) -> Self {
        match operation {
            Operation::Write(value) => self.write(value),
            Operation::Read => self.read(),
        }
    }

    /// The state after a sequence of operations, first to last.
    pub open spec fn run(self, operations: Seq<Operation<T>>) -> Self
        decreases operations.len(),
    {
        if operations.len() == 0 {
            self
        } else {
            self.run(operations.drop_last()).apply(operations.last())
        }
    }
}

} // verus!
