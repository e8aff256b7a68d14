//! The executable ring buffer.

use vstd::prelude::*;
use crate::cursor::lemma_advance;
use crate::model::RingState;

verus! {

/// A ring buffer of `N` slots for values of a copyable type.
///
/// Writing never fails: a write into a slot that still holds an unread value
/// replaces that value.  Reading takes the value under the read cursor, if
/// there is one.
#[derive(Debug, PartialEq)]
pub struct RingBuffer<T, const N: usize> {
    contents: [Option<T>; N],
    read_index: usize,
    write_index: usize,
}

impl<T, const N: usize> View for RingBuffer<T, N> {
    type V = RingState<T>;

    closed spec fn view(&self) -> RingState<T> {
        RingState {
            slots: self.contents@,
            read_index: self.read_index as int,
            write_index: self.write_index as int,
        }
    }
}

impl<T, const N: usize> RingBuffer<T, N> {
    /// Both cursors are valid positions in `contents`, at all times.
    #[verifier::type_invariant]
    spec fn cursors_in_bounds(self) -> bool {
        self.read_index < N && self.write_index < N
    }
}

impl<T, const N: usize> RingBuffer<T, N> where T: Copy {
    /// Makes a buffer with every slot empty and both cursors on the first
    /// slot.  A buffer has at least one slot.
    pub fn new() -> (buffer: RingBuffer<T, N>)
        requires
            N > 0,
        ensures
            buffer@ == RingState::<T>::fresh(N as nat),
            buffer@.wf(),
            buffer@.is_empty(),
    {
        RingBuffer { contents: [None; N], read_index: 0, write_index: 0 }
    }

    /// Stores `data` in the slot under the write cursor and advances the
    /// cursor.  An unread value in that slot is lost.
    pub fn write(&mut self, data: T)
        ensures
            final(self)@ == old(self)@.write(data),
            final(self)@.wf(),
            final(self)@.capacity() == N,
    {
        proof {
            use_type_invariant(&*self);
            lemma_advance(self.write_index as int, N as int);
        }
        self.contents[self.write_index] = Some(data);

        if self.write_index + 1 == N {
            self.write_index = 0;
            return;
        }
        self.write_index += 1;
    }

    /// Takes the value under the read cursor.  Where the slot is occupied it
    /// is emptied and the cursor advances; where it is empty the buffer stays
    /// as it is and `None` is returned.
    pub fn read(&mut self) -> (data: Option<T>)
        ensures
            data == old(self)@.head(),
            final(self)@ == old(self)@.read(),
            data is None ==> final(self)@ == old(self)@,
            final(self)@.slots[old(self)@.read_index] is None,
            final(self)@.wf(),
            final(self)@.capacity() == N,
    {
        proof {
            use_type_invariant(&*self);
            lemma_advance(self.read_index as int, N as int);
        }
        let data = self.contents[self.read_index];
        match data {
            Some(_) => {
                self.contents[self.read_index] = None;
                if self.read_index + 1 == N {
                    self.read_index = 0;
                    return data;
                }
                self.read_index += 1;
                data
            },
            None => None,
        }
    }

    /// The slots, in storage order.
    pub fn contents(&self) -> (slots: &[Option<T>; N])
        ensures
            slots@ == self@.slots,
            self@.capacity() == N,
            self@.wf(),
    {
        proof {
            use_type_invariant(self);
        }
        &self.contents
    }

    /// The position of the slot that the next read inspects.
    pub fn read_index(&self) -> (index: usize)
        ensures
            index == self@.read_index,
            index < N,
            self@.wf(),
    {
        proof {
            use_type_invariant(self);
        }
        self.read_index
    }

    /// The position of the slot that the next write fills.
    pub fn write_index(&self) -> (index: usize)
        ensures
            index == self@.write_index,
            index < N,
            self@.wf(),
    {
        proof {
            use_type_invariant(self);
        }
        self.write_index
    }
}

impl<T, const N: usize> Clone for RingBuffer<T, N> where T: Copy {
    /// A buffer in the same state: the same slots and the same cursors.
    fn clone(&self) -> (copy: Self)
        ensures
            copy@ == self@,
    {
        proof {
            use_type_invariant(self);
        }
        RingBuffer {
            contents: self.contents,
            read_index: self.read_index,
            write_index: self.write_index,
        }
    }
}

} // verus!
