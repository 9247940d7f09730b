//! A FIFO buffer of fixed capacity over a circular backing store.

use vstd::prelude::*;
use crate::cloning::{clone_is_exact, lemma_seq_cloned_exact, option_cloned, seq_cloned};
use crate::fifo::RingState;
use crate::layout::{lemma_wrap_add, wrap_add, RingLayout};

verus! {

/// A FIFO buffer with fixed length.
///
/// The buffer keeps clones of what is pushed by slice and hands out clones
/// of what it holds, so the element type must be `Clone`.
pub struct RingBuffer<T: Clone> {
    buffer: Vec<T>,
    read: usize,
    write: usize,
}

impl<T: Clone> View for RingBuffer<T> {
    type V = RingState<T>;

    /// The queue that the buffer holds.
    open spec fn view(&self) -> RingState<T> {
        self.layout().state()
    }
}

impl<T: Clone> RingBuffer<T> {
    /// The backing store and the cursors of the buffer.
    pub closed spec fn layout(&self) -> RingLayout<T> {
        RingLayout { store: self.buffer@, read: self.read as nat, write: self.write as nat }
    }

    /// Both cursors stay inside the backing store.
    #[verifier::type_invariant]
    spec fn inv(self) -> bool {
        self.layout().wf()
    }

    /// Create a new ring buffer that can hold up to `size` elements and use
    /// `value` to fill the slots that hold nothing yet.
    pub fn new(size: usize, value: T) -> (rb: RingBuffer<T>)
        requires
            size < usize::MAX,
        ensures
            rb@ == RingState::<T>::empty(size as nat),
            rb.layout().slots() == size + 1,
            rb.layout().read == 0,
            rb.layout().write == 0,
            forall|i: int| 0 <= i <= size ==> cloned(value, #[trigger] rb.layout().store[i]),
            rb.layout().wf(),
    {
        // One slot stays unused, so that equal cursors always mean "empty".
        let mut buffer: Vec<T> = Vec::with_capacity(size + 1);
        buffer.resize(size + 1, value);
        let rb = RingBuffer { buffer, read: 0, write: 0 };
        proof {
            rb.layout().lemma_occupancy();
            assert(rb@.items =~= Seq::<T>::empty());
        }
        rb
    }

    /// Add `value` to the end of the queue. Returns false if there is not
    /// enough room in the queue.
    pub fn push_back(&mut self, value: T) -> (pushed: bool)
        ensures
            pushed <==> old(self)@.capacity() > 0,
            pushed <==> !old(self).layout().is_full(),
            final(self)@ == old(self)@.push_back(value),
            final(self).layout() == (if pushed {
                old(self).layout().write_one(value)
            } else {
                old(self).layout()
            }),
            final(self).layout().wf(),
    {
        proof {
            use_type_invariant(&*self);
            self.layout().lemma_empty_and_full();
        }
        if self.capacity() == 0 {
            false
        } else {
            proof {
                self.layout().lemma_write_one_is_push_back(value);
            }
            let next_write = self.advance_index(self.write, 1);
            self.buffer[self.write] = value;
            self.write = next_write;
            true
        }
    }

    /// Remove the first value from the queue, or returns `None` if there are
    /// no values in the buffer.
    pub fn pop_front(&mut self) -> (front: Option<T>)
        ensures
            option_cloned(old(self)@.front(), front),
            clone_is_exact::<T>() ==> front == old(self)@.front(),
            front is None <==> old(self).layout().is_empty(),
            final(self)@ == old(self)@.pop_front(),
            final(self).layout() == (if front is Some {
                old(self).layout().advance_read(1)
            } else {
                old(self).layout()
            }),
            final(self).layout().wf(),
    {
        proof {
            use_type_invariant(&*self);
            self.layout().lemma_front_is_under_read();
        }
        if self.len() == 0 {
            None
        } else {
            proof {
                self.layout().lemma_advance_read_is_pop_front_slice(1);
            }
            let old_read = self.read;
            self.read = self.advance_index(self.read, 1);
            Some(self.buffer[old_read].clone())
        }
    }

    /// Copy the first value from the queue but does not remove it; returns
    /// `None` if there are no values in the buffer.
    pub fn peek_front(&self) -> (front: Option<T>)
        ensures
            option_cloned(self@.front(), front),
            clone_is_exact::<T>() ==> front == self@.front(),
            front is None <==> self.layout().is_empty(),
    {
        proof {
            use_type_invariant(self);
            self.layout().lemma_front_is_under_read();
        }
        if self.read == self.write {
            None
        } else {
            Some(self.buffer[self.read].clone())
        }
    }

    /// Add all `values` to the buffer. If there is not enough room in the
    /// queue then no values are added and the return value is false.
    pub fn push_back_slice(&mut self, values: &[T]) -> (pushed: bool)
        ensures
            pushed <==> values@.len() <= old(self)@.capacity(),
            !pushed ==> final(self).layout() == old(self).layout(),
            pushed ==> ({
                let stored = final(self)@.items.skip(old(self)@.len() as int);
                &&& seq_cloned(values@, stored)
                &&& final(self)@ == old(self)@.push_back_slice(stored)
                &&& final(self).layout() == old(self).layout().write_each(stored)
            }),
            pushed && clone_is_exact::<T>() ==> final(self)@ == old(self)@.push_back_slice(
                values@,
            ),
            final(self).layout().wf(),
    {
        proof {
            use_type_invariant(&*self);
        }
        if self.capacity() < values.len() {
            false
        } else {
            let ghost before = self.layout();
            let ghost mut stored: Seq<T> = Seq::empty();
            let mut i: usize = 0;
            while i < values.len()
                invariant
                    i <= values@.len(),
                    before == old(self).layout(),
                    before.wf(),
                    values@.len() <= before.state().capacity(),
                    stored.len() == i,
                    seq_cloned(values@.take(i as int), stored),
                    self.layout() == before.write_each(stored),
                decreases values@.len() - i,
            {
                let value = values[i].clone();
                proof {
                    before.lemma_write_each_is_push_back_slice(stored);
                    before.lemma_write_each_push(stored, value);
                    stored = stored.push(value);
                }
                let r = self.push_back(value);
                assert(r);
                i += 1;
            }
            proof {
                before.lemma_write_each_is_push_back_slice(stored);
                assert((before.items() + stored).skip(before.items().len() as int) =~= stored);
                if clone_is_exact::<T>() {
                    lemma_seq_cloned_exact(values@.take(i as int), stored);
                    assert(values@.take(i as int) =~= values@);
                }
            }
            true
        }
    }

    /// Remove enough values from the buffer to fill the given slice. If there
    /// are not enough values in the queue then the output buffer is not
    /// modified and the function returns false.
    pub fn pop_front_slice(&mut self, values: &mut [T]) -> (popped: bool)
        ensures
            popped <==> old(values)@.len() <= old(self)@.len(),
            !popped ==> final(values)@ == old(values)@,
            popped ==> seq_cloned(old(self)@.front_slice(old(values)@.len()), final(values)@),
            popped && clone_is_exact::<T>() ==> final(values)@ == old(self)@.front_slice(
                old(values)@.len(),
            ),
            final(values)@.len() == old(values)@.len(),
            final(self)@ == old(self)@.pop_front_slice(old(values)@.len()),
            final(self).layout() == (if popped {
                old(self).layout().advance_read(old(values)@.len())
            } else {
                old(self).layout()
            }),
            final(self).layout().wf(),
    {
        proof {
            use_type_invariant(&*self);
        }
        if self.len() < values.len() {
            false
        } else {
            let ghost before = self.layout();
            let n = values.len();
            let mut i: usize = 0;
            proof {
                before.lemma_advance_read_is_pop_front_slice(0);
            }
            while i < n
                invariant
                    i <= n,
                    n == values@.len(),
                    before == old(self).layout(),
                    before.wf(),
                    n <= before.occupancy(),
                    self.layout() == before.advance_read(i as nat),
                    seq_cloned(before.items().take(i as int), values@.take(i as int)),
                decreases n - i,
            {
                proof {
                    before.lemma_advance_read_is_pop_front_slice(i as nat);
                    before.lemma_advance_read_twice(i as nat, 1);
                }
                let front = self.pop_front();
                values[i] = front.unwrap();
                i += 1;
            }
            proof {
                before.lemma_advance_read_is_pop_front_slice(n as nat);
            }
            true
        }
    }

    /// The index reached from `index` after `amount` steps round the backing
    /// store, forward or, for a negative amount, backward. A single advance
    /// stays below the length of the store.
    ///
    /// The amount is wide enough to hold every index and its negative.
    fn advance_index(&self, index: usize, amount: i128) -> (next: usize)
        requires
            index < self.layout().slots(),
            -self.layout().slots() < amount < self.layout().slots(),
        ensures
            next == wrap_add(index as int, amount as int, self.layout().slots() as int),
            next < self.layout().slots(),
    {
        proof {
            lemma_wrap_add(index as int, amount as int, self.layout().slots() as int);
        }
        let slots: i128 = self.buffer.len() as i128;
        let sum: i128 = index as i128 + amount;
        if sum < 0 {
            (sum + slots) as usize
        } else if sum < slots {
            sum as usize
        } else {
            (sum - slots) as usize
        }
    }

    /// Returns the number of values in the buffer.
    pub fn len(&self) -> (n: usize)
        ensures
            n == self@.len(),
            n == self.layout().occupancy(),
            self@.wf(),
            self.layout().wf(),
    {
        self.max_len() - self.capacity()
    }

    /// Returns the number of free slots in the buffer.
    pub fn capacity(&self) -> (n: usize)
        ensures
            n == self@.capacity(),
            n + self@.len() == self@.max_len,
            self@.wf(),
            self.layout().wf(),
    {
        proof {
            use_type_invariant(self);
            self.layout().lemma_occupancy();
        }
        if self.read > self.write {
            self.read - self.write - 1
        } else {
            self.max_len() - (self.write - self.read)
        }
    }

    /// Returns the max number of values that can ever be stored in the
    /// buffer.
    pub fn max_len(&self) -> (n: usize)
        ensures
            n == self@.max_len,
            n == self.layout().slots() - 1,
            self@.wf(),
            self.layout().wf(),
    {
        proof {
            use_type_invariant(self);
        }
        self.buffer.len() - 1
    }

    /// Copy the queued value that stands `offset` places behind the first.
    pub(crate) fn peek_at(&self, offset: usize) -> (value: T)
        requires
            offset < self@.len(),
        ensures
            cloned(self@.items[offset as int], value),
            clone_is_exact::<T>() ==> value == self@.items[offset as int],
    {
        proof {
            use_type_invariant(self);
        }
        let index = self.advance_index(self.read, offset as i128);
        self.buffer[index].clone()
    }

    /// Drop the `n` oldest values from the queue.
    pub(crate) fn discard_front(&mut self, n: usize)
        requires
            n <= old(self)@.len(),
        ensures
            final(self)@ == old(self)@.pop_front_slice(n as nat),
            final(self).layout() == old(self).layout().advance_read(n as nat),
            final(self).layout().wf(),
    {
        proof {
            use_type_invariant(&*self);
            self.layout().lemma_advance_read_is_pop_front_slice(n as nat);
        }
        self.read = self.advance_index(self.read, n as i128);
    }
}

/// What a bulk pop copies out of an empty buffer, right after a bulk push
/// has copied `values` into it, is a copy of a copy of `values`, and the
/// buffer is empty again. Where cloning is exact the values come back
/// unchanged.
pub proof fn lemma_round_trip_cloned<T: Clone>(
    start: RingState<T>,
    values: Seq<T>,
    stored: Seq<T>,
    out: Seq<T>,
)
    requires
        start.wf(),
        start.len() == 0,
        values.len() <= start.max_len,
        seq_cloned(values, stored),
        seq_cloned(start.push_back_slice(stored).front_slice(values.len()), out),
    ensures
        out.len() == values.len(),
        forall|i: int|
            0 <= i < values.len() ==> cloned(values[i], stored[i]) && cloned(
                stored[i],
                #[trigger] out[i],
            ),
        start.push_back_slice(stored).pop_front_slice(values.len()) == start,
        clone_is_exact::<T>() ==> out == values,
{
    start.lemma_round_trip(stored);
}

} // verus!
