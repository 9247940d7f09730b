//! The queue that a ring buffer stands for: a bounded sequence of items,
//! oldest first, and what each operation makes of it.

use vstd::prelude::*;

verus! {

/// The abstract state of a ring buffer: what it holds and how much it can
/// hold.
pub struct RingState<T> {
    /// The queued items, oldest first.
    pub items: Seq<T>,
    /// The largest number of items the buffer can ever hold.
    pub max_len: nat,
}

impl<T> RingState<T> {
    /// The state of a buffer that holds nothing and can hold `max_len` items.
    pub open spec fn empty(max_len: nat) -> Self {
        RingState { items: Seq::empty(), max_len }
    }

    /// A state is well formed when it holds no more than its bound.
    pub open spec fn wf(self) -> bool {
        self.items.len() <= self.max_len
    }

    /// The number of queued items.
    pub open spec fn len(self) -> nat {
        self.items.len()
    }

    /// The number of free slots.
    pub open spec fn capacity(self) -> nat {
        if self.items.len() <= self.max_len {
            (self.max_len - self.items.len()) as nat
        } else {
            0
        }
    }

    /// The state after trying to append `value`: unchanged when full.
    pub open spec fn push_back(self, value: T) -> Self {
        if self.capacity() == 0 {
            self
        } else {
            RingState { items: self.items.push(value), max_len: self.max_len }
        }
    }

    /// The state after trying to append all of `values` in order: unchanged
    /// unless every one of them fits.
    pub open spec fn push_back_slice(self, values: Seq<T>) -> Self {
        if values.len() > self.capacity() {
            self
        } else {
            RingState { items: self.items + values, max_len: self.max_len }
        }
    }

    /// The state after appending each of `values` by a push of its own, in
    /// order.
    pub open spec fn push_each(self, values: Seq<T>) -> Self
        decreases values.len(),
    {
        if values.len() == 0 {
            self
        } else {
            self.push_back(values.first()).push_each(values.drop_first())
        }
    }

    /// The oldest item, if there is one.
    pub open spec fn front(self) -> Option<T> {
        if self.items.len() == 0 {
            None
        } else {
            Some(self.items[0])
        }
    }

    /// The state after trying to remove the oldest item.
    pub open spec fn pop_front(self) -> Self {
        if self.items.len() == 0 {
            self
        } else {
            RingState { items: self.items.skip(1), max_len: self.max_len }
        }
    }

    /// The state after `n` pops of one item each.
    pub open spec fn pop_times(self, n: nat) -> Self
        decreases n,
    {
        if n == 0 {
            self
        } else {
            self.pop_front().pop_times((n - 1) as nat)
        }
    }

    /// The `n` oldest items, oldest first.
    pub open spec fn front_slice(self, n: nat) -> Seq<T> {
        self.items.take(n as int)
    }

    /// The state after trying to remove the `n` oldest items: unchanged
    /// unless that many are queued.
    pub open spec fn pop_front_slice(self, n: nat) -> Self {
        if n > self.items.len() {
            self
        } else {
            RingState { items: self.items.skip(n as int), max_len: self.max_len }
        }
    }

    /// The queued items and the free slots always add up to the fixed bound.
    pub proof fn lemma_len_plus_capacity(self)
        requires
            self.wf(),
        ensures
            self.len() + self.capacity() == self.max_len,
    {
    }

    /// No operation leads out of the well-formed states, and none changes
    /// the bound.
    pub proof fn lemma_operations_keep_wf(self, value: T, values: Seq<T>, n: nat)
        requires
            self.wf(),
        ensures
            self.push_back(value).wf(),
            self.push_back(value).max_len == self.max_len,
            self.push_back_slice(values).wf(),
            self.push_back_slice(values).max_len == self.max_len,
            self.pop_front().wf(),
            self.pop_front().max_len == self.max_len,
            self.pop_front_slice(n).wf(),
            self.pop_front_slice(n).max_len == self.max_len,
    {
    }

    /// A bulk push that fits does what one push for each value does.
    pub proof fn lemma_push_back_slice_is_push_each(self, values: Seq<T>)
        requires
            self.wf(),
            values.len() <= self.capacity(),
        ensures
            self.push_each(values) == self.push_back_slice(values),
        decreases values.len(),
    {
        if values.len() == 0 {
        } else {
            let next = self.push_back(values.first());
            next.lemma_push_back_slice_is_push_each(values.drop_first());
            assert(next.items + values.drop_first() =~= self.items + values);
        }
    }

    /// A bulk pop of what is queued does what that many single pops do.
    pub proof fn lemma_pop_front_slice_is_pop_times(self, n: nat)
        requires
            n <= self.len(),
        ensures
            self.pop_times(n) == self.pop_front_slice(n),
        decreases n,
    {
        if n == 0 {
            assert(self.items.skip(0) =~= self.items);
        } else {
            let next = self.pop_front();
            next.lemma_pop_front_slice_is_pop_times((n - 1) as nat);
            assert(next.items.skip(n - 1) =~= self.items.skip(n as int));
        }
    }

    /// First in, first out: once the values that fit have been pushed, the
    /// pops first hand out what was queued before, and then the pushed values
    /// in the order in which they were pushed.
    pub proof fn lemma_fifo_order(self, values: Seq<T>, k: nat)
        requires
            self.wf(),
            values.len() <= self.capacity(),
            k < self.len() + values.len(),
        ensures
            self.push_each(values).pop_times(k).front() == Some((self.items + values)[k as int]),
            k >= self.len() ==> self.push_each(values).pop_times(k).front() == Some(
                values[k - self.len()],
            ),
    {
        self.lemma_push_back_slice_is_push_each(values);
        self.push_back_slice(values).lemma_pop_front_slice_is_pop_times(k);
    }

    /// A buffer made for `max_len` items takes that many and no more: filled
    /// from empty it has no free slot left, and a further push changes
    /// nothing.
    pub proof fn lemma_full_after_max_len_pushes(max_len: nat, values: Seq<T>, extra: T)
        requires
            values.len() == max_len,
        ensures
            Self::empty(max_len).push_each(values).items == values,
            Self::empty(max_len).push_each(values).capacity() == 0,
            Self::empty(max_len).push_each(values).push_back(extra) == Self::empty(
                max_len,
            ).push_each(values),
    {
        Self::empty(max_len).lemma_push_back_slice_is_push_each(values);
    }

    /// Bulk operations are all or nothing: a bulk push of more than fits, and
    /// a bulk pop of more than is queued, leave the state as it was.
    pub proof fn lemma_bulk_is_atomic(self, values: Seq<T>, n: nat)
        ensures
            values.len() > self.capacity() ==> self.push_back_slice(values) == self,
            values.len() <= self.capacity() ==> self.push_back_slice(values).items == self.items
                + values,
            n > self.len() ==> self.pop_front_slice(n) == self,
            n <= self.len() ==> self.pop_front_slice(n).items == self.items.skip(n as int),
    {
    }

    /// What is pushed in bulk comes back from a bulk pop of the same length,
    /// once what was queued before has been taken out; from an empty buffer
    /// it comes back at once, and the buffer is empty again.
    pub proof fn lemma_round_trip(self, values: Seq<T>)
        requires
            self.wf(),
            values.len() <= self.capacity(),
        ensures
            self.push_back_slice(values).pop_front_slice(self.len()).front_slice(values.len())
                == values,
            self.push_back_slice(values).pop_front_slice(self.len()).pop_front_slice(
                values.len(),
            ) == Self::empty(self.max_len),
            self.len() == 0 ==> self.push_back_slice(values).front_slice(values.len()) == values,
            self.len() == 0 ==> self.push_back_slice(values).pop_front_slice(values.len())
                == self,
    {
        let filled = self.push_back_slice(values);
        let rest = filled.pop_front_slice(self.len());
        assert(rest.items.skip(values.len() as int) =~= Seq::<T>::empty());
        if self.len() == 0 {
            assert(self.items =~= Seq::<T>::empty());
        }
    }
}

} // verus!
