//! A FIFO buffer that bends to requests it cannot serve exactly: it repeats
//! what it has when asked for more, and drops evenly when it has too much.

use vstd::prelude::*;
use crate::cloning::{clone_is_exact, seq_cloned};
use crate::fifo::RingState;
use crate::layout::RingLayout;
use crate::ring::RingBuffer;
use crate::sampling::{
    lemma_count_of_slots_reading,
    lemma_sample_of_equal_length,
    lemma_sample_offset_covers,
    lemma_sample_offset_in_range,
    lemma_sample_offset_monotonic,
    sample,
    sample_index,
    sample_offset,
    slots_reading,
};

verus! {

/// Indicates what happened when the queue tried to satisfy the request for
/// elements.
#[derive(Debug, Clone, Copy, PartialEq, Eq)]
pub enum ElasticPopResult {
    /// The buffer is completely empty, and so the default value is used.
    Empty,
    /// The buffer had enough elements to satisfy the request, but is still
    /// below the ideal max length threshold; and so no elements were dropped
    /// or duplicated.
    Exact,
    /// The buffer had some elements, but not enough to satisfy the request;
    /// some elements were repeated to fill the request; the value is how many
    /// "real" elements were present in the buffer.
    Upsampled(usize),
    /// The buffer had more elements than the ideal max; some elements were
    /// dropped while filling the request; the value is how many "real"
    /// elements were removed from the queue.
    Downsampled(usize),
}

/// How sampling `n` items into `out_len` slots is reported.
pub open spec fn sample_outcome(n: nat, out_len: nat) -> ElasticPopResult {
    if n == 0 {
        ElasticPopResult::Empty
    } else if out_len > n {
        ElasticPopResult::Upsampled(n as usize)
    } else {
        ElasticPopResult::Downsampled(n as usize)
    }
}

/// The abstract state of an elastic ring buffer.
pub struct ElasticState<T> {
    /// The queue.
    pub ring: RingState<T>,
    /// The occupancy from which a pop starts to drop items.
    pub ideal_max: nat,
    /// What a pop hands out when nothing at all is queued.
    pub default_value: T,
}

impl<T> ElasticState<T> {
    /// The same buffer with another queue.
    pub open spec fn with_ring(self, ring: RingState<T>) -> Self {
        ElasticState { ring, ideal_max: self.ideal_max, default_value: self.default_value }
    }

    /// Whether a pop of `out_len` slots is served as it stands: enough is
    /// queued, and less than the ideal maximum would be left.
    pub open spec fn serves_exactly(self, out_len: nat) -> bool {
        out_len <= self.ring.len() && self.ring.len() - out_len < self.ideal_max
    }

    /// The number of queued items that a pop of `out_len` slots takes: the
    /// request itself where it is served exactly; the request and all that
    /// lies above the ideal maximum where more would be left; all there is
    /// where the request asks for more. It never takes more than is queued:
    /// a request above the ideal maximum that would leave a backlog takes
    /// all there is.
    pub open spec fn consumed(self, out_len: nat) -> nat {
        if self.serves_exactly(out_len) {
            out_len
        } else if out_len > self.ring.len() || out_len > self.ideal_max {
            self.ring.len()
        } else {
            ((self.ring.len() - self.ideal_max) + out_len) as nat
        }
    }

    /// How a pop of `out_len` slots is reported.
    pub open spec fn outcome(self, out_len: nat) -> ElasticPopResult {
        if self.serves_exactly(out_len) {
            ElasticPopResult::Exact
        } else {
            sample_outcome(self.consumed(out_len), out_len)
        }
    }

    /// The values that a pop of `out_len` slots copies into its output.
    pub open spec fn source(self, out_len: nat) -> Seq<T> {
        if self.serves_exactly(out_len) {
            self.ring.front_slice(out_len)
        } else {
            sample(self.ring.items, self.consumed(out_len), out_len, self.default_value)
        }
    }

    /// The state that a pop of `out_len` slots leaves.
    pub open spec fn pop_front_slice(self, out_len: nat) -> Self {
        self.with_ring(self.ring.pop_front_slice(self.consumed(out_len)))
    }

    /// A pop takes no more than is queued and no less than it is asked for,
    /// as far as that much is queued.
    pub proof fn lemma_consumed_is_queued(self, out_len: nat)
        ensures
            self.consumed(out_len) <= self.ring.len(),
            out_len <= self.ring.len() ==> out_len <= self.consumed(out_len),
            out_len > self.ring.len() ==> self.consumed(out_len) == self.ring.len(),
    {
    }

    /// A pop never leaves more queued than the ideal maximum, and it
    /// changes neither that threshold nor the bound of the queue.
    pub proof fn lemma_pop_settles(self, out_len: nat)
        requires
            self.ring.wf(),
        ensures
            self.pop_front_slice(out_len).ring.len() == self.ring.len() - self.consumed(out_len),
            self.pop_front_slice(out_len).ring.len() <= self.ideal_max,
            self.pop_front_slice(out_len).ring.wf(),
            self.pop_front_slice(out_len).ring.max_len == self.ring.max_len,
            self.pop_front_slice(out_len).ideal_max == self.ideal_max,
    {
    }

    /// A pop from a buffer that holds nothing takes nothing and hands out
    /// the default value in every slot. It is reported as `Empty`, unless
    /// nothing was asked for and the ideal maximum is not zero: that request
    /// counts as served exactly.
    pub proof fn lemma_pop_from_nothing(self, out_len: nat)
        requires
            self.ring.len() == 0,
        ensures
            self.source(out_len) == Seq::new(out_len, |i: int| self.default_value),
            self.pop_front_slice(out_len) == self,
            self.outcome(out_len) == (if out_len == 0 && self.ideal_max > 0 {
                ElasticPopResult::Exact
            } else {
                ElasticPopResult::Empty
            }),
    {
        assert(self.ring.items.skip(0) =~= self.ring.items);
    }

    /// A request that can be met with less than the ideal maximum left over
    /// is served as a plain bulk pop serves it, and reported as `Exact`.
    pub proof fn lemma_exact_below_ideal_max(self, out_len: nat)
        requires
            out_len <= self.ring.len(),
            self.ring.len() - out_len < self.ideal_max,
        ensures
            self.outcome(out_len) == ElasticPopResult::Exact,
            self.source(out_len) == self.ring.front_slice(out_len),
            self.pop_front_slice(out_len).ring == self.ring.pop_front_slice(out_len),
    {
    }

    /// Serving a request exactly is sampling as many items as there are
    /// slots: one rule gives the output of every pop.
    pub proof fn lemma_source_is_sample(self, out_len: nat)
        ensures
            self.source(out_len) == sample(
                self.ring.items,
                self.consumed(out_len),
                out_len,
                self.default_value,
            ),
    {
        if self.serves_exactly(out_len) {
            lemma_sample_of_equal_length(self.ring.items, out_len, self.default_value);
        }
    }

    /// What a pop hands out is taken from among the items that it takes, in
    /// the order in which they were queued. The result names the places in
    /// the queue that output slots `i` and `k` are taken from.
    pub proof fn lemma_source_keeps_order(self, out_len: nat, i: int, k: int) -> (places: (
        int,
        int,
    ))
        requires
            self.consumed(out_len) > 0,
            0 <= i <= k < out_len,
        ensures
            0 <= places.0 <= places.1 < self.consumed(out_len),
            self.source(out_len)[i] == self.ring.items[places.0],
            self.source(out_len)[k] == self.ring.items[places.1],
    {
        let n = self.consumed(out_len) as int;
        self.lemma_source_is_sample(out_len);
        lemma_sample_offset_in_range(i, n, out_len as int);
        lemma_sample_offset_in_range(k, n, out_len as int);
        lemma_sample_offset_monotonic(i, k, n, out_len as int);
        (sample_offset(i, n, out_len as int), sample_offset(k, n, out_len as int))
    }

    /// Where a pop takes no more items than it has output slots, it hands
    /// out every item that it takes. The result is an output slot that holds
    /// the item queued at place `j`.
    pub proof fn lemma_source_keeps_every_item(self, out_len: nat, j: int) -> (i: int)
        requires
            0 <= j < self.consumed(out_len) <= out_len,
        ensures
            0 <= i < out_len,
            self.source(out_len)[i] == self.ring.items[j],
    {
        self.lemma_source_is_sample(out_len);
        lemma_sample_offset_covers(j, self.consumed(out_len) as int, out_len as int)
    }

    /// A pop spreads the items that it takes evenly over its output: the
    /// item queued at place `j` is handed out in as many output slots as the
    /// ratio of slots to items taken, rounded down or up. So an item is
    /// repeated where fewer are taken than there are slots, and some are
    /// passed over where more are taken.
    pub proof fn lemma_source_spreads_evenly(self, out_len: nat, j: int)
        requires
            0 <= j < self.consumed(out_len),
            0 < out_len,
        ensures
            slots_reading(j, self.consumed(out_len) as int, out_len as int).finite(),
            out_len / self.consumed(out_len) <= slots_reading(
                j,
                self.consumed(out_len) as int,
                out_len as int,
            ).len() <= (out_len + self.consumed(out_len) - 1) / (self.consumed(out_len) as int),
            forall|i: int|
                #[trigger] slots_reading(
                    j,
                    self.consumed(out_len) as int,
                    out_len as int,
                ).contains(i) ==> self.source(out_len)[i] == self.ring.items[j],
    {
        self.lemma_source_is_sample(out_len);
        lemma_count_of_slots_reading(j, self.consumed(out_len) as int, out_len as int);
    }

    /// A request of no more than the ideal maximum that would leave the
    /// ideal maximum or more behind is not served exactly: it takes the
    /// surplus along, so that the ideal maximum less the request is left, and
    /// is reported as `Downsampled` with the number of items taken.
    pub proof fn lemma_downsampled_from_ideal_max(self, out_len: nat)
        requires
            self.ring.wf(),
            0 < out_len <= self.ideal_max,
            self.ring.len() - out_len >= self.ideal_max,
        ensures
            self.consumed(out_len) == self.ring.len() - self.ideal_max + out_len,
            self.consumed(out_len) > out_len,
            self.outcome(out_len) == ElasticPopResult::Downsampled(
                self.consumed(out_len) as usize,
            ),
            self.pop_front_slice(out_len).ring.len() == self.ideal_max - out_len,
    {
    }

    /// A request above the ideal maximum that would leave the ideal maximum
    /// or more behind takes all that is queued, which is no less than the
    /// request, and leaves nothing; it is reported as `Downsampled` with the
    /// number of items taken.
    pub proof fn lemma_downsampled_above_ideal_max(self, out_len: nat)
        requires
            self.ring.wf(),
            out_len > self.ideal_max,
            self.ring.len() - out_len >= self.ideal_max,
        ensures
            self.consumed(out_len) == self.ring.len(),
            self.consumed(out_len) >= out_len,
            self.outcome(out_len) == ElasticPopResult::Downsampled(self.ring.len() as usize),
            self.pop_front_slice(out_len).ring.len() == 0,
    {
    }

    /// A request for more than is queued takes all of it and repeats items
    /// to fill the output; it is reported as `Upsampled` with the number of
    /// items taken.
    pub proof fn lemma_upsampled_when_short(self, out_len: nat)
        requires
            self.ring.wf(),
            0 < self.ring.len() < out_len,
        ensures
            self.consumed(out_len) == self.ring.len(),
            self.outcome(out_len) == ElasticPopResult::Upsampled(self.ring.len() as usize),
            self.pop_front_slice(out_len).ring.len() == 0,
    {
    }
}

/// The memory of an elastic ring buffer.
pub struct ElasticLayout<T> {
    /// The backing store and the cursors of the queue.
    pub ring: RingLayout<T>,
    /// The occupancy from which a pop starts to drop items.
    pub ideal_max: nat,
    /// What a pop hands out when nothing at all is queued.
    pub default_value: T,
}

impl<T> ElasticLayout<T> {
    /// The abstract state that this layout stands for.
    pub open spec fn state(self) -> ElasticState<T> {
        ElasticState {
            ring: self.ring.state(),
            ideal_max: self.ideal_max,
            default_value: self.default_value,
        }
    }

    /// The same buffer with another layout of the queue.
    pub open spec fn with_ring(self, ring: RingLayout<T>) -> Self {
        ElasticLayout { ring, ideal_max: self.ideal_max, default_value: self.default_value }
    }

    /// The layout that a pop of `out_len` slots leaves: the read cursor has
    /// moved on by the number of items taken, and nothing else has changed.
    pub open spec fn pop_front_slice(self, out_len: nat) -> Self {
        self.with_ring(self.ring.advance_read(self.state().consumed(out_len)))
    }
}

/// A FIFO buffer with a fixed length that adjusts to requests that would
/// otherwise overflow or underflow.
///
/// When an `ElasticRingBuffer` doesn't have enough elements to satisfy a
/// request, it will "stretch" the values it does have by repeating them to
/// fill the request.
///
/// And when the buffer is getting too full (past its ideal max length),
/// elements will be uniformly dropped to return the queue to its ideal
/// length.
pub struct ElasticRingBuffer<T: Clone> {
    rb: RingBuffer<T>,
    ideal_max: usize,
    default_value: T,
}

impl<T: Clone> View for ElasticRingBuffer<T> {
    type V = ElasticState<T>;

    /// The queue that the buffer holds, with its threshold and its default
    /// value.
    open spec fn view(&self) -> ElasticState<T> {
        self.layout().state()
    }
}

impl<T: Clone> ElasticRingBuffer<T> {
    /// The memory of the buffer.
    pub closed spec fn layout(&self) -> ElasticLayout<T> {
        ElasticLayout {
            ring: self.rb.layout(),
            ideal_max: self.ideal_max as nat,
            default_value: self.default_value,
        }
    }

    /// Create a new `ElasticRingBuffer` with the given size. `value` will be
    /// used as the default value for the queue. `ideal_max_len` is the
    /// threshold where the buffer will begin dropping elements during
    /// requests.
    ///
    /// A threshold above `size` is accepted; it is never reached.
    pub fn new(size: usize, value: T, ideal_max_len: usize) -> (erb: ElasticRingBuffer<T>)
        requires
            size < usize::MAX,
        ensures
            erb@ == (ElasticState {
                ring: RingState::empty(size as nat),
                ideal_max: ideal_max_len as nat,
                default_value: value,
            }),
            erb.layout().ring.slots() == size + 1,
            erb.layout().ring.read == 0,
            erb.layout().ring.write == 0,
            erb.layout().ring.wf(),
    {
        ElasticRingBuffer {
            rb: RingBuffer::new(size, value.clone()),
            default_value: value,
            ideal_max: ideal_max_len,
        }
    }

    /// Fill `values` with elements. See `ElasticPopResult` for the possible
    /// outcomes of this request.
    ///
    /// Every request is served. One that is longer than the ideal max length
    /// and would still leave that much behind takes all that is queued.
    pub fn pop_front_slice(&mut self, values: &mut [T]) -> (outcome: ElasticPopResult)
        ensures
            outcome == old(self)@.outcome(old(values)@.len()),
            seq_cloned(old(self)@.source(old(values)@.len()), final(values)@),
            clone_is_exact::<T>() ==> final(values)@ == old(self)@.source(old(values)@.len()),
            final(self)@ == old(self)@.pop_front_slice(old(values)@.len()),
            final(self)@.ring.len() == old(self)@.ring.len() - old(self)@.consumed(
                old(values)@.len(),
            ),
            final(self)@.ring.len() <= final(self)@.ideal_max,
            final(self).layout() == old(self).layout().pop_front_slice(old(values)@.len()),
            final(self).layout().ring.wf(),
    {
        let buffer_len = self.rb.len();
        let values_len = values.len();
        if values_len <= buffer_len {
            if buffer_len - values_len < self.ideal_max {
                let r = self.rb.pop_front_slice(values);
                assert(r);
                ElasticPopResult::Exact
            } else {
                // The request and the surplus, but never more than is queued.
                let total_sample_size = if values_len > self.ideal_max {
                    buffer_len
                } else {
                    (buffer_len - self.ideal_max) + values_len
                };
                self.sample_n(values, total_sample_size)
            }
        } else {
            self.sample_n(values, buffer_len)
        }
    }

    /// Spread the `n` oldest values evenly over `values` and drop them from
    /// the queue. With nothing to spread, fill `values` with the default
    /// value.
    fn sample_n(&mut self, values: &mut [T], n: usize) -> (outcome: ElasticPopResult)
        requires
            old(self).layout().ring.wf(),
            n <= old(self)@.ring.len(),
        ensures
            outcome == sample_outcome(n as nat, old(values)@.len()),
            seq_cloned(
                sample(
                    old(self)@.ring.items,
                    n as nat,
                    old(values)@.len(),
                    old(self)@.default_value,
                ),
                final(values)@,
            ),
            final(self)@ == old(self)@.with_ring(old(self)@.ring.pop_front_slice(n as nat)),
            final(self)@.ring.len() == old(self)@.ring.len() - n,
            final(self)@.ring.max_len == old(self)@.ring.max_len,
            final(self).layout() == old(self).layout().with_ring(
                old(self).layout().ring.advance_read(n as nat),
            ),
            final(self).layout().ring.wf(),
    {
        let values_len = values.len();
        let ghost source = sample(
            self@.ring.items,
            n as nat,
            values_len as nat,
            self@.default_value,
        );
        if n == 0 {
            let mut i: usize = 0;
            while i < values_len
                invariant
                    i <= values_len,
                    n == 0,
                    values_len == values@.len(),
                    *self == *old(self),
                    source == sample(
                        self@.ring.items,
                        n as nat,
                        values_len as nat,
                        self@.default_value,
                    ),
                    seq_cloned(source.take(i as int), values@.take(i as int)),
                decreases values_len - i,
            {
                values[i] = self.default_value.clone();
                i += 1;
            }
            proof {
                assert(source.take(values_len as int) =~= source);
                self.layout().ring.lemma_advance_read_is_pop_front_slice(0);
            }
            ElasticPopResult::Empty
        } else {
            let mut i: usize = 0;
            while i < values_len
                invariant
                    i <= values_len,
                    0 < n <= self@.ring.len(),
                    values_len == values@.len(),
                    *self == *old(self),
                    source == sample(
                        self@.ring.items,
                        n as nat,
                        values_len as nat,
                        self@.default_value,
                    ),
                    seq_cloned(source.take(i as int), values@.take(i as int)),
                decreases values_len - i,
            {
                let offset = sample_index(i, n, values_len);
                values[i] = self.rb.peek_at(offset);
                i += 1;
            }
            proof {
                assert(source.take(values_len as int) =~= source);
            }
            self.rb.discard_front(n);
            if values_len > n {
                ElasticPopResult::Upsampled(n)
            } else {
                ElasticPopResult::Downsampled(n)
            }
        }
    }

    /// Add all `values` to the buffer. If there is not enough room in the
    /// queue then no values are added and the return value is false.
    pub fn push_back_slice(&mut self, values: &[T]) -> (pushed: bool)
        ensures
            pushed <==> values@.len() <= old(self)@.ring.capacity(),
            !pushed ==> final(self).layout() == old(self).layout(),
            pushed ==> ({
                let stored = final(self)@.ring.items.skip(old(self)@.ring.len() as int);
                &&& seq_cloned(values@, stored)
                &&& final(self)@ == old(self)@.with_ring(old(self)@.ring.push_back_slice(stored))
                &&& final(self).layout() == old(self).layout().with_ring(
                    old(self).layout().ring.write_each(stored),
                )
            }),
            pushed && clone_is_exact::<T>() ==> final(self)@ == old(self)@.with_ring(
                old(self)@.ring.push_back_slice(values@),
            ),
            final(self).layout().ring.wf(),
    {
        self.rb.push_back_slice(values)
    }

    /// Add `value` to the end of the queue. Returns false if there is not
    /// enough room in the queue.
    pub fn push_back(&mut self, value: T) -> (pushed: bool)
        ensures
            pushed <==> old(self)@.ring.capacity() > 0,
            final(self)@ == old(self)@.with_ring(old(self)@.ring.push_back(value)),
            final(self).layout() == (if pushed {
                old(self).layout().with_ring(old(self).layout().ring.write_one(value))
            } else {
                old(self).layout()
            }),
            final(self).layout().ring.wf(),
    {
        self.rb.push_back(value)
    }

    /// Returns the number of values in the buffer.
    pub fn len(&self) -> (n: usize)
        ensures
            n == self@.ring.len(),
            n == self.layout().ring.occupancy(),
            self@.ring.wf(),
            self.layout().ring.wf(),
    {
        self.rb.len()
    }

    /// Returns the number of free slots in the buffer.
    pub fn capacity(&self) -> (n: usize)
        ensures
            n == self@.ring.capacity(),
            n + self@.ring.len() == self@.ring.max_len,
            self@.ring.wf(),
            self.layout().ring.wf(),
    {
        self.rb.capacity()
    }

    /// Returns the max number of values that can ever be stored in the
    /// buffer.
    pub fn max_len(&self) -> (n: usize)
        ensures
            n == self@.ring.max_len,
            n == self.layout().ring.slots() - 1,
            self@.ring.wf(),
            self.layout().ring.wf(),
    {
        self.rb.max_len()
    }

    /// Returns the occupancy from which a request starts to drop elements.
    pub fn ideal_max(&self) -> (n: usize)
        ensures
            n == self@.ideal_max,
    {
        self.ideal_max
    }
}

} // verus!
