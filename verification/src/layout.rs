//! How a ring buffer lays its queue out in memory: a backing store with one
//! slot more than the queue can hold, and two cursors that go round it.
//!
//! The spare slot is never occupied. With it, equal cursors can only mean an
//! empty queue, and no count has to be kept beside the cursors.

use vstd::prelude::*;
use crate::fifo::RingState;

verus! {

/// The position reached from `index` after `amount` steps round a store of
/// `modulus` slots.
pub open spec fn wrap_add(index: int, amount: int, modulus: int) -> int {
    (index + amount) % modulus
}

/// Within one lap of zero, the remainder is found by at most one correction.
proof fn lemma_mod_near(x: int, m: int)
    requires
        0 < m,
        -m <= x < 2 * m,
    ensures
        x % m == (if x < 0 {
            x + m
        } else if x < m {
            x
        } else {
            x - m
        }),
{
    if x < 0 {
        assert(x % m == x + m) by (nonlinear_arith)
            requires
                0 < m,
                -m <= x < 0,
        ;
    } else if x < m {
        assert(x % m == x) by (nonlinear_arith)
            requires
                0 < m,
                0 <= x < m,
        ;
    } else {
        assert(x % m == x - m) by (nonlinear_arith)
            requires
                0 < m,
                m <= x < 2 * m,
        ;
    }
}

/// An advance by less than one lap, forward or backward, stays in the store
/// and wraps at most once.
pub proof fn lemma_wrap_add(index: int, amount: int, modulus: int)
    requires
        0 <= index < modulus,
        -modulus < amount < modulus,
    ensures
        0 <= wrap_add(index, amount, modulus) < modulus,
        wrap_add(index, amount, modulus) == (if index + amount < 0 {
            index + amount + modulus
        } else if index + amount < modulus {
            index + amount
        } else {
            index + amount - modulus
        }),
{
    lemma_mod_near(index + amount, modulus);
}

/// An advance is undone by the advance of the same length the other way.
pub proof fn lemma_wrap_add_back(index: int, amount: int, modulus: int)
    requires
        0 <= index < modulus,
        -modulus < amount < modulus,
    ensures
        wrap_add(wrap_add(index, amount, modulus), -amount, modulus) == index,
{
    lemma_wrap_add(index, amount, modulus);
    lemma_wrap_add(wrap_add(index, amount, modulus), -amount, modulus);
}

/// Two advances in a row are one advance by their sum.
pub proof fn lemma_wrap_add_twice(index: int, first: int, second: int, modulus: int)
    requires
        0 <= index < modulus,
        0 <= first,
        0 <= second,
        first + second < modulus,
    ensures
        wrap_add(wrap_add(index, first, modulus), second, modulus) == wrap_add(
            index,
            first + second,
            modulus,
        ),
{
    lemma_wrap_add(index, first, modulus);
    lemma_wrap_add(index, first + second, modulus);
    lemma_wrap_add(wrap_add(index, first, modulus), second, modulus);
}

/// The memory of a ring buffer: its backing store and its two cursors.
pub struct RingLayout<T> {
    /// The backing store. Its length is fixed; slots outside the queue hold
    /// values that are never read.
    pub store: Seq<T>,
    /// The slot of the oldest queued item.
    pub read: nat,
    /// The slot that the next pushed item goes to.
    pub write: nat,
}

impl<T> RingLayout<T> {
    /// The number of slots of the backing store.
    pub open spec fn slots(self) -> nat {
        self.store.len()
    }

    /// Both cursors stand inside the backing store (which therefore has at
    /// least one slot).
    pub open spec fn wf(self) -> bool {
        self.read < self.slots() && self.write < self.slots()
    }

    /// The number of queued items: the way from the read cursor to the write
    /// cursor, going round the store.
    pub open spec fn occupancy(self) -> nat {
        ((self.write - self.read) % (self.slots() as int)) as nat
    }

    /// The largest number of items that can be queued: all slots but one.
    pub open spec fn max_len(self) -> nat {
        (self.slots() - 1) as nat
    }

    /// No item is queued.
    pub open spec fn is_empty(self) -> bool {
        self.read == self.write
    }

    /// No further item can be queued: the write cursor stands right behind
    /// the read cursor.
    pub open spec fn is_full(self) -> bool {
        wrap_add(self.write as int, 1, self.slots() as int) == self.read
    }

    /// The slot of the queued item that stands `i` places behind the oldest.
    pub open spec fn slot_of(self, i: int) -> int {
        wrap_add(self.read as int, i, self.slots() as int)
    }

    /// The queued items, oldest first, as they are read off the store from
    /// the read cursor on.
    pub open spec fn items(self) -> Seq<T> {
        Seq::new(self.occupancy(), |i: int| self.store[self.slot_of(i)])
    }

    /// The queue that this layout stands for.
    pub open spec fn state(self) -> RingState<T> {
        RingState { items: self.items(), max_len: self.max_len() }
    }

    /// The layout after `value` was written at the write cursor and the
    /// cursor moved on by one slot.
    pub open spec fn write_one(self, value: T) -> Self {
        RingLayout {
            store: self.store.update(self.write as int, value),
            read: self.read,
            write: wrap_add(self.write as int, 1, self.slots() as int) as nat,
        }
    }

    /// The layout after each of `values` was written by `write_one`, in
    /// order.
    pub open spec fn write_each(self, values: Seq<T>) -> Self
        decreases values.len(),
    {
        if values.len() == 0 {
            self
        } else {
            self.write_one(values.first()).write_each(values.drop_first())
        }
    }

    /// The layout after the read cursor moved on by `n` slots.
    pub open spec fn advance_read(self, n: nat) -> Self {
        RingLayout {
            store: self.store,
            read: wrap_add(self.read as int, n as int, self.slots() as int) as nat,
            write: self.write,
        }
    }

    /// The occupancy without the modulus, and its bound: one slot is always
    /// left over.
    pub proof fn lemma_occupancy(self)
        requires
            self.wf(),
        ensures
            self.occupancy() == (if self.write >= self.read {
                self.write - self.read
            } else {
                self.write - self.read + self.slots()
            }),
            self.occupancy() <= self.max_len(),
            self.state().wf(),
            self.state().len() == self.occupancy(),
            self.state().capacity() == self.max_len() - self.occupancy(),
    {
        lemma_mod_near(self.write - self.read, self.slots() as int);
    }

    /// Equal cursors mean an empty queue and nothing else; the queue is full
    /// exactly when one more push would bring the write cursor onto the read
    /// cursor.
    pub proof fn lemma_empty_and_full(self)
        requires
            self.wf(),
        ensures
            self.is_empty() <==> self.occupancy() == 0,
            self.is_full() <==> self.occupancy() == self.max_len(),
            self.is_full() <==> self.state().capacity() == 0,
            self.slots() > 1 ==> !(self.is_empty() && self.is_full()),
    {
        self.lemma_occupancy();
        if self.slots() > 1 {
            lemma_wrap_add(self.write as int, 1, self.slots() as int);
        }
    }

    /// Every queued item lies in a slot of the store, and different places
    /// in the queue lie in different slots.
    pub proof fn lemma_slot_of(self, i: int)
        requires
            self.wf(),
            0 <= i < self.slots(),
        ensures
            0 <= self.slot_of(i) < self.slots(),
            self.slot_of(i) == (if self.read + i < self.slots() {
                self.read + i
            } else {
                self.read + i - self.slots()
            }),
            i < self.occupancy() ==> self.state().items[i] == self.store[self.slot_of(i)],
            i == self.occupancy() <==> self.slot_of(i) == self.write,
    {
        self.lemma_occupancy();
        lemma_wrap_add(self.read as int, i, self.slots() as int);
    }

    /// Writing at the write cursor of a queue that is not full appends to
    /// the queue, and never brings the write cursor onto the read cursor.
    pub proof fn lemma_write_one_is_push_back(self, value: T)
        requires
            self.wf(),
            !self.is_full(),
        ensures
            self.write_one(value).wf(),
            self.write_one(value).state() == self.state().push_back(value),
            self.write_one(value).occupancy() == self.occupancy() + 1,
            !self.write_one(value).is_empty(),
    {
        let after = self.write_one(value);
        self.lemma_occupancy();
        lemma_wrap_add(self.write as int, 1, self.slots() as int);
        after.lemma_occupancy();
        assert forall|i: int| 0 <= i < after.occupancy() implies #[trigger] after.items()[i]
            == self.items().push(value)[i] by {
            self.lemma_slot_of(i);
            after.lemma_slot_of(i);
        }
        assert(after.items() =~= self.items().push(value));
    }

    /// Writing a value more is writing it after the others.
    pub proof fn lemma_write_each_push(self, values: Seq<T>, value: T)
        ensures
            self.write_each(values.push(value)) == self.write_each(values).write_one(value),
        decreases values.len(),
    {
        let more = values.push(value);
        if values.len() == 0 {
            assert(self.write_one(value).write_each(more.drop_first()) == self.write_one(value));
        } else {
            assert(more.drop_first() =~= values.drop_first().push(value));
            self.write_one(values.first()).lemma_write_each_push(values.drop_first(), value);
        }
    }

    /// Writing values that fit appends them to the queue, as a bulk push
    /// does; the write cursor moves on by their number.
    pub proof fn lemma_write_each_is_push_back_slice(self, values: Seq<T>)
        requires
            self.wf(),
            values.len() <= self.state().capacity(),
        ensures
            self.write_each(values).wf(),
            self.write_each(values).state() == self.state().push_back_slice(values),
            self.write_each(values).read == self.read,
            self.write_each(values).write == wrap_add(
                self.write as int,
                values.len() as int,
                self.slots() as int,
            ),
            self.write_each(values).slots() == self.slots(),
        decreases values.len(),
    {
        if values.len() == 0 {
            lemma_wrap_add(self.write as int, 0, self.slots() as int);
        } else {
            self.lemma_empty_and_full();
            self.lemma_write_one_is_push_back(values.first());
            let next = self.write_one(values.first());
            next.lemma_write_each_is_push_back_slice(values.drop_first());
            assert(next.items() + values.drop_first() =~= self.items() + values);
            lemma_wrap_add_twice(
                self.write as int,
                1,
                values.len() - 1,
                self.slots() as int,
            );
        }
    }

    /// Moving the read cursor on by no more than is queued takes that many
    /// items off the front of the queue, as a bulk pop does.
    pub proof fn lemma_advance_read_is_pop_front_slice(self, n: nat)
        requires
            self.wf(),
            n <= self.occupancy(),
        ensures
            self.advance_read(n).wf(),
            self.advance_read(n).state() == self.state().pop_front_slice(n),
            self.advance_read(n).occupancy() == self.occupancy() - n,
            n == 1 ==> self.advance_read(n).state() == self.state().pop_front(),
            n == 0 ==> self.advance_read(n) == self,
    {
        let after = self.advance_read(n);
        self.lemma_occupancy();
        self.lemma_slot_of(n as int);
        after.lemma_occupancy();
        assert forall|i: int| 0 <= i < after.occupancy() implies #[trigger] after.items()[i]
            == self.items().skip(n as int)[i] by {
            self.lemma_slot_of(i + n);
            after.lemma_slot_of(i);
        }
        assert(after.items() =~= self.items().skip(n as int));
    }

    /// Moving the read cursor on twice is moving it on by the sum.
    pub proof fn lemma_advance_read_twice(self, first: nat, second: nat)
        requires
            self.wf(),
            first + second <= self.occupancy(),
        ensures
            self.advance_read(first).advance_read(second) == self.advance_read(first + second),
    {
        lemma_wrap_add_twice(self.read as int, first as int, second as int, self.slots() as int);
    }

    /// The oldest queued item lies under the read cursor.
    pub proof fn lemma_front_is_under_read(self)
        requires
            self.wf(),
        ensures
            self.state().front() == (if self.is_empty() {
                None
            } else {
                Some(self.store[self.read as int])
            }),
    {
        self.lemma_slot_of(0);
    }
}

} // verus!
