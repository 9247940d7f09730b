//! Spreading `n` queued items evenly over an output of another length.
//!
//! One rule serves both directions: with fewer items than output slots some
//! items are read more than once, with more items than slots some are
//! passed over.

use vstd::prelude::*;
use vstd::set_lib::{lemma_int_range, set_int_range};
use vstd::arithmetic::div_mod::{
    lemma_div_is_ordered,
    lemma_div_multiples_vanish,
    lemma_fundamental_div_mod,
    lemma_fundamental_div_mod_converse,
};

verus! {

/// The place, counted from the oldest item, from which output slot `i` of
/// `out_len` is taken when `n` items are spread evenly over the output.
pub open spec fn sample_offset(i: int, n: int, out_len: int) -> int {
    (i * n) / out_len
}

/// What sampling the `n` oldest of `items` into `out_len` slots reads; with
/// nothing to sample, `default_value` throughout.
pub open spec fn sample<T>(items: Seq<T>, n: nat, out_len: nat, default_value: T) -> Seq<T> {
    Seq::new(
        out_len,
        |i: int|
            if n == 0 {
                default_value
            } else {
                items[sample_offset(i, n as int, out_len as int)]
            },
    )
}

/// Every output slot reads from among the `n` sampled items.
pub proof fn lemma_sample_offset_in_range(i: int, n: int, out_len: int)
    requires
        0 <= i < out_len,
        0 < n,
    ensures
        0 <= sample_offset(i, n, out_len) < n,
{
    assert(0 <= (i * n) / out_len < n) by (nonlinear_arith)
        requires
            0 <= i < out_len,
            0 < n,
    ;
}

/// The first output slot reads the oldest item.
pub proof fn lemma_sample_offset_starts_at_front(n: int, out_len: int)
    requires
        0 < out_len,
    ensures
        sample_offset(0, n, out_len) == 0,
{
}

/// Later output slots never read from further ahead in the queue.
pub proof fn lemma_sample_offset_monotonic(i: int, j: int, n: int, out_len: int)
    requires
        0 <= i <= j < out_len,
        0 <= n,
    ensures
        sample_offset(i, n, out_len) <= sample_offset(j, n, out_len),
{
    assert(i * n <= j * n) by (nonlinear_arith)
        requires
            0 <= i <= j,
            0 <= n,
    ;
    lemma_div_is_ordered(i * n, j * n, out_len);
}

/// The quotient of a sum is the sum of the quotients, or one more.
proof fn lemma_div_of_sum(x: int, y: int, d: int)
    requires
        0 <= x,
        0 <= y,
        0 < d,
    ensures
        x / d + y / d <= (x + y) / d <= x / d + y / d + 1,
{
    lemma_fundamental_div_mod(x, d);
    lemma_fundamental_div_mod(y, d);
    let q = x / d + y / d;
    let r = x % d + y % d;
    assert(x + y == d * q + r) by (nonlinear_arith)
        requires
            x == d * (x / d) + x % d,
            y == d * (y / d) + y % d,
            q == x / d + y / d,
            r == x % d + y % d,
    ;
    if r < d {
        lemma_fundamental_div_mod_converse(x + y, d, q, r);
    } else {
        assert(x + y == d * (q + 1) + (r - d)) by (nonlinear_arith)
            requires
                x + y == d * q + r,
        ;
        lemma_fundamental_div_mod_converse(x + y, d, q + 1, r - d);
    }
}

/// From one output slot to the next the place read from moves on by the
/// ratio of items to slots, rounded down or up: items are repeated or passed
/// over evenly.
pub proof fn lemma_sample_offset_stride(i: int, n: int, out_len: int)
    requires
        0 <= i,
        i + 1 < out_len,
        0 <= n,
    ensures
        n / out_len <= sample_offset(i + 1, n, out_len) - sample_offset(i, n, out_len) <= n
            / out_len + 1,
{
    let x = i * n;
    assert((i + 1) * n == x + n) by (nonlinear_arith)
        requires
            x == i * n,
    ;
    lemma_div_of_sum(x, n, out_len);
}

/// When there are no more items than output slots, none is left out: every
/// one of the `n` items is read by some slot. The result is such a slot.
pub proof fn lemma_sample_offset_covers(j: int, n: int, out_len: int) -> (i: int)
    requires
        0 <= j < n <= out_len,
    ensures
        0 <= i < out_len,
        sample_offset(i, n, out_len) == j,
{
    // The first slot whose offset is not below `j`.
    let i = (j * out_len + n - 1) / n;
    lemma_fundamental_div_mod(j * out_len + n - 1, n);
    let rest = i * n - j * out_len;
    lemma_fundamental_div_mod_converse(i * n, out_len, j, rest);
    assert(i < out_len) by (nonlinear_arith)
        requires
            i * n < j * out_len + n,
            0 <= j < n <= out_len,
            0 <= i,
    ;
    i
}

/// The first output slot that reads item `j` or a later one.
pub open spec fn first_slot_of(j: int, n: int, out_len: int) -> int {
    (j * out_len + n - 1) / n
}

/// The output slots that read item `j`.
pub open spec fn slots_reading(j: int, n: int, out_len: int) -> Set<int> {
    Set::new(|i: int| 0 <= i < out_len && sample_offset(i, n, out_len) == j)
}

/// The output slots that read item `j` lie side by side: they are the slots
/// from `first_slot_of(j)` up to, but not including, `first_slot_of(j + 1)`.
pub proof fn lemma_slots_of_item(i: int, j: int, n: int, out_len: int)
    requires
        0 <= i,
        0 <= j,
        0 < n,
        0 < out_len,
    ensures
        sample_offset(i, n, out_len) == j <==> first_slot_of(j, n, out_len) <= i < first_slot_of(
            j + 1,
            n,
            out_len,
        ),
{
    lemma_offset_is_floor(i, j, n, out_len);
    lemma_first_slot_is_ceiling(i, j * out_len, n);
    lemma_first_slot_is_ceiling(i, (j + 1) * out_len, n);
}

/// Slot `i` reads item `j` exactly when `i * n` lies in the `j`-th stretch of
/// length `out_len`.
proof fn lemma_offset_is_floor(i: int, j: int, n: int, out_len: int)
    requires
        0 < out_len,
    ensures
        sample_offset(i, n, out_len) == j <==> j * out_len <= i * n < (j + 1) * out_len,
{
    let x = i * n;
    lemma_fundamental_div_mod(x, out_len);
    assert((j + 1) * out_len == j * out_len + out_len) by (nonlinear_arith);
    assert(out_len * j == j * out_len) by (nonlinear_arith);
    if j * out_len <= x < (j + 1) * out_len {
        lemma_fundamental_div_mod_converse(x, out_len, j, x - j * out_len);
    }
}

/// The quotient rounded up is the least `i` with `a <= i * n`.
proof fn lemma_first_slot_is_ceiling(i: int, a: int, n: int)
    requires
        0 < n,
    ensures
        (a + n - 1) / n <= i <==> a <= i * n,
{
    let f = (a + n - 1) / n;
    lemma_fundamental_div_mod(a + n - 1, n);
    if f <= i {
        assert(f * n <= i * n) by (nonlinear_arith)
            requires
                f <= i,
                0 < n,
        ;
    } else {
        assert(f * n >= i * n + n) by (nonlinear_arith)
            requires
                f >= i + 1,
                0 < n,
        ;
    }
}

/// Every item is read by as many output slots as the ratio of slots to
/// items, rounded down or up. The slots of the items follow each other from
/// the first output slot to the last.
pub proof fn lemma_slots_per_item(j: int, n: int, out_len: int)
    requires
        0 <= j,
        0 < n,
        0 < out_len,
    ensures
        out_len / n <= first_slot_of(j + 1, n, out_len) - first_slot_of(j, n, out_len) <= (out_len
            + n - 1) / n,
        first_slot_of(0, n, out_len) == 0,
        first_slot_of(n, n, out_len) == out_len,
{
    let x = j * out_len + n - 1;
    assert(0 <= j * out_len) by (nonlinear_arith)
        requires
            0 <= j,
            0 < out_len,
    ;
    assert((j + 1) * out_len + n - 1 == x + out_len) by (nonlinear_arith)
        requires
            x == j * out_len + n - 1,
    ;
    lemma_div_of_sum(x, out_len, n);
    // The ratio rounded up: one more than rounded down, unless it is whole.
    let m = out_len / n;
    let r = out_len % n;
    lemma_fundamental_div_mod(out_len, n);
    if r == 0 {
        lemma_fundamental_div_mod_converse(out_len + n - 1, n, m, n - 1);
        lemma_fundamental_div_mod(x, n);
        assert(x + out_len == (x / n + m) * n + x % n) by (nonlinear_arith)
            requires
                x == n * (x / n) + x % n,
                out_len == m * n,
        ;
        lemma_fundamental_div_mod_converse(x + out_len, n, x / n + m, x % n);
    } else {
        assert(out_len + n - 1 == (m + 1) * n + (r - 1)) by (nonlinear_arith)
            requires
                out_len == m * n + r,
        ;
        lemma_fundamental_div_mod_converse(out_len + n - 1, n, m + 1, r - 1);
    }
    lemma_fundamental_div_mod_converse(n - 1, n, 0, n - 1);
    lemma_fundamental_div_mod_converse(n * out_len + n - 1, n, out_len, n - 1);
}

/// How often an item is handed out: the number of output slots that read
/// item `j` is the ratio of slots to items, rounded down or up.
pub proof fn lemma_count_of_slots_reading(j: int, n: int, out_len: int)
    requires
        0 <= j < n,
        0 < out_len,
    ensures
        slots_reading(j, n, out_len).finite(),
        slots_reading(j, n, out_len).len() == first_slot_of(j + 1, n, out_len) - first_slot_of(
            j,
            n,
            out_len,
        ),
        out_len / n <= slots_reading(j, n, out_len).len() <= (out_len + n - 1) / n,
{
    let lo = first_slot_of(j, n, out_len);
    let hi = first_slot_of(j + 1, n, out_len);
    lemma_slots_per_item(j, n, out_len);
    lemma_first_slots_ascend(j + 1, n, n, out_len);
    assert forall|i: int| slots_reading(j, n, out_len).contains(i) <==> set_int_range(
        lo,
        hi,
    ).contains(i) by {
        if 0 <= i {
            lemma_slots_of_item(i, j, n, out_len);
        }
    }
    assert(slots_reading(j, n, out_len) =~= set_int_range(lo, hi));
    lemma_int_range(lo, hi);
}

/// Later items are read from later slots on.
proof fn lemma_first_slots_ascend(j: int, k: int, n: int, out_len: int)
    requires
        0 <= j <= k,
        0 < n,
        0 < out_len,
    ensures
        first_slot_of(j, n, out_len) <= first_slot_of(k, n, out_len),
{
    assert(j * out_len + n - 1 <= k * out_len + n - 1) by (nonlinear_arith)
        requires
            j <= k,
            0 < out_len,
    ;
    lemma_div_is_ordered(j * out_len + n - 1, k * out_len + n - 1, n);
}

/// Sampling as many items as there are output slots reads each of them once,
/// in order.
pub proof fn lemma_sample_of_equal_length<T>(items: Seq<T>, n: nat, default_value: T)
    requires
        n <= items.len(),
    ensures
        sample(items, n, n, default_value) == items.take(n as int),
{
    assert forall|i: int| 0 <= i < n implies sample_offset(i, n as int, n as int) == i by {
        lemma_div_multiples_vanish(i, n as int);
    }
}

/// The offset that output slot `i` of `out_len` reads from.
pub(crate) fn sample_index(i: usize, n: usize, out_len: usize) -> (offset: usize)
    requires
        i < out_len,
        0 < n,
    ensures
        offset == sample_offset(i as int, n as int, out_len as int),
        offset < n,
{
    proof {
        lemma_sample_offset_in_range(i as int, n as int, out_len as int);
        assert(i * n <= 0xffff_ffff_ffff_ffff * 0xffff_ffff_ffff_ffff) by (nonlinear_arith)
            requires
                0 <= i <= 0xffff_ffff_ffff_ffff,
                0 <= n <= 0xffff_ffff_ffff_ffff,
        ;
    }
    // The product of two indices may not fit an index.
    let wide: u128 = (i as u128) * (n as u128) / (out_len as u128);
    wide as usize
}

} // verus!
