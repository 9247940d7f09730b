//! What can be said of values that were made by `Clone`.
//!
//! The buffers of this crate hand out clones of what they hold. What a clone
//! is depends on the element type, so the contracts relate each value that
//! comes out to the value it was cloned from.

use vstd::prelude::*;

verus! {

/// `dst` is a value that cloning `src` may give.
pub open spec fn option_cloned<T: Clone>(src: Option<T>, dst: Option<T>) -> bool {
    match src {
        Some(a) => dst is Some && cloned(a, dst->Some_0),
        None => dst is None,
    }
}

/// Each item of `dst` is a value that cloning the item of `src` at the same
/// place may give.
pub open spec fn seq_cloned<T: Clone>(src: Seq<T>, dst: Seq<T>) -> bool {
    &&& src.len() == dst.len()
    &&& forall|i: int|
        #![trigger src[i]]
        #![trigger dst[i]]
        0 <= i < src.len() ==> cloned(src[i], dst[i])
}

/// Whether cloning a `T` always gives a value equal to the one cloned.
pub open spec fn clone_is_exact<T: Clone>() -> bool {
    forall|a: T, b: T| #[trigger] cloned(a, b) ==> a == b
}

/// Copies made by an exact clone are the values themselves.
pub proof fn lemma_seq_cloned_exact<T: Clone>(src: Seq<T>, dst: Seq<T>)
    requires
        clone_is_exact::<T>(),
        seq_cloned(src, dst),
    ensures
        src == dst,
{
}

} // verus!
