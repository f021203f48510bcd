//! Access to parts of a mutable slice, with the facts about them that the iterators need.

use vstd::prelude::*;

verus! {

/// Calls `<[T]>::split_at_mut`. Besides what vstd states of that method (the two
/// halves and how their final contents make up the final slice), the contract
/// claims that neither half changes its length while borrowed: a `&mut [T]`
/// cannot be made to refer to a slice of another length.
#[verifier::external_body]
pub(crate) fn split_at_mut_exact<T>(slice: &mut [T], mid: usize) -> (halves: (&mut [T], &mut [T]))
    requires
        mid <= old(slice)@.len(),
    ensures
        halves.0@ == old(slice)@.subrange(0, mid as int),
        halves.1@ == old(slice)@.subrange(mid as int, old(slice)@.len() as int),
        final(halves.0)@.len() == mid,
        final(halves.1)@.len() == old(slice)@.len() - mid,
        final(slice)@ == final(halves.0)@ + final(halves.1)@,
{
    slice.split_at_mut(mid)
}

/// Calls `Clone::clone_from`. Its documentation makes `dst.clone_from(src)`
/// equivalent in effect to `*dst = src.clone()`; the contract therefore claims that
/// the final value of `dst` is one that `clone` may return for `src`.
#[verifier::external_body]
pub(crate) fn clone_from_ref<T: Clone>(dst: &mut T, src: &T)
    ensures
        cloned::<T>(*src, *final(dst)),
{
    dst.clone_from(src)
}

} // verus!
