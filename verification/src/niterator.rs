//! # Stride iterators
//!
//! [`NIterator`] and [`NMutIterator`] traverse a region of memory with a fixed step
//! (stride), e.g. every 2nd or 3rd element: one channel of interleaved pixel or
//! audio data, or one column of a row-major matrix.
//!
//! An iterator is described by the slice it walks ([`NIterator::source`]) and the
//! positions it still has to visit ([`NIterator::positions`]), which are
//! `start, start + step, start + 2 * step, ...`. A step of zero falls back to one.

use vstd::prelude::*;
use vstd::math::min;
use crate::stride::{
    effective_step,
    strided_positions,
    positions_within,
    strictly_increasing,
    lemma_strided_advance,
    lemma_strided_skip,
    lemma_strided_next,
    lemma_strided_increasing,
    lemma_strided_fit,
};
use crate::slice_access::{split_at_mut_exact, clone_from_ref};

verus! {

broadcast use vstd::slice::group_slice_axioms;

/// An immutable iterator over a slice with a custom step size (stride).
///
/// Yields shared references to the visited elements, which live as long as the
/// borrowed slice.
#[derive(Clone, Copy)]
pub struct NIterator<'a, T> {
    data: &'a [T],
    pos: usize,
    step: usize,
    len: usize,
}

/// A mutable iterator over a slice with a custom step size (stride).
///
/// Each call of [`next`](Self::next) lends out the next visited element mutably;
/// [`clone_from_slice`](Self::clone_from_slice) and
/// [`copy_from_slice`](Self::copy_from_slice) write a run of values into the
/// visited elements.
pub struct NMutIterator<'a, T> {
    data: &'a mut [T],
    pos: usize,
    step: usize,
    len: usize,
}

impl<'a, T> NIterator<'a, T> {
    /// The slice the iterator walks.
    pub closed spec fn source(&self) -> Seq<T> {
        self.data@
    }

    /// The distance between two consecutive visited elements.
    pub closed spec fn stride(&self) -> nat {
        self.step as nat
    }

    /// The indices into [`source`](Self::source) still to be visited, in order.
    pub closed spec fn positions(&self) -> Seq<int> {
        strided_positions(self.pos as int, self.step as int, self.len as nat)
    }

    /// Every position still to be visited lies inside the source, and the step is positive.
    pub closed spec fn wf(&self) -> bool {
        &&& self.step > 0
        &&& positions_within(self.positions(), 0, self.data@.len() as int)
    }

    /// Creates a sequential iterator (step size 1) over the first `len` elements of `data`.
    pub fn new(data: &'a [T], len: usize) -> (iter: Self)
        requires
            len <= data@.len(),
        ensures
            iter.wf(),
            iter.source() == data@,
            iter.stride() == 1,
            iter.positions() == strided_positions(0, 1, len as nat),
    {
        Self::new_step(data, len, 1)
    }

    /// Creates an iterator that yields `len` elements of `data`, `step` elements apart,
    /// starting with the first. A `step` of zero falls back to one.
    ///
    /// Every visited element must lie inside `data`.
    pub fn new_step(data: &'a [T], len: usize, step: usize) -> (iter: Self)
        requires
            len == 0 || (len - 1) * effective_step(step) < data@.len(),
        ensures
            iter.wf(),
            iter.source() == data@,
            iter.stride() == effective_step(step),
            iter.positions() == strided_positions(0, effective_step(step) as int, len as nat),
            step != 0 ==> iter.stride() == step,
            step == 0 ==> iter.stride() == 1,
            iter.positions().len() == len,
            forall|k: int| 0 <= k < len ==> #[trigger] iter.positions()[k] == k * iter.stride(),
    {
        let step = if step == 0 { 1 } else { step };
        if len > 0 {
            proof {
                lemma_strided_fit(0, step as int, len as nat, 1, data@.len() as int);
            }
        }
        NIterator { data, pos: 0, step, len }
    }

    /// Yields the next visited element, or `None` once all have been yielded.
    /// An exhausted iterator stays exhausted.
    pub fn next(&mut self) -> (item: Option<&'a T>)
        requires
            old(self).wf(),
        ensures
            final(self).wf(),
            final(self).source() == old(self).source(),
            final(self).stride() == old(self).stride(),
            item is None <==> old(self).positions().len() == 0,
            item is None ==> final(self).positions() == old(self).positions(),
            item matches Some(x) ==> *x == old(self).source()[old(self).positions()[0]]
                && final(self).positions() == old(self).positions().drop_first(),
    {
        if self.len == 0 {
            return None;
        }
        let i = self.pos;
        proof {
            lemma_strided_advance(self.pos as int, self.step as int, self.len as nat);
            if self.len > 1 {
                lemma_strided_next(self.pos as int, self.step as int, self.len as nat, 0);
            }
        }
        self.pos = self.pos.wrapping_add(self.step);
        self.len = self.len - 1;
        Some(&self.data[i])
    }

    /// The exact number of elements still to be yielded, as a lower and an upper bound.
    pub fn size_hint(&self) -> (hint: (usize, Option<usize>))
        ensures
            hint.0 == self.positions().len(),
            hint.1 == Some(hint.0),
    {
        (self.len, Some(self.len))
    }

    /// The number of elements still to be yielded.
    pub fn len(&self) -> (n: usize)
        ensures
            n == self.positions().len(),
    {
        self.len
    }
}

impl<'a, T> NMutIterator<'a, T> {
    /// The current contents of the slice the iterator walks.
    pub closed spec fn source(&self) -> Seq<T> {
        self.data@
    }

    /// The mutable borrow the iterator holds; what it finally refers to is what the
    /// borrowed slice holds once the iterator is gone.
    pub closed spec fn target(&self) -> &'a mut [T] {
        self.data
    }

    /// The distance between two consecutive visited elements.
    pub closed spec fn stride(&self) -> nat {
        self.step as nat
    }

    /// The indices into [`source`](Self::source) still to be visited, in order.
    pub closed spec fn positions(&self) -> Seq<int> {
        strided_positions(self.pos as int, self.step as int, self.len as nat)
    }

    /// Every position still to be visited lies inside the source, no position repeats,
    /// and the step is positive.
    pub closed spec fn wf(&self) -> bool {
        &&& self.step > 0
        &&& positions_within(self.positions(), 0, self.data@.len() as int)
        &&& strictly_increasing(self.positions())
    }

    /// Once the iterator is no longer used, the borrowed slice holds what the
    /// iterator's source holds at that point.
    pub proof fn lemma_release(iter: Self)
        ensures
            has_resolved(iter) ==> final(iter.target())@ == iter.source(),
    {
    }

    /// Creates a sequential iterator (step size 1) over the first `len` elements of `data`.
    pub fn new(data: &'a mut [T], len: usize) -> (iter: Self)
        requires
            len <= old(data)@.len(),
        ensures
            iter.wf(),
            iter.source() == old(data)@,
            iter.stride() == 1,
            iter.positions() == strided_positions(0, 1, len as nat),
            final(data)@ == final(iter.target())@,
    {
        Self::new_step(data, len, 1)
    }

    /// Creates an iterator that visits `len` elements of `data`, `step` elements apart,
    /// starting with the first. A `step` of zero falls back to one.
    ///
    /// Every visited element must lie inside `data`.
    pub fn new_step(data: &'a mut [T], len: usize, step: usize) -> (iter: Self)
        requires
            len == 0 || (len - 1) * effective_step(step) < old(data)@.len(),
        ensures
            iter.wf(),
            iter.source() == old(data)@,
            iter.stride() == effective_step(step),
            iter.positions() == strided_positions(0, effective_step(step) as int, len as nat),
            step != 0 ==> iter.stride() == step,
            step == 0 ==> iter.stride() == 1,
            iter.positions().len() == len,
            forall|k: int| 0 <= k < len ==> #[trigger] iter.positions()[k] == k * iter.stride(),
            final(data)@ == final(iter.target())@,
    {
        let step = if step == 0 { 1 } else { step };
        proof {
            if len > 0 {
                lemma_strided_fit(0, step as int, len as nat, 1, old(data)@.len() as int);
            }
            lemma_strided_increasing(0, step as int, len as nat);
        }
        NMutIterator { data, pos: 0, step, len }
    }

    /// Lends out the next visited element, or returns `None` once all have been
    /// visited. Whatever is written through the returned reference lands in the
    /// source at that element's position. An exhausted iterator stays exhausted.
    pub fn next(&mut self) -> (item: Option<&mut T>)
        requires
            old(self).wf(),
        ensures
            final(self).wf(),
            final(self).stride() == old(self).stride(),
            final(final(self).target())@ == final(old(self).target())@,
            item is None <==> old(self).positions().len() == 0,
            item is None ==> final(self).positions() == old(self).positions()
                && final(self).source() == old(self).source(),
            item matches Some(x) ==> *x == old(self).source()[old(self).positions()[0]]
                && final(self).source() == old(self).source().update(
                old(self).positions()[0],
                *final(x),
            ) && final(self).positions() == old(self).positions().drop_first(),
    {
        if self.len == 0 {
            return None;
        }
        let i = self.pos;
        proof {
            lemma_strided_advance(self.pos as int, self.step as int, self.len as nat);
            assert(self.positions()[0] == i);
            if self.len > 1 {
                lemma_strided_next(self.pos as int, self.step as int, self.len as nat, 0);
            }
        }
        proof {
            assert(self.data@.len() == self.data.len());
        }
        self.pos = self.pos.wrapping_add(self.step);
        self.len = self.len - 1;
        proof {
            assert(self.positions() =~= old(self).positions().drop_first());
        }
        let ghost src = self.data@;
        let (_, rest) = split_at_mut_exact(&mut *self.data, i);
        let ghost rest_now = rest@;
        let item = rest.first_mut();
        proof {
            let v = *final(item.unwrap());
            assert(src.subrange(0, i as int) + rest_now.update(0, v) =~= src.update(i as int, v));
        }
        item
    }

    /// Clones values from `data` into the elements the iterator has still to visit,
    /// in order, and advances past the elements written.
    ///
    /// Writes `min(data.len(), self.len())` values: it stops when either the source
    /// slice or the iterator is exhausted. Each target element is updated in place
    /// with `Clone::clone_from`, so it keeps its own resources and is not dropped.
    /// No other element of the target changes.
    pub fn clone_from_slice(&mut self, data: &[T])
        where
            T: Clone,
        requires
            old(self).wf(),
        ensures
            final(self).wf(),
            final(self).stride() == old(self).stride(),
            final(final(self).target())@ == final(old(self).target())@,
            final(self).positions() == old(self).positions().skip(
                min(data@.len() as int, old(self).positions().len() as int),
            ),
            final(self).source().len() == old(self).source().len(),
            forall|k: int|
                0 <= k < min(data@.len() as int, old(self).positions().len() as int)
                    ==> cloned::<T>(data@[k], final(self).source()[#[trigger] old(self).positions()[k]]),
            forall|i: int|
                0 <= i < old(self).source().len() && (forall|k: int|
                    0 <= k < min(data@.len() as int, old(self).positions().len() as int)
                        ==> #[trigger] old(self).positions()[k] != i) ==> final(self).source()[i]
                    == old(self).source()[i],
    {
        let count = if data.len() < self.len { data.len() } else { self.len };
        let ghost start = self.positions();
        let ghost src = self.data@;
        let mut dst = self.pos;
        let mut k: usize = 0;
        proof {
            assert(self.data@.len() == self.data.len());
        }
        while k < count
            invariant
                k <= count,
                count <= self.len,
                count <= data@.len(),
                count == min(data@.len() as int, start.len() as int),
                self.step > 0,
                self.step == old(self).step,
                start == self.positions(),
                positions_within(start, 0, src.len() as int),
                strictly_increasing(start),
                src.len() <= usize::MAX,
                k < self.len ==> dst == start[k as int],
                self.data@.len() == src.len(),
                final(self.data)@ == final(old(self).target())@,
                forall|j: int| 0 <= j < k ==> cloned::<T>(data@[j], self.data@[#[trigger] start[j]]),
                forall|i: int|
                    0 <= i < src.len() && (forall|j: int| 0 <= j < k ==> #[trigger] start[j] != i)
                        ==> self.data@[i] == src[i],
            decreases count - k,
        {
            proof {
                if k + 1 < self.len {
                    lemma_strided_next(self.pos as int, self.step as int, self.len as nat, k as int);
                }
            }
            let ghost before = self.data@;
            let (_, rest) = split_at_mut_exact(&mut *self.data, dst);
            let ghost rest_now = rest@;
            let slot = rest.first_mut().unwrap();
            clone_from_ref(slot, &data[k]);
            proof {
                let v = *final(slot);
                assert(before.subrange(0, dst as int) + rest_now.update(0, v) =~= before.update(dst as int, v));
            }
            dst = dst.wrapping_add(self.step);
            k = k + 1;
        }
        proof {
            if count < self.len {
                lemma_strided_skip(self.pos as int, self.step as int, self.len as nat, count as nat);
            }
        }
        self.pos = dst;
        self.len = self.len - count;
        proof {
            assert(self.positions() =~= start.skip(count as int));
        }
    }

    /// Copies values from `data` into the elements the iterator has still to visit,
    /// in order, and advances past the elements written.
    ///
    /// Writes `min(data.len(), self.len())` values: it stops when either the source
    /// slice or the iterator is exhausted. No other element of the target changes.
    pub fn copy_from_slice(&mut self, data: &[T])
        where
            T: Copy,
        requires
            old(self).wf(),
        ensures
            final(self).wf(),
            final(self).stride() == old(self).stride(),
            final(final(self).target())@ == final(old(self).target())@,
            final(self).positions() == old(self).positions().skip(
                min(data@.len() as int, old(self).positions().len() as int),
            ),
            final(self).source().len() == old(self).source().len(),
            forall|k: int|
                0 <= k < min(data@.len() as int, old(self).positions().len() as int)
                    ==> final(self).source()[#[trigger] old(self).positions()[k]] == data@[k],
            forall|i: int|
                0 <= i < old(self).source().len() && (forall|k: int|
                    0 <= k < min(data@.len() as int, old(self).positions().len() as int)
                        ==> #[trigger] old(self).positions()[k] != i) ==> final(self).source()[i]
                    == old(self).source()[i],
    {
        let count = if data.len() < self.len { data.len() } else { self.len };
        let ghost start = self.positions();
        let ghost src = self.data@;
        let mut dst = self.pos;
        let mut k: usize = 0;
        proof {
            assert(self.data@.len() == self.data.len());
        }
        while k < count
            invariant
                k <= count,
                count <= self.len,
                count <= data@.len(),
                count == min(data@.len() as int, start.len() as int),
                self.step > 0,
                self.step == old(self).step,
                start == self.positions(),
                positions_within(start, 0, src.len() as int),
                strictly_increasing(start),
                src.len() <= usize::MAX,
                k < self.len ==> dst == start[k as int],
                self.data@.len() == src.len(),
                final(self.data)@ == final(old(self).target())@,
                forall|j: int| 0 <= j < k ==> self.data@[#[trigger] start[j]] == data@[j],
                forall|i: int|
                    0 <= i < src.len() && (forall|j: int| 0 <= j < k ==> #[trigger] start[j] != i)
                        ==> self.data@[i] == src[i],
            decreases count - k,
        {
            proof {
                if k + 1 < self.len {
                    lemma_strided_next(self.pos as int, self.step as int, self.len as nat, k as int);
                }
            }
            self.data[dst] = data[k];
            dst = dst.wrapping_add(self.step);
            k = k + 1;
        }
        proof {
            if count < self.len {
                lemma_strided_skip(self.pos as int, self.step as int, self.len as nat, count as nat);
            }
        }
        self.pos = dst;
        self.len = self.len - count;
        proof {
            assert(self.positions() =~= start.skip(count as int));
        }
    }

    /// The exact number of elements still to be visited, as a lower and an upper bound.
    pub fn size_hint(&self) -> (hint: (usize, Option<usize>))
        ensures
            hint.0 == self.positions().len(),
            hint.1 == Some(hint.0),
    {
        (self.len, Some(self.len))
    }

    /// The number of elements still to be visited.
    pub fn len(&self) -> (n: usize)
        ensures
            n == self.positions().len(),
    {
        self.len
    }
}

} // verus!
