//! # Slice window iterators
//!
//! Iterators that borrow fixed-width windows from a slice. Immutable windows are
//! yielded by [`SliceRefIterator`]. Mutable windows are lent out by
//! [`SliceMutRefIterator`] through [`LendingIterator`], so overlapping windows can be
//! handed out without two overlapping mutable references ever being live at once.

use vstd::prelude::*;
use crate::stride::{effective_step, strided_positions, window_count, splice, windows_at, lemma_windows_at};
use crate::slice_ptr_iterator::{SlicePtrIterator, SliceMutPtrIterator};

verus! {

/// An iterator whose yielded item may borrow from the iterator itself.
///
/// Unlike `Iterator`, the lifetime `'b` of an item is that of the mutable borrow
/// used for the call to `LendingIterator::next`. This makes overlapping mutable
/// windows safe: the current window must stop being used before the iterator can
/// advance to the next one.
pub trait LendingIterator<'b> {
    type Item;

    /// Whether the iterator is in a state in which `next` may be called.
    spec fn valid(&self) -> bool;

    /// Yields the next item, or `None` when there is none.
    fn next(&'b mut self) -> (item: Option<Self::Item>)
        requires
            old(self).valid(),
        ensures
            final(self).valid(),
    ;
}

/// An immutable iterator that yields references to the windows of a slice.
pub struct SliceRefIterator<'a, T> {
    inner: SlicePtrIterator<'a, T>,
}

/// A mutable window iterator over a slice.
///
/// Consecutive windows may overlap when the step is smaller than the window width.
/// Each window returned by [`LendingIterator::next`] borrows the iterator, so the
/// iterator cannot advance while a previously lent window is still in use.
pub struct SliceMutRefIterator<'a, T> {
    inner: SliceMutPtrIterator<'a, T>,
}

impl<'a, T> SliceRefIterator<'a, T> {
    /// The slice the iterator walks.
    pub closed spec fn source(&self) -> Seq<T> {
        self.inner.source()
    }

    /// The number of elements in each window.
    pub closed spec fn window_width(&self) -> nat {
        self.inner.window_width()
    }

    /// The distance between the starts of two consecutive windows.
    pub closed spec fn stride(&self) -> nat {
        self.inner.stride()
    }

    /// The start indices of the windows still to be yielded, in order.
    pub closed spec fn starts(&self) -> Seq<int> {
        self.inner.starts()
    }

    /// The windows still to be yielded, in order.
    pub open spec fn windows(&self) -> Seq<Seq<T>> {
        windows_at(self.source(), self.starts(), self.window_width() as int)
    }

    /// Every window still to be yielded lies inside the source.
    pub closed spec fn wf(&self) -> bool {
        self.inner.wf()
    }

    /// Each window still to come is the `width` elements of the source that begin at
    /// its start index, and lies inside the source.
    pub proof fn lemma_window_contents(iter: Self)
        requires
            iter.wf(),
        ensures
            iter.windows().len() == iter.starts().len(),
            forall|k: int|
                0 <= k < iter.starts().len() ==> 0 <= iter.starts()[k] && iter.starts()[k]
                    + iter.window_width() <= iter.source().len() && #[trigger] iter.windows()[k]
                    == iter.source().subrange(iter.starts()[k], iter.starts()[k] + iter.window_width()),
    {
        SlicePtrIterator::lemma_window_contents(iter.inner);
        lemma_windows_at(iter.source(), iter.starts(), iter.window_width() as int);
        assert forall|k: int| 0 <= k < iter.starts().len() implies 0 <= iter.starts()[k]
            && iter.starts()[k] + iter.window_width() <= iter.source().len() by {
            assert(iter.inner.windows()[k] == iter.inner.windows()[k]);
        }
    }

    /// Creates a window iterator over `slice` with a step of `1`.
    pub fn new(slice: &'a [T], width: usize) -> (iter: Self)
        ensures
            iter.wf(),
            iter.source() == slice@,
            iter.window_width() == width,
            iter.stride() == 1,
            iter.starts() == strided_positions(
                0,
                1,
                window_count(slice@.len() as int, width as int, 1) as nat,
            ),
    {
        Self::new_step(slice, width, 1)
    }

    /// Creates a window iterator over `slice` with a custom step. A `step` of zero
    /// falls back to one; a width of zero yields nothing.
    pub fn new_step(slice: &'a [T], width: usize, step: usize) -> (iter: Self)
        ensures
            iter.wf(),
            iter.source() == slice@,
            iter.window_width() == width,
            iter.stride() == effective_step(step),
            iter.starts() == strided_positions(
                0,
                effective_step(step) as int,
                window_count(slice@.len() as int, width as int, effective_step(step) as int) as nat,
            ),
            step != 0 ==> iter.stride() == step,
            step == 0 ==> iter.stride() == 1,
            forall|k: int|
                0 <= k < iter.starts().len() ==> #[trigger] iter.starts()[k] == k * iter.stride(),
            width > 0 && slice@.len() >= width ==> iter.starts().len() == (slice@.len() - width) / (iter.stride() as int) + 1,
            !(width > 0 && slice@.len() >= width) ==> iter.starts().len() == 0,
    {
        SliceRefIterator { inner: SlicePtrIterator::new_step(slice, width, slice.len(), step) }
    }

    /// Yields the next window, or `None` once all have been yielded.
    /// An exhausted iterator stays exhausted.
    pub fn next(&mut self) -> (window: Option<&'a [T]>)
        requires
            old(self).wf(),
        ensures
            final(self).wf(),
            final(self).source() == old(self).source(),
            final(self).window_width() == old(self).window_width(),
            final(self).stride() == old(self).stride(),
            window is None <==> old(self).starts().len() == 0,
            window is None ==> final(self).starts() == old(self).starts(),
            window matches Some(w) ==> w@ == old(self).windows()[0]
                && w@.len() == old(self).window_width()
                && w@ == old(self).source().subrange(
                old(self).starts()[0],
                old(self).starts()[0] + old(self).window_width(),
            ) && final(self).starts() == old(self).starts().drop_first(),
    {
        self.inner.next()
    }

    /// The exact number of windows still to be yielded, as a lower and an upper bound.
    pub fn size_hint(&self) -> (hint: (usize, Option<usize>))
        ensures
            hint.0 == self.starts().len(),
            hint.1 == Some(hint.0),
    {
        self.inner.size_hint()
    }

    /// Consumes the iterator and returns the number of windows it had still to yield,
    /// without walking them.
    pub fn count(self) -> (n: usize)
        ensures
            n == self.starts().len(),
    {
        self.inner.size_hint().0
    }

    /// The number of windows still to be yielded.
    pub fn len(&self) -> (n: usize)
        ensures
            n == self.starts().len(),
    {
        self.inner.len()
    }
}

impl<'a, T> SliceMutRefIterator<'a, T> {
    /// The current contents of the slice the iterator walks.
    pub closed spec fn source(&self) -> Seq<T> {
        self.inner.source()
    }

    /// The mutable borrow the iterator holds; what it finally refers to is what the
    /// borrowed slice holds once the iterator is gone.
    pub closed spec fn target(&self) -> &'a mut [T] {
        self.inner.target()
    }

    /// The number of elements in each window.
    pub closed spec fn window_width(&self) -> nat {
        self.inner.window_width()
    }

    /// The distance between the starts of two consecutive windows.
    pub closed spec fn stride(&self) -> nat {
        self.inner.stride()
    }

    /// The start indices of the windows still to be lent out, in order.
    pub closed spec fn starts(&self) -> Seq<int> {
        self.inner.starts()
    }

    /// The current contents of the windows still to be lent out, in order.
    pub open spec fn windows(&self) -> Seq<Seq<T>> {
        windows_at(self.source(), self.starts(), self.window_width() as int)
    }

    /// Each window still to come is the `width` elements of the source that begin at
    /// its start index, and lies inside the source.
    pub proof fn lemma_window_contents(iter: Self)
        requires
            iter.valid(),
        ensures
            iter.windows().len() == iter.starts().len(),
            forall|k: int|
                0 <= k < iter.starts().len() ==> 0 <= iter.starts()[k] && iter.starts()[k]
                    + iter.window_width() <= iter.source().len() && #[trigger] iter.windows()[k]
                    == iter.source().subrange(iter.starts()[k], iter.starts()[k] + iter.window_width()),
    {
        SliceMutPtrIterator::lemma_window_contents(iter.inner);
        lemma_windows_at(iter.source(), iter.starts(), iter.window_width() as int);
        assert forall|k: int| 0 <= k < iter.starts().len() implies 0 <= iter.starts()[k]
            && iter.starts()[k] + iter.window_width() <= iter.source().len() by {
            assert(iter.inner.windows()[k] == iter.inner.windows()[k]);
        }
    }

    /// Once the iterator is no longer used, the borrowed slice holds what the
    /// iterator's source holds at that point.
    pub proof fn lemma_release(iter: Self)
        ensures
            has_resolved(iter) ==> final(iter.target())@ == iter.source(),
    {
        SliceMutPtrIterator::lemma_release(iter.inner);
    }

    /// Creates a mutable window iterator over `slice` with a step of `1`.
    pub fn new(slice: &'a mut [T], width: usize) -> (iter: Self)
        ensures
            iter.valid(),
            iter.source() == old(slice)@,
            iter.window_width() == width,
            iter.stride() == 1,
            iter.starts() == strided_positions(
                0,
                1,
                window_count(old(slice)@.len() as int, width as int, 1) as nat,
            ),
            final(slice)@ == final(iter.target())@,
    {
        Self::new_step(slice, width, 1)
    }

    /// Creates a mutable window iterator over `slice` with a custom step. A `step` of
    /// zero falls back to one; a width of zero yields nothing.
    pub fn new_step(slice: &'a mut [T], width: usize, step: usize) -> (iter: Self)
        ensures
            iter.valid(),
            iter.source() == old(slice)@,
            iter.window_width() == width,
            iter.stride() == effective_step(step),
            iter.starts() == strided_positions(
                0,
                effective_step(step) as int,
                window_count(old(slice)@.len() as int, width as int, effective_step(step) as int) as nat,
            ),
            step != 0 ==> iter.stride() == step,
            step == 0 ==> iter.stride() == 1,
            forall|k: int|
                0 <= k < iter.starts().len() ==> #[trigger] iter.starts()[k] == k * iter.stride(),
            width > 0 && old(slice)@.len() >= width ==> iter.starts().len() == (old(slice)@.len() - width) / (iter.stride() as int) + 1,
            !(width > 0 && old(slice)@.len() >= width) ==> iter.starts().len() == 0,
            final(slice)@ == final(iter.target())@,
    {
        let len = slice.len();
        SliceMutRefIterator { inner: SliceMutPtrIterator::new_step(slice, width, len, step) }
    }
}

impl<'b, 'a, T: 'b> LendingIterator<'b> for SliceMutRefIterator<'a, T> {
    type Item = &'b mut [T];

    /// Every window still to be lent out lies inside the source.
    closed spec fn valid(&self) -> bool {
        self.inner.wf()
    }

    /// Lends out the next window, or returns `None` once all have been lent out.
    /// Whatever is written through the window lands in the source at the window's
    /// place. An exhausted iterator stays exhausted.
    fn next(&'b mut self) -> (window: Option<&'b mut [T]>)
        ensures
            final(self).window_width() == old(self).window_width(),
            final(self).stride() == old(self).stride(),
            final(final(self).target())@ == final(old(self).target())@,
            window is None <==> old(self).starts().len() == 0,
            window is None ==> final(self).starts() == old(self).starts()
                && final(self).source() == old(self).source(),
            window matches Some(w) ==> w@ == old(self).windows()[0]
                && w@.len() == old(self).window_width()
                && final(w)@.len() == old(self).window_width()
                && final(self).source() == splice(old(self).source(), old(self).starts()[0], final(w)@)
                && w@ == old(self).source().subrange(
                old(self).starts()[0],
                old(self).starts()[0] + old(self).window_width(),
            ) && final(self).source().len() == old(self).source().len()
                && final(self).source().subrange(
                old(self).starts()[0],
                old(self).starts()[0] + old(self).window_width(),
            ) == final(w)@ && (forall|i: int|
                0 <= i < old(self).source().len() && !(old(self).starts()[0] <= i
                    < old(self).starts()[0] + old(self).window_width()) ==> #[trigger] final(self).source()[i] == old(self).source()[i])
                && final(self).starts() == old(self).starts().drop_first(),
    {
        self.inner.next()
    }
}

} // verus!
