//! # Window iterators
//!
//! [`SlicePtrIterator`] and [`SliceMutPtrIterator`] yield fixed-width windows of a
//! slice: the `k`-th window holds the `width` elements that start at index
//! `k * step`. With a step smaller than the width, consecutive windows overlap.
//! A step of zero falls back to one, and a width of zero yields no window.
//!
//! An iterator is described by the slice it walks ([`SlicePtrIterator::source`]),
//! the window width, and the start indices of the windows it still has to yield
//! ([`SlicePtrIterator::starts`]).

use vstd::prelude::*;
use crate::stride::{
    effective_step,
    strided_positions,
    window_count,
    positions_within,
    splice,
    windows_at,
    lemma_strided_advance,
    lemma_strided_next,
    lemma_windows_fit,
    lemma_windows_at,
};
use crate::slice_access::split_at_mut_exact;

verus! {

broadcast use vstd::slice::group_slice_axioms;

/// An immutable iterator that yields windows of a specified width over a slice.
///
/// The yielded windows are shared sub-slices that live as long as the borrowed slice.
#[derive(Clone, Copy)]
pub struct SlicePtrIterator<'a, T> {
    data: &'a [T],
    pos: usize,
    width: usize,
    step: usize,
    windows_left: usize,
}

/// A mutable iterator that lends out windows of a specified width over a slice.
///
/// Each window borrows the iterator, so two windows are never live at once, even
/// when consecutive windows overlap.
pub struct SliceMutPtrIterator<'a, T> {
    data: &'a mut [T],
    pos: usize,
    width: usize,
    step: usize,
    windows_left: usize,
}

impl<'a, T> SlicePtrIterator<'a, T> {
    /// The slice the iterator walks.
    pub closed spec fn source(&self) -> Seq<T> {
        self.data@
    }

    /// The number of elements in each window.
    pub closed spec fn window_width(&self) -> nat {
        self.width as nat
    }

    /// The distance between the starts of two consecutive windows.
    pub closed spec fn stride(&self) -> nat {
        self.step as nat
    }

    /// The start indices of the windows still to be yielded, in order.
    pub closed spec fn starts(&self) -> Seq<int> {
        strided_positions(self.pos as int, self.step as int, self.windows_left as nat)
    }

    /// The windows still to be yielded, in order.
    pub open spec fn windows(&self) -> Seq<Seq<T>> {
        windows_at(self.source(), self.starts(), self.window_width() as int)
    }

    /// Every window still to be yielded lies inside the source, and the step is positive.
    pub closed spec fn wf(&self) -> bool {
        &&& self.step > 0
        &&& positions_within(self.starts(), 0, self.data@.len() - self.width + 1)
    }

    /// Each window still to come is the `width` elements of the source that begin at
    /// its start index, and lies inside the source.
    pub proof fn lemma_window_contents(iter: Self)
        requires
            iter.wf(),
        ensures
            iter.windows().len() == iter.starts().len(),
            forall|k: int|
                0 <= k < iter.starts().len() ==> 0 <= iter.starts()[k] && iter.starts()[k]
                    + iter.window_width() <= iter.source().len() && #[trigger] iter.windows()[k]
                    == iter.source().subrange(iter.starts()[k], iter.starts()[k] + iter.window_width()),
    {
        lemma_windows_at(iter.source(), iter.starts(), iter.window_width() as int);
    }

    /// Creates a window iterator over the first `len` elements of `data` with a step of `1`.
    pub fn new(data: &'a [T], width: usize, len: usize) -> (iter: Self)
        requires
            len <= data@.len(),
        ensures
            iter.wf(),
            iter.source() == data@,
            iter.window_width() == width,
            iter.stride() == 1,
            iter.starts() == strided_positions(0, 1, window_count(len as int, width as int, 1) as nat),
    {
        Self::new_step(data, width, len, 1)
    }

    /// Creates a window iterator over the first `len` elements of `data` with a custom
    /// step. A `step` of zero falls back to one.
    ///
    /// It yields one window for every `k` with `k * step + width <= len`, starting
    /// at index `k * step`; a width of zero yields nothing.
    pub fn new_step(data: &'a [T], width: usize, len: usize, step: usize) -> (iter: Self)
        requires
            len <= data@.len(),
        ensures
            iter.wf(),
            iter.source() == data@,
            iter.window_width() == width,
            iter.stride() == effective_step(step),
            iter.starts() == strided_positions(
                0,
                effective_step(step) as int,
                window_count(len as int, width as int, effective_step(step) as int) as nat,
            ),
            step != 0 ==> iter.stride() == step,
            step == 0 ==> iter.stride() == 1,
            forall|k: int|
                0 <= k < iter.starts().len() ==> #[trigger] iter.starts()[k] == k * iter.stride(),
            width > 0 && len >= width ==> iter.starts().len() == (len - width) / (iter.stride() as int) + 1,
            !(width > 0 && len >= width) ==> iter.starts().len() == 0,
    {
        let actual_step = if step == 0 { 1 } else { step };
        let windows_left = if len >= width && width > 0 {
            (len - width) / actual_step + 1
        } else {
            0
        };
        proof {
            lemma_windows_fit(len as nat, width as nat, actual_step as nat);
        }
        SlicePtrIterator { data, pos: 0, width, step: actual_step, windows_left }
    }

    /// Yields the next window, or `None` once all have been yielded.
    /// An exhausted iterator stays exhausted.
    pub fn next(&mut self) -> (window: Option<&'a [T]>)
        requires
            old(self).wf(),
        ensures
            final(self).wf(),
            final(self).source() == old(self).source(),
            final(self).window_width() == old(self).window_width(),
            final(self).stride() == old(self).stride(),
            window is None <==> old(self).starts().len() == 0,
            window is None ==> final(self).starts() == old(self).starts(),
            window matches Some(w) ==> w@ == old(self).windows()[0]
                && w@.len() == old(self).window_width()
                && w@ == old(self).source().subrange(
                old(self).starts()[0],
                old(self).starts()[0] + old(self).window_width(),
            ) && final(self).starts() == old(self).starts().drop_first(),
    {
        if self.windows_left == 0 {
            return None;
        }
        let start = self.pos;
        proof {
            assert(self.data@.len() == self.data.len());
            lemma_strided_advance(self.pos as int, self.step as int, self.windows_left as nat);
            if self.windows_left > 1 {
                lemma_strided_next(self.pos as int, self.step as int, self.windows_left as nat, 0);
            }
            assert(self.starts()[0] == start);
        }
        self.pos = self.pos.wrapping_add(self.step);
        self.windows_left = self.windows_left - 1;
        proof {
            assert(self.starts() =~= old(self).starts().drop_first());
        }
        Some(&self.data[start..start + self.width])
    }

    /// The exact number of windows still to be yielded, as a lower and an upper bound.
    pub fn size_hint(&self) -> (hint: (usize, Option<usize>))
        ensures
            hint.0 == self.starts().len(),
            hint.1 == Some(hint.0),
    {
        (self.windows_left, Some(self.windows_left))
    }

    /// The number of windows still to be yielded.
    pub fn len(&self) -> (n: usize)
        ensures
            n == self.starts().len(),
    {
        self.windows_left
    }
}

impl<'a, T> SliceMutPtrIterator<'a, T> {
    /// The current contents of the slice the iterator walks.
    pub closed spec fn source(&self) -> Seq<T> {
        self.data@
    }

    /// The mutable borrow the iterator holds; what it finally refers to is what the
    /// borrowed slice holds once the iterator is gone.
    pub closed spec fn target(&self) -> &'a mut [T] {
        self.data
    }

    /// The number of elements in each window.
    pub closed spec fn window_width(&self) -> nat {
        self.width as nat
    }

    /// The distance between the starts of two consecutive windows.
    pub closed spec fn stride(&self) -> nat {
        self.step as nat
    }

    /// The start indices of the windows still to be lent out, in order.
    pub closed spec fn starts(&self) -> Seq<int> {
        strided_positions(self.pos as int, self.step as int, self.windows_left as nat)
    }

    /// The current contents of the windows still to be lent out, in order.
    pub open spec fn windows(&self) -> Seq<Seq<T>> {
        windows_at(self.source(), self.starts(), self.window_width() as int)
    }

    /// Every window still to be lent out lies inside the source, and the step is positive.
    pub closed spec fn wf(&self) -> bool {
        &&& self.step > 0
        &&& positions_within(self.starts(), 0, self.data@.len() - self.width + 1)
    }

    /// Each window still to come is the `width` elements of the source that begin at
    /// its start index, and lies inside the source.
    pub proof fn lemma_window_contents(iter: Self)
        requires
            iter.wf(),
        ensures
            iter.windows().len() == iter.starts().len(),
            forall|k: int|
                0 <= k < iter.starts().len() ==> 0 <= iter.starts()[k] && iter.starts()[k]
                    + iter.window_width() <= iter.source().len() && #[trigger] iter.windows()[k]
                    == iter.source().subrange(iter.starts()[k], iter.starts()[k] + iter.window_width()),
    {
        lemma_windows_at(iter.source(), iter.starts(), iter.window_width() as int);
    }

    /// Once the iterator is no longer used, the borrowed slice holds what the
    /// iterator's source holds at that point.
    pub proof fn lemma_release(iter: Self)
        ensures
            has_resolved(iter) ==> final(iter.target())@ == iter.source(),
    {
    }

    /// Creates a mutable window iterator over the first `len` elements of `data`
    /// with a step of `1`.
    pub fn new(data: &'a mut [T], width: usize, len: usize) -> (iter: Self)
        requires
            len <= old(data)@.len(),
        ensures
            iter.wf(),
            iter.source() == old(data)@,
            iter.window_width() == width,
            iter.stride() == 1,
            iter.starts() == strided_positions(0, 1, window_count(len as int, width as int, 1) as nat),
            final(data)@ == final(iter.target())@,
    {
        Self::new_step(data, width, len, 1)
    }

    /// Creates a mutable window iterator over the first `len` elements of `data` with
    /// a custom step. A `step` of zero falls back to one.
    ///
    /// It lends out one window for every `k` with `k * step + width <= len`, starting
    /// at index `k * step`; a width of zero yields nothing. If `step < width`,
    /// consecutive windows overlap.
    pub fn new_step(data: &'a mut [T], width: usize, len: usize, step: usize) -> (iter: Self)
        requires
            len <= old(data)@.len(),
        ensures
            iter.wf(),
            iter.source() == old(data)@,
            iter.window_width() == width,
            iter.stride() == effective_step(step),
            iter.starts() == strided_positions(
                0,
                effective_step(step) as int,
                window_count(len as int, width as int, effective_step(step) as int) as nat,
            ),
            step != 0 ==> iter.stride() == step,
            step == 0 ==> iter.stride() == 1,
            forall|k: int|
                0 <= k < iter.starts().len() ==> #[trigger] iter.starts()[k] == k * iter.stride(),
            width > 0 && len >= width ==> iter.starts().len() == (len - width) / (iter.stride() as int) + 1,
            !(width > 0 && len >= width) ==> iter.starts().len() == 0,
            final(data)@ == final(iter.target())@,
    {
        let actual_step = if step == 0 { 1 } else { step };
        let windows_left = if len >= width && width > 0 {
            (len - width) / actual_step + 1
        } else {
            0
        };
        proof {
            lemma_windows_fit(len as nat, width as nat, actual_step as nat);
        }
        SliceMutPtrIterator { data, pos: 0, width, step: actual_step, windows_left }
    }

    /// Lends out the next window, or returns `None` once all have been lent out.
    /// Whatever is written through the window lands in the source at the window's
    /// place. An exhausted iterator stays exhausted.
    pub fn next(&mut self) -> (window: Option<&mut [T]>)
        requires
            old(self).wf(),
        ensures
            final(self).wf(),
            final(self).window_width() == old(self).window_width(),
            final(self).stride() == old(self).stride(),
            final(final(self).target())@ == final(old(self).target())@,
            window is None <==> old(self).starts().len() == 0,
            window is None ==> final(self).starts() == old(self).starts()
                && final(self).source() == old(self).source(),
            window matches Some(w) ==> w@ == old(self).windows()[0]
                && w@.len() == old(self).window_width()
                && final(w)@.len() == old(self).window_width()
                && final(self).source() == splice(old(self).source(), old(self).starts()[0], final(w)@)
                && w@ == old(self).source().subrange(
                old(self).starts()[0],
                old(self).starts()[0] + old(self).window_width(),
            ) && final(self).source().len() == old(self).source().len()
                && final(self).source().subrange(
                old(self).starts()[0],
                old(self).starts()[0] + old(self).window_width(),
            ) == final(w)@ && (forall|i: int|
                0 <= i < old(self).source().len() && !(old(self).starts()[0] <= i
                    < old(self).starts()[0] + old(self).window_width()) ==> #[trigger] final(self).source()[i] == old(self).source()[i])
                && final(self).starts() == old(self).starts().drop_first(),
    {
        if self.windows_left == 0 {
            return None;
        }
        let start = self.pos;
        let width = self.width;
        proof {
            assert(self.data@.len() == self.data.len());
            lemma_strided_advance(self.pos as int, self.step as int, self.windows_left as nat);
            if self.windows_left > 1 {
                lemma_strided_next(self.pos as int, self.step as int, self.windows_left as nat, 0);
            }
            assert(self.starts()[0] == start);
        }
        self.pos = self.pos.wrapping_add(self.step);
        self.windows_left = self.windows_left - 1;
        proof {
            assert(self.starts() =~= old(self).starts().drop_first());
        }
        let ghost src = self.data@;
        let (_, rest) = split_at_mut_exact(&mut *self.data, start);
        let ghost rest_now = rest@;
        let (window, _) = split_at_mut_exact(rest, width);
        proof {
            let part = final(window)@;
            assert(src.subrange(0, start as int) + (part + rest_now.subrange(
                width as int,
                rest_now.len() as int,
            )) =~= splice(src, start as int, part));
        }
        Some(window)
    }

    /// The exact number of windows still to be lent out, as a lower and an upper bound.
    pub fn size_hint(&self) -> (hint: (usize, Option<usize>))
        ensures
            hint.0 == self.starts().len(),
            hint.1 == Some(hint.0),
    {
        (self.windows_left, Some(self.windows_left))
    }

    /// The number of windows still to be lent out.
    pub fn len(&self) -> (n: usize)
        ensures
            n == self.starts().len(),
    {
        self.windows_left
    }
}

} // verus!
