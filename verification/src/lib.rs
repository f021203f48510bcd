//! Strided element traversal and fixed-width windows over contiguous memory.
//!
//! Every iterator in this crate walks a borrowed slice by index arithmetic:
//! a stride iterator visits `start, start + step, start + 2 * step, ...`, and a
//! window iterator yields the sub-slices of `width` elements that begin at those
//! positions. The contracts describe each iterator by the source it walks and
//! the sequence of positions it still has to visit.

pub mod stride;
pub mod niterator;
pub mod slice_ptr_iterator;
pub mod slice_ref_iterator;
mod slice_access;
