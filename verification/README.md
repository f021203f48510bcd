# lineariterator

Strided element traversal and fixed-width sliding windows over slices, verified
with Verus.

- `src/stride.rs`: the index arithmetic (strided positions, window counts) and the
  laws proved about it.
- `src/niterator.rs`: `NIterator` / `NMutIterator`, visiting every `step`-th element;
  `NMutIterator` also clones or copies a run of values into the visited elements.
- `src/slice_ptr_iterator.rs`: `SlicePtrIterator` / `SliceMutPtrIterator`, windows of
  `width` elements whose starts are `step` apart.
- `src/slice_ref_iterator.rs`: `SliceRefIterator`, and `SliceMutRefIterator`, which
  lends out mutable, possibly overlapping windows through `LendingIterator`.
- `src/slice_access.rs`: the two calls into std whose contracts are trusted.

Iterators are driven by their inherent `next` methods (and `LendingIterator::next`
for mutable windows); `size_hint`, `len` and `count` report exact counts.
