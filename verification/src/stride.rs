//! Index arithmetic shared by the stride and window iterators.

use vstd::prelude::*;
use vstd::arithmetic::div_mod::{lemma_fundamental_div_mod, lemma_mod_pos_bound};

verus! {

/// The step actually used for a requested `step`: a step of zero falls back to one,
/// so that an iterator never stands still on the same element.
pub open spec fn effective_step(step: usize) -> nat {
    if step == 0 {
        1
    } else {
        step as nat
    }
}

/// The `count` positions `start, start + step, ..., start + (count - 1) * step`.
pub open spec fn strided_positions(start: int, step: int, count: nat) -> Seq<int> {
    Seq::new(count, |k: int| start + k * step)
}

/// Number of windows of `width` elements, placed `step` apart from index zero,
/// that fit in the first `len` elements. A window of width zero yields nothing.
pub open spec fn window_count(len: int, width: int, step: int) -> int {
    if len >= width && width > 0 {
        (len - width) / step + 1
    } else {
        0
    }
}

/// The windows of `width` elements of `src` that begin at the given start indices.
pub open spec fn windows_at<T>(src: Seq<T>, starts: Seq<int>, width: int) -> Seq<Seq<T>> {
    starts.map_values(|s: int| src.subrange(s, s + width))
}

/// `src` with the elements from index `at` on replaced by `part`, as many as `part` holds.
pub open spec fn splice<T>(src: Seq<T>, at: int, part: Seq<T>) -> Seq<T> {
    src.subrange(0, at) + part + src.subrange(at + part.len(), src.len() as int)
}

/// Every position listed lies in `[lo, hi)`.
pub open spec fn positions_within(positions: Seq<int>, lo: int, hi: int) -> bool {
    forall|k: int| 0 <= k < positions.len() ==> lo <= #[trigger] positions[k] < hi
}

/// The positions are listed in strictly increasing order (so no position repeats).
pub open spec fn strictly_increasing(positions: Seq<int>) -> bool {
    forall|j: int, k: int|
        0 <= j < k < positions.len() ==> #[trigger] positions[j] < #[trigger] positions[k]
}

/// A nonzero step is used as given; only a step of zero is replaced, by one.
pub proof fn lemma_effective_step(step: usize)
    ensures
        step != 0 ==> effective_step(step) == step,
        step == 0 ==> effective_step(step) == 1,
        effective_step(step) >= 1,
{
}

/// The `k`-th of the strided positions is `start + k * step`, and there are `count` of them.
pub proof fn lemma_strided_positions(start: int, step: int, count: nat)
    ensures
        strided_positions(start, step, count).len() == count,
        forall|k: int|
            0 <= k < count ==> #[trigger] strided_positions(start, step, count)[k] == start + k
                * step,
{
}

/// The `k`-th window is the `width` elements of `src` that begin at the `k`-th start,
/// whatever the other starts are.
pub proof fn lemma_windows_at<T>(src: Seq<T>, starts: Seq<int>, width: int)
    ensures
        windows_at(src, starts, width).len() == starts.len(),
        forall|k: int|
            0 <= k < starts.len() ==> #[trigger] windows_at(src, starts, width)[k]
                == src.subrange(starts[k], starts[k] + width),
{
}

/// Splicing `part` in at `at` keeps the length, puts `part` at `at .. at + part.len()`,
/// and leaves every other element as it was.
pub proof fn lemma_splice<T>(src: Seq<T>, at: int, part: Seq<T>)
    requires
        0 <= at,
        at + part.len() <= src.len(),
    ensures
        splice(src, at, part).len() == src.len(),
        splice(src, at, part).subrange(at, at + part.len()) == part,
        forall|i: int|
            0 <= i < src.len() && !(at <= i < at + part.len()) ==> #[trigger] splice(
                src,
                at,
                part,
            )[i] == src[i],
{
    let r = splice(src, at, part);
    assert(r.subrange(at, at + part.len()) =~= part);
}

/// Advancing the start by one step drops the first position.
pub proof fn lemma_strided_advance(start: int, step: int, count: nat)
    requires
        count > 0,
    ensures
        strided_positions(start + step, step, (count - 1) as nat) == strided_positions(
            start,
            step,
            count,
        ).drop_first(),
{
    let a = strided_positions(start + step, step, (count - 1) as nat);
    let b = strided_positions(start, step, count).drop_first();
    assert forall|k: int| 0 <= k < a.len() implies a[k] == b[k] by {
        assert((start + step) + k * step == start + (k + 1) * step) by (nonlinear_arith);
    }
    assert(a =~= b);
}

/// Advancing the start by `n` steps drops the first `n` positions.
pub proof fn lemma_strided_skip(start: int, step: int, count: nat, n: nat)
    requires
        n <= count,
    ensures
        strided_positions(start + n * step, step, (count - n) as nat) == strided_positions(
            start,
            step,
            count,
        ).skip(n as int),
{
    let a = strided_positions(start + n * step, step, (count - n) as nat);
    let b = strided_positions(start, step, count).skip(n as int);
    assert forall|k: int| 0 <= k < a.len() implies a[k] == b[k] by {
        assert((start + n * step) + k * step == start + (k + n) * step) by (nonlinear_arith);
    }
    assert(a =~= b);
}

/// Consecutive positions are exactly one step apart.
pub proof fn lemma_strided_next(start: int, step: int, count: nat, k: int)
    requires
        0 <= k,
        k + 1 < count,
    ensures
        strided_positions(start, step, count)[k + 1] == strided_positions(start, step, count)[k]
            + step,
{
    assert(start + (k + 1) * step == start + k * step + step) by (nonlinear_arith);
}

/// With a positive step the positions strictly increase.
pub proof fn lemma_strided_increasing(start: int, step: int, count: nat)
    requires
        step > 0,
    ensures
        strictly_increasing(strided_positions(start, step, count)),
{
    let p = strided_positions(start, step, count);
    assert forall|j: int, k: int| 0 <= j < k < p.len() implies #[trigger] p[j] < #[trigger] p[k] by {
        assert(j * step < k * step) by (nonlinear_arith)
            requires
                j < k,
                step > 0,
        ;
    }
}

/// If the last of `count` positions starting at `start` leaves room for `width`
/// elements below `hi`, then so does every one of them.
pub proof fn lemma_strided_fit(start: int, step: int, count: nat, width: int, hi: int)
    requires
        0 <= start,
        0 <= step,
        count > 0,
        start + (count - 1) * step + width <= hi,
    ensures
        positions_within(strided_positions(start, step, count), start, hi - width + 1),
{
    let p = strided_positions(start, step, count);
    assert forall|k: int| 0 <= k < p.len() implies start <= #[trigger] p[k] < hi - width + 1 by {
        assert(0 <= k * step <= (count - 1) * step) by (nonlinear_arith)
            requires
                0 <= k <= count - 1,
                0 <= step,
        ;
    }
}

/// The window count is exact: the `k`-th window (starting at `k * step`) fits in
/// the first `len` elements if and only if `k` is below the count.
pub proof fn lemma_window_count_exact(len: nat, width: nat, step: nat, k: nat)
    requires
        step > 0,
    ensures
        k < window_count(len as int, width as int, step as int) <==> (width > 0 && k * step
            + width <= len),
{
    if len >= width && width > 0 {
        let d = (len - width) as int;
        let q = d / (step as int);
        lemma_fundamental_div_mod(d, step as int);
        lemma_mod_pos_bound(d, step as int);
        let r = d % (step as int);
        if k <= q {
            assert(k * step <= q * step) by (nonlinear_arith)
                requires
                    k <= q,
                    step > 0,
            ;
            assert(q * step == step * q) by (nonlinear_arith);
        } else {
            assert(k * step >= (q + 1) * step) by (nonlinear_arith)
                requires
                    k >= q + 1,
                    step > 0,
            ;
            assert((q + 1) * step == step * q + step) by (nonlinear_arith);
        }
    }
}

/// Every counted window lies inside the first `len` elements.
pub proof fn lemma_windows_fit(len: nat, width: nat, step: nat)
    requires
        step > 0,
    ensures
        positions_within(
            strided_positions(0, step as int, window_count(len as int, width as int, step as int) as nat),
            0,
            len - width + 1,
        ),
        window_count(len as int, width as int, step as int) >= 0,
        window_count(len as int, width as int, step as int) <= len,
{
    let c = window_count(len as int, width as int, step as int);
    if len >= width && width > 0 {
        let d = (len - width) as int;
        lemma_fundamental_div_mod(d, step as int);
        lemma_mod_pos_bound(d, step as int);
        assert(d / (step as int) <= d) by (nonlinear_arith)
            requires
                d == step * (d / (step as int)) + d % (step as int),
                0 <= d % (step as int),
                step > 0,
                d >= 0,
        ;
        assert(0 <= d / (step as int)) by (nonlinear_arith)
            requires
                d == step * (d / (step as int)) + d % (step as int),
                0 <= d % (step as int) < step,
                step > 0,
                d >= 0,
        ;
        lemma_window_count_exact(len, width, step, (c - 1) as nat);
        lemma_strided_fit(0, step as int, c as nat, width as int, len as int);
    }
}

/// Consecutive windows overlap when the step is smaller than the width: the last
/// `width - step` elements of the `k`-th window are the first `width - step`
/// elements of the next one.
pub proof fn lemma_windows_overlap<T>(
    src: Seq<T>,
    start: int,
    step: int,
    count: nat,
    width: int,
    k: int,
)
    requires
        0 < step < width,
        0 <= k,
        k + 1 < count,
        positions_within(strided_positions(start, step, count), 0, src.len() - width + 1),
    ensures
        windows_at(src, strided_positions(start, step, count), width)[k].subrange(step, width)
            == windows_at(src, strided_positions(start, step, count), width)[k + 1].subrange(
            0,
            width - step,
        ),
{
    let p = strided_positions(start, step, count);
    lemma_strided_next(start, step, count, k);
    assert(0 <= p[k] && p[k + 1] + width <= src.len());
    let a = windows_at(src, p, width)[k].subrange(step, width);
    let b = windows_at(src, p, width)[k + 1].subrange(0, width - step);
    assert(a =~= b);
}

} // verus!
