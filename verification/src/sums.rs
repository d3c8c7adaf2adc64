//! Finite sums of integer-valued spec functions, and the facts about them
//! that the scoring proofs use.

use vstd::prelude::*;

verus! {

/// `f(lo) + f(lo + 1) + ... + f(hi - 1)`, and 0 when `hi <= lo`.
pub open spec fn sum_range(f: spec_fn(int) -> int, lo: int, hi: int) -> int
    decreases hi - lo,
{
    if hi <= lo {
        0
    } else {
        sum_range(f, lo, hi - 1) + f(hi - 1)
    }
}

/// The length of `[lo, hi)`, 0 when it is empty.
pub open spec fn span(lo: int, hi: int) -> nat {
    if hi > lo {
        (hi - lo) as nat
    } else {
        0
    }
}

/// `f(lo) + f(lo + step) + f(lo + 2 * step) + ...` over the points below `hi`.
pub open spec fn sum_stepped(f: spec_fn(int) -> int, lo: int, hi: int, step: int) -> int
    decreases span(lo, hi),
{
    if hi <= lo || step <= 0 {
        0
    } else {
        f(lo) + sum_stepped(f, lo + step, hi, step)
    }
}

/// The number of points `lo, lo + step, ...` below `hi`.
pub open spec fn count_stepped(lo: int, hi: int, step: int) -> int
    decreases span(lo, hi),
{
    if hi <= lo || step <= 0 {
        0
    } else {
        1 + count_stepped(lo + step, hi, step)
    }
}

/// Splitting a range at `mid`.
pub proof fn lemma_sum_split(f: spec_fn(int) -> int, lo: int, mid: int, hi: int)
    requires
        lo <= mid <= hi,
    ensures
        sum_range(f, lo, hi) == sum_range(f, lo, mid) + sum_range(f, mid, hi),
    decreases hi - mid,
{
    if hi > mid {
        lemma_sum_split(f, lo, mid, hi - 1);
    }
}

/// The first term of a nonempty range.
pub proof fn lemma_sum_first(f: spec_fn(int) -> int, lo: int, hi: int)
    requires
        lo < hi,
    ensures
        sum_range(f, lo, hi) == f(lo) + sum_range(f, lo + 1, hi),
{
    lemma_sum_split(f, lo, lo + 1, hi);
    assert(sum_range(f, lo, lo) == 0);
    assert(sum_range(f, lo, lo + 1) == f(lo));
}

/// Sums agree where the functions agree.
pub proof fn lemma_sum_ext(f: spec_fn(int) -> int, g: spec_fn(int) -> int, lo: int, hi: int)
    requires
        forall|i: int| lo <= i < hi ==> #[trigger] f(i) == g(i),
    ensures
        sum_range(f, lo, hi) == sum_range(g, lo, hi),
    decreases hi - lo,
{
    if hi > lo {
        lemma_sum_ext(f, g, lo, hi - 1);
    }
}

/// A sum of zeros is zero.
pub proof fn lemma_sum_zero(f: spec_fn(int) -> int, lo: int, hi: int)
    requires
        forall|i: int| lo <= i < hi ==> #[trigger] f(i) == 0,
    ensures
        sum_range(f, lo, hi) == 0,
    decreases hi - lo,
{
    if hi > lo {
        lemma_sum_zero(f, lo, hi - 1);
    }
}

/// The difference of two sums is the sum of the differences.
pub proof fn lemma_sum_sub(f: spec_fn(int) -> int, g: spec_fn(int) -> int, lo: int, hi: int)
    ensures
        sum_range(f, lo, hi) - sum_range(g, lo, hi) == sum_range(|i: int| f(i) - g(i), lo, hi),
    decreases hi - lo,
{
    if hi > lo {
        lemma_sum_sub(f, g, lo, hi - 1);
    }
}

/// Shifting the index of a sum.
pub proof fn lemma_sum_shift(f: spec_fn(int) -> int, a: int, n: int)
    ensures
        sum_range(f, a, a + n) == sum_range(|x: int| f(a + x), 0, n),
    decreases n,
{
    if n > 0 {
        lemma_sum_shift(f, a, n - 1);
    }
}

/// A function that vanishes outside `[lo, hi)` sums over the wider
/// `[lo2, hi2)` to what it sums over `[lo, hi)`.
pub proof fn lemma_sum_support(f: spec_fn(int) -> int, lo2: int, lo: int, hi: int, hi2: int)
    requires
        lo2 <= lo,
        hi <= hi2,
        forall|i: int| lo2 <= i < hi2 && !(lo <= i < hi) ==> #[trigger] f(i) == 0,
    ensures
        sum_range(f, lo2, hi2) == sum_range(f, lo, hi),
{
    if lo < hi {
        lemma_sum_split(f, lo2, lo, hi2);
        lemma_sum_split(f, lo, hi, hi2);
        lemma_sum_zero(f, lo2, lo);
        lemma_sum_zero(f, hi, hi2);
    } else {
        lemma_sum_zero(f, lo2, hi2);
    }
}

/// Row-major sums: summing `g` over `[a * w, b * w)` is summing, for each row
/// `y` in `[a, b)`, the `w` values `g(y * w + x)`.
pub proof fn lemma_sum_rows(g: spec_fn(int) -> int, w: int, a: int, b: int)
    requires
        0 <= w,
        a <= b,
    ensures
        sum_range(g, a * w, b * w) == sum_range(
            |y: int| sum_range(|x: int| g(y * w + x), 0, w),
            a,
            b,
        ),
    decreases b - a,
{
    let row = |y: int| sum_range(|x: int| g(y * w + x), 0, w);
    if a < b {
        assert((a + 1) * w == a * w + w) by (nonlinear_arith);
        assert(a * w <= (a + 1) * w <= b * w) by (nonlinear_arith)
            requires
                0 <= w,
                a < b,
        ;
        lemma_sum_rows(g, w, a + 1, b);
        lemma_sum_split(g, a * w, (a + 1) * w, b * w);
        lemma_sum_shift(g, a * w, w);
        lemma_sum_ext(|x: int| g(a * w + x), |x: int| g(a * w + x), 0, w);
        lemma_sum_first(row, a, b);
    }
}

/// With step 1 a stepped sum is a plain sum.
pub proof fn lemma_stepped_one(f: spec_fn(int) -> int, lo: int, hi: int)
    ensures
        sum_stepped(f, lo, hi, 1) == sum_range(f, lo, hi),
    decreases hi - lo,
{
    if lo < hi {
        lemma_stepped_one(f, lo + 1, hi);
        lemma_sum_first(f, lo, hi);
    }
}

/// The number of stepped points lies between 0 and the length of the range.
pub proof fn lemma_count_le_span(lo: int, hi: int, step: int)
    requires
        step >= 1,
    ensures
        0 <= count_stepped(lo, hi, step) <= span(lo, hi),
    decreases span(lo, hi),
{
    if lo < hi {
        lemma_count_le_span(lo + step, hi, step);
    }
}

/// A stepped sum of zeros is zero.
pub proof fn lemma_stepped_zero(f: spec_fn(int) -> int, lo: int, hi: int, step: int)
    requires
        step >= 1,
        forall|i: int| lo <= i < hi ==> #[trigger] f(i) == 0,
    ensures
        sum_stepped(f, lo, hi, step) == 0,
    decreases span(lo, hi),
{
    if lo < hi {
        lemma_stepped_zero(f, lo + step, hi, step);
    }
}

/// A sum of nonnegative terms is nonnegative.
pub proof fn lemma_sum_nonneg(f: spec_fn(int) -> int, lo: int, hi: int)
    requires
        forall|i: int| lo <= i < hi ==> #[trigger] f(i) >= 0,
    ensures
        sum_range(f, lo, hi) >= 0,
    decreases hi - lo,
{
    if hi > lo {
        lemma_sum_nonneg(f, lo, hi - 1);
    }
}

/// A sum of `n` copies of `v`.
pub proof fn lemma_sum_const(f: spec_fn(int) -> int, v: int, n: int)
    requires
        n >= 0,
        forall|i: int| 0 <= i < n ==> #[trigger] f(i) == v,
    ensures
        sum_range(f, 0, n) == n * v,
    decreases n,
{
    if n > 0 {
        lemma_sum_const(f, v, n - 1);
        assert(f(n - 1) == v);
        assert(n * v == (n - 1) * v + v) by (nonlinear_arith);
    } else {
        assert(n * v == 0) by (nonlinear_arith)
            requires
                n == 0,
        ;
    }
}

/// With step 1 every point of the range is counted.
pub proof fn lemma_count_one(lo: int, hi: int)
    ensures
        count_stepped(lo, hi, 1) == span(lo, hi),
    decreases span(lo, hi),
{
    if lo < hi {
        lemma_count_one(lo + 1, hi);
    }
}

/// Stepped sums agree where the functions agree.
pub proof fn lemma_stepped_ext(
    f: spec_fn(int) -> int,
    g: spec_fn(int) -> int,
    lo: int,
    hi: int,
    step: int,
)
    requires
        step >= 1,
        forall|i: int| lo <= i < hi ==> #[trigger] f(i) == g(i),
    ensures
        sum_stepped(f, lo, hi, step) == sum_stepped(g, lo, hi, step),
    decreases span(lo, hi),
{
    if lo < hi {
        lemma_stepped_ext(f, g, lo + step, hi, step);
    }
}

} // verus!
