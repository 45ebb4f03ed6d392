//! Fixed-point numbers and the arithmetic the indicators share.
//!
//! A value `v` stands for the real number `v / ONE`. Division truncates toward
//! zero, so negating an input negates the quotient.
use vstd::prelude::*;
use vstd::arithmetic::div_mod::{
    lemma_div_basics, lemma_div_is_ordered, lemma_div_is_ordered_by_denominator,
    lemma_div_multiples_vanish, lemma_div_pos_is_pos,
};
use vstd::arithmetic::mul::{lemma_mul_is_distributive_add_other_way, lemma_mul_unary_negation};

verus! {

/// Fixed-point scale: `ONE` stands for 1.0.
pub const ONE: i64 = 1_000_000;

/// Saturation bound of percent changes and of momentum (2^38).
pub const LIMIT: i64 = 274_877_906_944;

/// Largest magnitude the variance-based indicators accept (2^40).
pub const STAT_LIMIT: i64 = 1_099_511_627_776;

/// Largest window length an indicator can be built with.
pub const MAX_PERIOD: usize = 1_000_000_000;

pub open spec fn abs(a: int) -> int {
    if a < 0 { -a } else { a }
}

/// Division rounding toward zero, as Rust's integer `/` does.
pub open spec fn tdiv(a: int, b: int) -> int {
    if b == 0 {
        0
    } else if (a >= 0) == (b > 0) {
        abs(a) / abs(b)
    } else {
        -(abs(a) / abs(b))
    }
}

/// `v` limited to `[-b, b]`.
pub open spec fn clamp(v: int, b: int) -> int {
    if v > b { b } else if v < -b { -b } else { v }
}

/// `r` is the integer square root of `n`, rounded down.
pub open spec fn is_floor_sqrt(r: int, n: int) -> bool {
    0 <= r && r * r <= n < (r + 1) * (r + 1)
}

/// The integer square root of a non-negative `n`, rounded down.
pub open spec fn floor_sqrt(n: int) -> int {
    if exists|r: int| is_floor_sqrt(r, n) {
        choose|r: int| is_floor_sqrt(r, n)
    } else {
        0
    }
}

pub proof fn lemma_floor_sqrt_nonneg(n: int)
    ensures
        floor_sqrt(n) >= 0,
{
}

pub proof fn lemma_floor_sqrt_unique(r: int, n: int)
    requires
        is_floor_sqrt(r, n),
    ensures
        floor_sqrt(n) == r,
{
    let q = floor_sqrt(n);
    assert(exists|r: int| is_floor_sqrt(r, n));
    assert(is_floor_sqrt(q, n));
    if q < r {
        assert((q + 1) * (q + 1) <= r * r) by (nonlinear_arith)
            requires q + 1 <= r, q >= 0;
    } else if r < q {
        assert((r + 1) * (r + 1) <= q * q) by (nonlinear_arith)
            requires r + 1 <= q, r >= 0;
    }
}

/// Sum of a sequence.
pub open spec fn sum(s: Seq<int>) -> int
    decreases s.len(),
{
    if s.len() == 0 { 0 } else { sum(s.drop_last()) + s.last() }
}

/// The last `p` elements of `xs`, or all of them while there are fewer.
pub open spec fn window(p: nat, xs: Seq<int>) -> Seq<int> {
    if xs.len() <= p { xs } else { xs.subrange(xs.len() - p, xs.len() as int) }
}

/// Mean of a sequence, rounded toward zero; 0 for an empty one.
pub open spec fn mean(s: Seq<int>) -> int {
    tdiv(sum(s), s.len() as int)
}

/// Element-wise negation.
pub open spec fn neg(s: Seq<int>) -> Seq<int> {
    Seq::new(s.len(), |i: int| -s[i])
}

pub proof fn lemma_tdiv_neg(a: int, b: int)
    requires
        b > 0,
    ensures
        tdiv(-a, b) == -tdiv(a, b),
{
    if a == 0 {
        assert(0int / b == 0) by { lemma_div_basics(b) };
    }
}

pub proof fn lemma_tdiv_nonneg(a: int, b: int)
    requires
        b > 0,
        a >= 0,
    ensures
        tdiv(a, b) >= 0,
{
    lemma_div_pos_is_pos(a, b);
}

pub proof fn lemma_tdiv_nonpos(a: int, b: int)
    requires
        b > 0,
        a <= 0,
    ensures
        tdiv(a, b) <= 0,
{
    lemma_div_pos_is_pos(-a, b);
}

/// A quotient by a positive divisor lies between the bounds that the
/// dividend has per unit of divisor.
pub proof fn lemma_tdiv_bounds(a: int, n: int, lo: int, hi: int)
    requires
        n > 0,
        lo <= 0 <= hi,
        n * lo <= a <= n * hi,
    ensures
        lo <= tdiv(a, n) <= hi,
{
    if a >= 0 {
        lemma_div_is_ordered(a, n * hi, n);
        lemma_div_multiples_vanish(hi, n);
        lemma_div_pos_is_pos(a, n);
    } else {
        lemma_mul_unary_negation(n, lo);
        lemma_div_is_ordered(-a, n * (-lo), n);
        lemma_div_multiples_vanish(-lo, n);
        lemma_div_pos_is_pos(-a, n);
    }
}

pub proof fn lemma_sum_push(s: Seq<int>, x: int)
    ensures
        sum(s.push(x)) == sum(s) + x,
{
    assert(s.push(x).drop_last() =~= s);
}

pub proof fn lemma_sum_drop_first(s: Seq<int>)
    requires
        s.len() > 0,
    ensures
        sum(s) == s[0] + sum(s.drop_first()),
    decreases s.len(),
{
    if s.len() > 1 {
        lemma_sum_drop_first(s.drop_last());
        assert(s.drop_last().drop_first() =~= s.drop_first().drop_last());
        assert(s.drop_first().last() == s.last());
        assert(s.drop_last()[0] == s[0]);
        assert(sum(s) == sum(s.drop_last()) + s.last());
        assert(sum(s.drop_first()) == sum(s.drop_first().drop_last()) + s.drop_first().last());
    } else {
        assert(sum(s) == sum(s.drop_last()) + s.last());
        assert(s.drop_first().len() == 0);
        assert(s.drop_last().len() == 0);
    }
}

/// Bounds on each element bound the sum.
pub proof fn lemma_sum_bounds(s: Seq<int>, lo: int, hi: int)
    requires
        forall|i: int| 0 <= i < s.len() ==> lo <= #[trigger] s[i] <= hi,
    ensures
        s.len() * lo <= sum(s) <= s.len() * hi,
    decreases s.len(),
{
    if s.len() > 0 {
        let t = s.drop_last();
        assert forall|i: int| 0 <= i < t.len() implies lo <= #[trigger] t[i] <= hi by {
            assert(t[i] == s[i]);
        }
        lemma_sum_bounds(t, lo, hi);
        lemma_mul_is_distributive_add_other_way(hi, t.len() as int, 1);
        lemma_mul_is_distributive_add_other_way(lo, t.len() as int, 1);
    }
}

pub proof fn lemma_sum_nonneg(s: Seq<int>)
    requires
        forall|i: int| 0 <= i < s.len() ==> #[trigger] s[i] >= 0,
    ensures
        sum(s) >= 0,
    decreases s.len(),
{
    if s.len() > 0 {
        let t = s.drop_last();
        assert forall|i: int| 0 <= i < t.len() implies #[trigger] t[i] >= 0 by {
            assert(t[i] == s[i]);
        }
        lemma_sum_nonneg(t);
    }
}

pub proof fn lemma_sum_nonpos(s: Seq<int>)
    requires
        forall|i: int| 0 <= i < s.len() ==> #[trigger] s[i] <= 0,
    ensures
        sum(s) <= 0,
    decreases s.len(),
{
    if s.len() > 0 {
        let t = s.drop_last();
        assert forall|i: int| 0 <= i < t.len() implies #[trigger] t[i] <= 0 by {
            assert(t[i] == s[i]);
        }
        lemma_sum_nonpos(t);
    }
}

/// Each element of a window is the input at the matching position from the end.
pub proof fn lemma_window_index(p: nat, xs: Seq<int>)
    ensures
        window(p, xs).len() <= xs.len(),
        forall|i: int|
            0 <= i < window(p, xs).len() ==> #[trigger] window(p, xs)[i] == xs[xs.len()
                - window(p, xs).len() + i],
{
}

/// The mean of a window of non-negative values is non-negative.
pub proof fn lemma_mean_window_nonneg(p: nat, xs: Seq<int>)
    requires
        forall|i: int| 0 <= i < xs.len() ==> #[trigger] xs[i] >= 0,
    ensures
        mean(window(p, xs)) >= 0,
{
    let w = window(p, xs);
    lemma_window_index(p, xs);
    assert forall|i: int| 0 <= i < w.len() implies #[trigger] w[i] >= 0 by {
        assert(w[i] == xs[xs.len() - w.len() + i]);
    }
    lemma_sum_nonneg(w);
    if w.len() > 0 {
        lemma_tdiv_nonneg(sum(w), w.len() as int);
    }
}

/// The mean of a window of non-positive values is non-positive.
pub proof fn lemma_mean_window_nonpos(p: nat, xs: Seq<int>)
    requires
        forall|i: int| 0 <= i < xs.len() ==> #[trigger] xs[i] <= 0,
    ensures
        mean(window(p, xs)) <= 0,
{
    let w = window(p, xs);
    lemma_window_index(p, xs);
    assert forall|i: int| 0 <= i < w.len() implies #[trigger] w[i] <= 0 by {
        assert(w[i] == xs[xs.len() - w.len() + i]);
    }
    lemma_sum_nonpos(w);
    if w.len() > 0 {
        lemma_tdiv_nonpos(sum(w), w.len() as int);
    }
}

/// Moving average of period `p` right after the input at position `k`.
pub open spec fn ma_at(p: nat, xs: Seq<int>, k: int) -> int {
    mean(window(p, xs.take(k + 1)))
}

/// Each input's deviation from the moving average that already includes it.
pub open spec fn devs(p: nat, xs: Seq<int>) -> Seq<int> {
    Seq::new(xs.len(), |k: int| xs[k] - ma_at(p, xs, k))
}

/// Product of two fixed-point values.
pub open spec fn fmul(a: int, b: int) -> int {
    tdiv(a * b, ONE as int)
}

/// Appending an input leaves the earlier moving averages as they were.
pub proof fn lemma_ma_at_push(p: nat, xs: Seq<int>, x: int, k: int)
    requires
        0 <= k < xs.len(),
    ensures
        ma_at(p, xs.push(x), k) == ma_at(p, xs, k),
{
    assert(xs.push(x).take(k + 1) =~= xs.take(k + 1));
}

pub proof fn lemma_devs_push(p: nat, xs: Seq<int>, x: int)
    ensures
        devs(p, xs.push(x)) =~= devs(p, xs).push(x - mean(window(p, xs.push(x)))),
{
    let ys = xs.push(x);
    assert(ys.take(ys.len() as int) =~= ys);
    assert forall|k: int| 0 <= k < xs.len() implies devs(p, ys)[k] == devs(p, xs)[k] by {
        lemma_ma_at_push(p, xs, x, k);
    }
}

/// Deviations of a negated stream are the negated deviations.
pub proof fn lemma_devs_neg(p: nat, xs: Seq<int>)
    requires
        p >= 1,
    ensures
        devs(p, neg(xs)) =~= neg(devs(p, xs)),
{
    assert forall|k: int| 0 <= k < xs.len() implies devs(p, neg(xs))[k] == -devs(p, xs)[k] by {
        let t = xs.take(k + 1);
        assert(neg(xs).take(k + 1) =~= neg(t));
        lemma_window_neg(p, t);
        lemma_sum_neg(window(p, t));
        if window(p, t).len() > 0 {
            lemma_tdiv_neg(sum(window(p, t)), window(p, t).len() as int);
        }
    }
}

pub proof fn lemma_sum_neg(s: Seq<int>)
    ensures
        sum(neg(s)) == -sum(s),
    decreases s.len(),
{
    if s.len() > 0 {
        assert(neg(s).drop_last() =~= neg(s.drop_last()));
        lemma_sum_neg(s.drop_last());
    }
}

pub proof fn lemma_window_neg(p: nat, xs: Seq<int>)
    ensures
        window(p, neg(xs)) =~= neg(window(p, xs)),
{
}

/// Appending to the input sequence appends to its window, and drops the
/// window's oldest element once the window holds more than `p`.
pub proof fn lemma_window_push(p: nat, xs: Seq<int>, x: int)
    requires
        p >= 1,
    ensures
        window(p, xs).len() <= p,
        window(p, xs.push(x)) =~= if window(p, xs).len() + 1 > p {
            window(p, xs).push(x).drop_first()
        } else {
            window(p, xs).push(x)
        },
{
}

/// The mean of a window of bounded values is bounded the same way.
pub proof fn lemma_mean_bounds(s: Seq<int>, b: int)
    requires
        b >= 0,
        s.len() > 0,
        forall|i: int| 0 <= i < s.len() ==> -b <= #[trigger] s[i] <= b,
    ensures
        -b <= mean(s) <= b,
{
    lemma_sum_bounds(s, -b, b);
    lemma_mul_unary_negation(s.len() as int, b);
    lemma_tdiv_bounds(sum(s), s.len() as int, -b, b);
}

/// The elements of a window are among the inputs.
pub proof fn lemma_window_bounds(p: nat, xs: Seq<int>, b: int)
    requires
        forall|i: int| 0 <= i < xs.len() ==> -b <= #[trigger] xs[i] <= b,
    ensures
        forall|i: int| 0 <= i < window(p, xs).len() ==> -b <= #[trigger] window(p, xs)[i] <= b,
{
    if xs.len() > p {
        assert forall|i: int| 0 <= i < window(p, xs).len() implies -b <= #[trigger] window(
            p,
            xs,
        )[i] <= b by {
            assert(window(p, xs)[i] == xs[xs.len() - p + i]);
        }
    }
}

/// The sum of at most `MAX_PERIOD + 1` values of `i64` range is far inside `i128`.
pub proof fn lemma_i64_window_sum(s: Seq<int>)
    requires
        s.len() <= MAX_PERIOD + 1,
        forall|i: int| 0 <= i < s.len() ==> i64::MIN <= #[trigger] s[i] <= i64::MAX,
    ensures
        -0x1_0000_0000_0000_0000_0000_0000 <= sum(s) <= 0x1_0000_0000_0000_0000_0000_0000,
{
    lemma_sum_bounds(s, i64::MIN as int, i64::MAX as int);
    assert(s.len() * i64::MAX <= 0x1_0000_0000_0000_0000_0000_0000) by (nonlinear_arith)
        requires s.len() <= MAX_PERIOD + 1;
    assert(s.len() * i64::MIN >= -0x1_0000_0000_0000_0000_0000_0000) by (nonlinear_arith)
        requires s.len() <= MAX_PERIOD + 1;
}

/// Quotient rounded toward zero.
pub fn div_trunc(a: i128, b: i128) -> (r: i128)
    requires
        b != 0,
        a > i128::MIN,
        b > i128::MIN,
    ensures
        r == tdiv(a as int, b as int),
{
    let ua: u128 = if a < 0 { (-a) as u128 } else { a as u128 };
    let ub: u128 = if b < 0 { (-b) as u128 } else { b as u128 };
    let q: u128 = ua / ub;
    proof {
        lemma_div_is_ordered_by_denominator(ua as int, 1, ub as int);
        lemma_div_basics(ua as int);
    }
    if (a >= 0) == (b > 0) {
        q as i128
    } else {
        -(q as i128)
    }
}

/// `v` limited to `[-b, b]`.
pub fn clamp_to(v: i128, b: i64) -> (r: i64)
    requires
        b >= 0,
    ensures
        r == clamp(v as int, b as int),
{
    if v > b as i128 {
        b
    } else if v < -(b as i128) {
        -b
    } else {
        v as i64
    }
}

/// Integer square root, rounded down.
pub fn isqrt(n: u128) -> (r: u64)
    requires
        n < 1267650600228229401496703205376,
    ensures
        is_floor_sqrt(r as int, n as int),
        r == floor_sqrt(n as int),
{
    let mut lo: u128 = 0;
    let mut hi: u128 = 0x4_0000_0000_0000;
    assert(hi * hi == 1267650600228229401496703205376) by (nonlinear_arith)
        requires hi == 0x4_0000_0000_0000;
    while hi - lo > 1
        invariant
            lo < hi <= 0x4_0000_0000_0000,
            lo * lo <= n < hi * hi,
        decreases hi - lo,
    {
        let mid: u128 = lo + (hi - lo) / 2;
        assert(mid * mid <= 0x4_0000_0000_0000 * 0x4_0000_0000_0000) by (nonlinear_arith)
            requires mid <= 0x4_0000_0000_0000;
        if mid * mid <= n {
            lo = mid;
        } else {
            hi = mid;
        }
    }
    assert(hi == lo + 1);
    proof {
        lemma_floor_sqrt_unique(lo as int, n as int);
    }
    lo as u64
}

} // verus!
