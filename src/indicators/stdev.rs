use vstd::prelude::*;
use vstd::arithmetic::div_mod::lemma_div_multiples_vanish;
use crate::indicators::sma::Sma;
use crate::num::{
    abs, devs, div_trunc, floor_sqrt, fmul, isqrt, lemma_devs_push, lemma_floor_sqrt_unique,
    lemma_mean_bounds, lemma_sum_bounds,
    lemma_mean_window_nonneg, lemma_tdiv_bounds, lemma_tdiv_nonneg, lemma_window_bounds,
    lemma_window_index, mean, window, MAX_PERIOD, ONE, STAT_LIMIT,
};

verus! {

/// Scaled squared deviations: `(x - avg)^2` in fixed point, one per input.
pub open spec fn sq_devs(p: nat, xs: Seq<int>) -> Seq<int> {
    Seq::new(xs.len(), |k: int| fmul(devs(p, xs)[k], devs(p, xs)[k]))
}

/// Moving variance: the mean of the last `p` squared deviations.
pub open spec fn variance(p: nat, xs: Seq<int>) -> int {
    mean(window(p, sq_devs(p, xs)))
}

/// Moving standard deviation, in fixed point.
pub open spec fn stdev_of(p: nat, xs: Seq<int>) -> int {
    floor_sqrt(variance(p, xs) * ONE)
}

/// All values of `xs` lie within `[-b, b]`.
pub open spec fn bounded(xs: Seq<int>, b: int) -> bool {
    forall|i: int| 0 <= i < xs.len() ==> -b <= #[trigger] xs[i] <= b
}

/// A deviation of bounded inputs from their bounded mean, squared and scaled,
/// stays inside `i64`.
pub proof fn lemma_fmul_dev_bounds(d: int, e: int)
    requires
        -2 * STAT_LIMIT <= d <= 2 * STAT_LIMIT,
        -2 * STAT_LIMIT <= e <= 2 * STAT_LIMIT,
    ensures
        -0x7000_0000_0000_0000 <= fmul(d, e) <= 0x7000_0000_0000_0000,
        -0x4_0000_0000_0000_0000_0000 <= d * e <= 0x4_0000_0000_0000_0000_0000,
{
    assert(-0x4_0000_0000_0000_0000_0000 <= d * e <= 0x4_0000_0000_0000_0000_0000)
        by (nonlinear_arith)
        requires
            -0x200_0000_0000 <= d <= 0x200_0000_0000,
            -0x200_0000_0000 <= e <= 0x200_0000_0000,
    ;
    assert(ONE * -0x7000_0000_0000_0000 <= -0x4_0000_0000_0000_0000_0000);
    lemma_tdiv_bounds(d * e, ONE as int, -0x7000_0000_0000_0000, 0x7000_0000_0000_0000);
}

/// The mean of a window of equal values is that value.
proof fn lemma_mean_constant(s: Seq<int>, c: int)
    requires
        s.len() > 0,
        forall|i: int| 0 <= i < s.len() ==> #[trigger] s[i] == c,
    ensures
        mean(s) == c,
{
    lemma_sum_bounds(s, c, c);
    let n = s.len() as int;
    if c >= 0 {
        lemma_div_multiples_vanish(c, n);
        assert(n * c == c * n) by (nonlinear_arith);
    } else {
        lemma_div_multiples_vanish(-c, n);
        assert(abs(n * c) == (-c) * n) by (nonlinear_arith)
            requires c < 0, n > 0;
        assert(n * c < 0) by (nonlinear_arith)
            requires c < 0, n > 0;
    }
}

/// A constant input stream has standard deviation 0 at every step.
pub proof fn lemma_stdev_constant(p: nat, xs: Seq<int>, c: int)
    requires
        p >= 1,
        forall|i: int| 0 <= i < xs.len() ==> #[trigger] xs[i] == c,
    ensures
        stdev_of(p, xs) == 0,
{
    let qs = sq_devs(p, xs);
    assert forall|k: int| 0 <= k < xs.len() implies #[trigger] qs[k] == 0 by {
        let w = window(p, xs.take(k + 1));
        lemma_window_index(p, xs.take(k + 1));
        assert forall|i: int| 0 <= i < w.len() implies #[trigger] w[i] == c by {
            assert(w[i] == xs.take(k + 1)[xs.take(k + 1).len() - w.len() + i]);
        }
        lemma_mean_constant(w, c);
        assert(devs(p, xs)[k] == 0);
        assert(fmul(0, 0) == 0);
    }
    let w = window(p, qs);
    lemma_window_index(p, qs);
    if w.len() > 0 {
        assert forall|i: int| 0 <= i < w.len() implies #[trigger] w[i] == 0 by {
            assert(w[i] == qs[qs.len() - w.len() + i]);
        }
        lemma_mean_constant(w, 0);
    }
    assert(variance(p, xs) * ONE == 0);
    lemma_floor_sqrt_unique(0, 0);
}

/// Moving standard deviation, built from the moving average of the input and
/// the moving average of the squared deviation from it.
pub struct Stdev {
    mean: Sma,
    var: Sma,
}

impl Stdev {
    pub closed spec fn period(&self) -> nat {
        self.mean.period()
    }

    /// Every value fed so far, oldest first.
    pub closed spec fn inputs(&self) -> Seq<int> {
        self.mean.inputs()
    }

    pub closed spec fn wf(&self) -> bool {
        &&& self.mean.wf()
        &&& self.var.wf()
        &&& self.var.period() == self.mean.period()
        &&& self.var.inputs() == sq_devs(self.mean.period(), self.mean.inputs())
        &&& bounded(self.mean.inputs(), STAT_LIMIT as int)
    }

    pub fn new(period: usize) -> (r: Self)
        requires
            1 <= period <= MAX_PERIOD,
        ensures
            r.wf(),
            r.period() == period,
            r.inputs() == Seq::<int>::empty(),
    {
        let r = Stdev { mean: Sma::new(period), var: Sma::new(period) };
        assert(sq_devs(period as nat, Seq::<int>::empty()) =~= Seq::<int>::empty());
        r
    }

    /// Feeds `input`; returns the standard deviation over the window, never
    /// negative and zero on a constant input.
    pub fn run(&mut self, input: i64) -> (r: i64)
        requires
            old(self).wf(),
            -STAT_LIMIT <= input <= STAT_LIMIT,
        ensures
            final(self).wf(),
            final(self).period() == old(self).period(),
            final(self).inputs() == old(self).inputs().push(input as int),
            r == stdev_of(final(self).period(), final(self).inputs()),
            0 <= r <= 0x800_0000_0000,
    {
        let ghost p = self.mean.period();
        let ghost xs = self.mean.inputs();
        proof {
            self.mean.lemma_period();
        }
        let m = self.mean.run(input);
        let ghost ys = xs.push(input as int);
        proof {
            lemma_window_bounds(p, ys, STAT_LIMIT as int);
            lemma_window_index(p, ys);
            lemma_mean_bounds(window(p, ys), STAT_LIMIT as int);
            lemma_devs_push(p, xs, input as int);
        }
        let d: i128 = input as i128 - m as i128;
        proof {
            lemma_fmul_dev_bounds(d as int, d as int);
        }
        let sq = div_trunc(d * d, ONE as i128);
        proof {
            assert(d * d >= 0) by (nonlinear_arith);
            lemma_tdiv_nonneg(d * d, ONE as int);
            assert(sq_devs(p, ys) =~= sq_devs(p, xs).push(sq as int));
        }
        let v = self.var.run(sq as i64);
        proof {
            let qs = sq_devs(p, ys);
            assert forall|i: int| 0 <= i < qs.len() implies #[trigger] qs[i] >= 0 by {
                let e = devs(p, ys)[i];
                assert(e * e >= 0) by (nonlinear_arith);
                lemma_tdiv_nonneg(e * e, ONE as int);
            }
            lemma_mean_window_nonneg(p, qs);
            assert forall|i: int| 0 <= i < qs.len() implies -0x7000_0000_0000_0000 <= #[trigger] qs[i]
                <= 0x7000_0000_0000_0000 by {
                lemma_window_bounds(p, ys.take(i + 1), STAT_LIMIT as int);
                lemma_mean_bounds(window(p, ys.take(i + 1)), STAT_LIMIT as int);
                lemma_fmul_dev_bounds(devs(p, ys)[i], devs(p, ys)[i]);
            }
            lemma_window_bounds(p, qs, 0x7000_0000_0000_0000);
            lemma_mean_bounds(window(p, qs), 0x7000_0000_0000_0000);
        }
        let s = isqrt(v as u128 * ONE as u128);
        proof {
            assert(s <= 0x800_0000_0000) by (nonlinear_arith)
                requires
                    s * s <= v * ONE,
                    v <= 0x7000_0000_0000_0000,
                    ONE == 1_000_000,
                    s >= 0,
            ;
        }
        s as i64
    }
}

} // verus!
