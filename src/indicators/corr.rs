use vstd::prelude::*;
use crate::indicators::cov::{covariance, lemma_cov_opposite_nonpos, lemma_cov_self_nonneg, Cov};
use crate::indicators::stdev::{stdev_of, variance, Stdev};
use crate::num::{
    clamp, clamp_to, div_trunc, lemma_floor_sqrt_nonneg, lemma_tdiv_nonneg, lemma_tdiv_nonpos, neg, tdiv, MAX_PERIOD, ONE,
    STAT_LIMIT,
};

verus! {

/// Moving correlation: covariance over the product of the two standard
/// deviations, in fixed point. Exactly 0 when either deviation is 0; rounding
/// can carry the ratio past 1 in magnitude, so it is limited to `[-ONE, ONE]`.
pub open spec fn correlation(p: nat, xs: Seq<int>, ys: Seq<int>) -> int {
    let d = stdev_of(p, xs) * stdev_of(p, ys);
    if d == 0 {
        0
    } else {
        clamp(tdiv(covariance(p, xs, ys) * ONE * ONE, d), ONE as int)
    }
}

/// A stream's correlation with itself is never negative.
pub proof fn lemma_corr_self_nonneg(p: nat, xs: Seq<int>)
    ensures
        correlation(p, xs, xs) >= 0,
{
    lemma_floor_sqrt_nonneg(variance(p, xs) * ONE);
    let s = stdev_of(p, xs);
    let c = covariance(p, xs, xs);
    lemma_cov_self_nonneg(p, xs);
    assert(s * s >= 0) by (nonlinear_arith);
    assert(c * ONE * ONE >= 0) by (nonlinear_arith)
        requires c >= 0;
    if s * s != 0 {
        lemma_tdiv_nonneg(c * ONE * ONE, s * s);
    }
}

/// A stream's correlation with its own negation is never positive.
pub proof fn lemma_corr_opposite_nonpos(p: nat, xs: Seq<int>)
    requires
        p >= 1,
    ensures
        correlation(p, xs, neg(xs)) <= 0,
{
    lemma_floor_sqrt_nonneg(variance(p, xs) * ONE);
    lemma_floor_sqrt_nonneg(variance(p, neg(xs)) * ONE);
    let d = stdev_of(p, xs) * stdev_of(p, neg(xs));
    let c = covariance(p, xs, neg(xs));
    lemma_cov_opposite_nonpos(p, xs);
    assert(d >= 0) by (nonlinear_arith)
        requires
            stdev_of(p, xs) >= 0,
            stdev_of(p, neg(xs)) >= 0,
            d == stdev_of(p, xs) * stdev_of(p, neg(xs)),
    ;
    assert(c * ONE * ONE <= 0) by (nonlinear_arith)
        requires c <= 0;
    if d != 0 {
        lemma_tdiv_nonpos(c * ONE * ONE, d);
    }
}

/// Moving correlation of two streams.
pub struct Corr {
    cov: Cov,
    stdev_x: Stdev,
    stdev_y: Stdev,
}

impl Corr {
    pub closed spec fn period(&self) -> nat {
        self.cov.period()
    }

    /// Every `x` fed so far, oldest first.
    pub closed spec fn xs(&self) -> Seq<int> {
        self.cov.xs()
    }

    /// Every `y` fed so far, oldest first.
    pub closed spec fn ys(&self) -> Seq<int> {
        self.cov.ys()
    }

    pub closed spec fn wf(&self) -> bool {
        &&& self.cov.wf()
        &&& self.stdev_x.wf()
        &&& self.stdev_y.wf()
        &&& self.stdev_x.period() == self.cov.period()
        &&& self.stdev_y.period() == self.cov.period()
        &&& self.stdev_x.inputs() == self.cov.xs()
        &&& self.stdev_y.inputs() == self.cov.ys()
    }

    pub fn new(period: usize) -> (r: Self)
        requires
            1 <= period <= MAX_PERIOD,
        ensures
            r.wf(),
            r.period() == period,
            r.xs() == Seq::<int>::empty(),
            r.ys() == Seq::<int>::empty(),
    {
        Corr { cov: Cov::new(period), stdev_x: Stdev::new(period), stdev_y: Stdev::new(period) }
    }

    /// Feeds one pair of values; returns their correlation over the window,
    /// in `[-ONE, ONE]`.
    pub fn run(&mut self, x: i64, y: i64) -> (r: i64)
        requires
            old(self).wf(),
            -STAT_LIMIT <= x <= STAT_LIMIT,
            -STAT_LIMIT <= y <= STAT_LIMIT,
        ensures
            final(self).wf(),
            final(self).period() == old(self).period(),
            final(self).xs() == old(self).xs().push(x as int),
            final(self).ys() == old(self).ys().push(y as int),
            final(self).xs().len() == final(self).ys().len(),
            r == correlation(final(self).period(), final(self).xs(), final(self).ys()),
            -ONE <= r <= ONE,
    {
        let sx = self.stdev_x.run(x);
        let sy = self.stdev_y.run(y);
        let c = self.cov.run(x, y);
        proof {
            assert(0 <= sx * sy <= 0x40_0000_0000_0000_0000_0000) by (nonlinear_arith)
                requires
                    0 <= sx <= 0x800_0000_0000,
                    0 <= sy <= 0x800_0000_0000,
            ;
            assert(-0x8000_0000_0000_0000 * 1_000_000_000_000 <= c * ONE * ONE
                <= 0x8000_0000_0000_0000 * 1_000_000_000_000) by (nonlinear_arith)
                requires
                    i64::MIN <= c <= i64::MAX,
                    ONE == 1_000_000,
            ;
        }
        let d: i128 = sx as i128 * sy as i128;
        if d == 0 {
            0
        } else {
            let q = div_trunc(c as i128 * ONE as i128 * ONE as i128, d);
            clamp_to(q, ONE)
        }
    }
}

} // verus!
