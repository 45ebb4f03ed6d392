use vstd::prelude::*;
use crate::indicators::sma::Sma;
use crate::indicators::stdev::{bounded, lemma_fmul_dev_bounds};
use crate::num::{
    devs, div_trunc, fmul, lemma_devs_neg, lemma_devs_push, lemma_mean_bounds,
    lemma_mean_window_nonneg, lemma_mean_window_nonpos, lemma_tdiv_neg, lemma_tdiv_nonneg,
    lemma_window_bounds, mean, neg, window, MAX_PERIOD, ONE, STAT_LIMIT,
};

verus! {

/// Scaled products of the two streams' deviations from their own moving
/// averages (each average already including the current input).
pub open spec fn dev_products(p: nat, xs: Seq<int>, ys: Seq<int>) -> Seq<int> {
    Seq::new(xs.len(), |k: int| fmul(devs(p, xs)[k], devs(p, ys)[k]))
}

/// Moving covariance: the mean of the last `p` deviation products.
pub open spec fn covariance(p: nat, xs: Seq<int>, ys: Seq<int>) -> int {
    mean(window(p, dev_products(p, xs, ys)))
}

/// A stream's covariance with itself is never negative.
pub proof fn lemma_cov_self_nonneg(p: nat, xs: Seq<int>)
    ensures
        covariance(p, xs, xs) >= 0,
{
    let ps = dev_products(p, xs, xs);
    assert forall|i: int| 0 <= i < ps.len() implies #[trigger] ps[i] >= 0 by {
        let d = devs(p, xs)[i];
        assert(d * d >= 0) by (nonlinear_arith);
        lemma_tdiv_nonneg(d * d, ONE as int);
    }
    lemma_mean_window_nonneg(p, ps);
}

/// A stream's covariance with its own negation is never positive.
pub proof fn lemma_cov_opposite_nonpos(p: nat, xs: Seq<int>)
    requires
        p >= 1,
    ensures
        covariance(p, xs, neg(xs)) <= 0,
{
    let ps = dev_products(p, xs, neg(xs));
    lemma_devs_neg(p, xs);
    assert forall|i: int| 0 <= i < ps.len() implies #[trigger] ps[i] <= 0 by {
        let d = devs(p, xs)[i];
        assert(devs(p, neg(xs))[i] == -d);
        assert(d * -d == -(d * d)) by (nonlinear_arith);
        assert(d * d >= 0) by (nonlinear_arith);
        lemma_tdiv_nonneg(d * d, ONE as int);
        lemma_tdiv_neg(d * d, ONE as int);
    }
    lemma_mean_window_nonpos(p, ps);
}

/// Moving covariance of two streams.
pub struct Cov {
    x_avg: Sma,
    y_avg: Sma,
    cov: Sma,
}

impl Cov {
    pub closed spec fn period(&self) -> nat {
        self.x_avg.period()
    }

    /// Every `x` fed so far, oldest first.
    pub closed spec fn xs(&self) -> Seq<int> {
        self.x_avg.inputs()
    }

    /// Every `y` fed so far, oldest first.
    pub closed spec fn ys(&self) -> Seq<int> {
        self.y_avg.inputs()
    }

    pub closed spec fn wf(&self) -> bool {
        &&& self.x_avg.wf()
        &&& self.y_avg.wf()
        &&& self.cov.wf()
        &&& self.y_avg.period() == self.x_avg.period()
        &&& self.cov.period() == self.x_avg.period()
        &&& self.x_avg.inputs().len() == self.y_avg.inputs().len()
        &&& self.cov.inputs() == dev_products(
            self.x_avg.period(),
            self.x_avg.inputs(),
            self.y_avg.inputs(),
        )
        &&& bounded(self.x_avg.inputs(), STAT_LIMIT as int)
        &&& bounded(self.y_avg.inputs(), STAT_LIMIT as int)
    }

    pub fn new(period: usize) -> (r: Self)
        requires
            1 <= period <= MAX_PERIOD,
        ensures
            r.wf(),
            r.period() == period,
            r.xs() == Seq::<int>::empty(),
            r.ys() == Seq::<int>::empty(),
    {
        let r = Cov { x_avg: Sma::new(period), y_avg: Sma::new(period), cov: Sma::new(period) };
        assert(dev_products(period as nat, Seq::<int>::empty(), Seq::<int>::empty())
            =~= Seq::<int>::empty());
        r
    }

    /// Feeds one pair of values; returns the covariance over the window.
    pub fn run(&mut self, x: i64, y: i64) -> (r: i64)
        requires
            old(self).wf(),
            -STAT_LIMIT <= x <= STAT_LIMIT,
            -STAT_LIMIT <= y <= STAT_LIMIT,
        ensures
            final(self).wf(),
            final(self).period() == old(self).period(),
            final(self).xs() == old(self).xs().push(x as int),
            final(self).ys() == old(self).ys().push(y as int),
            final(self).xs().len() == final(self).ys().len(),
            r == covariance(final(self).period(), final(self).xs(), final(self).ys()),
    {
        let ghost p = self.x_avg.period();
        let ghost xs0 = self.x_avg.inputs();
        let ghost ys0 = self.y_avg.inputs();
        proof {
            self.x_avg.lemma_period();
        }
        let ax = self.x_avg.run(x);
        let ay = self.y_avg.run(y);
        let ghost xs = xs0.push(x as int);
        let ghost ys = ys0.push(y as int);
        proof {
            lemma_window_bounds(p, xs, STAT_LIMIT as int);
            lemma_mean_bounds(window(p, xs), STAT_LIMIT as int);
            lemma_window_bounds(p, ys, STAT_LIMIT as int);
            lemma_mean_bounds(window(p, ys), STAT_LIMIT as int);
            lemma_devs_push(p, xs0, x as int);
            lemma_devs_push(p, ys0, y as int);
        }
        let dx: i128 = x as i128 - ax as i128;
        let dy: i128 = y as i128 - ay as i128;
        proof {
            lemma_fmul_dev_bounds(dx as int, dy as int);
        }
        let prod = div_trunc(dx * dy, ONE as i128);
        proof {
            assert(dev_products(p, xs, ys) =~= dev_products(p, xs0, ys0).push(prod as int));
        }
        let c = self.cov.run(prod as i64);
        c
    }
}

} // verus!
