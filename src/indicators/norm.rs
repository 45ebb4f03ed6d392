use vstd::prelude::*;
use crate::indicators::sma::Sma;
use crate::indicators::stdev::{bounded, stdev_of, Stdev};
use crate::num::{
    clamp, clamp_to, div_trunc, lemma_mean_bounds, lemma_window_bounds, mean, tdiv, window, LIMIT,
    MAX_PERIOD, ONE, STAT_LIMIT,
};

verus! {

/// Distance of `x` from the mean `m` in standard deviations `s`, in fixed
/// point and limited to `[-LIMIT, LIMIT]`; undefined when `s` is 0.
pub open spec fn z_score(x: int, m: int, s: int) -> Option<int> {
    if s == 0 {
        None
    } else {
        Some(clamp(tdiv((x - m) * ONE, s), LIMIT as int))
    }
}

/// Normalizer: expresses each input as its distance from the moving mean in
/// moving standard deviations.
pub struct Norm {
    period: usize,
    mean: Sma,
    stdev: Stdev,
    mean_out: Option<i64>,
    stdev_out: Option<i64>,
    output: Option<i64>,
}

impl Norm {
    pub closed spec fn period(&self) -> nat {
        self.period as nat
    }

    /// Every value fed since construction or the last reset, oldest first.
    pub closed spec fn inputs(&self) -> Seq<int> {
        self.mean.inputs()
    }

    pub closed spec fn output(&self) -> Option<int> {
        match self.output {
            Some(v) => Some(v as int),
            None => None,
        }
    }

    pub closed spec fn wf(&self) -> bool {
        &&& 1 <= self.period <= MAX_PERIOD
        &&& self.mean.wf()
        &&& self.stdev.wf()
        &&& self.mean.period() == self.period
        &&& self.stdev.period() == self.period
        &&& self.stdev.inputs() == self.mean.inputs()
        &&& if self.mean.inputs().len() == 0 {
            self.mean_out.is_none() && self.stdev_out.is_none() && self.output.is_none()
        } else {
            &&& self.mean_out matches Some(v) && v == mean(window(self.period as nat, self.mean.inputs()))
            &&& self.stdev_out matches Some(v) && v == stdev_of(self.period as nat, self.mean.inputs())
        }
        &&& bounded(self.mean.inputs(), STAT_LIMIT as int)
    }

    pub fn new(period: usize) -> (r: Self)
        requires
            1 <= period <= MAX_PERIOD,
        ensures
            r.wf(),
            r.period() == period,
            r.inputs() == Seq::<int>::empty(),
            r.output() == None::<int>,
    {
        Norm {
            period,
            mean: Sma::new(period),
            stdev: Stdev::new(period),
            mean_out: None,
            stdev_out: None,
            output: None,
        }
    }

    /// Feeds `input` and recomputes the normalized value.
    pub fn run(&mut self, input: i64)
        requires
            old(self).wf(),
            -STAT_LIMIT <= input <= STAT_LIMIT,
        ensures
            final(self).wf(),
            final(self).period() == old(self).period(),
            final(self).inputs() == old(self).inputs().push(input as int),
            final(self).output() == z_score(
                input as int,
                mean(window(final(self).period(), final(self).inputs())),
                stdev_of(final(self).period(), final(self).inputs()),
            ),
    {
        let ghost p = self.period as nat;
        let ghost xs = self.mean.inputs().push(input as int);
        assert forall|i: int| 0 <= i < xs.len() implies -STAT_LIMIT <= #[trigger] xs[i] <= STAT_LIMIT by {
            if i < xs.len() - 1 {
                assert(xs[i] == self.mean.inputs()[i]);
            }
        }
        let m = self.mean.run(input);
        let s = self.stdev.run(input);
        proof {
            self.mean.lemma_period();
            lemma_window_bounds(p, xs, STAT_LIMIT as int);
            lemma_mean_bounds(window(p, xs), STAT_LIMIT as int);
        }
        self.mean_out = Some(m);
        self.stdev_out = Some(s);
        if s == 0 {
            self.output = None;
        } else {
            let d: i128 = (input as i128 - m as i128) * ONE as i128;
            self.output = Some(clamp_to(div_trunc(d, s as i128), LIMIT));
        }
    }

    /// Forgets every input, as if newly built.
    pub fn reset(&mut self)
        requires
            old(self).wf(),
        ensures
            final(self).wf(),
            final(self).period() == old(self).period(),
            final(self).inputs() == Seq::<int>::empty(),
            final(self).output() == None::<int>,
    {
        self.mean = Sma::new(self.period);
        self.stdev = Stdev::new(self.period);
        assert(bounded(Seq::<int>::empty(), STAT_LIMIT as int));
        self.mean_out = None;
        self.stdev_out = None;
        self.output = None;
    }

    /// The latest normalized value; `None` before any input or while the
    /// deviation is 0.
    pub fn get(&self) -> (r: Option<i64>)
        ensures
            match r {
                Some(v) => self.output() == Some(v as int),
                None => self.output() == None::<int>,
            },
    {
        self.output
    }

    /// The latest moving mean; `None` before any input.
    pub fn get_mean(&self) -> (r: Option<i64>)
        requires
            self.wf(),
        ensures
            self.inputs().len() == 0 ==> r.is_none(),
            self.inputs().len() > 0 ==> (r matches Some(v) && v == mean(window(self.period(), self.inputs()))),
    {
        self.mean_out
    }

    /// The latest moving standard deviation; `None` before any input.
    pub fn get_stdev(&self) -> (r: Option<i64>)
        requires
            self.wf(),
        ensures
            self.inputs().len() == 0 ==> r.is_none(),
            self.inputs().len() > 0 ==> (r matches Some(v) && v == stdev_of(self.period(), self.inputs())),
    {
        self.stdev_out
    }
}

} // verus!
