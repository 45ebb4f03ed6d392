use std::collections::VecDeque;
use vstd::prelude::*;
use crate::num::{
    div_trunc, lemma_i64_window_sum, lemma_sum_bounds, lemma_sum_drop_first, lemma_sum_push,
    lemma_tdiv_bounds, lemma_window_push, mean, sum, window, MAX_PERIOD,
};

verus! {

/// Simple moving average over the last `period` inputs.
pub struct Sma {
    data: VecDeque<i64>,
    total: i128,
    period: usize,
    inputs: Ghost<Seq<int>>,
}

impl Sma {
    /// Window length.
    pub closed spec fn period(&self) -> nat {
        self.period as nat
    }

    /// Every value fed so far, oldest first.
    pub closed spec fn inputs(&self) -> Seq<int> {
        self.inputs@
    }

    pub closed spec fn wf(&self) -> bool {
        &&& 1 <= self.period <= MAX_PERIOD
        &&& self.data@.len() == window(self.period as nat, self.inputs@).len()
        &&& forall|i: int|
            0 <= i < self.data@.len() ==> self.data@[i] as int == #[trigger] window(
                self.period as nat,
                self.inputs@,
            )[i]
        &&& self.total == sum(window(self.period as nat, self.inputs@))
    }

    pub proof fn lemma_period(&self)
        requires
            self.wf(),
        ensures
            1 <= self.period() <= MAX_PERIOD,
    {
    }

    pub fn new(period: usize) -> (r: Self)
        requires
            1 <= period <= MAX_PERIOD,
        ensures
            r.wf(),
            r.period() == period,
            r.inputs() == Seq::<int>::empty(),
    {
        Sma { data: VecDeque::new(), total: 0, period, inputs: Ghost(Seq::empty()) }
    }

    /// Feeds `input`; returns the mean of the last `period` inputs, or of all
    /// inputs while fewer have been fed.
    pub fn run(&mut self, input: i64) -> (r: i64)
        requires
            old(self).wf(),
        ensures
            final(self).wf(),
            final(self).period() == old(self).period(),
            final(self).inputs() == old(self).inputs().push(input as int),
            r == mean(window(final(self).period(), final(self).inputs())),
    {
        let ghost p = self.period as nat;
        let ghost w0 = window(p, self.inputs@);
        proof {
            lemma_window_push(p, self.inputs@, input as int);
            lemma_sum_push(w0, input as int);
            lemma_i64_window_sum(w0);
        }
        self.data.push_back(input);
        self.total = self.total + input as i128;
        self.inputs = Ghost(self.inputs@.push(input as int));
        let ghost w1 = w0.push(input as int);
        if self.data.len() > self.period {
            let old_front = self.data.pop_front();
            match old_front {
                Some(v) => {
                    proof {
                        lemma_sum_drop_first(w1);
                    }
                    self.total = self.total - v as i128;
                },
                None => {},
            }
        }
        let ghost w = window(p, self.inputs@);
        assert forall|i: int| 0 <= i < self.data@.len() implies self.data@[i] as int
            == #[trigger] window(p, self.inputs@)[i] by {
            if w1.len() > p {
                assert(w[i] == w1[i + 1]);
            } else {
                assert(w[i] == w1[i]);
            }
        }
        let n = self.data.len();
        proof {
            assert(w.len() > 0);
            assert forall|i: int| 0 <= i < w.len() implies i64::MIN <= #[trigger] w[i] <= i64::MAX by {
                assert(self.data@[i] as int == w[i]);
            }
            lemma_mean_i64(w);
        }
        let m = div_trunc(self.total, n as i128);
        m as i64
    }
}

proof fn lemma_mean_i64(s: Seq<int>)
    requires
        0 < s.len() <= MAX_PERIOD,
        forall|i: int| 0 <= i < s.len() ==> i64::MIN <= #[trigger] s[i] <= i64::MAX,
    ensures
        i64::MIN <= mean(s) <= i64::MAX,
        -0x1_0000_0000_0000_0000_0000_0000 <= sum(s) <= 0x1_0000_0000_0000_0000_0000_0000,
{
    lemma_i64_window_sum(s);
    lemma_sum_bounds(s, i64::MIN as int, i64::MAX as int);
    lemma_tdiv_bounds(sum(s), s.len() as int, i64::MIN as int, i64::MAX as int);
}

} // verus!
