use std::collections::VecDeque;
use vstd::prelude::*;
use crate::num::{
    clamp, clamp_to, lemma_i64_window_sum, lemma_sum_drop_first, lemma_sum_push,
    lemma_window_push, sum, window, MAX_PERIOD,
};

verus! {

/// Sum of the last `period` inputs, saturating at the `i64` range
/// (`[-i64::MAX, i64::MAX]`).
pub struct Cum {
    data: VecDeque<i64>,
    total: i128,
    period: usize,
    inputs: Ghost<Seq<int>>,
}

impl Cum {
    pub closed spec fn period(&self) -> nat {
        self.period as nat
    }

    /// Every value fed so far, oldest first.
    pub closed spec fn inputs(&self) -> Seq<int> {
        self.inputs@
    }

    pub closed spec fn wf(&self) -> bool {
        &&& 1 <= self.period <= MAX_PERIOD
        &&& self.data@.len() == window(self.period as nat, self.inputs@).len()
        &&& forall|i: int|
            0 <= i < self.data@.len() ==> self.data@[i] as int == #[trigger] window(
                self.period as nat,
                self.inputs@,
            )[i]
        &&& self.total == sum(window(self.period as nat, self.inputs@))
    }

    pub fn new(period: usize) -> (r: Self)
        requires
            1 <= period <= MAX_PERIOD,
        ensures
            r.wf(),
            r.period() == period,
            r.inputs() == Seq::<int>::empty(),
    {
        Cum { data: VecDeque::new(), total: 0, period, inputs: Ghost(Seq::empty()) }
    }

    /// Feeds `input`; returns the sum of the last `period` inputs, the oldest
    /// dropped as soon as the window is exceeded.
    pub fn run(&mut self, input: i64) -> (r: i64)
        requires
            old(self).wf(),
        ensures
            final(self).wf(),
            final(self).period() == old(self).period(),
            final(self).inputs() == old(self).inputs().push(input as int),
            r == clamp(sum(window(final(self).period(), final(self).inputs())), i64::MAX as int),
    {
        let ghost p = self.period as nat;
        let ghost w0 = window(p, self.inputs@);
        proof {
            lemma_window_push(p, self.inputs@, input as int);
            lemma_sum_push(w0, input as int);
            assert forall|i: int| 0 <= i < w0.len() implies i64::MIN <= #[trigger] w0[i] <= i64::MAX by {
                assert(self.data@[i] as int == w0[i]);
            }
            lemma_i64_window_sum(w0);
        }
        self.data.push_back(input);
        self.total = self.total + input as i128;
        self.inputs = Ghost(self.inputs@.push(input as int));
        let ghost w1 = w0.push(input as int);
        if self.data.len() > self.period {
            let old_front = self.data.pop_front();
            match old_front {
                Some(v) => {
                    proof {
                        lemma_sum_drop_first(w1);
                    }
                    self.total = self.total - v as i128;
                },
                None => {},
            }
        }
        let ghost w = window(p, self.inputs@);
        assert forall|i: int| 0 <= i < self.data@.len() implies self.data@[i] as int
            == #[trigger] window(p, self.inputs@)[i] by {
            if w1.len() > p {
                assert(w[i] == w1[i + 1]);
            } else {
                assert(w[i] == w1[i]);
            }
        }
        proof {
            assert forall|i: int| 0 <= i < w.len() implies i64::MIN <= #[trigger] w[i] <= i64::MAX by {
                assert(self.data@[i] as int == w[i]);
            }
            lemma_i64_window_sum(w);
        }
        clamp_to(self.total, i64::MAX)
    }
}

/// Unbounded running total, saturating at the `i64` range
/// (`[-i64::MAX, i64::MAX]`).
#[derive(Clone, Copy)]
pub struct Total {
    total: i64,
}

impl Total {
    pub closed spec fn value(&self) -> int {
        self.total as int
    }

    pub fn new() -> (r: Self)
        ensures
            r.value() == 0,
    {
        Total { total: 0 }
    }

    /// Adds `input` to the total; returns the new total.
    pub fn run(&mut self, input: i64) -> (r: i64)
        ensures
            final(self).value() == clamp(old(self).value() + input, i64::MAX as int),
            r == final(self).value(),
    {
        self.total = clamp_to(self.total as i128 + input as i128, i64::MAX);
        self.total
    }
}

} // verus!
