use vstd::prelude::*;
use crate::num::{clamp, clamp_to, div_trunc, tdiv, LIMIT, ONE};

verus! {

/// Relative change from `last` to `x`, in fixed point and limited to
/// `[-LIMIT, LIMIT]`; 0 when `last` is 0, where the ratio is undefined.
pub open spec fn pct_change(last: int, x: int) -> int {
    if last == 0 {
        0
    } else {
        clamp(tdiv((x - last) * ONE, last), LIMIT as int)
    }
}

/// Percent change between consecutive inputs.
#[derive(Clone, Copy)]
pub struct Change {
    last: Option<i64>,
}

impl Change {
    /// The previous input, if there was one.
    pub closed spec fn last(&self) -> Option<int> {
        match self.last {
            Some(v) => Some(v as int),
            None => None,
        }
    }

    pub fn new() -> (r: Self)
        ensures
            r.last() == None::<int>,
    {
        Change { last: None }
    }

    /// Whether a previous input exists, so that a change can be measured.
    pub fn is_warm(&self) -> (r: bool)
        ensures
            r == self.last().is_some(),
    {
        self.last.is_some()
    }

    /// Feeds `input`; returns `(input - last) / last`, or 0 on the first call.
    pub fn run(&mut self, input: i64) -> (r: i64)
        ensures
            final(self).last() == Some(input as int),
            r == match old(self).last() {
                None => 0,
                Some(l) => pct_change(l, input as int),
            },
            -LIMIT <= r <= LIMIT,
    {
        let out = match self.last {
            None => 0,
            Some(last) => {
                if last == 0 {
                    0
                } else {
                    let delta: i128 = input as i128 - last as i128;
                    assert(-0x1_0000_0000_0000_0000_0000_0000 <= delta * ONE
                        <= 0x1_0000_0000_0000_0000_0000_0000) by (nonlinear_arith)
                        requires
                            -0x2_0000_0000_0000_0000 <= delta <= 0x2_0000_0000_0000_0000,
                            ONE == 1_000_000,
                    ;
                    let diff: i128 = delta * ONE as i128;
                    clamp_to(div_trunc(diff, last as i128), LIMIT)
                }
            },
        };
        self.last = Some(input);
        out
    }
}

} // verus!
