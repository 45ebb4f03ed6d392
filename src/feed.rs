//! Candles and the per-asset stream buffers and synchronizer that deliver
//! them gap-free and time-aligned.
//!
//! Fetching and sleeping happen outside: a buffer says how long to wait and
//! which window to request, and absorbs whatever batch came back.
use std::collections::VecDeque;
use vstd::prelude::*;
use crate::coin::Coin;

verus! {

/// One asset's price summary over one interval. `close` and `volume` are
/// fixed-point (see `num::ONE`); `time` is the interval's start in seconds.
#[derive(Debug, Clone, Copy, PartialEq, Eq, Structural)]
pub struct Candle {
    pub close: i64,
    pub volume: i64,
    pub time: i64,
}

/// Largest magnitude of a timestamp, in seconds (2^43, beyond any calendar date in use).
pub const TIME_LIMIT: i64 = 8_796_093_022_208;

/// Longest interval, in seconds (2^20).
pub const MAX_INTERVAL: i64 = 1_048_576;

/// Intervals requested before the next expected timestamp.
pub const BATCH_BEFORE: i64 = 5;

/// Intervals requested from the next expected timestamp on; also the number
/// of candles flat-filled when a request returns nothing.
pub const BATCH_AFTER: i64 = 4995;

/// Most candles one request asks for.
pub const BATCH_SIZE: u32 = 5000;

/// Upper bound of a buffer's next expected timestamp (2^44).
pub const NEXT_CAP: i64 = 17_592_186_044_416;

/// Why a batch could not be absorbed.
#[derive(Debug, Clone, Copy, PartialEq, Eq, Structural)]
pub enum FillError {
    /// A gap must be filled but no candle is known yet.
    NoHistory,
    /// A candle lies between two interval boundaries.
    Misaligned,
}

/// Candles of different timestamps were about to be treated as one step.
#[derive(Debug, Clone, Copy, PartialEq, Eq, Structural)]
pub enum SyncError {
    Misaligned,
}

/// `c` is `t` rounded down to a multiple of `i`.
pub open spec fn floor_to(c: int, t: int, i: int) -> bool {
    c <= t < c + i && c % i == 0
}

/// `n` copies of `l`'s close and volume, at `from`, `from + i`, ...
pub open spec fn fills(l: Candle, from: int, i: int, n: nat) -> Seq<Candle> {
    Seq::new(n, |k: int| Candle { close: l.close, volume: l.volume, time: (from + k * i) as i64 })
}

/// What a buffer's reconciliation reads and writes: queued candles, the next
/// expected timestamp and the last known candle.
pub type FeedState = (Seq<Candle>, int, Option<Candle>);

/// Reconciles one fetched candle: drops it if stale, queues it if expected,
/// and first flat-fills the gap before it if it is ahead.
pub open spec fn absorb_one(s: FeedState, c: Candle, i: int) -> Result<FeedState, FillError> {
    let (q, t, l) = s;
    if c.time < t {
        Ok(s)
    } else if c.time == t {
        Ok((q.push(c), t + i, Some(c)))
    } else if (c.time - t) % i != 0 {
        Err(FillError::Misaligned)
    } else {
        match l {
            None => Err(FillError::NoHistory),
            Some(lc) => Ok(
                (
                    q + fills(lc, t, i, ((c.time - t) / i) as nat) + seq![c],
                    c.time + i,
                    Some(c),
                ),
            ),
        }
    }
}

/// Reconciles a batch, candle by candle; the first error stops it.
pub open spec fn absorb_all(s: FeedState, cs: Seq<Candle>, i: int) -> Result<FeedState, FillError>
    decreases cs.len(),
{
    if cs.len() == 0 {
        Ok(s)
    } else {
        match absorb_all(s, cs.drop_last(), i) {
            Ok(s1) => absorb_one(s1, cs.last(), i),
            Err(e) => Err(e),
        }
    }
}

/// Reconciles a fetched batch; an empty batch flat-fills the whole window
/// after the next expected timestamp from the last known candle.
pub open spec fn absorb_batch(s: FeedState, cs: Seq<Candle>, i: int) -> Result<FeedState, FillError> {
    if cs.len() == 0 {
        let (q, t, l) = s;
        match l {
            None => Err(FillError::NoHistory),
            Some(lc) => Ok((q + fills(lc, t, i, BATCH_AFTER as nat), t + BATCH_AFTER * i, l)),
        }
    } else {
        absorb_all(s, cs, i)
    }
}

proof fn lemma_absorb_all_err(s: FeedState, cs: Seq<Candle>, i: int, n: int, e: FillError)
    requires
        0 <= n <= cs.len(),
        absorb_all(s, cs.take(n), i) == Err::<FeedState, FillError>(e),
    ensures
        absorb_all(s, cs, i) == Err::<FeedState, FillError>(e),
    decreases cs.len() - n,
{
    if n < cs.len() {
        assert(cs.take(n + 1).drop_last() =~= cs.take(n));
        lemma_absorb_all_err(s, cs, i, n + 1, e);
    } else {
        assert(cs.take(n) =~= cs);
    }
}

/// When a request returns nothing, reconciliation appends one candle per
/// interval of the window after the queued ones: each carries the last known
/// candle's close and volume, the first at the next expected timestamp and
/// each later one an interval after the one before.
pub proof fn lemma_empty_batch_flat_fill(s: FeedState, i: int, l: Candle)
    requires
        s.2 == Some(l),
        0 < i <= MAX_INTERVAL,
        -TIME_LIMIT <= s.1 <= TIME_LIMIT,
    ensures
        absorb_batch(s, Seq::<Candle>::empty(), i) == Ok::<FeedState, FillError>(
            (s.0 + fills(l, s.1, i, BATCH_AFTER as nat), s.1 + BATCH_AFTER * i, Some(l)),
        ),
        forall|k: int|
            0 <= k < BATCH_AFTER ==> {
                &&& (#[trigger] fills(l, s.1, i, BATCH_AFTER as nat)[k]).close == l.close
                &&& fills(l, s.1, i, BATCH_AFTER as nat)[k].volume == l.volume
                &&& fills(l, s.1, i, BATCH_AFTER as nat)[k].time == s.1 + k * i
            },
{
    assert forall|k: int| 0 <= k < BATCH_AFTER implies (#[trigger] fills(
        l,
        s.1,
        i,
        BATCH_AFTER as nat,
    )[k]).time == s.1 + k * i by {
        assert(0 <= k * i <= BATCH_AFTER * MAX_INTERVAL) by (nonlinear_arith)
            requires
                0 <= k < BATCH_AFTER,
                0 < i <= MAX_INTERVAL,
        ;
    }
}

/// Stream buffer of one asset: hands out its candles strictly in order, one
/// interval apart, from the start time on.
pub struct Buf {
    coin: Coin,
    interval: i64,
    curr: i64,
    buf: VecDeque<Candle>,
    last: Option<Candle>,
    realtime: bool,
    start: Ghost<int>,
    emitted: Ghost<nat>,
    latest: Ghost<Option<Candle>>,
}

impl Buf {
    pub closed spec fn coin(&self) -> Coin {
        self.coin
    }

    pub closed spec fn interval(&self) -> int {
        self.interval as int
    }

    /// Timestamp of the first candle of the stream.
    pub closed spec fn start(&self) -> int {
        self.start@
    }

    /// Candles handed out so far.
    pub closed spec fn emitted(&self) -> nat {
        self.emitted@
    }

    pub closed spec fn queue(&self) -> Seq<Candle> {
        self.buf@
    }

    /// Timestamp of the next candle to be queued.
    pub closed spec fn next_expected(&self) -> int {
        self.curr as int
    }

    pub closed spec fn last_known(&self) -> Option<Candle> {
        self.last
    }

    pub closed spec fn realtime(&self) -> bool {
        self.realtime
    }

    /// The candle queued most recently, real or flat-filled.
    pub closed spec fn latest(&self) -> Option<Candle> {
        self.latest@
    }

    pub open spec fn state(&self) -> FeedState {
        (self.queue(), self.next_expected(), self.last_known())
    }

    pub closed spec fn wf(&self) -> bool {
        &&& 0 < self.interval <= MAX_INTERVAL
        &&& -TIME_LIMIT - MAX_INTERVAL <= self.start@
        &&& self.curr <= NEXT_CAP
        &&& self.curr == self.start@ + (self.emitted@ + self.buf@.len()) * self.interval
        &&& forall|k: int|
            0 <= k < self.buf@.len() ==> (#[trigger] self.buf@[k]).time == self.start@ + (
            self.emitted@ + k) * self.interval
        &&& self.buf@.len() > 0 ==> self.latest@ == Some(self.buf@.last())
        &&& self.latest@.is_some() == self.last.is_some()
        &&& self.latest@ matches Some(t) ==> {
            &&& t.time == self.curr - self.interval
            &&& self.last.unwrap().close == t.close
            &&& self.last.unwrap().volume == t.volume
        }
    }

    /// The buffer's timeline: queued candles sit one interval apart right
    /// after those already handed out, the next expected timestamp follows
    /// them, and the most recent candle carries the last known close and
    /// volume one interval before it.
    pub proof fn lemma_timeline(&self)
        requires
            self.wf(),
        ensures
            0 < self.interval() <= MAX_INTERVAL,
            self.next_expected() == self.start() + (self.emitted() + self.queue().len()) * self.interval(),
            forall|k: int|
                0 <= k < self.queue().len() ==> (#[trigger] self.queue()[k]).time == self.start() + (
                self.emitted() + k) * self.interval(),
            self.queue().len() > 0 ==> self.latest() == Some(self.queue().last()),
            self.latest().is_some() == self.last_known().is_some(),
            self.latest() matches Some(t) ==> {
                &&& t.time == self.next_expected() - self.interval()
                &&& self.last_known().unwrap().close == t.close
                &&& self.last_known().unwrap().volume == t.volume
            },
    {
    }

    /// A buffer whose stream starts at `from` rounded down to the interval.
    pub fn new(coin: Coin, from: i64, interval: i64) -> (r: Self)
        requires
            0 < interval <= MAX_INTERVAL,
            -TIME_LIMIT <= from <= TIME_LIMIT,
        ensures
            r.wf(),
            r.coin() == coin,
            r.interval() == interval,
            floor_to(r.start(), from as int, interval as int),
            r.next_expected() == r.start(),
            r.emitted() == 0,
            r.queue() == Seq::<Candle>::empty(),
            r.last_known() == None::<Candle>,
            r.latest() == None::<Candle>,
            !r.realtime(),
    {
        let curr = round_down(from, interval);
        assert((0nat + 0nat) * interval == 0) by (nonlinear_arith);
        Buf {
            coin,
            interval,
            curr,
            buf: VecDeque::new(),
            last: None,
            realtime: false,
            start: Ghost(curr as int),
            emitted: Ghost(0),
            latest: Ghost(None),
        }
    }

    pub fn get_coin(&self) -> (r: Coin)
        ensures
            r == self.coin(),
    {
        self.coin
    }

    pub fn next_time(&self) -> (r: i64)
        ensures
            r == self.next_expected(),
    {
        self.curr
    }

    pub fn is_realtime(&self) -> (r: bool)
        ensures
            r == self.realtime(),
    {
        self.realtime
    }

    pub fn is_empty(&self) -> (r: bool)
        ensures
            r == (self.queue().len() == 0),
    {
        self.buf.len() == 0
    }

    /// Seconds to wait, at time `now`, until the next expected candle is one
    /// interval in the past; any wait marks the buffer as caught up with the
    /// live market.
    pub fn wait_seconds(&mut self, now: i64) -> (r: i64)
        requires
            old(self).wf(),
            -TIME_LIMIT <= now <= TIME_LIMIT,
        ensures
            final(self).wf(),
            final(self).state() == old(self).state(),
            final(self).coin() == old(self).coin(),
            final(self).interval() == old(self).interval(),
            final(self).start() == old(self).start(),
            final(self).emitted() == old(self).emitted(),
            r == if old(self).next_expected() - (now - old(self).interval()) > 0 {
                old(self).next_expected() - (now - old(self).interval())
            } else {
                0
            },
            final(self).realtime() == (old(self).realtime() || r > 0),
    {
        let d = self.curr - (now - self.interval);
        let w = if d > 0 { d } else { 0 };
        if w > 0 {
            self.realtime = true;
        }
        w
    }

    /// The time range to request: `BATCH_BEFORE` intervals before the next
    /// expected timestamp to `BATCH_AFTER` intervals after it.
    pub fn window(&self) -> (r: (i64, i64))
        requires
            self.wf(),
            -TIME_LIMIT <= self.next_expected() <= TIME_LIMIT,
        ensures
            r.0 == self.next_expected() - BATCH_BEFORE * self.interval(),
            r.1 == self.next_expected() + BATCH_AFTER * self.interval(),
    {
        (self.curr - BATCH_BEFORE * self.interval, self.curr + BATCH_AFTER * self.interval)
    }

    /// Hands out the earliest queued candle.
    pub fn pop(&mut self) -> (r: Option<Candle>)
        requires
            old(self).wf(),
        ensures
            final(self).wf(),
            final(self).coin() == old(self).coin(),
            final(self).interval() == old(self).interval(),
            final(self).start() == old(self).start(),
            final(self).next_expected() == old(self).next_expected(),
            final(self).last_known() == old(self).last_known(),
            final(self).realtime() == old(self).realtime(),
            old(self).queue().len() == 0 ==> r == None::<Candle> && final(self).queue() == old(self).queue()
                && final(self).emitted() == old(self).emitted(),
            old(self).queue().len() > 0 ==> r == Some(old(self).queue()[0]) && final(self).queue()
                == old(self).queue().drop_first() && final(self).emitted() == old(self).emitted() + 1,
            r matches Some(c) ==> c.time == old(self).start() + old(self).emitted() * old(self).interval(),
            final(self).latest() == old(self).latest(),
            old(self).queue().len() == 1 ==> r == old(self).latest(),
    {
        let r = self.buf.pop_front();
        if r.is_some() {
            self.emitted = Ghost(self.emitted@ + 1);
            proof {
                assert forall|k: int| 0 <= k < self.buf@.len() implies (#[trigger] self.buf@[k]).time
                    == self.start@ + (self.emitted@ + k) * self.interval by {
                    assert(self.buf@[k] == old(self).buf@[k + 1]);
                    assert(self.emitted@ + k == old(self).emitted@ + (k + 1));
                }
                assert(old(self).buf@[0].time == self.start@ + (old(self).emitted@ + 0) * self.interval);
            }
        }
        r
    }

    /// Queues `c`, which is the candle expected next.
    fn accept(&mut self, c: Candle)
        requires
            old(self).wf(),
            c.time == old(self).curr,
            old(self).curr <= TIME_LIMIT + MAX_INTERVAL,
        ensures
            final(self).wf(),
            final(self).coin == old(self).coin,
            final(self).interval == old(self).interval,
            final(self).start == old(self).start,
            final(self).emitted == old(self).emitted,
            final(self).realtime == old(self).realtime,
            final(self).buf@ == old(self).buf@.push(c),
            final(self).curr == old(self).curr + old(self).interval,
            final(self).last == Some(c),
    {
        self.buf.push_back(c);
        proof {
            let n = old(self).buf@.len();
            assert(self.curr + self.interval == self.start@ + (self.emitted@ + (n + 1)) * self.interval)
                by (nonlinear_arith)
                requires
                    self.curr == self.start@ + (self.emitted@ + n) * self.interval,
            ;
            assert forall|k: int| 0 <= k < self.buf@.len() implies (#[trigger] self.buf@[k]).time
                == self.start@ + (self.emitted@ + k) * self.interval by {
                if k < n {
                    assert(self.buf@[k] == old(self).buf@[k]);
                }
            }
        }
        self.curr = self.curr + self.interval;
        self.last = Some(c);
        self.latest = Ghost(Some(c));
    }

    /// Queues `count` copies of `l`'s close and volume at the next expected
    /// timestamps.
    fn flat_fill(&mut self, l: Candle, count: u64)
        requires
            old(self).wf(),
            old(self).last == Some(l),
            old(self).curr + count * old(self).interval <= TIME_LIMIT + BATCH_AFTER * MAX_INTERVAL,
        ensures
            final(self).wf(),
            final(self).coin == old(self).coin,
            final(self).interval == old(self).interval,
            final(self).start == old(self).start,
            final(self).emitted == old(self).emitted,
            final(self).realtime == old(self).realtime,
            final(self).last == old(self).last,
            final(self).buf@ == old(self).buf@ + fills(l, old(self).curr as int, old(self).interval as int, count as nat),
            final(self).curr == old(self).curr + count * old(self).interval,
    {
        let ghost t0 = self.curr as int;
        let ghost q0 = self.buf@;
        let ghost i = self.interval as int;
        let mut m: u64 = 0;
        while m < count
            invariant
                self.wf(),
                m <= count,
                self.interval == old(self).interval,
                self.coin == old(self).coin,
                self.start == old(self).start,
                self.emitted == old(self).emitted,
                self.realtime == old(self).realtime,
                self.last == old(self).last,
                self.last == Some(l),
                i == self.interval,
                t0 + count * i <= TIME_LIMIT + BATCH_AFTER * MAX_INTERVAL,
                self.curr == t0 + m * i,
                self.buf@ == q0 + fills(l, t0, i, m as nat),
            decreases count - m,
        {
            proof {
                assert(t0 + (m + 1) * i <= t0 + count * i) by (nonlinear_arith)
                    requires m + 1 <= count, i > 0;
                assert(t0 + (m + 1) * i == t0 + m * i + i) by (nonlinear_arith);
            }
            let f = Candle { close: l.close, volume: l.volume, time: self.curr };
            let ghost before = self.buf@;
            self.buf.push_back(f);
            self.latest = Ghost(Some(f));
            proof {
                let n = before.len();
                assert(self.curr + self.interval == self.start@ + (self.emitted@ + (n + 1)) * self.interval)
                    by (nonlinear_arith)
                    requires
                        self.curr == self.start@ + (self.emitted@ + n) * self.interval,
                ;
                assert forall|k: int| 0 <= k < self.buf@.len() implies (#[trigger] self.buf@[k]).time
                    == self.start@ + (self.emitted@ + k) * self.interval by {
                    if k < n {
                        assert(self.buf@[k] == before[k]);
                    }
                }
                assert(self.buf@ =~= q0 + fills(l, t0, i, (m + 1) as nat));
            }
            self.curr = self.curr + self.interval;
            assert(self.buf@.last() == f);
            assert(self.last == Some(l));
            m = m + 1;
        }
    }

    /// Reconciles one fetched candle (see `absorb_one`).
    fn absorb_candle(&mut self, c: Candle) -> (r: Result<(), FillError>)
        requires
            old(self).wf(),
            old(self).curr <= TIME_LIMIT + MAX_INTERVAL,
            -TIME_LIMIT <= c.time <= TIME_LIMIT,
        ensures
            final(self).wf(),
            final(self).coin == old(self).coin,
            final(self).interval == old(self).interval,
            final(self).start == old(self).start,
            final(self).emitted == old(self).emitted,
            final(self).realtime == old(self).realtime,
            final(self).curr <= TIME_LIMIT + MAX_INTERVAL,
            match absorb_one(old(self).state(), c, old(self).interval()) {
                Ok(s) => r == Ok::<(), FillError>(()) && final(self).state() == s,
                Err(e) => r == Err::<(), FillError>(e),
            },
    {
        if c.time < self.curr {
            Ok(())
        } else if c.time == self.curr {
            self.accept(c);
            Ok(())
        } else {
            let gap: u64 = (c.time - self.curr) as u64;
            let iu: u64 = self.interval as u64;
            if gap % iu != 0 {
                Err(FillError::Misaligned)
            } else {
                match self.last {
                    None => Err(FillError::NoHistory),
                    Some(l) => {
                        let count: u64 = gap / iu;
                        proof {
                            vstd::arithmetic::div_mod::lemma_fundamental_div_mod(gap as int, iu as int);
                            assert(count * iu == iu * count) by (nonlinear_arith);
                        }
                        let ghost q0 = self.buf@;
                        self.flat_fill(l, count);
                        self.accept(c);
                        assert(q0 + fills(l, old(self).curr as int, self.interval as int, count as nat)
                            + seq![c] =~= self.buf@);
                        Ok(())
                    },
                }
            }
        }
    }

    /// Reconciles a fetched batch (see `absorb_batch`): stale candles are
    /// dropped, the expected one is queued, gaps are flat-filled from the
    /// last known candle, and an empty batch flat-fills the whole window.
    /// After an error the buffer keeps what it reconciled before the
    /// offending candle, still gap-free.
    pub fn absorb(&mut self, batch: &Vec<Candle>) -> (r: Result<(), FillError>)
        requires
            old(self).wf(),
            -TIME_LIMIT <= old(self).next_expected() <= TIME_LIMIT,
            forall|k: int| 0 <= k < batch@.len() ==> -TIME_LIMIT <= #[trigger] batch@[k].time <= TIME_LIMIT,
        ensures
            final(self).wf(),
            final(self).coin() == old(self).coin(),
            final(self).interval() == old(self).interval(),
            final(self).start() == old(self).start(),
            final(self).emitted() == old(self).emitted(),
            final(self).realtime() == old(self).realtime(),
            match absorb_batch(old(self).state(), batch@, old(self).interval()) {
                Ok(s) => r == Ok::<(), FillError>(()) && final(self).state() == s,
                Err(e) => r == Err::<(), FillError>(e),
            },
    {
        if batch.len() == 0 {
            match self.last {
                None => Err(FillError::NoHistory),
                Some(l) => {
                    assert(BATCH_AFTER * self.interval <= BATCH_AFTER * MAX_INTERVAL) by (nonlinear_arith)
                        requires 0 < self.interval <= MAX_INTERVAL;
                    self.flat_fill(l, BATCH_AFTER as u64);
                    Ok(())
                },
            }
        } else {
            let ghost i = self.interval as int;
            let mut n: usize = 0;
            assert(batch@.take(0) =~= Seq::<Candle>::empty());
            while n < batch.len()
                invariant
                    self.wf(),
                    n <= batch@.len(),
                    i == self.interval,
                    self.coin == old(self).coin,
                    self.interval == old(self).interval,
                    self.start == old(self).start,
                    self.emitted == old(self).emitted,
                    self.realtime == old(self).realtime,
                    self.curr <= TIME_LIMIT + MAX_INTERVAL,
                    forall|k: int| 0 <= k < batch@.len() ==> -TIME_LIMIT <= #[trigger] batch@[k].time <= TIME_LIMIT,
                    absorb_all(old(self).state(), batch@.take(n as int), i) == Ok::<FeedState, FillError>(self.state()),
                decreases batch@.len() - n,
            {
                let res = self.absorb_candle(batch[n]);
                proof {
                    assert(batch@.take(n + 1).drop_last() =~= batch@.take(n as int));
                    assert(batch@.take(n + 1).last() == batch@[n as int]);
                }
                match res {
                    Ok(()) => {},
                    Err(e) => {
                        proof {
                            lemma_absorb_all_err(old(self).state(), batch@, i, n + 1, e);
                        }
                        return Err(e);
                    },
                }
                n = n + 1;
            }
            assert(batch@.take(batch@.len() as int) =~= batch@);
            Ok(())
        }
    }
}

/// `t` rounded down to a multiple of `i`.
fn round_down(t: i64, i: i64) -> (r: i64)
    requires
        0 < i <= MAX_INTERVAL,
        -TIME_LIMIT <= t <= TIME_LIMIT,
    ensures
        floor_to(r as int, t as int, i as int),
{
    if t >= 0 {
        let rem = (t as u64 % i as u64) as i64;
        proof {
            vstd::arithmetic::div_mod::lemma_fundamental_div_mod(t as int, i as int);
            vstd::arithmetic::div_mod::lemma_mod_multiples_basic(t as int / i as int, i as int);
            assert((t as int / i as int) * i == i * (t as int / i as int)) by (nonlinear_arith);
        }
        t - rem
    } else {
        let a: u64 = (-(t as i128)) as u64;
        let rem = (a % i as u64) as i64;
        proof {
            vstd::arithmetic::div_mod::lemma_fundamental_div_mod(a as int, i as int);
            let q = a as int / i as int;
            assert(q * i == i * q) by (nonlinear_arith);
            assert(-(q * i) == (-q) * i) by (nonlinear_arith);
            assert(-(q * i) - i == (-q - 1) * i) by (nonlinear_arith);
            vstd::arithmetic::div_mod::lemma_mod_multiples_basic(-q, i as int);
            vstd::arithmetic::div_mod::lemma_mod_multiples_basic(-q - 1, i as int);
        }
        if rem == 0 {
            t
        } else {
            t - (i - rem)
        }
    }
}

proof fn lemma_floor_to_unique(c1: int, c2: int, t: int, i: int)
    requires
        i > 0,
        floor_to(c1, t, i),
        floor_to(c2, t, i),
    ensures
        c1 == c2,
{
    vstd::arithmetic::div_mod::lemma_fundamental_div_mod(c1, i);
    vstd::arithmetic::div_mod::lemma_fundamental_div_mod(c2, i);
    let k1 = c1 / i;
    let k2 = c2 / i;
    assert(k1 == k2) by (nonlinear_arith)
        requires
            c1 == i * k1,
            c2 == i * k2,
            c1 - c2 < i,
            c2 - c1 < i,
            i > 0,
    ;
}

/// All candles carry one timestamp.
pub open spec fn same_time(cs: Seq<Candle>) -> bool {
    forall|k: int| 0 <= k < cs.len() ==> (#[trigger] cs[k]).time == cs[0].time
}

/// Accepts a step only if all its candles carry one timestamp; anything else
/// is a fatal inconsistency of the feed.
pub fn check_aligned(candles: &Vec<Candle>) -> (r: Result<(), SyncError>)
    ensures
        r.is_ok() <==> same_time(candles@),
{
    let n = candles.len();
    let mut k: usize = 0;
    while k < n
        invariant
            k <= n == candles@.len(),
            forall|kk: int| 0 <= kk < k ==> (#[trigger] candles@[kk]).time == candles@[0].time,
        decreases n - k,
    {
        if candles[k].time != candles[0].time {
            return Err(SyncError::Misaligned);
        }
        k = k + 1;
    }
    Ok(())
}

/// Candle synchronizer: one stream buffer per asset, all sharing a start
/// time and interval, so that every step hands out one candle per asset at
/// one timestamp.
pub struct Fetcher {
    bufs: Vec<Buf>,
    interval: Ghost<int>,
    start: Ghost<int>,
    emitted: Ghost<nat>,
}

impl Fetcher {
    pub closed spec fn bufs(&self) -> Seq<Buf> {
        self.bufs@
    }

    pub closed spec fn interval(&self) -> int {
        self.interval@
    }

    pub closed spec fn start(&self) -> int {
        self.start@
    }

    /// Steps handed out so far.
    pub closed spec fn emitted(&self) -> nat {
        self.emitted@
    }

    pub closed spec fn wf(&self) -> bool {
        forall|k: int|
            0 <= k < self.bufs@.len() ==> {
                &&& (#[trigger] self.bufs@[k]).wf()
                &&& self.bufs@[k].interval() == self.interval@
                &&& self.bufs@[k].start() == self.start@
                &&& self.bufs@[k].emitted() == self.emitted@
            }
    }

    pub fn new(coins: &[Coin], from: i64, interval: i64) -> (r: Self)
        requires
            0 < interval <= MAX_INTERVAL,
            -TIME_LIMIT <= from <= TIME_LIMIT,
        ensures
            r.wf(),
            r.interval() == interval,
            floor_to(r.start(), from as int, interval as int),
            r.emitted() == 0,
            r.bufs().len() == coins@.len(),
            forall|k: int|
                0 <= k < coins@.len() ==> {
                    let b = #[trigger] r.bufs()[k];
                    &&& b.coin() == coins@[k]
                    &&& b.interval() == interval
                    &&& b.start() == r.start()
                    &&& b.emitted() == 0
                    &&& b.next_expected() == r.start()
                    &&& b.queue().len() == 0
                    &&& b.last_known() == None::<Candle>
                    &&& !b.realtime()
                },
    {
        let first = round_down(from, interval);
        let ghost start = first as int;
        let mut bufs: Vec<Buf> = Vec::new();
        let mut k: usize = 0;
        while k < coins.len()
            invariant
                k <= coins@.len(),
                0 < interval <= MAX_INTERVAL,
                -TIME_LIMIT <= from <= TIME_LIMIT,
                floor_to(start, from as int, interval as int),
                bufs@.len() == k,
                forall|kk: int|
                    0 <= kk < k ==> {
                        &&& (#[trigger] bufs@[kk]).wf()
                        &&& bufs@[kk].interval() == interval
                        &&& bufs@[kk].start() == start
                        &&& bufs@[kk].emitted() == 0
                        &&& bufs@[kk].coin() == coins@[kk]
                        &&& bufs@[kk].queue().len() == 0
                        &&& bufs@[kk].last_known() == None::<Candle>
                        &&& bufs@[kk].next_expected() == start
                        &&& !bufs@[kk].realtime()
                    },
            decreases coins@.len() - k,
        {
            let b = Buf::new(coins[k], from, interval);
            proof {
                lemma_floor_to_unique(b.start(), start, from as int, interval as int);
            }
            bufs.push(b);
            k = k + 1;
        }
        Fetcher { bufs, interval: Ghost(interval as int), start: Ghost(start), emitted: Ghost(0) }
    }

    pub fn len(&self) -> (r: usize)
        ensures
            r == self.bufs().len(),
    {
        self.bufs.len()
    }

    /// Whether any buffer has had to wait for the live market.
    pub fn is_realtime(&self) -> (r: bool)
        ensures
            r == exists|k: int| 0 <= k < self.bufs().len() && (#[trigger] self.bufs()[k]).realtime(),
    {
        let mut k: usize = 0;
        while k < self.bufs.len()
            invariant
                k <= self.bufs@.len(),
                forall|kk: int| 0 <= kk < k ==> !(#[trigger] self.bufs@[kk]).realtime(),
            decreases self.bufs@.len() - k,
        {
            if self.bufs[k].is_realtime() {
                assert(self.bufs()[k as int].realtime());
                return true;
            }
            k = k + 1;
        }
        false
    }

    /// Indices of the buffers that have nothing queued and must fetch.
    pub fn pending(&self) -> (r: Vec<usize>)
        ensures
            forall|k: int| 0 <= k < r@.len() ==> (#[trigger] r@[k]) < self.bufs().len(),
            forall|k: int|
                0 <= k < self.bufs().len() ==> ((#[trigger] self.bufs()[k]).queue().len() == 0
                    <==> r@.contains(k as usize)),
    {
        let mut r: Vec<usize> = Vec::new();
        let mut k: usize = 0;
        while k < self.bufs.len()
            invariant
                k <= self.bufs@.len(),
                forall|kk: int| 0 <= kk < r@.len() ==> (#[trigger] r@[kk]) < k,
                forall|kk: int|
                    0 <= kk < k ==> ((#[trigger] self.bufs@[kk]).queue().len() == 0
                        <==> r@.contains(kk as usize)),
            decreases self.bufs@.len() - k,
        {
            let ghost before = r@;
            if self.bufs[k].is_empty() {
                r.push(k);
                assert(r@[before.len() as int] == k);
            }
            assert forall|kk: int| 0 <= kk < k + 1 implies ((#[trigger] self.bufs@[kk]).queue().len() == 0
                <==> r@.contains(kk as usize)) by {
                if kk < k {
                    if before.contains(kk as usize) {
                        let w = choose|w: int| 0 <= w < before.len() && before[w] == kk as usize;
                        assert(r@[w] == kk as usize);
                    }
                    if r@.contains(kk as usize) {
                        let w = choose|w: int| 0 <= w < r@.len() && r@[w] == kk as usize;
                        if w < before.len() {
                            assert(before[w] == kk as usize);
                        }
                    }
                } else if r@.contains(kk as usize) {
                    let w = choose|w: int| 0 <= w < r@.len() && r@[w] == kk as usize;
                    if w < before.len() {
                        assert(before[w] < k);
                    }
                }
            }
            k = k + 1;
        }
        r
    }

    /// Seconds buffer `k` must wait at `now` before fetching (see `Buf::wait_seconds`).
    pub fn wait_seconds(&mut self, k: usize, now: i64) -> (r: i64)
        requires
            old(self).wf(),
            k < old(self).bufs().len(),
            -TIME_LIMIT <= now <= TIME_LIMIT,
        ensures
            final(self).wf(),
            final(self).interval() == old(self).interval(),
            final(self).start() == old(self).start(),
            final(self).emitted() == old(self).emitted(),
            final(self).bufs().len() == old(self).bufs().len(),
            forall|j: int| 0 <= j < old(self).bufs().len() && j != k ==> #[trigger] final(self).bufs()[j] == old(self).bufs()[j],
            final(self).bufs()[k as int].state() == old(self).bufs()[k as int].state(),
            final(self).bufs()[k as int].coin() == old(self).bufs()[k as int].coin(),
            r == if old(self).bufs()[k as int].next_expected() - (now - old(self).interval()) > 0 {
                old(self).bufs()[k as int].next_expected() - (now - old(self).interval())
            } else {
                0
            },
            final(self).bufs()[k as int].realtime() == (old(self).bufs()[k as int].realtime() || r > 0),
    {
        self.bufs[k].wait_seconds(now)
    }

    /// Time range buffer `k` requests next (see `Buf::window`).
    pub fn window(&self, k: usize) -> (r: (i64, i64))
        requires
            self.wf(),
            k < self.bufs().len(),
            -TIME_LIMIT <= self.bufs()[k as int].next_expected() <= TIME_LIMIT,
        ensures
            r.0 == self.bufs()[k as int].next_expected() - BATCH_BEFORE * self.interval(),
            r.1 == self.bufs()[k as int].next_expected() + BATCH_AFTER * self.interval(),
    {
        self.bufs[k].window()
    }

    /// Next expected timestamp of buffer `k`.
    pub fn next_time(&self, k: usize) -> (r: i64)
        requires
            k < self.bufs().len(),
        ensures
            r == self.bufs()[k as int].next_expected(),
    {
        self.bufs[k].next_time()
    }

    pub fn coin(&self, k: usize) -> (r: Coin)
        requires
            k < self.bufs().len(),
        ensures
            r == self.bufs()[k as int].coin(),
    {
        self.bufs[k].get_coin()
    }

    /// Hands the batch fetched for buffer `k` to it (see `Buf::absorb`).
    pub fn absorb(&mut self, k: usize, batch: &Vec<Candle>) -> (r: Result<(), FillError>)
        requires
            old(self).wf(),
            k < old(self).bufs().len(),
            -TIME_LIMIT <= old(self).bufs()[k as int].next_expected() <= TIME_LIMIT,
            forall|j: int| 0 <= j < batch@.len() ==> -TIME_LIMIT <= #[trigger] batch@[j].time <= TIME_LIMIT,
        ensures
            final(self).wf(),
            final(self).interval() == old(self).interval(),
            final(self).start() == old(self).start(),
            final(self).emitted() == old(self).emitted(),
            final(self).bufs().len() == old(self).bufs().len(),
            forall|j: int| 0 <= j < old(self).bufs().len() && j != k ==> #[trigger] final(self).bufs()[j] == old(self).bufs()[j],
            final(self).bufs()[k as int].coin() == old(self).bufs()[k as int].coin(),
            match absorb_batch(old(self).bufs()[k as int].state(), batch@, old(self).interval()) {
                Ok(s) => r == Ok::<(), FillError>(()) && final(self).bufs()[k as int].state() == s,
                Err(e) => r == Err::<(), FillError>(e),
            },
    {
        self.bufs[k].absorb(batch)
    }

    /// Once every buffer holds a candle, takes one from each: they all carry
    /// the timestamp `start + emitted * interval`. Takes nothing and returns
    /// `None` while any buffer is empty.
    pub fn next(&mut self) -> (r: Option<Vec<Candle>>)
        requires
            old(self).wf(),
        ensures
            final(self).wf(),
            final(self).interval() == old(self).interval(),
            final(self).start() == old(self).start(),
            final(self).bufs().len() == old(self).bufs().len(),
            r.is_some() <==> forall|k: int| 0 <= k < old(self).bufs().len() ==> (#[trigger] old(self).bufs()[k]).queue().len() > 0,
            r.is_none() ==> *final(self) == *old(self),
            r matches Some(v) ==> {
                &&& v@.len() == old(self).bufs().len()
                &&& final(self).emitted() == old(self).emitted() + 1
                &&& forall|k: int| 0 <= k < v@.len() ==> {
                    &&& #[trigger] v@[k] == old(self).bufs()[k].queue()[0]
                    &&& v@[k].time == old(self).start() + old(self).emitted() * old(self).interval()
                    &&& final(self).bufs()[k].queue() == old(self).bufs()[k].queue().drop_first()
                    &&& final(self).bufs()[k].coin() == old(self).bufs()[k].coin()
                    &&& final(self).bufs()[k].next_expected() == old(self).bufs()[k].next_expected()
                    &&& final(self).bufs()[k].last_known() == old(self).bufs()[k].last_known()
                    &&& final(self).bufs()[k].realtime() == old(self).bufs()[k].realtime()
                    &&& final(self).bufs()[k].emitted() == old(self).bufs()[k].emitted() + 1
                }
                &&& same_time(v@)
            },
    {
        let n = self.bufs.len();
        let mut k: usize = 0;
        while k < n
            invariant
                k <= n == self.bufs@.len(),
                self.wf(),
                forall|kk: int| 0 <= kk < k ==> (#[trigger] self.bufs@[kk]).queue().len() > 0,
            decreases n - k,
        {
            if self.bufs[k].is_empty() {
                assert(old(self).bufs()[k as int].queue().len() == 0);
                return None;
            }
            k = k + 1;
        }
        let mut v: Vec<Candle> = Vec::new();
        let mut k: usize = 0;
        while k < n
            invariant
                k <= n == self.bufs@.len() == old(self).bufs@.len(),
                self.interval == old(self).interval,
                self.start == old(self).start,
                self.emitted == old(self).emitted,
                v@.len() == k,
                forall|kk: int| 0 <= kk < n ==> (#[trigger] old(self).bufs@[kk]).queue().len() > 0,
                forall|kk: int|
                    0 <= kk < n ==> {
                        &&& (#[trigger] old(self).bufs@[kk]).wf()
                        &&& old(self).bufs@[kk].interval() == self.interval@
                        &&& old(self).bufs@[kk].start() == self.start@
                        &&& old(self).bufs@[kk].emitted() == self.emitted@
                    },
                forall|kk: int|
                    0 <= kk < k ==> {
                        &&& #[trigger] v@[kk] == old(self).bufs@[kk].queue()[0]
                        &&& v@[kk].time == self.start@ + self.emitted@ * self.interval@
                        &&& self.bufs@[kk].wf()
                        &&& self.bufs@[kk].interval() == self.interval@
                        &&& self.bufs@[kk].start() == self.start@
                        &&& self.bufs@[kk].emitted() == self.emitted@ + 1
                        &&& self.bufs@[kk].queue() == old(self).bufs@[kk].queue().drop_first()
                    },
                forall|kk: int|
                    0 <= kk < k ==> {
                        &&& (#[trigger] self.bufs@[kk]).coin() == old(self).bufs@[kk].coin()
                        &&& self.bufs@[kk].next_expected() == old(self).bufs@[kk].next_expected()
                        &&& self.bufs@[kk].last_known() == old(self).bufs@[kk].last_known()
                        &&& self.bufs@[kk].realtime() == old(self).bufs@[kk].realtime()
                    },
                forall|kk: int| k <= kk < n ==> #[trigger] self.bufs@[kk] == old(self).bufs@[kk],
            decreases n - k,
        {
            assert(self.bufs@[k as int] == old(self).bufs@[k as int]);
            assert(old(self).bufs@[k as int].queue().len() > 0);
            let ghost v0 = v@;
            let ghost b0 = self.bufs@;
            let c = self.bufs[k].pop();
            assert(self.bufs@ == b0.update(k as int, self.bufs@[k as int]));
            match c {
                Some(c) => v.push(c),
                None => {},
            }
            assert forall|kk: int| 0 <= kk < k + 1 implies {
                &&& #[trigger] v@[kk] == old(self).bufs@[kk].queue()[0]
                &&& v@[kk].time == self.start@ + self.emitted@ * self.interval@
                &&& self.bufs@[kk].wf()
                &&& self.bufs@[kk].interval() == self.interval@
                &&& self.bufs@[kk].start() == self.start@
                &&& self.bufs@[kk].emitted() == self.emitted@ + 1
                &&& self.bufs@[kk].queue() == old(self).bufs@[kk].queue().drop_first()
                &&& self.bufs@[kk].coin() == old(self).bufs@[kk].coin()
                &&& self.bufs@[kk].next_expected() == old(self).bufs@[kk].next_expected()
                &&& self.bufs@[kk].last_known() == old(self).bufs@[kk].last_known()
                &&& self.bufs@[kk].realtime() == old(self).bufs@[kk].realtime()
            } by {
                if kk == k {
                    assert(self.bufs@[kk].next_expected() == b0[kk].next_expected());
                    assert(b0[kk] == old(self).bufs@[kk]);
                    assert(v@[kk] == old(self).bufs@[kk].queue()[0]);
                    assert(v@[kk].time == self.start@ + self.emitted@ * self.interval@);
                    assert(self.bufs@[kk].wf());
                }
                if kk < k {
                    assert(v@[kk] == v0[kk]);
                    assert(self.bufs@[kk] == b0[kk]);
                    assert(v0[kk] == old(self).bufs@[kk].queue()[0]);
                    assert(b0[kk].wf());
                    assert(b0[kk].emitted() == self.emitted@ + 1);
                    assert(b0[kk].queue() == old(self).bufs@[kk].queue().drop_first());
                }
            }
            k = k + 1;
        }
        self.emitted = Ghost(self.emitted@ + 1);
        assert forall|kk: int| 0 <= kk < self.bufs@.len() implies {
            &&& (#[trigger] self.bufs@[kk]).wf()
            &&& self.bufs@[kk].interval() == self.interval@
            &&& self.bufs@[kk].start() == self.start@
            &&& self.bufs@[kk].emitted() == self.emitted@
        } by {
            assert(v@[kk] == old(self).bufs@[kk].queue()[0]);
        }
        Some(v)
    }
}

} // verus!
