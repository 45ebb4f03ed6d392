//! Signal units: per-asset trend-removed momentum, the pairwise state machine
//! that decides entries and exits, and the engine that runs them all.
use vstd::prelude::*;
use crate::coin::Coin;
use crate::feed::Candle;
use crate::indicators::change::{pct_change, Change};
use crate::indicators::corr::{correlation, Corr};
use crate::indicators::cum::Cum;
use crate::indicators::sma::Sma;
use crate::indicators::stdev::{bounded, stdev_of, Stdev};
use crate::num::{
    abs, clamp, clamp_to, lemma_mean_bounds, lemma_window_bounds, mean, sum, window, LIMIT, MAX_PERIOD, ONE,
    STAT_LIMIT,
};

verus! {

/// Percent change of each price from the one before; 0 for the first.
pub open spec fn changes(prices: Seq<int>) -> Seq<int> {
    Seq::new(
        prices.len(),
        |k: int| if k == 0 { 0 } else { pct_change(prices[k - 1], prices[k]) },
    )
}

/// Cumulative sum over window `p` after each input.
pub open spec fn cums(p: nat, cs: Seq<int>) -> Seq<int> {
    Seq::new(cs.len(), |k: int| clamp(sum(window(p, cs.take(k + 1))), LIMIT as int))
}

/// Latest cumulative momentum of a price history; 0 before any price.
pub open spec fn momentum(cp: nat, prices: Seq<int>) -> int {
    if prices.len() == 0 {
        0
    } else {
        cums(cp, changes(prices)).last()
    }
}

/// Latest momentum minus the moving average of momentum; 0 before any price.
pub open spec fn trend_removed(cp: nat, tp: nat, prices: Seq<int>) -> int {
    if prices.len() == 0 {
        0
    } else {
        momentum(cp, prices) - mean(window(tp, cums(cp, changes(prices))))
    }
}

proof fn lemma_cums_push(p: nat, cs: Seq<int>, c: int)
    ensures
        cums(p, cs.push(c)) =~= cums(p, cs).push(
            clamp(sum(window(p, cs.push(c))), LIMIT as int),
        ),
{
    let ds = cs.push(c);
    assert(ds.take(ds.len() as int) =~= ds);
    assert forall|k: int| 0 <= k < cs.len() implies #[trigger] ds.take(k + 1) =~= cs.take(k + 1) by {}
}

/// Per-asset signal unit: turns each close price into cumulative momentum
/// and its deviation from trend.
pub struct Single {
    coin: Coin,
    change: Change,
    cum: Cum,
    trend: Sma,
    cum_out: i64,
    trend_out: i64,
    prices: Ghost<Seq<int>>,
}

impl Single {
    pub closed spec fn coin(&self) -> Coin {
        self.coin
    }

    pub closed spec fn cum_period(&self) -> nat {
        self.cum.period()
    }

    pub closed spec fn trend_period(&self) -> nat {
        self.trend.period()
    }

    /// Every close price fed so far, oldest first.
    pub closed spec fn prices(&self) -> Seq<int> {
        self.prices@
    }

    pub closed spec fn cum_value(&self) -> int {
        self.cum_out as int
    }

    pub closed spec fn trend_value(&self) -> int {
        self.trend_out as int
    }

    pub closed spec fn wf(&self) -> bool {
        &&& self.cum.wf()
        &&& self.trend.wf()
        &&& self.change.last() == (if self.prices@.len() == 0 {
            None
        } else {
            Some(self.prices@.last())
        })
        &&& self.cum.inputs() == changes(self.prices@)
        &&& self.trend.inputs() == cums(self.cum.period(), changes(self.prices@))
        &&& self.cum_out == momentum(self.cum.period(), self.prices@)
        &&& self.trend_out == trend_removed(self.cum.period(), self.trend.period(), self.prices@)
        &&& -LIMIT <= self.cum_out <= LIMIT
        &&& -2 * LIMIT <= self.trend_out <= 2 * LIMIT
    }

    pub fn new(coin: Coin, cum_period: usize, trend_period: usize) -> (r: Self)
        requires
            1 <= cum_period <= MAX_PERIOD,
            1 <= trend_period <= MAX_PERIOD,
        ensures
            r.wf(),
            r.coin() == coin,
            r.cum_period() == cum_period,
            r.trend_period() == trend_period,
            r.prices() == Seq::<int>::empty(),
            r.cum_value() == 0,
            r.trend_value() == 0,
    {
        let r = Single {
            coin,
            change: Change::new(),
            cum: Cum::new(cum_period),
            trend: Sma::new(trend_period),
            cum_out: 0,
            trend_out: 0,
            prices: Ghost(Seq::empty()),
        };
        assert(changes(Seq::<int>::empty()) =~= Seq::<int>::empty());
        assert(cums(cum_period as nat, Seq::<int>::empty()) =~= Seq::<int>::empty());
        r
    }

    /// Feeds the candle's close price and updates both outputs.
    pub fn compute_cum(&mut self, candle: &Candle)
        requires
            old(self).wf(),
        ensures
            final(self).wf(),
            final(self).coin() == old(self).coin(),
            final(self).cum_period() == old(self).cum_period(),
            final(self).trend_period() == old(self).trend_period(),
            final(self).prices() == old(self).prices().push(candle.close as int),
            final(self).cum_value() == momentum(final(self).cum_period(), final(self).prices()),
            final(self).trend_value() == trend_removed(
                final(self).cum_period(),
                final(self).trend_period(),
                final(self).prices(),
            ),
    {
        let ghost cp = self.cum.period();
        let ghost tp = self.trend.period();
        let ghost ps = self.prices@;
        let ghost qs = ps.push(candle.close as int);
        let c = self.change.run(candle.close);
        proof {
            assert(changes(qs) =~= changes(ps).push(c as int));
        }
        let total = self.cum.run(c);
        let m = clamp_to(total as i128, LIMIT);
        proof {
            lemma_cums_push(cp, changes(ps), c as int);
        }
        let t = self.trend.run(m);
        proof {
            let ms = cums(cp, changes(qs));
            self.trend.lemma_period();
            lemma_window_bounds(tp, ms, LIMIT as int);
            lemma_mean_bounds(window(tp, ms), LIMIT as int);
        }
        self.prices = Ghost(qs);
        self.cum_out = m;
        self.trend_out = m - t;
    }

    /// Latest cumulative momentum.
    pub fn get_cum(&self) -> (r: i64)
        requires
            self.wf(),
        ensures
            r == self.cum_value(),
            r == momentum(self.cum_period(), self.prices()),
            -LIMIT <= r <= LIMIT,
    {
        self.cum_out
    }

    /// Latest trend-removed momentum.
    pub fn get_trend(&self) -> (r: i64)
        requires
            self.wf(),
        ensures
            r == self.trend_value(),
            r == trend_removed(self.cum_period(), self.trend_period(), self.prices()),
            -2 * LIMIT <= r <= 2 * LIMIT,
    {
        self.trend_out
    }

    pub fn get_coin(&self) -> (r: Coin)
        ensures
            r == self.coin(),
    {
        self.coin
    }
}

/// What a pair unit concluded on its latest step.
#[derive(Debug, Clone, Copy, PartialEq, Eq, Structural)]
pub enum Decision {
    Hold,
    Enter,
    Exit,
}

/// Windows, warm-up and thresholds of a pair unit. Thresholds are fixed point.
#[derive(Debug, Clone, Copy)]
pub struct PairConfig {
    /// Window of the momentum correlation.
    pub corr_period: usize,
    /// Window of the divergence dispersion.
    pub disp_period: usize,
    /// Steps during which no entry is allowed.
    pub cooldown: usize,
    /// Correlation that must be exceeded to enter.
    pub min_corr: i64,
    /// Multiple of the dispersion that the divergence must exceed to enter.
    pub spread: i64,
    /// Smallest divergence that allows an entry.
    pub min_diff: i64,
    /// Largest divergence that allows an entry.
    pub max_diff: i64,
}

impl PairConfig {
    pub open spec fn valid(&self) -> bool {
        &&& 1 <= self.corr_period <= MAX_PERIOD
        &&& 1 <= self.disp_period <= MAX_PERIOD
        &&& self.cooldown >= self.corr_period
        &&& self.cooldown >= self.disp_period
        &&& 0 <= self.spread
    }

    /// Correlation above 0.95, divergence above 2.5 dispersions and within
    /// `[0.05, 0.10]`, with a warm-up as long as the longer window.
    pub fn standard(corr_period: usize, disp_period: usize) -> (r: PairConfig)
        requires
            1 <= corr_period <= MAX_PERIOD,
            1 <= disp_period <= MAX_PERIOD,
        ensures
            r.valid(),
            r.corr_period == corr_period,
            r.disp_period == disp_period,
            r.cooldown == if corr_period >= disp_period { corr_period } else { disp_period },
            r.min_corr == 950_000,
            r.spread == 2_500_000,
            r.min_diff == 50_000,
            r.max_diff == 100_000,
    {
        PairConfig {
            corr_period,
            disp_period,
            cooldown: if corr_period >= disp_period { corr_period } else { disp_period },
            min_corr: 950_000,
            spread: 2_500_000,
            min_diff: 50_000,
            max_diff: 100_000,
        }
    }
}

/// Magnitude of each divergence.
pub open spec fn mags(divs: Seq<int>) -> Seq<int> {
    Seq::new(divs.len(), |k: int| abs(divs[k]))
}

/// Entry rule: armed, correlated enough, and a divergence that is both large
/// against its own dispersion and inside the configured band.
pub open spec fn entry_allowed(cfg: PairConfig, armed: bool, corr: int, mag: int, disp: int) -> bool {
    &&& armed
    &&& corr > cfg.min_corr
    &&& mag * ONE > cfg.spread * disp
    &&& cfg.min_diff <= mag <= cfg.max_diff
}

/// Exit rule: the divergence changed sign since the last step.
pub open spec fn exit_allowed(last: Option<int>, div: int) -> bool {
    match last {
        Some(l) => l * div < 0,
        None => false,
    }
}

/// Pair signal unit for an ordered pair of assets: tracks their momentum
/// correlation and the dispersion of their divergence, and after a warm-up
/// decides entries and exits.
pub struct Pair {
    config: PairConfig,
    corr: Corr,
    disp: Stdev,
    cooldown: usize,
    last: Option<i64>,
    curr: Option<i64>,
    decision: Decision,
    divs: Ghost<Seq<int>>,
}

impl Pair {
    pub closed spec fn config(&self) -> PairConfig {
        self.config
    }

    /// Steps left before entries are allowed.
    pub closed spec fn cooldown(&self) -> nat {
        self.cooldown as nat
    }

    /// Momenta of the long side fed so far.
    pub closed spec fn xs(&self) -> Seq<int> {
        self.corr.xs()
    }

    /// Momenta of the short side fed so far.
    pub closed spec fn ys(&self) -> Seq<int> {
        self.corr.ys()
    }

    /// Divergences seen so far, oldest first.
    pub closed spec fn divs(&self) -> Seq<int> {
        self.divs@
    }

    pub closed spec fn decision(&self) -> Decision {
        self.decision
    }

    pub closed spec fn wf(&self) -> bool {
        &&& self.config.valid()
        &&& self.corr.wf()
        &&& self.disp.wf()
        &&& self.corr.period() == self.config.corr_period
        &&& self.disp.period() == self.config.disp_period
        &&& self.disp.inputs() == mags(self.divs@)
        &&& bounded(self.divs@, STAT_LIMIT as int)
        &&& self.cooldown <= self.config.cooldown
        &&& self.curr == (if self.divs@.len() == 0 {
            None::<i64>
        } else {
            Some(self.divs@.last() as i64)
        })
        &&& self.divs@.len() > 0 ==> self.curr.unwrap() as int == self.divs@.last()
        &&& self.last == (if self.divs@.len() < 2 {
            None::<i64>
        } else {
            Some(self.divs@[self.divs@.len() - 2] as i64)
        })
        &&& self.divs@.len() >= 2 ==> self.last.unwrap() as int == self.divs@[self.divs@.len() - 2]
    }

    /// `next` is `self` after one step on these momenta and trends.
    #[verifier::opaque]
    pub open spec fn stepped(self, next: Pair, long_cum: int, short_cum: int, long_trend: int, short_trend: int) -> bool {
        let div = short_trend - long_trend;
        let divs = self.divs().push(div);
        &&& next.config() == self.config()
        &&& next.cooldown() == if self.cooldown() > 0 { self.cooldown() - 1 } else { 0 }
        &&& next.xs() == self.xs().push(long_cum)
        &&& next.ys() == self.ys().push(short_cum)
        &&& next.divs() == divs
        &&& next.decision() == if entry_allowed(
            self.config(),
            self.cooldown() == 0,
            correlation(self.config().corr_period as nat, next.xs(), next.ys()),
            abs(div),
            stdev_of(self.config().disp_period as nat, mags(divs)),
        ) {
            Decision::Enter
        } else if exit_allowed(
            if self.divs().len() == 0 { None } else { Some(self.divs().last()) },
            div,
        ) {
            Decision::Exit
        } else {
            Decision::Hold
        }
    }

    /// No step from a cooling-down unit enters, whatever its inputs.
    pub proof fn lemma_no_entry_in_cooldown(self, next: Pair, long_cum: int, short_cum: int, long_trend: int, short_trend: int)
        requires
            self.cooldown() > 0,
            self.stepped(next, long_cum, short_cum, long_trend, short_trend),
        ensures
            next.decision() != Decision::Enter,
    {
        reveal(Pair::stepped);
    }

    /// Two units that look alike and take the same step end alike and decide
    /// alike.
    pub proof fn lemma_step_deterministic(
        self,
        other: Pair,
        next: Pair,
        other_next: Pair,
        long_cum: int,
        short_cum: int,
        long_trend: int,
        short_trend: int,
    )
        requires
            self.config() == other.config(),
            self.cooldown() == other.cooldown(),
            self.xs() == other.xs(),
            self.ys() == other.ys(),
            self.divs() == other.divs(),
            self.stepped(next, long_cum, short_cum, long_trend, short_trend),
            other.stepped(other_next, long_cum, short_cum, long_trend, short_trend),
        ensures
            next.config() == other_next.config(),
            next.cooldown() == other_next.cooldown(),
            next.xs() == other_next.xs(),
            next.ys() == other_next.ys(),
            next.divs() == other_next.divs(),
            next.decision() == other_next.decision(),
    {
        reveal(Pair::stepped);
    }

    pub fn new(config: PairConfig) -> (r: Self)
        requires
            config.valid(),
        ensures
            r.wf(),
            r.config() == config,
            r.cooldown() == config.cooldown,
            r.xs() == Seq::<int>::empty(),
            r.ys() == Seq::<int>::empty(),
            r.divs() == Seq::<int>::empty(),
            r.decision() == Decision::Hold,
    {
        let r = Pair {
            config,
            corr: Corr::new(config.corr_period),
            disp: Stdev::new(config.disp_period),
            cooldown: config.cooldown,
            last: None,
            curr: None,
            decision: Decision::Hold,
            divs: Ghost(Seq::empty()),
        };
        assert(mags(Seq::<int>::empty()) =~= Seq::<int>::empty());
        r
    }

    /// Advances the unit by one step and returns its decision. No entry is
    /// ever returned while the cooldown has not run out.
    pub fn run(&mut self, long_cum: i64, short_cum: i64, long_trend: i64, short_trend: i64) -> (r: Decision)
        requires
            old(self).wf(),
            -LIMIT <= long_cum <= LIMIT,
            -LIMIT <= short_cum <= LIMIT,
            -2 * LIMIT <= long_trend <= 2 * LIMIT,
            -2 * LIMIT <= short_trend <= 2 * LIMIT,
        ensures
            final(self).wf(),
            final(self).config() == old(self).config(),
            old(self).stepped(*final(self), long_cum as int, short_cum as int, long_trend as int, short_trend as int),
            r == final(self).decision(),
            old(self).cooldown() > 0 ==> r != Decision::Enter,
    {
        reveal(Pair::stepped);
        let armed = self.cooldown == 0;
        if !armed {
            self.cooldown = self.cooldown - 1;
        }
        let corr = self.corr.run(long_cum, short_cum);
        let div: i64 = short_trend - long_trend;
        let mag: i64 = if div < 0 { -div } else { div };
        let ghost divs = self.divs@.push(div as int);
        let disp = self.disp.run(mag);
        proof {
            assert(mags(divs) =~= mags(self.divs@).push(mag as int));
        }
        let prev = self.curr;
        self.last = prev;
        self.curr = Some(div);
        self.divs = Ghost(divs);
        proof {
            assert(divs.last() == div as int);
            assert forall|i: int| 0 <= i < divs.len() implies -STAT_LIMIT <= #[trigger] divs[i] <= STAT_LIMIT by {
                if i < divs.len() - 1 {
                    assert(divs[i] == old(self).divs@[i]);
                }
            }
            assert(mag * ONE <= STAT_LIMIT * ONE) by (nonlinear_arith)
                requires 0 <= mag <= STAT_LIMIT, ONE > 0;
            assert(self.config.spread * disp <= 0x8000_0000_0000_0000 * 0x800_0000_0000) by (nonlinear_arith)
                requires
                    0 <= self.config.spread <= 0x8000_0000_0000_0000,
                    0 <= disp <= 0x800_0000_0000,
            ;
            assert(self.config.spread * disp >= 0) by (nonlinear_arith)
                requires
                    0 <= self.config.spread,
                    0 <= disp,
            ;
            if let Some(l) = prev {
                assert(-(STAT_LIMIT * STAT_LIMIT) <= l * div <= STAT_LIMIT * STAT_LIMIT) by (nonlinear_arith)
                    requires
                        -STAT_LIMIT <= l <= STAT_LIMIT,
                        -STAT_LIMIT <= div <= STAT_LIMIT,
                ;
            }
        }
        let enter = armed && corr > self.config.min_corr
            && mag as i128 * ONE as i128 > self.config.spread as i128 * disp as i128
            && self.config.min_diff <= mag && mag <= self.config.max_diff;
        let exit = match prev {
            Some(l) => (l as i128 * div as i128) < 0,
            None => false,
        };
        let d = if enter {
            Decision::Enter
        } else if exit {
            Decision::Exit
        } else {
            Decision::Hold
        };
        self.decision = d;
        d
    }
}

/// A trading action on a pair of assets.
#[derive(Debug, Clone, Copy, PartialEq, Eq, Structural)]
pub enum Action {
    Enter { long: Coin, short: Coin },
    Exit { long: Coin, short: Coin },
}

/// The pairs of asset indices `(i, j)`, `j < i < n`, in the order the engine
/// visits them: ascending `i`, then ascending `j`.
pub open spec fn pair_seq(n: nat) -> Seq<(int, int)>
    decreases n,
{
    if n == 0 {
        Seq::empty()
    } else {
        pair_seq((n - 1) as nat) + Seq::new((n - 1) as nat, |j: int| (n - 1, j))
    }
}

pub open spec fn order_view(v: Seq<(usize, usize)>) -> Seq<(int, int)> {
    Seq::new(v.len(), |k: int| (v[k].0 as int, v[k].1 as int))
}

pub proof fn lemma_pair_seq(n: nat)
    ensures
        forall|k: int|
            0 <= k < pair_seq(n).len() ==> 0 <= (#[trigger] pair_seq(n)[k]).1 < pair_seq(n)[k].0 < n,
    decreases n,
{
    if n > 0 {
        lemma_pair_seq((n - 1) as nat);
        let a = pair_seq((n - 1) as nat);
        let b = Seq::new((n - 1) as nat, |j: int| (n - 1, j));
        assert forall|k: int| 0 <= k < pair_seq(n).len() implies 0 <= (#[trigger] pair_seq(n)[k]).1
            < pair_seq(n)[k].0 < n by {
            if k < a.len() {
                assert(pair_seq(n)[k] == a[k]);
            } else {
                assert(pair_seq(n)[k] == b[k - a.len()]);
            }
        }
    }
}

/// The visiting order of all pairs of `n` assets (see `pair_seq`).
pub fn pair_order(n: usize) -> (r: Vec<(usize, usize)>)
    ensures
        order_view(r@) == pair_seq(n as nat),
{
    let mut r: Vec<(usize, usize)> = Vec::new();
    let mut i: usize = 0;
    while i < n
        invariant
            i <= n,
            order_view(r@) == pair_seq(i as nat),
        decreases n - i,
    {
        let mut j: usize = 0;
        while j < i
            invariant
                j <= i < n,
                order_view(r@) == pair_seq(i as nat) + Seq::new(j as nat, |jj: int| (i as int, jj)),
            decreases i - j,
        {
            let ghost before = r@;
            r.push((i, j));
            assert(order_view(r@) =~= order_view(before).push((i as int, j as int)));
            assert(pair_seq(i as nat) + Seq::new((j + 1) as nat, |jj: int| (i as int, jj))
                =~= (pair_seq(i as nat) + Seq::new(j as nat, |jj: int| (i as int, jj))).push((i as int, j as int)));
            j = j + 1;
        }
        assert(pair_seq((i + 1) as nat) == pair_seq(i as nat) + Seq::new(i as nat, |jj: int| (i as int, jj)));
        i = i + 1;
    }
    r
}

/// The action a decision of pair `(i, j)` stands for: on entry the asset with
/// the lower trend-removed momentum is bought; on exit the same position is
/// named, now that the momenta have crossed.
pub open spec fn action_for(d: Decision, ci: Coin, cj: Coin, ti: int, tj: int) -> Option<Action> {
    match d {
        Decision::Hold => None,
        Decision::Enter => if ti > tj {
            Some(Action::Enter { long: cj, short: ci })
        } else {
            Some(Action::Enter { long: ci, short: cj })
        },
        Decision::Exit => if ti < tj {
            Some(Action::Exit { long: cj, short: ci })
        } else {
            Some(Action::Exit { long: ci, short: cj })
        },
    }
}

fn make_action(d: Decision, ci: Coin, cj: Coin, ti: i64, tj: i64) -> (r: Option<Action>)
    ensures
        r == action_for(d, ci, cj, ti as int, tj as int),
{
    match d {
        Decision::Hold => None,
        Decision::Enter => if ti > tj {
            Some(Action::Enter { long: cj, short: ci })
        } else {
            Some(Action::Enter { long: ci, short: cj })
        },
        Decision::Exit => if ti < tj {
            Some(Action::Exit { long: cj, short: ci })
        } else {
            Some(Action::Exit { long: ci, short: cj })
        },
    }
}

/// The first present value of a sequence.
pub open spec fn first_some(s: Seq<Option<Action>>) -> Option<Action>
    decreases s.len(),
{
    if s.len() == 0 {
        None
    } else {
        match first_some(s.drop_last()) {
            Some(a) => Some(a),
            None => s.last(),
        }
    }
}

/// No coin occurs twice.
pub open spec fn distinct(coins: Seq<Coin>) -> bool {
    forall|i: int, j: int| 0 <= i < j < coins.len() ==> coins[i] != coins[j]
}

/// The two assets an action names.
pub open spec fn legs(a: Action) -> (Coin, Coin) {
    match a {
        Action::Enter { long, short } => (long, short),
        Action::Exit { long, short } => (long, short),
    }
}

/// Every present action of `s` names two different assets.
pub open spec fn all_two_legged(s: Seq<Option<Action>>) -> bool {
    forall|k: int| 0 <= k < s.len() ==> (#[trigger] s[k] matches Some(a) ==> legs(a).0 != legs(a).1)
}

proof fn lemma_first_some_two_legged(s: Seq<Option<Action>>)
    requires
        all_two_legged(s),
    ensures
        first_some(s) matches Some(a) ==> legs(a).0 != legs(a).1,
    decreases s.len(),
{
    if s.len() > 0 {
        let t = s.drop_last();
        assert forall|k: int| 0 <= k < t.len() implies (#[trigger] t[k] matches Some(a) ==> legs(a).0
            != legs(a).1) by {
            assert(t[k] == s[k]);
        }
        lemma_first_some_two_legged(t);
        assert(s[s.len() - 1] == s.last());
    }
}

/// Construction parameters of the signal engine.
#[derive(Debug, Clone, Copy)]
pub struct Config {
    /// Window of each asset's cumulative momentum.
    pub cum_period: usize,
    /// Window of the moving average subtracted from momentum.
    pub trend_period: usize,
    pub pair: PairConfig,
}

impl Config {
    pub open spec fn valid(&self) -> bool {
        &&& 1 <= self.cum_period <= MAX_PERIOD
        &&& 1 <= self.trend_period <= MAX_PERIOD
        &&& self.pair.valid()
    }

    /// One day of 15-second steps for momentum and trend, thirty days for the
    /// pair statistics and their warm-up.
    pub fn standard() -> (r: Config)
        ensures
            r.valid(),
            r.cum_period == 5760,
            r.trend_period == 5760,
            r.pair.corr_period == 172_800,
            r.pair.disp_period == 172_800,
            r.pair.cooldown == 172_800,
    {
        Config {
            cum_period: 5760,
            trend_period: 5760,
            pair: PairConfig::standard(172_800, 172_800),
        }
    }
}

/// Signal engine: one per-asset unit per asset and one pair unit per
/// unordered pair, advanced together once per aligned step.
pub struct Strategy {
    config: Config,
    coins: Vec<Coin>,
    singles: Vec<Single>,
    pairs: Vec<Pair>,
    order: Vec<(usize, usize)>,
}

impl Strategy {
    pub closed spec fn config(&self) -> Config {
        self.config
    }

    pub closed spec fn coins(&self) -> Seq<Coin> {
        self.coins@
    }

    pub closed spec fn singles(&self) -> Seq<Single> {
        self.singles@
    }

    pub closed spec fn pairs(&self) -> Seq<Pair> {
        self.pairs@
    }

    pub closed spec fn order(&self) -> Seq<(int, int)> {
        order_view(self.order@)
    }

    /// One asset unit per coin, the coins distinct, and one pair unit per
    /// unordered pair in the order of `pair_seq`.
    pub open spec fn shape_ok(&self) -> bool {
        &&& distinct(self.coins())
        &&& self.singles().len() == self.coins().len()
        &&& self.order() == pair_seq(self.coins().len() as nat)
        &&& self.pairs().len() == self.order().len()
    }

    pub closed spec fn wf(&self) -> bool {
        &&& self.config.valid()
        &&& distinct(self.coins@)
        &&& self.singles@.len() == self.coins@.len()
        &&& forall|i: int|
            0 <= i < self.singles@.len() ==> {
                &&& (#[trigger] self.singles@[i]).wf()
                &&& self.singles@[i].coin() == self.coins@[i]
                &&& self.singles@[i].cum_period() == self.config.cum_period
                &&& self.singles@[i].trend_period() == self.config.trend_period
            }
        &&& order_view(self.order@) == pair_seq(self.coins@.len() as nat)
        &&& self.pairs@.len() == self.order@.len()
        &&& forall|k: int|
            0 <= k < self.pairs@.len() ==> {
                &&& (#[trigger] self.pairs@[k]).wf()
                &&& self.pairs@[k].config() == self.config.pair
            }
    }

    /// What pair `k` asks for after the latest step, if anything.
    pub open spec fn candidate(&self, k: int) -> Option<Action> {
        let (i, j) = self.order()[k];
        action_for(
            self.pairs()[k].decision(),
            self.coins()[i],
            self.coins()[j],
            self.singles()[i].trend_value(),
            self.singles()[j].trend_value(),
        )
    }

    /// An engine over distinct `coins`: one asset unit per coin, and one pair
    /// unit per unordered pair of coins, N(N-1)/2 in all, laid out in the
    /// order of `pair_seq`, each with empty histories and a full cooldown.
    pub fn new(coins: &[Coin], config: Config) -> (r: Self)
        requires
            config.valid(),
            distinct(coins@),
        ensures
            r.wf(),
            r.shape_ok(),
            r.config() == config,
            r.coins() == coins@,
            forall|i: int|
                0 <= i < coins@.len() ==> {
                    let s = #[trigger] r.singles()[i];
                    &&& s.coin() == coins@[i]
                    &&& s.cum_period() == config.cum_period
                    &&& s.trend_period() == config.trend_period
                    &&& s.prices() == Seq::<int>::empty()
                    &&& s.cum_value() == 0
                    &&& s.trend_value() == 0
                },
            forall|k: int|
                0 <= k < r.pairs().len() ==> {
                    let p = #[trigger] r.pairs()[k];
                    &&& p.config() == config.pair
                    &&& p.cooldown() == config.pair.cooldown
                    &&& p.xs() == Seq::<int>::empty()
                    &&& p.ys() == Seq::<int>::empty()
                    &&& p.divs() == Seq::<int>::empty()
                    &&& p.decision() == Decision::Hold
                },
    {
        let n = coins.len();
        let mut cs: Vec<Coin> = Vec::new();
        let mut singles: Vec<Single> = Vec::new();
        let mut i: usize = 0;
        while i < n
            invariant
                i <= n == coins@.len(),
                config.valid(),
                cs@ == coins@.take(i as int),
                singles@.len() == i,
                forall|ii: int|
                    0 <= ii < i ==> {
                        &&& (#[trigger] singles@[ii]).wf()
                        &&& singles@[ii].coin() == coins@[ii]
                        &&& singles@[ii].cum_period() == config.cum_period
                        &&& singles@[ii].trend_period() == config.trend_period
                        &&& singles@[ii].prices() == Seq::<int>::empty()
                        &&& singles@[ii].cum_value() == 0
                        &&& singles@[ii].trend_value() == 0
                    },
            decreases n - i,
        {
            cs.push(coins[i]);
            singles.push(Single::new(coins[i], config.cum_period, config.trend_period));
            assert(cs@ =~= coins@.take(i + 1));
            i = i + 1;
        }
        assert(cs@ =~= coins@);
        let order = pair_order(n);
        let mut pairs: Vec<Pair> = Vec::new();
        let mut k: usize = 0;
        while k < order.len()
            invariant
                k <= order@.len(),
                config.valid(),
                pairs@.len() == k,
                forall|kk: int|
                    0 <= kk < k ==> {
                        &&& (#[trigger] pairs@[kk]).wf()
                        &&& pairs@[kk].config() == config.pair
                        &&& pairs@[kk].cooldown() == config.pair.cooldown
                        &&& pairs@[kk].xs() == Seq::<int>::empty()
                        &&& pairs@[kk].ys() == Seq::<int>::empty()
                        &&& pairs@[kk].divs() == Seq::<int>::empty()
                        &&& pairs@[kk].decision() == Decision::Hold
                    },
            decreases order@.len() - k,
        {
            pairs.push(Pair::new(config.pair));
            k = k + 1;
        }
        Strategy { config, coins: cs, singles, pairs, order }
    }

    /// Advances every asset unit with its candle, then every pair unit in
    /// the order of `pair_order`, and returns the first action asked for.
    pub fn run(&mut self, candles: &Vec<Candle>) -> (r: Option<Action>)
        requires
            old(self).wf(),
            candles@.len() == old(self).coins().len(),
        ensures
            final(self).wf(),
            final(self).shape_ok(),
            final(self).config() == old(self).config(),
            final(self).coins() == old(self).coins(),
            final(self).order() == old(self).order(),
            final(self).singles().len() == old(self).singles().len(),
            forall|i: int|
                0 <= i < old(self).singles().len() ==> {
                    let s = #[trigger] final(self).singles()[i];
                    &&& s.prices() == old(self).singles()[i].prices().push(candles@[i].close as int)
                    &&& s.cum_value() == momentum(old(self).config().cum_period as nat, s.prices())
                    &&& s.trend_value() == trend_removed(
                        old(self).config().cum_period as nat,
                        old(self).config().trend_period as nat,
                        s.prices(),
                    )
                },
            final(self).pairs().len() == old(self).pairs().len(),
            forall|k: int|
                0 <= k < old(self).pairs().len() ==> #[trigger] old(self).pairs()[k].stepped(
                    final(self).pairs()[k],
                    final(self).singles()[old(self).order()[k].1].cum_value(),
                    final(self).singles()[old(self).order()[k].0].cum_value(),
                    final(self).singles()[old(self).order()[k].1].trend_value(),
                    final(self).singles()[old(self).order()[k].0].trend_value(),
                ),
            r == first_some(Seq::new(final(self).pairs().len(), |k: int| final(self).candidate(k))),
            r matches Some(a) ==> legs(a).0 != legs(a).1,
    {
        let n = self.singles.len();
        let mut i: usize = 0;
        while i < n
            invariant
                i <= n == self.singles@.len() == candles@.len(),
                self.config == old(self).config,
                self.coins == old(self).coins,
                self.order == old(self).order,
                self.pairs == old(self).pairs,
                self.singles@.len() == old(self).singles@.len(),
                forall|ii: int|
                    0 <= ii < n ==> {
                        &&& (#[trigger] self.singles@[ii]).wf()
                        &&& self.singles@[ii].coin() == old(self).singles@[ii].coin()
                        &&& self.singles@[ii].cum_period() == old(self).singles@[ii].cum_period()
                        &&& self.singles@[ii].trend_period() == old(self).singles@[ii].trend_period()
                    },
                forall|ii: int|
                    0 <= ii < i ==> (#[trigger] self.singles@[ii]).prices()
                        == old(self).singles@[ii].prices().push(candles@[ii].close as int),
                forall|ii: int| i <= ii < n ==> #[trigger] self.singles@[ii] == old(self).singles@[ii],
            decreases n - i,
        {
            self.singles[i].compute_cum(&candles[i]);
            i = i + 1;
        }
        let ghost mid = *self;
        let np = self.pairs.len();
        proof {
            lemma_pair_seq(self.coins@.len() as nat);
            assert forall|kk: int| 0 <= kk < np implies 0 <= (#[trigger] order_view(self.order@)[kk]).1
                < order_view(self.order@)[kk].0 < self.coins@.len() by {
                assert(pair_seq(self.coins@.len() as nat)[kk] == order_view(self.order@)[kk]);
            }
        }
        let mut found: Option<Action> = None;
        let ghost mut cands: Seq<Option<Action>> = Seq::empty();
        let mut k: usize = 0;
        while k < np
            invariant
                k <= np == self.pairs@.len() == self.order@.len() == old(self).pairs@.len(),
                self.config == mid.config,
                self.coins == mid.coins,
                self.order == mid.order,
                self.singles == mid.singles,
                order_view(self.order@) == pair_seq(self.coins@.len() as nat),
                forall|kk: int|
                    0 <= kk < np ==> 0 <= (#[trigger] order_view(self.order@)[kk]).1 < order_view(
                        self.order@,
                    )[kk].0 < self.coins@.len(),
                self.singles@.len() == self.coins@.len(),
                forall|ii: int| 0 <= ii < self.singles@.len() ==> (#[trigger] self.singles@[ii]).wf(),
                forall|kk: int|
                    0 <= kk < np ==> {
                        &&& (#[trigger] self.pairs@[kk]).wf()
                        &&& self.pairs@[kk].config() == self.config.pair
                    },
                forall|kk: int|
                    0 <= kk < k ==> #[trigger] old(self).pairs@[kk].stepped(
                        self.pairs@[kk],
                        self.singles@[order_view(self.order@)[kk].1].cum_value(),
                        self.singles@[order_view(self.order@)[kk].0].cum_value(),
                        self.singles@[order_view(self.order@)[kk].1].trend_value(),
                        self.singles@[order_view(self.order@)[kk].0].trend_value(),
                    ),
                forall|kk: int| k <= kk < np ==> #[trigger] self.pairs@[kk] == old(self).pairs@[kk],
                cands.len() == k,
                forall|kk: int| 0 <= kk < k ==> #[trigger] cands[kk] == self.candidate(kk),
                found == first_some(cands),
                all_two_legged(cands),
                distinct(self.coins@),
            decreases np - k,
        {
            let (i, j) = self.order[k];
            assert(order_view(self.order@)[k as int] == (i as int, j as int));
            assert(pair_seq(self.coins@.len() as nat)[k as int] == (i as int, j as int));
            let lc = self.singles[j].get_cum();
            let sc = self.singles[i].get_cum();
            let lt = self.singles[j].get_trend();
            let st = self.singles[i].get_trend();
            let d = self.pairs[k].run(lc, sc, lt, st);
            let cand = make_action(d, self.coins[i], self.coins[j], st, lt);
            proof {
                assert(cand == self.candidate(k as int));
                assert(self.coins@[j as int] != self.coins@[i as int]);
                let ghost old_cands = cands;
                assert forall|kk: int| 0 <= kk < old_cands.len() + 1 implies (#[trigger] old_cands.push(cand)[kk] matches Some(a)
                    ==> legs(a).0 != legs(a).1) by {
                    if kk < old_cands.len() {
                        assert(old_cands.push(cand)[kk] == old_cands[kk]);
                    }
                }
                assert(cands.push(cand).drop_last() =~= cands);
                cands = cands.push(cand);
            }
            if found.is_none() {
                found = cand;
            }
            k = k + 1;
        }
        assert(Seq::new(self.pairs@.len(), |kk: int| self.candidate(kk)) =~= cands);
        proof {
            lemma_first_some_two_legged(cands);
        }
        found
    }
}

} // verus!
