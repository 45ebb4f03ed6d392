use pair_trader::coin::Coin;
use pair_trader::feed::Candle;
use pair_trader::signal::{pair_order, Action, Config, Decision, Pair, PairConfig, Single, Strategy};
use pair_trader::num::ONE;

fn small_config(cooldown: usize) -> Config {
    Config {
        cum_period: 8,
        trend_period: 4,
        pair: PairConfig {
            corr_period: 10,
            disp_period: 10,
            cooldown,
            min_corr: 950_000,
            spread: 2_500_000,
            min_diff: 50_000,
            max_diff: 100_000,
        },
    }
}

/// Two identical saw-tooth price series, the second lifted by 7% for two steps.
fn diverging_series(steps: usize) -> Vec<Vec<Candle>> {
    let mut px: i64 = 100 * ONE;
    let mut out = Vec::new();
    for k in 0..steps {
        let up = (k / 8) % 2 == 0;
        let step = px * 3 / 100;
        px = if up { px + step } else { px - step };
        let other = if k == 24 || k == 25 { px * 107 / 100 } else { px };
        out.push(vec![
            Candle { close: px, volume: 0, time: 15 * k as i64 },
            Candle { close: other, volume: 0, time: 15 * k as i64 },
        ]);
    }
    out
}

#[test]
fn pair_order_is_ascending() {
    assert_eq!(pair_order(0), vec![]);
    assert_eq!(pair_order(1), vec![]);
    assert_eq!(pair_order(3), vec![(1, 0), (2, 0), (2, 1)]);
    assert_eq!(pair_order(4).len(), 6);
    assert_eq!(pair_order(4)[5], (3, 2));
}

#[test]
fn single_tracks_momentum_and_trend() {
    let mut single = Single::new(Coin::ETH, 2, 2);
    assert_eq!(single.get_coin(), Coin::ETH);
    single.compute_cum(&Candle { close: 100 * ONE, volume: 0, time: 0 });
    assert_eq!(single.get_cum(), 0);
    assert_eq!(single.get_trend(), 0);
    single.compute_cum(&Candle { close: 110 * ONE, volume: 0, time: 15 });
    assert_eq!(single.get_cum(), 100_000);
    assert_eq!(single.get_trend(), 50_000);
    single.compute_cum(&Candle { close: 121 * ONE, volume: 0, time: 30 });
    assert_eq!(single.get_cum(), 200_000);
    assert_eq!(single.get_trend(), 50_000);
}

#[test]
fn end_to_end_enter_then_exit() {
    let coins = [Coin::BTC, Coin::ETH];
    let mut strategy = Strategy::new(&coins, small_config(10));
    let mut actions = Vec::new();
    for (k, candles) in diverging_series(32).iter().enumerate() {
        if let Some(a) = strategy.run(candles) {
            actions.push((k, a));
        }
    }
    assert_eq!(
        actions,
        vec![
            (24, Action::Enter { long: Coin::BTC, short: Coin::ETH }),
            (26, Action::Exit { long: Coin::BTC, short: Coin::ETH }),
        ]
    );
}

#[test]
fn no_entry_during_cooldown() {
    let coins = [Coin::BTC, Coin::ETH];
    let mut strategy = Strategy::new(&coins, small_config(30));
    for candles in diverging_series(30).iter() {
        let a = strategy.run(candles);
        assert!(!matches!(a, Some(Action::Enter { .. })));
    }
}

#[test]
fn pair_unit_waits_out_cooldown() {
    let cfg = PairConfig {
        corr_period: 2,
        disp_period: 2,
        cooldown: 3,
        min_corr: -ONE - 1,
        spread: 0,
        min_diff: 0,
        max_diff: 100 * ONE,
    };
    let mut pair = Pair::new(cfg);
    let mut seen = Vec::new();
    for k in 0..5i64 {
        seen.push(pair.run(k * ONE, k * ONE, 0, ONE));
    }
    assert_eq!(
        seen,
        vec![Decision::Hold, Decision::Hold, Decision::Hold, Decision::Enter, Decision::Enter]
    );
}

#[test]
fn pair_unit_exits_on_sign_change() {
    let cfg = PairConfig::standard(2, 2);
    assert_eq!(cfg.cooldown, 2);
    let mut pair = Pair::new(cfg);
    assert_eq!(pair.run(0, 0, 0, 10), Decision::Hold);
    assert_eq!(pair.run(0, 0, 0, 0), Decision::Hold);
    assert_eq!(pair.run(0, 0, 0, -10), Decision::Hold);
    assert_eq!(pair.run(0, 0, 0, 10), Decision::Exit);
    assert_eq!(pair.run(0, 0, 10, 0), Decision::Exit);
}

#[test]
fn standard_config_values() {
    let cfg = Config::standard();
    assert_eq!(cfg.cum_period, 5760);
    assert_eq!(cfg.pair.min_corr, 950_000);
    assert_eq!(cfg.pair.spread, 2_500_000);
    assert_eq!(cfg.pair.min_diff, 50_000);
    assert_eq!(cfg.pair.max_diff, 100_000);
    assert_eq!(cfg.pair.cooldown, 172_800);
}

#[test]
fn first_pair_in_order_wins() {
    // ETH and SOL diverge from BTC alike: pairs (ETH, BTC) and (SOL, BTC)
    // both fire, and (ETH, BTC) comes first.
    let coins = [Coin::BTC, Coin::ETH, Coin::SOL];
    let mut strategy = Strategy::new(&coins, small_config(10));
    let mut actions = Vec::new();
    for (k, candles) in diverging_series(32).iter().enumerate() {
        let step = vec![candles[0], candles[1], Candle { close: candles[1].close, volume: 0, time: candles[1].time }];
        if let Some(a) = strategy.run(&step) {
            actions.push((k, a));
        }
    }
    assert_eq!(
        actions,
        vec![
            (24, Action::Enter { long: Coin::BTC, short: Coin::ETH }),
            (26, Action::Exit { long: Coin::BTC, short: Coin::ETH }),
        ]
    );
}

#[test]
fn engines_built_alike_agree() {
    let coins = [Coin::BTC, Coin::ETH, Coin::SOL];
    let mut a = Strategy::new(&coins, small_config(10));
    let mut b = Strategy::new(&coins, small_config(10));
    for candles in diverging_series(32).iter() {
        let step = vec![candles[0], candles[1], candles[0]];
        assert_eq!(a.run(&step), b.run(&step));
    }
}
