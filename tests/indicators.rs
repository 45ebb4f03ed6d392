use pair_trader::indicators::{Change, Corr, Cov, Cum, Ma, Norm, Stdev, Total};
use pair_trader::num::{LIMIT, ONE};

fn fx(v: i64) -> i64 {
    v * ONE
}

#[test]
fn sma_basic() {
    let mut sma = Ma::new(3);

    assert_eq!(sma.run(fx(2)), fx(2));
    assert_eq!(sma.run(fx(4)), fx(3));
    assert_eq!(sma.run(fx(6)), fx(4));
    assert_eq!(sma.run(fx(8)), fx(6));
}

#[test]
fn sma_rounds_toward_zero() {
    let mut sma = Ma::new(2);
    assert_eq!(sma.run(1), 1);
    assert_eq!(sma.run(2), 1);
    let mut neg = Ma::new(2);
    assert_eq!(neg.run(-1), -1);
    assert_eq!(neg.run(-2), -1);
}

#[test]
fn sma_period_one_is_identity() {
    let mut sma = Ma::new(1);
    for v in [5i64, -7, 0, 1_000_000_000_000] {
        assert_eq!(sma.run(v), v);
    }
}

#[test]
fn sma_extremes_do_not_overflow() {
    let mut sma = Ma::new(4);
    for _ in 0..10 {
        assert_eq!(sma.run(i64::MAX), i64::MAX);
    }
    let mut low = Ma::new(4);
    for _ in 0..10 {
        assert_eq!(low.run(i64::MIN), i64::MIN);
    }
}

#[test]
fn change_basic() {
    let mut change = Change::new();

    assert_eq!(change.run(fx(10)), 0);
    assert_eq!(change.run(fx(40)), fx(3));
    assert_eq!(change.run(fx(-20)), -1_500_000);
}

#[test]
fn change_first_call_is_zero() {
    for v in [fx(1), 0, fx(-5), i64::MAX] {
        let mut change = Change::new();
        assert!(!change.is_warm());
        assert_eq!(change.run(v), 0);
        assert!(change.is_warm());
    }
}

#[test]
fn change_from_zero_is_zero() {
    let mut change = Change::new();
    change.run(0);
    assert_eq!(change.run(fx(5)), 0);
}

#[test]
fn change_saturates() {
    let mut change = Change::new();
    change.run(1);
    assert_eq!(change.run(i64::MAX), LIMIT);
    let mut down = Change::new();
    down.run(-1);
    assert_eq!(down.run(i64::MAX), -LIMIT);
}

#[test]
fn cum_basic() {
    let mut cum = Cum::new(3);

    assert_eq!(cum.run(fx(10)), fx(10));
    assert_eq!(cum.run(fx(40)), fx(50));
    assert_eq!(cum.run(fx(-100)), fx(-50));
    assert_eq!(cum.run(fx(60)), 0);
}

#[test]
fn cum_is_exact_inside_i64() {
    let mut cum = Cum::new(3);
    assert_eq!(cum.run(LIMIT), LIMIT);
    assert_eq!(cum.run(LIMIT), 2 * LIMIT);
    assert_eq!(cum.run(-LIMIT), LIMIT);
    assert_eq!(cum.run(-LIMIT), -LIMIT);
}

#[test]
fn cum_saturates_at_i64() {
    let mut cum = Cum::new(2);
    assert_eq!(cum.run(i64::MAX), i64::MAX);
    assert_eq!(cum.run(i64::MAX), i64::MAX);
    assert_eq!(cum.run(i64::MIN), -1);
    assert_eq!(cum.run(i64::MIN), -i64::MAX);
}

#[test]
fn total_runs_unbounded() {
    let mut total = Total::new();
    assert_eq!(total.run(fx(10)), fx(10));
    assert_eq!(total.run(fx(40)), fx(50));
    assert_eq!(total.run(fx(-100)), fx(-50));
    assert_eq!(total.run(fx(60)), fx(10));
    assert_eq!(total.run(i64::MAX), i64::MAX);
    assert_eq!(total.run(-1), i64::MAX - 1);
}

#[test]
fn stdev_basic() {
    let mut stdev = Stdev::new(3);
    assert_eq!(stdev.run(fx(100)), 0);
    assert_eq!(stdev.run(fx(100)), 0);
    assert!(stdev.run(fx(10)) > 0);
}

#[test]
fn stdev_exact_value() {
    // inputs 0, 2: averages 0, 1; deviations 0, 1; squared 0, 1; variance 0.5
    let mut stdev = Stdev::new(2);
    assert_eq!(stdev.run(0), 0);
    assert_eq!(stdev.run(fx(2)), 707_106);
}

#[test]
fn cov_correlated() {
    let mut cov = Cov::new(3);

    for i in 0..100 {
        assert!(cov.run(fx(i), fx(i)) >= 0);
    }
}

#[test]
fn cov_not_correlated() {
    let mut cov = Cov::new(3);

    for i in 0..100 {
        assert!(cov.run(fx(i), -fx(i)) <= 0);
    }
}

#[test]
fn cov_exact_value() {
    // deviations (0, 0) then (1, -2): products 0 and -2, mean -1
    let mut cov = Cov::new(2);
    assert_eq!(cov.run(0, 0), 0);
    assert_eq!(cov.run(fx(2), fx(-4)), fx(-1));
}

#[test]
fn corr_correlated() {
    let mut corr = Corr::new(3);

    for i in 0..100 {
        assert!(corr.run(fx(i), fx(i)) >= 0);
    }
}

#[test]
fn corr_not_correlated() {
    let mut corr = Corr::new(3);

    for i in 0..100 {
        assert!(corr.run(fx(i), -fx(i)) <= 0);
    }
}

#[test]
fn range() {
    let mut corr = Corr::new(3);
    let mut seed: u64 = 0x2545_f491_4f6c_dd1d;
    let mut next = move || {
        seed ^= seed << 13;
        seed ^= seed >> 7;
        seed ^= seed << 17;
        (seed % (2 * ONE as u64)) as i64
    };

    for _ in 0..1000 {
        let corr = corr.run(next(), next());
        assert!(-ONE <= corr && corr <= ONE);
    }
}

#[test]
fn corr_zero_when_constant() {
    let mut corr = Corr::new(3);
    for i in 0..10 {
        assert_eq!(corr.run(fx(5), fx(i)), 0);
    }
}

#[test]
fn corr_exact_value() {
    // deviations (1, 1), (1, -1): covariance 0 over the window
    let mut corr = Corr::new(2);
    assert_eq!(corr.run(0, 0), 0);
    assert_eq!(corr.run(fx(2), fx(2)), ONE);
    assert_eq!(corr.run(fx(4), fx(0)), 0);
}

#[test]
fn norm_basic() {
    let mut norm = Norm::new(3);
    assert_eq!(norm.get(), None);
    assert_eq!(norm.get_mean(), None);
    assert_eq!(norm.get_stdev(), None);
    norm.run(fx(4));
    assert_eq!(norm.get(), None);
}

#[test]
fn norm_scores_distance_in_deviations() {
    let mut norm = Norm::new(2);
    norm.run(0);
    assert_eq!(norm.get_mean(), Some(0));
    assert_eq!(norm.get_stdev(), Some(0));
    assert_eq!(norm.get(), None);
    norm.run(fx(2));
    assert_eq!(norm.get_mean(), Some(fx(1)));
    assert_eq!(norm.get_stdev(), Some(707_106));
    assert_eq!(norm.get(), Some(1_414_215));
    norm.reset();
    assert_eq!(norm.get(), None);
    assert_eq!(norm.get_mean(), None);
}
