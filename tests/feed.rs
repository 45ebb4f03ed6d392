use pair_trader::coin::Coin;
use pair_trader::feed::{check_aligned, Buf, Candle, Fetcher, FillError, SyncError, BATCH_AFTER};

fn candle(close: i64, time: i64) -> Candle {
    Candle { close, volume: close / 10, time }
}

fn drain(buf: &mut Buf) -> Vec<Candle> {
    let mut out = Vec::new();
    while let Some(c) = buf.pop() {
        out.push(c);
    }
    out
}

#[test]
fn start_is_rounded_down() {
    assert_eq!(Buf::new(Coin::BTC, 1000, 15).next_time(), 990);
    assert_eq!(Buf::new(Coin::BTC, 990, 15).next_time(), 990);
    assert_eq!(Buf::new(Coin::BTC, -1, 15).next_time(), -15);
    assert_eq!(Buf::new(Coin::BTC, -30, 15).next_time(), -30);
}

#[test]
fn request_window() {
    let buf = Buf::new(Coin::ETH, 990, 15);
    assert_eq!(buf.window(), (990 - 5 * 15, 990 + 4995 * 15));
    assert_eq!(buf.get_coin(), Coin::ETH);
}

#[test]
fn waiting_marks_realtime() {
    let mut buf = Buf::new(Coin::BTC, 990, 15);
    assert_eq!(buf.wait_seconds(2000), 0);
    assert!(!buf.is_realtime());
    assert_eq!(buf.wait_seconds(900), 105);
    assert!(buf.is_realtime());
}

#[test]
fn absorb_drops_stale_and_fills_gaps() {
    let mut buf = Buf::new(Coin::BTC, 30, 15);
    let batch = vec![candle(1, 0), candle(2, 15), candle(3, 30), candle(4, 45), candle(7, 90)];
    assert_eq!(buf.absorb(&batch), Ok(()));
    assert_eq!(buf.next_time(), 105);
    let out = drain(&mut buf);
    assert_eq!(
        out,
        vec![
            candle(3, 30),
            candle(4, 45),
            Candle { close: 4, volume: 0, time: 60 },
            Candle { close: 4, volume: 0, time: 75 },
            candle(7, 90),
        ]
    );
    assert!(buf.is_empty());
    assert_eq!(buf.pop(), None);
}

#[test]
fn empty_batch_flat_fills_window() {
    let mut buf = Buf::new(Coin::BTC, 0, 15);
    assert_eq!(buf.absorb(&vec![candle(50, 0)]), Ok(()));
    assert_eq!(buf.pop(), Some(candle(50, 0)));
    assert_eq!(buf.absorb(&vec![]), Ok(()));
    let out = drain(&mut buf);
    assert_eq!(out.len(), BATCH_AFTER as usize);
    for (k, c) in out.iter().enumerate() {
        assert_eq!(c.time, 15 * (k as i64 + 1));
        assert_eq!(c.close, 50);
        assert_eq!(c.volume, 5);
    }
    assert_eq!(buf.next_time(), 15 * (BATCH_AFTER + 1));
}

#[test]
fn fill_without_history_fails() {
    let mut buf = Buf::new(Coin::BTC, 0, 15);
    assert_eq!(buf.absorb(&vec![]), Err(FillError::NoHistory));
    assert_eq!(buf.absorb(&vec![candle(1, 30)]), Err(FillError::NoHistory));
}

#[test]
fn misaligned_candle_fails() {
    let mut buf = Buf::new(Coin::BTC, 0, 15);
    assert_eq!(buf.absorb(&vec![candle(1, 0), candle(2, 20)]), Err(FillError::Misaligned));
}

#[test]
fn fetcher_steps_are_aligned() {
    let mut fetcher = Fetcher::new(&[Coin::BTC, Coin::ETH], 7, 15);
    assert_eq!(fetcher.len(), 2);
    assert_eq!(fetcher.coin(1), Coin::ETH);
    assert_eq!(fetcher.pending(), vec![0, 1]);
    assert_eq!(fetcher.next(), None);
    assert_eq!(fetcher.absorb(0, &vec![candle(1, 0), candle(2, 15)]), Ok(()));
    assert_eq!(fetcher.pending(), vec![1]);
    assert_eq!(fetcher.next(), None);
    assert_eq!(fetcher.absorb(1, &vec![candle(5, 0), candle(6, 30)]), Ok(()));
    assert_eq!(fetcher.pending(), Vec::<usize>::new());
    assert_eq!(fetcher.window(0), (30 - 75, 30 + 4995 * 15));
    assert_eq!(fetcher.next_time(1), 45);
    assert_eq!(fetcher.next(), Some(vec![candle(1, 0), candle(5, 0)]));
    assert_eq!(
        fetcher.next(),
        Some(vec![candle(2, 15), Candle { close: 5, volume: 0, time: 15 }])
    );
    assert_eq!(fetcher.pending(), vec![0]);
    assert!(!fetcher.is_realtime());
    assert_eq!(fetcher.wait_seconds(0, 0), 45);
    assert!(fetcher.is_realtime());
}

#[test]
fn check_aligned_rejects_mixed_times() {
    assert_eq!(check_aligned(&vec![]), Ok(()));
    assert_eq!(check_aligned(&vec![candle(1, 15), candle(2, 15)]), Ok(()));
    assert_eq!(check_aligned(&vec![candle(1, 15), candle(2, 30)]), Err(SyncError::Misaligned));
}

#[test]
fn flat_fill_continues_after_last_handed_out() {
    let mut buf = Buf::new(Coin::SOL, 0, 15);
    assert_eq!(buf.absorb(&vec![candle(30, 0), candle(40, 15)]), Ok(()));
    assert_eq!(buf.pop(), Some(candle(30, 0)));
    assert_eq!(buf.pop(), Some(candle(40, 15)));
    assert_eq!(buf.next_time(), 30);
    assert_eq!(buf.absorb(&vec![]), Ok(()));
    for k in 1..=3i64 {
        assert_eq!(buf.pop(), Some(Candle { close: 40, volume: 4, time: 15 + 15 * k }));
    }
}
