use pair_trader::coin::{Coin, COIN_COUNT};

#[test]
fn test() {
    assert!(Coin::from_usize(Coin::all().len() - 1).is_some());
    assert!(Coin::from_usize(Coin::all().len()).is_none());
}

#[test]
fn all_is_in_index_order() {
    let all = Coin::all();
    assert_eq!(all.len(), COIN_COUNT);
    for (i, c) in all.iter().enumerate() {
        assert_eq!(c.index(), i);
        assert_eq!(Coin::from_usize(i), Some(*c));
    }
    assert_eq!(all[0], Coin::BTC);
    assert_eq!(all[20], Coin::TRX);
}

#[test]
fn market_names() {
    assert_eq!(Coin::BTC.market(), "BTC-PERP");
    assert_eq!(Coin::MATIC.market(), "MATIC-PERP");
    assert_eq!(Coin::TRX.market(), "TRX-PERP");
}
