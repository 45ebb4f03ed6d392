use vstd::prelude::*;

verus! {

/// Number of assets in the trading universe.
pub const COIN_COUNT: usize = 21;

/// The fixed, closed universe of tradable assets. An asset's identity is its
/// position in this list (`index`).
#[derive(Debug, Clone, Copy, PartialEq, Eq, Hash, Structural)]
pub enum Coin {
    BTC,
    ETH,
    DOGE,
    BNB,
    XRP,
    ADA,
    EOS,
    BCH,
    LINK,
    SOL,
    LTC,
    DOT,
    MATIC,
    AAVE,
    ETC,
    FTT,
    SUSHI,
    ZEC,
    XLM,
    YFI,
    TRX,
}

impl Coin {
    /// Position of the asset in the universe.
    pub open spec fn spec_index(self) -> nat {
        match self {
            Coin::BTC => 0,
            Coin::ETH => 1,
            Coin::DOGE => 2,
            Coin::BNB => 3,
            Coin::XRP => 4,
            Coin::ADA => 5,
            Coin::EOS => 6,
            Coin::BCH => 7,
            Coin::LINK => 8,
            Coin::SOL => 9,
            Coin::LTC => 10,
            Coin::DOT => 11,
            Coin::MATIC => 12,
            Coin::AAVE => 13,
            Coin::ETC => 14,
            Coin::FTT => 15,
            Coin::SUSHI => 16,
            Coin::ZEC => 17,
            Coin::XLM => 18,
            Coin::YFI => 19,
            Coin::TRX => 20,
        }
    }

    /// Name of the perpetual-future market of the asset.
    pub open spec fn spec_market(self) -> Seq<char> {
        match self {
            Coin::BTC => "BTC-PERP"@,
            Coin::ETH => "ETH-PERP"@,
            Coin::DOGE => "DOGE-PERP"@,
            Coin::BNB => "BNB-PERP"@,
            Coin::XRP => "XRP-PERP"@,
            Coin::ADA => "ADA-PERP"@,
            Coin::EOS => "EOS-PERP"@,
            Coin::BCH => "BCH-PERP"@,
            Coin::LINK => "LINK-PERP"@,
            Coin::SOL => "SOL-PERP"@,
            Coin::LTC => "LTC-PERP"@,
            Coin::DOT => "DOT-PERP"@,
            Coin::MATIC => "MATIC-PERP"@,
            Coin::AAVE => "AAVE-PERP"@,
            Coin::ETC => "ETC-PERP"@,
            Coin::FTT => "FTT-PERP"@,
            Coin::SUSHI => "SUSHI-PERP"@,
            Coin::ZEC => "ZEC-PERP"@,
            Coin::XLM => "XLM-PERP"@,
            Coin::YFI => "YFI-PERP"@,
            Coin::TRX => "TRX-PERP"@,
        }
    }

    pub fn index(&self) -> (r: usize)
        ensures
            r as nat == self.spec_index(),
            r < COIN_COUNT,
    {
        match self {
            Coin::BTC => 0,
            Coin::ETH => 1,
            Coin::DOGE => 2,
            Coin::BNB => 3,
            Coin::XRP => 4,
            Coin::ADA => 5,
            Coin::EOS => 6,
            Coin::BCH => 7,
            Coin::LINK => 8,
            Coin::SOL => 9,
            Coin::LTC => 10,
            Coin::DOT => 11,
            Coin::MATIC => 12,
            Coin::AAVE => 13,
            Coin::ETC => 14,
            Coin::FTT => 15,
            Coin::SUSHI => 16,
            Coin::ZEC => 17,
            Coin::XLM => 18,
            Coin::YFI => 19,
            Coin::TRX => 20,
        }
    }

    /// The asset at position `i`; `None` past the end of the universe.
    pub fn from_usize(i: usize) -> (r: Option<Coin>)
        ensures
            r.is_some() <==> i < COIN_COUNT,
            r matches Some(c) ==> c.spec_index() == i,
    {
        match i {
            0 => Some(Coin::BTC),
            1 => Some(Coin::ETH),
            2 => Some(Coin::DOGE),
            3 => Some(Coin::BNB),
            4 => Some(Coin::XRP),
            5 => Some(Coin::ADA),
            6 => Some(Coin::EOS),
            7 => Some(Coin::BCH),
            8 => Some(Coin::LINK),
            9 => Some(Coin::SOL),
            10 => Some(Coin::LTC),
            11 => Some(Coin::DOT),
            12 => Some(Coin::MATIC),
            13 => Some(Coin::AAVE),
            14 => Some(Coin::ETC),
            15 => Some(Coin::FTT),
            16 => Some(Coin::SUSHI),
            17 => Some(Coin::ZEC),
            18 => Some(Coin::XLM),
            19 => Some(Coin::YFI),
            20 => Some(Coin::TRX),
            _ => None,
        }
    }

    /// Market name of the asset (`"BTC-PERP"` for `BTC`).
    pub fn market(&self) -> (r: &'static str)
        ensures
            r@ == self.spec_market(),
    {
        match self {
            Coin::BTC => "BTC-PERP",
            Coin::ETH => "ETH-PERP",
            Coin::DOGE => "DOGE-PERP",
            Coin::BNB => "BNB-PERP",
            Coin::XRP => "XRP-PERP",
            Coin::ADA => "ADA-PERP",
            Coin::EOS => "EOS-PERP",
            Coin::BCH => "BCH-PERP",
            Coin::LINK => "LINK-PERP",
            Coin::SOL => "SOL-PERP",
            Coin::LTC => "LTC-PERP",
            Coin::DOT => "DOT-PERP",
            Coin::MATIC => "MATIC-PERP",
            Coin::AAVE => "AAVE-PERP",
            Coin::ETC => "ETC-PERP",
            Coin::FTT => "FTT-PERP",
            Coin::SUSHI => "SUSHI-PERP",
            Coin::ZEC => "ZEC-PERP",
            Coin::XLM => "XLM-PERP",
            Coin::YFI => "YFI-PERP",
            Coin::TRX => "TRX-PERP",
        }
    }

    /// Every asset of the universe, in index order.
    pub fn all() -> (r: Vec<Coin>)
        ensures
            r@.len() == COIN_COUNT,
            forall|i: int| 0 <= i < r@.len() ==> (#[trigger] r@[i]).spec_index() == i,
    {
        let mut r: Vec<Coin> = Vec::new();
        let mut i: usize = 0;
        while i < COIN_COUNT
            invariant
                i <= COIN_COUNT,
                r@.len() == i,
                forall|k: int| 0 <= k < r@.len() ==> (#[trigger] r@[k]).spec_index() == k,
            decreases COIN_COUNT - i,
        {
            match Coin::from_usize(i) {
                Some(c) => r.push(c),
                None => {},
            }
            i = i + 1;
        }
        r
    }
}

} // verus!
