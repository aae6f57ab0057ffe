//! Identifiers: assets, asset pairs and the static taxonomy around them.

use vstd::prelude::*;

verus! {

/// The market family an asset is quoted on.
#[derive(Hash, PartialEq, Eq, Structural, Clone, Copy, Debug)]
pub enum Market {
    AfricaMarket(AfricaExchange),
    OtherMarket(CryptoExchange),
    USMarket(USExchange),
}

#[derive(Hash, PartialEq, Eq, Structural, Clone, Copy, Debug)]
pub enum AfricaExchange {
    NajaEx,
    MorrockEx,
    WariEx,
    GCoin,
    XMGCoin,
}

#[derive(Hash, PartialEq, Eq, Structural, Clone, Copy, Debug)]
pub enum CryptoExchange {
    UpBit,
    KuCoin,
    OKx,
    ByBit,
    CoinDCX,
    Binance,
}

#[derive(Hash, PartialEq, Eq, Structural, Clone, Copy, Debug)]
pub enum USExchange {
    BinanceUS,
    Coinbase,
    Kraken,
}

#[derive(Hash, PartialEq, Eq, Structural, Clone, Copy, Debug)]
pub enum Category {
    AI,
    Defi,
    Memes,
    Infatrusture,
    DAO,
    Gaming,
    Metaverse,
    Social,
    Oracle,
}

/// Identifier of a tradable asset. The engine only compares tickers for
/// equality.
#[derive(Hash, PartialEq, Eq, Structural, Clone, Copy, Debug)]
pub enum TokenTicker {
    BTC,
    ETH,
    USDT,
    XUSD,
    SOL,
    BNB,
    XRP,
    USDC,
    Doge,
    ADA,
    AVA,
    DOT,
    BCH,
    LINK,
    TRON,
    ICP,
    LTC,
    UNI,
    FIL,
    ROOT,
}

/// Two assets, in the order in which they were given. Equality compares the
/// two tickers position by position, so `(a, b)` and `(b, a)` are different
/// pairs.
#[derive(Hash, PartialEq, Eq, Structural, Clone, Copy, Debug)]
pub struct Pair {
    pub ticker_a: TokenTicker,
    pub ticker_b: TokenTicker,
}

impl Pair {
    pub fn new(ticker_a: TokenTicker, ticker_b: TokenTicker) -> (pair: Pair)
        ensures
            pair == (Pair { ticker_a, ticker_b }),
    {
        Pair { ticker_a, ticker_b }
    }
}

/// A listed asset with its classification.
#[derive(Hash, PartialEq, Eq, Structural, Clone, Copy, Debug)]
pub struct Token {
    pub ticker: TokenTicker,
    pub category: Category,
    pub market: Market,
}

impl Token {
    pub fn new(ticker: TokenTicker, category: Category, market: Market) -> (token: Token)
        ensures
            token == (Token { ticker, category, market }),
    {
        Token { ticker, category, market }
    }
}

} // verus!
