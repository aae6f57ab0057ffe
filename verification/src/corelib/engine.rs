//! The matching engine: the registry of order books, one per listed asset,
//! and of liquidity pools, one per listed pair.

use super::amm::{balance, provided, provision_accepted, AMMPool, Ratio};
use super::order::Wallet;
use super::orderbook::{
    crosses, matched, traded_quantity, volume, OrderBook, OrderStrategy, Trade,
};
use super::token::{Pair, TokenTicker};
use vstd::prelude::*;

verus! {

/// Swaps and provisions against the pool of a pair.
pub trait Amm {
    fn token_swap(
        &mut self,
        token_in: TokenTicker,
        token_out: TokenTicker,
        amount_in: u64,
    ) -> Option<
        u64,
    >;

    fn add_liquidity_pair(
        &mut self,
        wallet: Wallet,
        token_a: TokenTicker,
        amount_a: u64,
        token_b: TokenTicker,
        amount_b: u64,
        target_ratio: Ratio,
        tolerance: Ratio,
    ) -> u64;
}

/// The registry. An asset is listed once and has one order book; a pair is
/// listed once and has one pool. Pools are kept by pair, not by asset, and
/// a pair is the key as it was given: `(a, b)` and `(b, a)` are two keys.
/// Each pool has reserves of its own, so what was provided to the pool of
/// one pair is never paid out by the pool of another.
pub struct TradeEngine {
    tickers: Vec<TokenTicker>,
    order_books: Vec<OrderBook>,
    pairs: Vec<Pair>,
    amm_pools: Vec<AMMPool>,
}

/// The listed keys after `key` was listed: as before where it was listed
/// already, else with `key` at the end.
pub open spec fn listed_with<K>(keys: Seq<K>, key: K) -> Seq<K> {
    if keys.contains(key) {
        keys
    } else {
        keys.push(key)
    }
}

/// The trades of one pass over the books of `tickers`, book by book in the
/// order of listing.
pub open spec fn pass_trades(
    tickers: Seq<TokenTicker>,
    books: Map<TokenTicker, OrderBook>,
) -> Seq<Trade>
    decreases tickers.len(),
{
    if tickers.len() == 0 {
        Seq::empty()
    } else {
        pass_trades(tickers.drop_last(), books) + matched(
            books[tickers.last()].buys(),
            books[tickers.last()].sells(),
        ).trades
    }
}

impl TradeEngine {
    /// The engine's validity: no asset and no pair is listed twice, and
    /// each has its book or pool.
    #[verifier::type_invariant]
    pub closed spec fn wf(&self) -> bool {
        &&& self.tickers@.no_duplicates()
        &&& self.tickers@.len() == self.order_books@.len()
        &&& self.pairs@.no_duplicates()
        &&& self.pairs@.len() == self.amm_pools@.len()
    }

    /// The listed assets, in the order of listing.
    pub closed spec fn tickers(&self) -> Seq<TokenTicker> {
        self.tickers@
    }

    /// The order book of each listed asset.
    pub closed spec fn books(&self) -> Map<TokenTicker, OrderBook> {
        Map::new(
            |ticker: TokenTicker| self.tickers@.contains(ticker),
            |ticker: TokenTicker| self.order_books@[self.tickers@.index_of(ticker)],
        )
    }

    /// The listed pairs, in the order of listing.
    pub closed spec fn pairs(&self) -> Seq<Pair> {
        self.pairs@
    }

    /// The pool of each listed pair.
    pub closed spec fn pools(&self) -> Map<Pair, AMMPool> {
        Map::new(
            |pair: Pair| self.pairs@.contains(pair),
            |pair: Pair| self.amm_pools@[self.pairs@.index_of(pair)],
        )
    }

    /// In a valid engine no asset and no pair is listed twice, and the
    /// books and pools are those of the listed assets and pairs.
    pub proof fn lemma_listed_once(&self)
        requires
            self.wf(),
        ensures
            self.tickers().no_duplicates(),
            self.pairs().no_duplicates(),
            forall|ticker: TokenTicker|
                self.books().dom().contains(ticker) <==> self.tickers().contains(ticker),
            forall|pair: Pair| self.pools().dom().contains(pair) <==> self.pairs().contains(pair),
    {
    }

    /// An engine with nothing listed.
    pub fn new() -> (engine: TradeEngine)
        ensures
            engine.tickers() == Seq::<TokenTicker>::empty(),
            engine.books() == Map::<TokenTicker, OrderBook>::empty(),
            engine.pairs() == Seq::<Pair>::empty(),
            engine.pools() == Map::<Pair, AMMPool>::empty(),
    {
        let engine = TradeEngine {
            tickers: Vec::new(),
            order_books: Vec::new(),
            pairs: Vec::new(),
            amm_pools: Vec::new(),
        };
        engine
    }

    /// The number of listed assets.
    pub fn book_count(&self) -> (n: usize)
        ensures
            n == self.tickers().len(),
    {
        self.tickers.len()
    }

    /// The number of listed pairs.
    pub fn pool_count(&self) -> (n: usize)
        ensures
            n == self.pairs().len(),
    {
        self.pairs.len()
    }

    /// Lists an asset: it gets an empty order book whose first order will
    /// have id 1. Listing an asset that is listed already changes nothing.
    pub fn list_new_token(&mut self, token_ticker: TokenTicker)
        ensures
            final(self).tickers() == listed_with(old(self).tickers(), token_ticker),
            old(self).tickers().contains(token_ticker) ==> *final(self) == *old(self),
            !old(self).tickers().contains(token_ticker) ==> {
                &&& final(self).books() == old(self).books().insert(
                    token_ticker,
                    final(self).books()[token_ticker],
                )
                &&& final(self).books()[token_ticker].buys().len() == 0
                &&& final(self).books()[token_ticker].sells().len() == 0
                &&& final(self).books()[token_ticker].next_id() == 1
                &&& final(self).books()[token_ticker].strategy() == OrderStrategy::PTP
            },
            final(self).pairs() == old(self).pairs(),
            final(self).pools() == old(self).pools(),
    {
        proof {
            use_type_invariant(&*self);
        }
        match find_ticker(&self.tickers, token_ticker) {
            Some(_) => {},
            None => {
                let mut work = TradeEngine::new();
                std::mem::swap(self, &mut work);
                let TradeEngine { mut tickers, mut order_books, pairs, amm_pools } = work;
                let ghost keys = tickers@;
                tickers.push(token_ticker);
                order_books.push(OrderBook::new());
                proof {
                    assert forall|ticker: TokenTicker|
                        keys.contains(ticker) implies tickers@.contains(ticker)
                        && tickers@.index_of(ticker) == keys.index_of(ticker) by {
                        let i = keys.index_of(ticker);
                        lemma_index_of(tickers@, i);
                    }
                    lemma_index_of(tickers@, keys.len() as int);
                }
                *self = TradeEngine { tickers, order_books, pairs, amm_pools };
            },
        }
    }

    /// Lists a pair: it gets an empty pool. Listing a pair that is listed
    /// already changes nothing.
    pub fn list_new_pair(&mut self, pair: Pair)
        ensures
            final(self).pairs() == listed_with(old(self).pairs(), pair),
            old(self).pairs().contains(pair) ==> *final(self) == *old(self),
            !old(self).pairs().contains(pair) ==> {
                &&& final(self).pools() == old(self).pools().insert(pair, final(self).pools()[pair])
                &&& final(self).pools()[pair].holdings().assets.len() == 0
                &&& final(self).pools()[pair].holdings().reserves == Map::<
                    TokenTicker,
                    u64,
                >::empty()
                &&& final(self).pools()[pair].ledger() == Map::<(Seq<char>, Pair), u64>::empty()
            },
            final(self).tickers() == old(self).tickers(),
            final(self).books() == old(self).books(),
    {
        proof {
            use_type_invariant(&*self);
        }
        match find_pair(&self.pairs, pair) {
            Some(_) => {},
            None => {
                let mut work = TradeEngine::new();
                std::mem::swap(self, &mut work);
                let TradeEngine { tickers, order_books, mut pairs, mut amm_pools } = work;
                let ghost keys = pairs@;
                pairs.push(pair);
                amm_pools.push(AMMPool::new());
                proof {
                    assert forall|p: Pair| keys.contains(p) implies pairs@.contains(p)
                        && pairs@.index_of(p) == keys.index_of(p) by {
                        let i = keys.index_of(p);
                        lemma_index_of(pairs@, i);
                    }
                    lemma_index_of(pairs@, keys.len() as int);
                }
                *self = TradeEngine { tickers, order_books, pairs, amm_pools };
            },
        }
    }

    /// The order book of a listed asset, to read and to change. What the
    /// caller leaves in the book is what the engine holds for the asset
    /// afterwards.
    pub fn get_token_order_book(
        &mut self,
        token_ticker: &TokenTicker,
    ) -> (r: Option<&mut OrderBook>)
        ensures
            match r {
                Some(book) => {
                    &&& old(self).books().dom().contains(*token_ticker)
                    &&& *book == old(self).books()[*token_ticker]
                    &&& final(self).tickers() == old(self).tickers()
                    &&& final(self).books() == old(self).books().insert(
                        *token_ticker,
                        *final(book),
                    )
                    &&& final(self).pairs() == old(self).pairs()
                    &&& final(self).pools() == old(self).pools()
                },
                None => {
                    &&& !old(self).books().dom().contains(*token_ticker)
                    &&& *final(self) == *old(self)
                },
            },
    {
        proof {
            use_type_invariant(&*self);
        }
        match find_ticker(&self.tickers, *token_ticker) {
            Some(k) => Some(&mut self.order_books[k]),
            None => None,
        }
    }

    /// The pool of a listed pair, to read and to change.
    pub fn get_pair_pool(&mut self, pair: &Pair) -> (r: Option<&mut AMMPool>)
        ensures
            match r {
                Some(pool) => {
                    &&& old(self).pools().dom().contains(*pair)
                    &&& *pool == old(self).pools()[*pair]
                    &&& final(self).pairs() == old(self).pairs()
                    &&& final(self).pools() == old(self).pools().insert(*pair, *final(pool))
                    &&& final(self).tickers() == old(self).tickers()
                    &&& final(self).books() == old(self).books()
                },
                None => !old(self).pools().dom().contains(*pair) && *final(self) == *old(self),
            },
    {
        proof {
            use_type_invariant(&*self);
        }
        match find_pair(&self.pairs, *pair) {
            Some(k) => Some(&mut self.amm_pools[k]),
            None => None,
        }
    }

    /// One matching pass over every listed book, each by itself, in the
    /// order of listing. Returns the trades, those of a book in the order
    /// in which they were made. Afterwards no book holds a bid at or above
    /// its best ask, and each side of a book has lost exactly what the book
    /// has traded.
    pub fn match_orders(&mut self) -> (trades: Vec<Trade>)
        ensures
            trades@ == pass_trades(old(self).tickers(), old(self).books()),
            final(self).tickers() == old(self).tickers(),
            final(self).books().dom() == old(self).books().dom(),
            forall|ticker: TokenTicker| #[trigger]
                old(self).books().dom().contains(ticker) ==> {
                    let before = old(self).books()[ticker];
                    let after = final(self).books()[ticker];
                    &&& after.buys() == matched(before.buys(), before.sells()).buys
                    &&& after.sells() == matched(before.buys(), before.sells()).sells
                    &&& after.next_id() == before.next_id()
                    &&& after.strategy() == before.strategy()
                    &&& !crosses(after.buys(), after.sells())
                    &&& volume(after.buys()) + traded_quantity(
                        matched(before.buys(), before.sells()).trades,
                    ) == volume(before.buys())
                    &&& volume(after.sells()) + traded_quantity(
                        matched(before.buys(), before.sells()).trades,
                    ) == volume(before.sells())
                },
            final(self).pairs() == old(self).pairs(),
            final(self).pools() == old(self).pools(),
    {
        proof {
            use_type_invariant(&*self);
        }
        let mut work = TradeEngine::new();
        std::mem::swap(self, &mut work);
        let TradeEngine { tickers, mut order_books, pairs, amm_pools } = work;
        let ghost before = order_books@;
        let ghost books0 = old(self).books();
        let n: usize = order_books.len();
        let mut trades: Vec<Trade> = Vec::new();
        let mut k: usize = 0;
        while k < n
            invariant
                n == order_books.len(),
                n == tickers.len(),
                n == before.len(),
                k <= n,
                tickers@.no_duplicates(),
                forall|i: int|
                    0 <= i < n ==> books0.dom().contains(#[trigger] tickers@[i])
                        && books0[tickers@[i]] == before[i],
                trades@ == pass_trades(tickers@.take(k as int), books0),
                forall|i: int|
                    0 <= i < k ==> {
                        &&& (#[trigger] order_books@[i]).buys() == matched(
                            before[i].buys(),
                            before[i].sells(),
                        ).buys
                        &&& order_books@[i].sells() == matched(
                            before[i].buys(),
                            before[i].sells(),
                        ).sells
                        &&& order_books@[i].next_id() == before[i].next_id()
                        &&& order_books@[i].strategy() == before[i].strategy()
                        &&& !crosses(order_books@[i].buys(), order_books@[i].sells())
                        &&& volume(order_books@[i].buys()) + traded_quantity(
                            matched(before[i].buys(), before[i].sells()).trades,
                        ) == volume(before[i].buys())
                        &&& volume(order_books@[i].sells()) + traded_quantity(
                            matched(before[i].buys(), before[i].sells()).trades,
                        ) == volume(before[i].sells())
                    },
                forall|i: int| k <= i < n ==> order_books@[i] == before[i],
            decreases n - k,
        {
            let mut made = order_books[k].match_orders();
            proof {
                assert(tickers@.take(k + 1).drop_last() =~= tickers@.take(k as int));
            }
            trades.append(&mut made);
            k += 1;
        }
        proof {
            assert(tickers@.take(n as int) =~= tickers@);
        }
        *self = TradeEngine { tickers, order_books, pairs, amm_pools };
        trades
    }
}

impl Amm for TradeEngine {
    /// Swaps against the pool listed for the pair `(token_in, token_out)`.
    /// Where no such pool is listed nothing happens and the result is
    /// `None`.
    fn token_swap(&mut self, token_in: TokenTicker, token_out: TokenTicker, amount_in: u64) -> (r:
        Option<u64>)
        ensures
            final(self).tickers() == old(self).tickers(),
            final(self).books() == old(self).books(),
            final(self).pairs() == old(self).pairs(),
            match old(self).pools().get(Pair { ticker_a: token_in, ticker_b: token_out }) {
                None => r is None && *final(self) == *old(self),
                Some(pool) => {
                    let key = Pair { ticker_a: token_in, ticker_b: token_out };
                    &&& final(self).pools() == old(self).pools().insert(
                        key,
                        final(self).pools()[key],
                    )
                    &&& final(self).pools()[key].ledger() == pool.ledger()
                    &&& match pool.holdings().swap(token_in, token_out, amount_in) {
                        Some((after, amount_out)) => {
                            &&& r == Some(amount_out)
                            &&& final(self).pools()[key].holdings() == after
                        },
                        None => r is None && final(self).pools()[key] == pool,
                    }
                },
            },
    {
        let key = Pair::new(token_in, token_out);
        match self.get_pair_pool(&key) {
            None => None,
            Some(pool) => pool.token_swap(token_in, token_out, amount_in),
        }
    }

    /// Takes a provision into the pool listed for the pair
    /// `(token_a, token_b)`. Where no such pool is listed nothing happens
    /// and nothing is minted.
    fn add_liquidity_pair(
        &mut self,
        wallet: Wallet,
        token_a: TokenTicker,
        amount_a: u64,
        token_b: TokenTicker,
        amount_b: u64,
        target_ratio: Ratio,
        tolerance: Ratio,
    ) -> (minted: u64)
        ensures
            final(self).tickers() == old(self).tickers(),
            final(self).books() == old(self).books(),
            final(self).pairs() == old(self).pairs(),
            match old(self).pools().get(Pair { ticker_a: token_a, ticker_b: token_b }) {
                None => minted == 0 && *final(self) == *old(self),
                Some(pool) => {
                    let key = Pair { ticker_a: token_a, ticker_b: token_b };
                    let held = balance(pool.ledger(), (wallet.address@, key));
                    &&& final(self).pools() == old(self).pools().insert(
                        key,
                        final(self).pools()[key],
                    )
                    &&& if provision_accepted(
                        pool.holdings(),
                        held,
                        token_a,
                        amount_a,
                        token_b,
                        amount_b,
                        target_ratio,
                        tolerance,
                    ) {
                        &&& minted == amount_a + amount_b
                        &&& Some(final(self).pools()[key].holdings()) == provided(
                            pool.holdings(),
                            token_a,
                            amount_a,
                            token_b,
                            amount_b,
                        )
                        &&& final(self).pools()[key].ledger() == pool.ledger().insert(
                            (wallet.address@, key),
                            (held + minted) as u64,
                        )
                    } else {
                        minted == 0 && final(self).pools()[key] == pool
                    }
                },
            },
    {
        let key = Pair::new(token_a, token_b);
        match self.get_pair_pool(&key) {
            None => 0,
            Some(pool) => pool.add_liquidity_pair(
                wallet,
                token_a,
                amount_a,
                token_b,
                amount_b,
                target_ratio,
                tolerance,
            ),
        }
    }
}

// Laws of the model.

/// Listing a key a second time changes nothing.
pub proof fn lemma_listing_idempotent<K>(keys: Seq<K>, key: K)
    ensures
        listed_with(listed_with(keys, key), key) == listed_with(keys, key),
        listed_with(keys, key).contains(key),
        keys.no_duplicates() ==> listed_with(keys, key).no_duplicates(),
{
    if !keys.contains(key) {
        assert(keys.push(key)[keys.len() as int] == key);
    }
}

// Work on the lists of keys.

/// Where `key` stands among `keys`, if it does.
fn find_ticker(keys: &Vec<TokenTicker>, key: TokenTicker) -> (r: Option<usize>)
    ensures
        match r {
            Some(i) => i < keys.len() && keys@[i as int] == key,
            None => !keys@.contains(key),
        },
{
    let n: usize = keys.len();
    let mut k: usize = 0;
    while k < n
        invariant
            n == keys.len(),
            k <= n,
            forall|i: int| 0 <= i < k ==> keys@[i] != key,
        decreases n - k,
    {
        if keys[k] == key {
            return Some(k);
        }
        k += 1;
    }
    None
}

/// Where `key` stands among `keys`, if it does.
fn find_pair(keys: &Vec<Pair>, key: Pair) -> (r: Option<usize>)
    ensures
        match r {
            Some(i) => i < keys.len() && keys@[i as int] == key,
            None => !keys@.contains(key),
        },
{
    let n: usize = keys.len();
    let mut k: usize = 0;
    while k < n
        invariant
            n == keys.len(),
            k <= n,
            forall|i: int| 0 <= i < k ==> keys@[i] != key,
        decreases n - k,
    {
        if keys[k] == key {
            return Some(k);
        }
        k += 1;
    }
    None
}

/// In a list without repetition a key is found where it stands.
proof fn lemma_index_of<K>(keys: Seq<K>, i: int)
    requires
        keys.no_duplicates(),
        0 <= i < keys.len(),
    ensures
        keys.contains(keys[i]),
        keys.index_of(keys[i]) == i,
{
}

} // verus!
