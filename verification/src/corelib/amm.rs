//! A liquidity pool: reserves per asset, priced by a constant-product
//! formula, and a ledger of the shares minted to those who provide them.

use super::order::Wallet;
use super::token::{Pair, TokenTicker};
use vstd::prelude::*;

verus! {

/// The direction in which a provider's two amounts are held against the
/// target ratio: `true` reads the ratio as the first amount per unit of the
/// second, `false` as the second per unit of the first.
pub const RATIO_IS_FIRST_PER_SECOND: bool = true;

/// A non-negative fraction. One whose denominator is zero stands for no
/// number, and nothing is within tolerance of it.
#[derive(PartialEq, Eq, Structural, Clone, Copy, Debug)]
pub struct Ratio {
    pub numerator: u32,
    pub denominator: u32,
}

impl Ratio {
    pub fn new(numerator: u32, denominator: u32) -> (ratio: Ratio)
        ensures
            ratio == (Ratio { numerator, denominator }),
    {
        Ratio { numerator, denominator }
    }
}

/// A liquidity pool. It holds one reserve per asset, whichever pairs the
/// asset was provided for, and one ledger entry per wallet and pair.
pub struct AMMPool {
    liquidity_pools: Vec<Reserve>,
    account_lp_tokens: Vec<Position>,
}

/// The reserves of a pool: the assets it tracks, in the order in which they
/// were first credited, and the amount held of each.
pub struct Holdings {
    pub assets: Seq<TokenTicker>,
    pub reserves: Map<TokenTicker, u64>,
}

/// The key of a ledger entry: the wallet's address and the pair.
pub type Account = (Seq<char>, Pair);

// The model: prices, legs and swaps on the reserves, and provisions.

/// The constant-product price: with `reserve_a` of the source, `reserve_b`
/// of the destination and `amount_in` coming in, the destination's
/// reference value `reserve_b + amount_in` times `reserve_a`, divided by the
/// source's new reserve `reserve_a + amount_in` and rounded down.
pub open spec fn output_amount(reserve_a: u64, reserve_b: u64, amount_in: u64) -> int
    recommends
        reserve_a + amount_in > 0,
{
    ((reserve_b + amount_in) * reserve_a) / (reserve_a + amount_in)
}

impl Holdings {
    /// The amount held of `token`; nothing of an asset that is not tracked.
    pub open spec fn held(self, token: TokenTicker) -> u64 {
        if self.reserves.dom().contains(token) {
            self.reserves[token]
        } else {
            0
        }
    }

    /// The holdings after `amount` of `token` was credited, unless the
    /// reserve would leave its range. An asset that was not tracked joins
    /// the tracked ones at the end.
    pub open spec fn deposit(self, token: TokenTicker, amount: u64) -> Option<Holdings> {
        if self.held(token) + amount > u64::MAX {
            None
        } else {
            Some(
                Holdings {
                    assets: if self.reserves.dom().contains(token) {
                        self.assets
                    } else {
                        self.assets.push(token)
                    },
                    reserves: self.reserves.insert(token, (self.held(token) + amount) as u64),
                },
            )
        }
    }

    /// The price of one leg: what `amount_in` of `token_a` buys of
    /// `token_b`. With `ra` the reserve of the source and `rb` the reference
    /// value of the destination, which is its reserve and the amount that
    /// comes in, the amount is `rb * ra / (ra + amount_in)`, rounded down.
    /// There is no price where an asset is not tracked, where a sum leaves
    /// the range of a reserve, or where the source would stay empty.
    pub open spec fn quote(
        self,
        token_a: TokenTicker,
        token_b: TokenTicker,
        amount_in: u64,
    ) -> Option<u64> {
        if !self.reserves.dom().contains(token_a) || !self.reserves.dom().contains(token_b) {
            None
        } else if self.reserves[token_a] + amount_in > u64::MAX || self.reserves[token_b]
            + amount_in > u64::MAX || self.reserves[token_a] + amount_in == 0 {
            None
        } else {
            Some(
                output_amount(self.reserves[token_a], self.reserves[token_b], amount_in) as u64,
            )
        }
    }

    /// The holdings after one leg was settled: the source grows by
    /// `amount_in`, then the destination shrinks by `amount_out`. Nothing is
    /// settled where an asset is not tracked, where the source would leave
    /// its range or where the destination would fall below zero.
    pub open spec fn settle(
        self,
        token_a: TokenTicker,
        token_b: TokenTicker,
        amount_in: u64,
        amount_out: u64,
    ) -> Option<Holdings> {
        if !self.reserves.dom().contains(token_a) || !self.reserves.dom().contains(token_b) {
            None
        } else if self.reserves[token_a] + amount_in > u64::MAX {
            None
        } else {
            let grown = self.reserves.insert(
                token_a,
                (self.reserves[token_a] + amount_in) as u64,
            );
            if grown[token_b] < amount_out {
                None
            } else {
                Some(
                    Holdings {
                        assets: self.assets,
                        reserves: grown.insert(token_b, (grown[token_b] - amount_out) as u64),
                    },
                )
            }
        }
    }

    /// One leg, priced and settled: the holdings after it and the amount
    /// that it paid out.
    pub open spec fn leg(
        self,
        token_a: TokenTicker,
        token_b: TokenTicker,
        amount_in: u64,
    ) -> Option<(Holdings, u64)> {
        match self.quote(token_a, token_b, amount_in) {
            None => None,
            Some(amount_out) => match self.settle(token_a, token_b, amount_in, amount_out) {
                None => None,
                Some(after) => Some((after, amount_out)),
            },
        }
    }

    /// Whether `token` can stand between `token_in` and `token_out`.
    pub open spec fn is_hop(
        self,
        token: TokenTicker,
        token_in: TokenTicker,
        token_out: TokenTicker,
    ) -> bool {
        self.assets.contains(token) && token != token_in && token != token_out
    }

    /// What the best hop found so far pays for the first leg; zero where
    /// none was found.
    pub open spec fn hop_quote(
        self,
        hop: Option<TokenTicker>,
        token_in: TokenTicker,
        amount_in: u64,
    ) -> u64 {
        match hop {
            None => 0,
            Some(token) => match self.quote(token_in, token, amount_in) {
                None => 0,
                Some(amount) => amount,
            },
        }
    }

    /// The best hop among the first `n` tracked assets: the one whose first
    /// leg pays most, and more than nothing; of several that pay the same,
    /// the one that was tracked first.
    pub open spec fn best_hop(
        self,
        token_in: TokenTicker,
        token_out: TokenTicker,
        amount_in: u64,
        n: nat,
    ) -> Option<TokenTicker>
        decreases n,
    {
        if n == 0 || n > self.assets.len() {
            None
        } else {
            let before = self.best_hop(token_in, token_out, amount_in, (n - 1) as nat);
            let token = self.assets[n - 1];
            if token != token_in && token != token_out && self.hop_quote(
                Some(token),
                token_in,
                amount_in,
            ) > self.hop_quote(before, token_in, amount_in) {
                Some(token)
            } else {
                before
            }
        }
    }

    /// Whether some hop has no price for its first leg.
    pub open spec fn hop_without_quote(
        self,
        token_in: TokenTicker,
        token_out: TokenTicker,
        amount_in: u64,
    ) -> bool {
        exists|i: int|
            0 <= i < self.assets.len() && self.is_hop(
                #[trigger] self.assets[i],
                token_in,
                token_out,
            )
                && self.quote(token_in, self.assets[i], amount_in) is None
    }

    /// A swap of `amount_in` of `token_in` for `token_out`: the holdings
    /// after it and the amount paid out. The swap goes through the best hop
    /// in two legs, the second leg priced on the reserves that the first
    /// has left. There is no swap where a hop has no price, where no hop
    /// pays anything, or where a leg cannot be priced or settled.
    pub open spec fn swap(
        self,
        token_in: TokenTicker,
        token_out: TokenTicker,
        amount_in: u64,
    ) -> Option<(Holdings, u64)> {
        if self.hop_without_quote(token_in, token_out, amount_in) {
            None
        } else {
            match self.best_hop(token_in, token_out, amount_in, self.assets.len()) {
                None => None,
                Some(hop) => match self.leg(token_in, hop, amount_in) {
                    None => None,
                    Some((middle, amount)) => middle.leg(hop, token_out, amount),
                },
            }
        }
    }
}

/// Whether the two amounts stand in the target ratio, within the tolerance:
/// the distance between the ratio of the amounts and the target is at most
/// the tolerance, all three taken as exact fractions. Which amount is
/// divided by which is set by `RATIO_IS_FIRST_PER_SECOND`.
pub open spec fn within_tolerance(
    amount_a: u64,
    amount_b: u64,
    target: Ratio,
    tolerance: Ratio,
) -> bool {
    let x: int = if RATIO_IS_FIRST_PER_SECOND { amount_a as int } else { amount_b as int };
    let y: int = if RATIO_IS_FIRST_PER_SECOND { amount_b as int } else { amount_a as int };
    let gap: int = x * target.denominator - target.numerator * y;
    let distance: int = if gap >= 0 { gap } else { -gap };
    &&& y > 0
    &&& target.denominator > 0
    &&& tolerance.denominator > 0
    &&& distance * tolerance.denominator <= tolerance.numerator * y * target.denominator
}

/// The balance of an account in a ledger; zero where it has no entry.
pub open spec fn balance(ledger: Map<Account, u64>, account: Account) -> u64 {
    if ledger.dom().contains(account) {
        ledger[account]
    } else {
        0
    }
}

/// The reserves after a provider's two amounts were credited, the first
/// amount first; `None` where a reserve would leave its range.
pub open spec fn provided(
    holdings: Holdings,
    token_a: TokenTicker,
    amount_a: u64,
    token_b: TokenTicker,
    amount_b: u64,
) -> Option<Holdings> {
    match holdings.deposit(token_a, amount_a) {
        None => None,
        Some(middle) => middle.deposit(token_b, amount_b),
    }
}

/// Whether a provision is taken: the amounts are within tolerance of the
/// target ratio, both reserves can be credited, and the shares to mint fit
/// the account's balance.
pub open spec fn provision_accepted(
    holdings: Holdings,
    held_shares: u64,
    token_a: TokenTicker,
    amount_a: u64,
    token_b: TokenTicker,
    amount_b: u64,
    target: Ratio,
    tolerance: Ratio,
) -> bool {
    &&& within_tolerance(amount_a, amount_b, target, tolerance)
    &&& provided(holdings, token_a, amount_a, token_b, amount_b) is Some
    &&& held_shares + amount_a + amount_b <= u64::MAX
}

// The pool.

impl AMMPool {
    /// The pool's validity: no asset has two reserves, and no wallet two
    /// ledger entries for one pair.
    #[verifier::type_invariant]
    pub closed spec fn wf(&self) -> bool {
        distinct_tokens(self.liquidity_pools@) && distinct_accounts(self.account_lp_tokens@)
    }

    /// The reserves.
    pub closed spec fn holdings(&self) -> Holdings {
        holdings_of(self.liquidity_pools@)
    }

    /// The shares minted so far, by wallet address and pair.
    pub closed spec fn ledger(&self) -> Map<Account, u64> {
        ledger_of(self.account_lp_tokens@)
    }

    /// A pool that tracks no asset and has minted no share.
    pub fn new() -> (pool: AMMPool)
        ensures
            pool.holdings().assets == Seq::<TokenTicker>::empty(),
            pool.holdings().reserves == Map::<TokenTicker, u64>::empty(),
            pool.ledger() == Map::<Account, u64>::empty(),
    {
        let pool = AMMPool { liquidity_pools: Vec::new(), account_lp_tokens: Vec::new() };
        pool
    }

    /// In a valid pool the tracked assets are those that have a reserve,
    /// each once.
    pub proof fn lemma_assets_are_reserves(&self)
        requires
            self.wf(),
        ensures
            self.holdings().assets.no_duplicates(),
            forall|token: TokenTicker|
                self.holdings().assets.contains(token) <==> self.holdings().reserves.dom().contains(
                    token,
                ),
    {
        lemma_assets_track(self.liquidity_pools@);
    }

    /// The reserve of `token`, if the pool tracks the asset.
    pub fn reserve(&self, token: TokenTicker) -> (r: Option<u64>)
        ensures
            r == if self.holdings().reserves.dom().contains(token) {
                Some(self.holdings().reserves[token])
            } else {
                None
            },
    {
        proof {
            use_type_invariant(self);
        }
        match find_reserve(&self.liquidity_pools, token) {
            Some(i) => {
                Some(self.liquidity_pools[i].amount)
            },
            None => None,
        }
    }

    /// The shares minted so far to `wallet` for `pair`.
    pub fn lp_balance(&self, wallet: &Wallet, pair: Pair) -> (r: u64)
        ensures
            r == balance(self.ledger(), (wallet.address@, pair)),
    {
        proof {
            use_type_invariant(self);
        }
        match find_position(&self.account_lp_tokens, wallet, pair) {
            Some(i) => {
                self.account_lp_tokens[i].minted
            },
            None => 0,
        }
    }

    /// Credits `amount` of `token` to its reserve, without any check of a
    /// ratio. A reserve that would leave its range is not credited: the
    /// pool stays as it is and the result is `None`.
    pub fn add_liquidity(&mut self, token: TokenTicker, amount: u64) -> (r: Option<()>)
        ensures
            match old(self).holdings().deposit(token, amount) {
                Some(after) => r is Some && final(self).holdings() == after,
                None => r is None && final(self).holdings() == old(self).holdings(),
            },
            r is None ==> *final(self) == *old(self),
            final(self).ledger() == old(self).ledger(),
    {
        proof {
            use_type_invariant(&*self);
        }
        match find_reserve(&self.liquidity_pools, token) {
            Some(i) => {
                let held: u64 = self.liquidity_pools[i].amount;
                if amount > u64::MAX - held {
                    return None;
                }
                proof {
                    lemma_reserve_set(self.liquidity_pools@, i as int, (held + amount) as u64);
                }
                let mut work: Vec<Reserve> = Vec::new();
                std::mem::swap(&mut work, &mut self.liquidity_pools);
                work.set(i, Reserve { token, amount: held + amount });
                self.liquidity_pools = work;
                Some(())
            },
            None => {
                proof {
                    lemma_reserve_push(self.liquidity_pools@, token, amount);
                }
                let mut work: Vec<Reserve> = Vec::new();
                std::mem::swap(&mut work, &mut self.liquidity_pools);
                work.push(Reserve { token, amount });
                self.liquidity_pools = work;
                Some(())
            },
        }
    }

    /// What `amount_in` of `token_a` buys of `token_b` at the present
    /// reserves.
    pub fn calculate_output_amount(
        &self,
        token_a: TokenTicker,
        token_b: TokenTicker,
        amount_in: u64,
    ) -> (r: Option<u64>)
        ensures
            r == self.holdings().quote(token_a, token_b, amount_in),
    {
        proof {
            use_type_invariant(self);
        }
        quote_in(&self.liquidity_pools, token_a, token_b, amount_in)
    }

    /// Settles one leg: `amount_in` joins the reserve of `token_a`, then
    /// `amount_out` leaves that of `token_b`. Where the leg cannot be
    /// settled the pool stays as it is and the result is `None`.
    pub fn update_reserves(
        &mut self,
        token_a: TokenTicker,
        token_b: TokenTicker,
        amount_in: u64,
        amount_out: u64,
    ) -> (r: Option<()>)
        ensures
            match old(self).holdings().settle(token_a, token_b, amount_in, amount_out) {
                Some(after) => r is Some && final(self).holdings() == after,
                None => r is None && *final(self) == *old(self),
            },
            final(self).ledger() == old(self).ledger(),
    {
        proof {
            use_type_invariant(&*self);
        }
        let mut work = copy_reserves(&self.liquidity_pools);
        match settle_in(&mut work, token_a, token_b, amount_in, amount_out) {
            Some(_) => {
                self.liquidity_pools = work;
                Some(())
            },
            None => None,
        }
    }

    /// Takes a provider's two amounts, if they stand in the target ratio
    /// within the tolerance, and returns the shares minted for them. Both
    /// reserves are credited and the shares are added to what the ledger
    /// holds for the wallet and the pair `(token_a, token_b)`. The shares
    /// are `amount_a + amount_b`: each amount's share of the pool's total,
    /// taken of that total (`lemma_share_of_total`). A provision that is
    /// not taken changes nothing and mints nothing, and no balance of the
    /// ledger ever shrinks.
    pub fn add_liquidity_pair(
        &mut self,
        wallet: Wallet,
        token_a: TokenTicker,
        amount_a: u64,
        token_b: TokenTicker,
        amount_b: u64,
        target_ratio: Ratio,
        tolerance: Ratio,
    ) -> (minted: u64)
        ensures
            provision_accepted(
                old(self).holdings(),
                balance(
                    old(self).ledger(),
                    (wallet.address@, Pair { ticker_a: token_a, ticker_b: token_b }),
                ),
                token_a,
                amount_a,
                token_b,
                amount_b,
                target_ratio,
                tolerance,
            ) ==> {
                &&& minted == amount_a + amount_b
                &&& Some(final(self).holdings()) == provided(
                    old(self).holdings(),
                    token_a,
                    amount_a,
                    token_b,
                    amount_b,
                )
                &&& final(self).ledger() == old(self).ledger().insert(
                    (wallet.address@, Pair { ticker_a: token_a, ticker_b: token_b }),
                    (balance(
                        old(self).ledger(),
                        (wallet.address@, Pair { ticker_a: token_a, ticker_b: token_b }),
                    ) + minted) as u64,
                )
            },
            !provision_accepted(
                old(self).holdings(),
                balance(
                    old(self).ledger(),
                    (wallet.address@, Pair { ticker_a: token_a, ticker_b: token_b }),
                ),
                token_a,
                amount_a,
                token_b,
                amount_b,
                target_ratio,
                tolerance,
            ) ==> minted == 0 && *final(self) == *old(self),
            forall|account: Account| #[trigger]
                balance(final(self).ledger(), account) >= balance(old(self).ledger(), account),
    {
        proof {
            use_type_invariant(&*self);
        }
        if !ratio_within(amount_a, amount_b, target_ratio, tolerance) {
            return 0;
        }
        let held_a: u64 = match find_reserve(&self.liquidity_pools, token_a) {
            Some(i) => {
                self.liquidity_pools[i].amount
            },
            None => {
                0
            },
        };
        if amount_a > u64::MAX - held_a {
            return 0;
        }
        let held_b: u64 = if token_b == token_a {
            held_a + amount_a
        } else {
            match find_reserve(&self.liquidity_pools, token_b) {
                Some(j) => {
                    self.liquidity_pools[j].amount
                },
                None => {
                    0
                },
            }
        };
        if amount_b > u64::MAX - held_b {
            return 0;
        }
        if amount_b > u64::MAX - amount_a {
            return 0;
        }
        let minted: u64 = amount_a + amount_b;
        let pair = Pair::new(token_a, token_b);
        let at = find_position(&self.account_lp_tokens, &wallet, pair);
        let held_shares: u64 = match at {
            Some(i) => {
                self.account_lp_tokens[i].minted
            },
            None => {
                0
            },
        };
        if minted > u64::MAX - held_shares {
            return 0;
        }
        let mut work: Vec<Reserve> = Vec::new();
        std::mem::swap(&mut work, &mut self.liquidity_pools);
        let _ = credit_in(&mut work, token_a, amount_a);
        let _ = credit_in(&mut work, token_b, amount_b);
        self.liquidity_pools = work;
        let mut entries: Vec<Position> = Vec::new();
        std::mem::swap(&mut entries, &mut self.account_lp_tokens);
        let entry = Position { wallet, pair, minted: held_shares + minted };
        match at {
            Some(i) => {
                proof {
                    lemma_position_set(entries@, i as int, entry);
                }
                entries.set(i, entry);
            },
            None => {
                proof {
                    lemma_position_push(entries@, entry);
                }
                entries.push(entry);
            },
        }
        self.account_lp_tokens = entries;
        minted
    }

    /// Swaps `amount_in` of `token_in` for `token_out` and returns the
    /// amount paid out. The swap is routed through the tracked asset whose
    /// first leg pays most and settled in two legs, the second on the
    /// reserves that the first has left. A swap that cannot be made in full
    /// is not made at all: the pool stays as it is and the result is `None`.
    pub fn token_swap(
        &mut self,
        token_in: TokenTicker,
        token_out: TokenTicker,
        amount_in: u64,
    ) -> (r:
        Option<u64>)
        ensures
            match old(self).holdings().swap(token_in, token_out, amount_in) {
                Some((after, amount_out)) => r == Some(amount_out) && final(self).holdings()
                    == after,
                None => r is None && *final(self) == *old(self),
            },
            final(self).ledger() == old(self).ledger(),
    {
        proof {
            use_type_invariant(&*self);
        }
        let ghost h = self.holdings();
        let n: usize = self.liquidity_pools.len();
        let mut best: Option<TokenTicker> = None;
        let mut best_amount: u64 = 0;
        let mut k: usize = 0;
        while k < n
            invariant
                distinct_tokens(self.liquidity_pools@),
                h == holdings_of(self.liquidity_pools@),
                h.assets.len() == n,
                n == self.liquidity_pools.len(),
                k <= n,
                forall|i: int|
                    0 <= i < k && h.is_hop(#[trigger] h.assets[i], token_in, token_out) ==> h.quote(
                        token_in,
                        h.assets[i],
                        amount_in,
                    ) is Some,
                best == h.best_hop(token_in, token_out, amount_in, k as nat),
                best_amount == h.hop_quote(best, token_in, amount_in),
            decreases n - k,
        {
            let token = self.liquidity_pools[k].token;
            proof {
                lemma_reserve_at(self.liquidity_pools@, k as int);
            }
            if token != token_in && token != token_out {
                match quote_in(&self.liquidity_pools, token_in, token, amount_in) {
                    None => {
                        return None;
                    },
                    Some(amount) => {
                        if amount > best_amount {
                            best = Some(token);
                            best_amount = amount;
                        }
                    },
                }
            }
            k += 1;
        }
        match best {
            None => None,
            Some(hop) => {
                let mut work = copy_reserves(&self.liquidity_pools);
                match quote_in(&work, token_in, hop, amount_in) {
                    None => None,
                    Some(first) => match settle_in(&mut work, token_in, hop, amount_in, first) {
                        None => None,
                        Some(_) => match quote_in(&work, hop, token_out, first) {
                            None => None,
                            Some(second) => match settle_in(
                                &mut work,
                                hop,
                                token_out,
                                first,
                                second,
                            ) {
                                None => None,
                                Some(_) => {
                                    self.liquidity_pools = work;
                                    Some(second)
                                },
                            },
                        },
                    },
                }
            },
        }
    }
}

// Laws of the model.

/// The price never exceeds the destination's reference value.
pub proof fn lemma_output_amount_bound(reserve_a: u64, reserve_b: u64, amount_in: u64)
    requires
        reserve_a + amount_in > 0,
    ensures
        0 <= output_amount(reserve_a, reserve_b, amount_in) <= reserve_b + amount_in,
{
    let n = (reserve_b + amount_in) * reserve_a;
    let d = reserve_a + amount_in;
    let r = reserve_b + amount_in;
    assert(0 <= n / d <= r) by (nonlinear_arith)
        requires
            d > 0,
            r >= 0,
            0 <= reserve_a <= d,
            n == r * reserve_a,
    ;
}

/// The best hop is the best: where none is found, no hop among the first
/// `n` assets pays anything for the first leg; where one is found, it is a
/// hop that pays something, no hop among the first `n` pays more, and every
/// hop tracked before it pays less.
pub proof fn lemma_best_hop(
    h: Holdings,
    token_in: TokenTicker,
    token_out: TokenTicker,
    amount_in: u64,
    n: nat,
)
    requires
        n <= h.assets.len(),
    ensures
        match h.best_hop(token_in, token_out, amount_in, n) {
            None => forall|i: int|
                0 <= i < n && h.is_hop(#[trigger] h.assets[i], token_in, token_out) ==> h.hop_quote(
                    Some(h.assets[i]),
                    token_in,
                    amount_in,
                ) == 0,
            Some(hop) => exists|j: int|
                {
                    &&& 0 <= j < n
                    &&& #[trigger] h.assets[j] == hop
                    &&& h.is_hop(hop, token_in, token_out)
                    &&& h.hop_quote(Some(hop), token_in, amount_in) > 0
                    &&& forall|i: int|
                        0 <= i < n && h.is_hop(#[trigger] h.assets[i], token_in, token_out)
                            ==> h.hop_quote(Some(h.assets[i]), token_in, amount_in) <= h.hop_quote(
                            Some(hop),
                            token_in,
                            amount_in,
                        )
                    &&& forall|i: int|
                        0 <= i < j && h.is_hop(#[trigger] h.assets[i], token_in, token_out)
                            ==> h.hop_quote(Some(h.assets[i]), token_in, amount_in) < h.hop_quote(
                            Some(hop),
                            token_in,
                            amount_in,
                        )
                },
        },
    decreases n,
{
    if n > 0 {
        lemma_best_hop(h, token_in, token_out, amount_in, (n - 1) as nat);
    }
}

/// What a swap between two different assets does to the reserves: the
/// source has grown by what came in, the destination has shrunk by what was
/// paid out, and every other reserve, that of the hop too, is as it was.
pub proof fn lemma_swap_effect(
    h: Holdings,
    token_in: TokenTicker,
    token_out: TokenTicker,
    amount_in: u64,
)
    requires
        h.swap(token_in, token_out, amount_in) is Some,
        token_in != token_out,
    ensures
        ({
            let (after, paid) = h.swap(token_in, token_out, amount_in)->0;
            &&& h.reserves.dom().contains(token_in)
            &&& h.reserves.dom().contains(token_out)
            &&& h.reserves[token_in] + amount_in <= u64::MAX
            &&& paid <= h.reserves[token_out]
            &&& after.assets == h.assets
            &&& after.reserves == h.reserves.insert(
                token_in,
                (h.reserves[token_in] + amount_in) as u64,
            ).insert(token_out, (h.reserves[token_out] - paid) as u64)
        }),
{
    // the hop is neither the source nor the destination
    lemma_best_hop(h, token_in, token_out, amount_in, h.assets.len());
}

/// A provider's share of the pool's total, taken of that total and rounded
/// down, is the amount that the provider brought.
pub proof fn lemma_share_of_total(amount: nat, total: nat)
    requires
        total > 0,
    ensures
        (amount * total) / total == amount,
{
    assert((amount * total) / total == amount) by (nonlinear_arith)
        requires
            total > 0,
    ;
}

// How the pool holds its reserves and its ledger.

/// The reserve that the pool holds of one asset.
#[derive(Clone, Copy)]
struct Reserve {
    token: TokenTicker,
    amount: u64,
}

/// The shares minted so far to one wallet for one pair.
struct Position {
    wallet: Wallet,
    pair: Pair,
    minted: u64,
}

spec fn tracked_at(rs: Seq<Reserve>, token: TokenTicker, i: int) -> bool {
    0 <= i < rs.len() && rs[i].token == token
}

spec fn distinct_tokens(rs: Seq<Reserve>) -> bool {
    forall|i: int, j: int|
        0 <= i < j < rs.len() ==> (#[trigger] rs[i]).token != (#[trigger] rs[j]).token
}

spec fn holdings_of(rs: Seq<Reserve>) -> Holdings {
    Holdings {
        assets: rs.map_values(|r: Reserve| r.token),
        reserves: Map::new(
            |token: TokenTicker| exists|i: int| tracked_at(rs, token, i),
            |token: TokenTicker| rs[choose|i: int| tracked_at(rs, token, i)].amount,
        ),
    }
}

spec fn account_at(ps: Seq<Position>, account: Account, i: int) -> bool {
    0 <= i < ps.len() && ps[i].wallet.address@ == account.0 && ps[i].pair == account.1
}

spec fn distinct_accounts(ps: Seq<Position>) -> bool {
    forall|i: int, j: int|
        0 <= i < j < ps.len() ==> !((#[trigger] ps[i]).pair == (#[trigger] ps[j]).pair
            && ps[i].wallet.address@ == ps[j].wallet.address@)
}

spec fn ledger_of(ps: Seq<Position>) -> Map<Account, u64> {
    Map::new(
        |account: Account| exists|i: int| account_at(ps, account, i),
        |account: Account| ps[choose|i: int| account_at(ps, account, i)].minted,
    )
}

// Work on the reserves.

/// Where the reserve of `token` stands, if the asset is tracked.
fn find_reserve(rs: &Vec<Reserve>, token: TokenTicker) -> (r: Option<usize>)
    ensures
        match r {
            Some(i) => tracked_at(rs@, token, i as int),
            None => forall|i: int| !tracked_at(rs@, token, i),
        },
{
    let n: usize = rs.len();
    let mut k: usize = 0;
    while k < n
        invariant
            n == rs.len(),
            k <= n,
            forall|i: int| 0 <= i < k ==> !tracked_at(rs@, token, i),
        decreases n - k,
    {
        if rs[k].token == token {
            return Some(k);
        }
        k += 1;
    }
    None
}

/// Where the entry of a wallet for a pair stands, if it has one.
fn find_position(ps: &Vec<Position>, wallet: &Wallet, pair: Pair) -> (r: Option<usize>)
    ensures
        match r {
            Some(i) => account_at(ps@, (wallet.address@, pair), i as int),
            None => forall|i: int| !account_at(ps@, (wallet.address@, pair), i),
        },
{
    let n: usize = ps.len();
    let mut k: usize = 0;
    while k < n
        invariant
            n == ps.len(),
            k <= n,
            forall|i: int| 0 <= i < k ==> !account_at(ps@, (wallet.address@, pair), i),
        decreases n - k,
    {
        if ps[k].pair == pair && ps[k].wallet.address == wallet.address {
            return Some(k);
        }
        k += 1;
    }
    None
}

fn copy_reserves(rs: &Vec<Reserve>) -> (r: Vec<Reserve>)
    ensures
        r@ == rs@,
{
    let n: usize = rs.len();
    let mut r: Vec<Reserve> = Vec::new();
    let mut k: usize = 0;
    while k < n
        invariant
            n == rs.len(),
            k <= n,
            r@ == rs@.take(k as int),
        decreases n - k,
    {
        r.push(rs[k]);
        k += 1;
    }
    r
}

fn quote_in(
    rs: &Vec<Reserve>,
    token_a: TokenTicker,
    token_b: TokenTicker,
    amount_in: u64,
) -> (r: Option<u64>)
    requires
        distinct_tokens(rs@),
    ensures
        r == holdings_of(rs@).quote(token_a, token_b, amount_in),
{
    let at_a = find_reserve(rs, token_a);
    let at_b = find_reserve(rs, token_b);
    match (at_a, at_b) {
        (Some(i), Some(j)) => {
            let reserve_a: u64 = rs[i].amount;
            let reserve_b: u64 = rs[j].amount;
            if amount_in > u64::MAX - reserve_a || amount_in > u64::MAX - reserve_b {
                return None;
            }
            let new_reserve_a: u64 = reserve_a + amount_in;
            if new_reserve_a == 0 {
                return None;
            }
            let reference_b: u64 = reserve_b + amount_in;
            proof {
                lemma_output_amount_bound(reserve_a, reserve_b, amount_in);
                assert(reference_b as int * reserve_a as int <= u128::MAX) by (nonlinear_arith)
                    requires
                        0 <= reference_b <= u64::MAX,
                        0 <= reserve_a <= u64::MAX,
                ;
            }
            let numerator: u128 = (reference_b as u128) * (reserve_a as u128);
            let amount_out: u128 = numerator / (new_reserve_a as u128);
            Some(amount_out as u64)
        },
        _ => None,
    }
}

fn settle_in(
    rs: &mut Vec<Reserve>,
    token_a: TokenTicker,
    token_b: TokenTicker,
    amount_in: u64,
    amount_out: u64,
) -> (r: Option<()>)
    requires
        distinct_tokens(old(rs)@),
    ensures
        distinct_tokens(final(rs)@),
        match holdings_of(old(rs)@).settle(token_a, token_b, amount_in, amount_out) {
            Some(after) => r is Some && holdings_of(final(rs)@) == after,
            None => r is None && final(rs)@ == old(rs)@,
        },
{
    let at_a = find_reserve(rs, token_a);
    let at_b = find_reserve(rs, token_b);
    match (at_a, at_b) {
        (Some(i), Some(j)) => {
            let reserve_a: u64 = rs[i].amount;
            if amount_in > u64::MAX - reserve_a {
                return None;
            }
            let grown: u64 = reserve_a + amount_in;
            let reserve_b: u64 = if i == j { grown } else { rs[j].amount };
            if reserve_b < amount_out {
                return None;
            }
            proof {
                let first = rs@.update(
                    i as int,
                    Reserve { token: rs@[i as int].token, amount: grown },
                );
                lemma_reserve_set(rs@, i as int, grown);
                lemma_reserve_set(first, j as int, (reserve_b - amount_out) as u64);
            }
            rs.set(i, Reserve { token: token_a, amount: grown });
            rs.set(j, Reserve { token: token_b, amount: reserve_b - amount_out });
            Some(())
        },
        _ => None,
    }
}

fn credit_in(rs: &mut Vec<Reserve>, token: TokenTicker, amount: u64) -> (r: Option<()>)
    requires
        distinct_tokens(old(rs)@),
    ensures
        distinct_tokens(final(rs)@),
        match holdings_of(old(rs)@).deposit(token, amount) {
            Some(after) => r is Some && holdings_of(final(rs)@) == after,
            None => r is None && final(rs)@ == old(rs)@,
        },
{
    match find_reserve(rs, token) {
        Some(i) => {
            let held: u64 = rs[i].amount;
            if amount > u64::MAX - held {
                return None;
            }
            proof {
                lemma_reserve_set(rs@, i as int, (held + amount) as u64);
            }
            rs.set(i, Reserve { token, amount: held + amount });
            Some(())
        },
        None => {
            proof {
                lemma_reserve_push(rs@, token, amount);
            }
            rs.push(Reserve { token, amount });
            Some(())
        },
    }
}

/// The tolerance check, in exact integer arithmetic.
fn ratio_within(amount_a: u64, amount_b: u64, target: Ratio, tolerance: Ratio) -> (r: bool)
    ensures
        r == within_tolerance(amount_a, amount_b, target, tolerance),
{
    let x: u64 = if RATIO_IS_FIRST_PER_SECOND { amount_a } else { amount_b };
    let y: u64 = if RATIO_IS_FIRST_PER_SECOND { amount_b } else { amount_a };
    if y == 0 || target.denominator == 0 || tolerance.denominator == 0 {
        return false;
    }
    proof {
        assert(x as int * target.denominator as int <= 0xffff_ffff_ffff_ffff * 0xffff_ffff)
            by (nonlinear_arith)
            requires
                0 <= x <= 0xffff_ffff_ffff_ffff,
                0 <= target.denominator <= 0xffff_ffff,
        ;
        assert(target.numerator as int * y as int <= 0xffff_ffff_ffff_ffff * 0xffff_ffff)
            by (nonlinear_arith)
            requires
                0 <= y <= 0xffff_ffff_ffff_ffff,
                0 <= target.numerator <= 0xffff_ffff,
        ;
    }
    let scaled: u128 = (x as u128) * (target.denominator as u128);
    let wanted: u128 = (target.numerator as u128) * (y as u128);
    let distance: u128 = if scaled >= wanted { scaled - wanted } else { wanted - scaled };
    proof {
        assert(distance as int * tolerance.denominator as int <= 0xffff_ffff_ffff_ffff * 0xffff_ffff
            * 0xffff_ffff) by (nonlinear_arith)
            requires
                0 <= distance <= 0xffff_ffff_ffff_ffff * 0xffff_ffff,
                0 <= tolerance.denominator <= 0xffff_ffff,
        ;
        assert(tolerance.numerator as int * y as int <= 0xffff_ffff_ffff_ffff * 0xffff_ffff)
            by (nonlinear_arith)
            requires
                0 <= y <= 0xffff_ffff_ffff_ffff,
                0 <= tolerance.numerator <= 0xffff_ffff,
        ;
        assert((tolerance.numerator as int * y as int) * target.denominator as int
            <= 0xffff_ffff_ffff_ffff * 0xffff_ffff * 0xffff_ffff) by (nonlinear_arith)
            requires
                0 <= tolerance.numerator as int * y as int <= 0xffff_ffff_ffff_ffff * 0xffff_ffff,
                0 <= target.denominator <= 0xffff_ffff,
        ;
    }
    let left: u128 = distance * (tolerance.denominator as u128);
    let allowed: u128 = (tolerance.numerator as u128) * (y as u128);
    let right: u128 = allowed * (target.denominator as u128);
    left <= right
}

// Steps of the proofs.

proof fn lemma_reserve_at(rs: Seq<Reserve>, i: int)
    requires
        distinct_tokens(rs),
        0 <= i < rs.len(),
    ensures
        holdings_of(rs).reserves.dom().contains(rs[i].token),
        holdings_of(rs).reserves[rs[i].token] == rs[i].amount,
        holdings_of(rs).assets[i] == rs[i].token,
        holdings_of(rs).assets.len() == rs.len(),
{
    assert(tracked_at(rs, rs[i].token, i));
}

proof fn lemma_assets_track(rs: Seq<Reserve>)
    ensures
        holdings_of(rs).assets.len() == rs.len(),
        forall|token: TokenTicker|
            holdings_of(rs).assets.contains(token) <==> holdings_of(rs).reserves.dom().contains(
                token,
            ),
{
    let h = holdings_of(rs);
    assert forall|token: TokenTicker| h.assets.contains(token) <==> h.reserves.dom().contains(
        token,
    ) by {
        if h.assets.contains(token) {
            let i = choose|i: int| 0 <= i < h.assets.len() && h.assets[i] == token;
            assert(tracked_at(rs, token, i));
        }
        if h.reserves.dom().contains(token) {
            let i = choose|i: int| tracked_at(rs, token, i);
            assert(h.assets[i] == token);
        }
    }
}

proof fn lemma_reserve_set(rs: Seq<Reserve>, i: int, amount: u64)
    requires
        distinct_tokens(rs),
        0 <= i < rs.len(),
    ensures
        distinct_tokens(rs.update(i, Reserve { token: rs[i].token, amount })),
        holdings_of(rs.update(i, Reserve { token: rs[i].token, amount })) == (Holdings {
            assets: holdings_of(rs).assets,
            reserves: holdings_of(rs).reserves.insert(rs[i].token, amount),
        }),
{
    let after = rs.update(i, Reserve { token: rs[i].token, amount });
    let h = holdings_of(rs);
    let g = holdings_of(after);
    assert(g.assets =~= h.assets);
    let want = h.reserves.insert(rs[i].token, amount);
    assert forall|token: TokenTicker| g.reserves.dom().contains(token) <==> want.dom().contains(
        token,
    ) by {
        if g.reserves.dom().contains(token) {
            let j = choose|j: int| tracked_at(after, token, j);
            assert(tracked_at(rs, token, j));
        }
        if want.dom().contains(token) {
            if token == rs[i].token {
                assert(tracked_at(after, token, i));
            } else {
                let j = choose|j: int| tracked_at(rs, token, j);
                assert(tracked_at(after, token, j));
            }
        }
    }
    assert forall|token: TokenTicker| g.reserves.dom().contains(token) implies g.reserves[token]
        == want[token] by {
        let j = choose|j: int| tracked_at(after, token, j);
        if j != i {
            lemma_reserve_at(rs, j);
        }
    }
    assert(g.reserves =~= want);
}

proof fn lemma_reserve_push(rs: Seq<Reserve>, token: TokenTicker, amount: u64)
    requires
        distinct_tokens(rs),
        forall|i: int| !tracked_at(rs, token, i),
    ensures
        !holdings_of(rs).reserves.dom().contains(token),
        distinct_tokens(rs.push(Reserve { token, amount })),
        holdings_of(rs.push(Reserve { token, amount })) == (Holdings {
            assets: holdings_of(rs).assets.push(token),
            reserves: holdings_of(rs).reserves.insert(token, amount),
        }),
{
    let after = rs.push(Reserve { token, amount });
    assert forall|a: int, b: int| 0 <= a < b < after.len() implies (#[trigger] after[a]).token != (
    #[trigger] after[b]).token by {
        if b >= rs.len() {
            assert(!tracked_at(rs, token, a));
        }
    }
    let h = holdings_of(rs);
    let g = holdings_of(after);
    assert(g.assets =~= h.assets.push(token));
    let want = h.reserves.insert(token, amount);
    assert forall|t: TokenTicker| g.reserves.dom().contains(t) <==> want.dom().contains(t) by {
        if g.reserves.dom().contains(t) {
            let j = choose|j: int| tracked_at(after, t, j);
            if j < rs.len() {
                assert(tracked_at(rs, t, j));
            }
        }
        if want.dom().contains(t) {
            if t == token {
                assert(tracked_at(after, t, rs.len() as int));
            } else {
                let j = choose|j: int| tracked_at(rs, t, j);
                assert(tracked_at(after, t, j));
            }
        }
    }
    assert forall|t: TokenTicker| g.reserves.dom().contains(t) implies g.reserves[t] == want[t] by {
        let j = choose|j: int| tracked_at(after, t, j);
        if j < rs.len() {
            lemma_reserve_at(rs, j);
        }
    }
    assert(g.reserves =~= want);
}

proof fn lemma_position_set(ps: Seq<Position>, i: int, entry: Position)
    requires
        distinct_accounts(ps),
        0 <= i < ps.len(),
        entry.wallet.address@ == ps[i].wallet.address@,
        entry.pair == ps[i].pair,
    ensures
        distinct_accounts(ps.update(i, entry)),
        ledger_of(ps.update(i, entry)) == ledger_of(ps).insert(
            (entry.wallet.address@, entry.pair),
            entry.minted,
        ),
{
    let after = ps.update(i, entry);
    let key = (entry.wallet.address@, entry.pair);
    let want = ledger_of(ps).insert(key, entry.minted);
    let got = ledger_of(after);
    assert forall|account: Account| got.dom().contains(account) <==> want.dom().contains(
        account,
    ) by {
        if got.dom().contains(account) {
            let j = choose|j: int| account_at(after, account, j);
            assert(account_at(ps, account, j));
        }
        if want.dom().contains(account) {
            if account == key {
                assert(account_at(after, account, i));
            } else {
                let j = choose|j: int| account_at(ps, account, j);
                assert(account_at(after, account, j));
            }
        }
    }
}

proof fn lemma_position_push(ps: Seq<Position>, entry: Position)
    requires
        distinct_accounts(ps),
        forall|i: int| !account_at(ps, (entry.wallet.address@, entry.pair), i),
    ensures
        !ledger_of(ps).dom().contains((entry.wallet.address@, entry.pair)),
        distinct_accounts(ps.push(entry)),
        ledger_of(ps.push(entry)) == ledger_of(ps).insert(
            (entry.wallet.address@, entry.pair),
            entry.minted,
        ),
{
    let after = ps.push(entry);
    let key = (entry.wallet.address@, entry.pair);
    assert forall|a: int, b: int| 0 <= a < b < after.len() implies !((
    #[trigger] after[a]).wallet.address@ == (#[trigger] after[b]).wallet.address@ && after[a].pair
        == after[b].pair) by {
        if b >= ps.len() {
            assert(!account_at(ps, key, a));
        }
    }
    let want = ledger_of(ps).insert(key, entry.minted);
    let got = ledger_of(after);
    assert forall|account: Account| got.dom().contains(account) <==> want.dom().contains(
        account,
    ) by {
        if got.dom().contains(account) {
            let j = choose|j: int| account_at(after, account, j);
            if j < ps.len() {
                assert(account_at(ps, account, j));
            }
        }
        if want.dom().contains(account) {
            if account == key {
                assert(account_at(after, account, ps.len() as int));
            } else {
                let j = choose|j: int| account_at(ps, account, j);
                assert(account_at(after, account, j));
            }
        }
    }
}

} // verus!
