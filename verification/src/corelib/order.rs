//! Orders and the wallets that own them.

use core::cmp::Ordering;
use vstd::prelude::*;
use vstd::std_specs::cmp::{PartialEqSpecImpl, PartialOrdSpecImpl};

verus! {

/// A limit price as an integer key: of two prices the one with the larger
/// key is the higher, and two quotes stand at the same price level exactly
/// when their keys are equal. A caller that quotes in another unit maps
/// each quote to its key by a map that keeps the order of the quotes and
/// gives no quote the key zero.
pub type Price = u64;

/// The side of the book an order rests on.
#[derive(PartialEq, Eq, Structural, Clone, Copy, Debug)]
pub enum BuyOrSell {
    Buy,
    Sell,
}

/// An opaque wallet identity.
#[derive(Hash, Eq, Clone, Debug)]
pub struct Wallet {
    pub address: String,
}

impl Wallet {
    pub fn new(key: String) -> (wallet: Wallet)
        ensures
            wallet.address == key,
    {
        Wallet { address: key }
    }
}

impl PartialEq for Wallet {
    fn eq(&self, other: &Self) -> (r: bool) {
        self.address == other.address
    }
}

impl PartialEqSpecImpl for Wallet {
    open spec fn obeys_eq_spec() -> bool {
        true
    }

    /// Two wallets are the same when their addresses read the same.
    open spec fn eq_spec(&self, other: &Self) -> bool {
        self.address@ == other.address@
    }
}

/// A resting intent to buy or sell `quantity` units at the limit `price`.
#[derive(Debug, Clone)]
pub struct Order {
    pub quantity: u32,
    pub price: Price,
    pub id: u64,
    pub timestamp: u64,
    pub wallet: Option<Wallet>,
    pub side: BuyOrSell,
}

/// Whether a quote at `a` is strictly more attractive to the other side than
/// a quote at `b`: a buyer who bids more, a seller who asks less.
pub open spec fn better_price(side: BuyOrSell, a: Price, b: Price) -> bool {
    match side {
        BuyOrSell::Buy => a > b,
        BuyOrSell::Sell => a < b,
    }
}

impl Order {
    /// An order without an owner.
    pub fn new(id: u64, side: BuyOrSell, quantity: u32, price: Price, time: u64) -> (order: Order)
        ensures
            order == (Order { quantity, price, id, timestamp: time, wallet: None, side }),
    {
        Order { quantity, price, id, timestamp: time, wallet: None, side }
    }

    /// Priority between two orders of one side: the better price goes first,
    /// then the earlier timestamp, then the smaller id.
    pub open spec fn precedes(&self, other: &Order) -> bool {
        self.side == other.side && (better_price(self.side, self.price, other.price) || (self.price
            == other.price && (self.timestamp < other.timestamp || (self.timestamp
            == other.timestamp && self.id < other.id))))
    }
}

impl PartialEq for Order {
    fn eq(&self, other: &Self) -> (r: bool) {
        self.id == other.id
    }
}

impl PartialEqSpecImpl for Order {
    open spec fn obeys_eq_spec() -> bool {
        true
    }

    /// An order is identified by its id alone.
    open spec fn eq_spec(&self, other: &Self) -> bool {
        self.id == other.id
    }
}

impl PartialOrd for Order {
    fn partial_cmp(&self, other: &Self) -> (r: Option<Ordering>) {
        let same_side = match (self.side, other.side) {
            (BuyOrSell::Buy, BuyOrSell::Buy) => true,
            (BuyOrSell::Sell, BuyOrSell::Sell) => true,
            _ => false,
        };
        if !same_side {
            None
        } else if self.price != other.price {
            let higher_first = match self.side {
                BuyOrSell::Buy => true,
                BuyOrSell::Sell => false,
            };
            if (self.price > other.price) == higher_first {
                Some(Ordering::Less)
            } else {
                Some(Ordering::Greater)
            }
        } else if self.timestamp != other.timestamp {
            if self.timestamp < other.timestamp {
                Some(Ordering::Less)
            } else {
                Some(Ordering::Greater)
            }
        } else if self.id < other.id {
            Some(Ordering::Less)
        } else if self.id > other.id {
            Some(Ordering::Greater)
        } else {
            Some(Ordering::Equal)
        }
    }
}

impl PartialOrdSpecImpl for Order {
    open spec fn obeys_partial_cmp_spec() -> bool {
        true
    }

    /// Orders of different sides are not comparable. On one side the order
    /// that `precedes` the other is the lesser.
    open spec fn partial_cmp_spec(&self, other: &Self) -> Option<Ordering> {
        if self.side != other.side {
            None
        } else if self.precedes(other) {
            Some(Ordering::Less)
        } else if other.precedes(self) {
            Some(Ordering::Greater)
        } else {
            Some(Ordering::Equal)
        }
    }
}

} // verus!
