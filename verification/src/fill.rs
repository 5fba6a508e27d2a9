//! Fills: the record of one match between a buy order and a sell order.

use vstd::prelude::*;

verus! {

/// What was exchanged in a match: everything a fill records but the instant
/// at which it was made.
pub struct Trade {
    pub quantity: u64,
    pub price: u128,
    pub buy_id: u128,
    pub sell_id: u128,
}

/// The mathematical content of a [`Fill`].
pub struct FillView {
    pub quantity: u64,
    pub price: u128,
    pub buy_id: u128,
    pub sell_id: u128,
    pub timestamp: u64,
}

impl FillView {
    /// The fill without its timestamp.
    pub open spec fn trade(self) -> Trade {
        Trade {
            quantity: self.quantity,
            price: self.price,
            buy_id: self.buy_id,
            sell_id: self.sell_id,
        }
    }
}

impl Trade {
    /// The fill that records this trade as made at `timestamp`.
    pub open spec fn at(self, timestamp: u64) -> FillView {
        FillView {
            quantity: self.quantity,
            price: self.price,
            buy_id: self.buy_id,
            sell_id: self.sell_id,
            timestamp,
        }
    }
}

/// The trades that a run of fills records, in the same order.
pub open spec fn trades_of(fills: Seq<Fill>) -> Seq<Trade> {
    Seq::new(fills.len(), |i: int| fills[i]@.trade())
}

/// A match between two orders: the quantity exchanged, the price in price
/// units, the identifiers of the buyer's and the seller's order, and the
/// instant of the match in nanoseconds since the Unix epoch.
#[derive(Clone, Copy, Debug)]
pub struct Fill {
    quantity: u64,
    price: u128,
    buy_id: u128,
    sell_id: u128,
    timestamp: u64,
}

impl View for Fill {
    type V = FillView;

    closed spec fn view(&self) -> FillView {
        FillView {
            quantity: self.quantity,
            price: self.price,
            buy_id: self.buy_id,
            sell_id: self.sell_id,
            timestamp: self.timestamp,
        }
    }
}

impl Fill {
    /// Records a match.
    pub fn new(quantity: u64, price: u128, buy_id: u128, sell_id: u128, timestamp: u64) -> (f:
        Self)
        ensures
            f@ == (FillView { quantity, price, buy_id, sell_id, timestamp }),
    {
        Self { quantity, price, buy_id, sell_id, timestamp }
    }

    /// The quantity exchanged.
    pub fn quantity(&self) -> (q: u64)
        ensures
            q == self@.quantity,
    {
        self.quantity
    }

    /// The price at which the quantity was exchanged, in price units.
    pub fn price(&self) -> (p: u128)
        ensures
            p == self@.price,
    {
        self.price
    }

    /// The identifier of the buy order.
    pub fn buy_id(&self) -> (id: u128)
        ensures
            id == self@.buy_id,
    {
        self.buy_id
    }

    /// The identifier of the sell order.
    pub fn sell_id(&self) -> (id: u128)
        ensures
            id == self@.sell_id,
    {
        self.sell_id
    }

    /// The instant of the match, in nanoseconds since the Unix epoch.
    pub fn timestamp(&self) -> (t: u64)
        ensures
            t == self@.timestamp,
    {
        self.timestamp
    }
}

} // verus!
