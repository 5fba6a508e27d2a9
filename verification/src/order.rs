//! Orders: their validation, their life cycle, and the rule by which two of
//! them trade.

use vstd::prelude::*;
use crate::clock::{is_random_uuid, now, random_id};
use crate::fill::{Fill, Trade};
use crate::types::{OrderStatus, OrderType, ValidationError};

verus! {

/// The mathematical content of an [`Order`].
pub struct OrderView {
    pub id: u128,
    pub side: OrderType,
    pub price_in_ticks: i64,
    pub quantity: u64,
    pub status: OrderStatus,
    pub timestamp: u64,
}

impl OrderView {
    /// What holds of every order from its creation on: the price is
    /// positive, and the order is either open with something left to trade
    /// or filled with nothing left. No order is held as cancelled: the book
    /// forgets an order that is cancelled.
    pub open spec fn wf(self) -> bool {
        &&& self.price_in_ticks > 0
        &&& self.status != OrderStatus::Canceled
        &&& self.status == OrderStatus::Open ==> self.quantity > 0
        &&& self.status == OrderStatus::Filled ==> self.quantity == 0
    }

    /// Whether the order is still open.
    pub open spec fn is_open(self) -> bool {
        self.status == OrderStatus::Open
    }

    /// Whether the two orders stand on opposite sides at prices that meet:
    /// the buyer bids at least what the seller asks.
    pub open spec fn can_match(self, other: OrderView) -> bool {
        self.side != other.side && match self.side {
            OrderType::Buy => self.price_in_ticks >= other.price_in_ticks,
            OrderType::Sell => self.price_in_ticks <= other.price_in_ticks,
        }
    }

    /// The order after `by` of its quantity has traded. It is filled when
    /// nothing is left.
    pub open spec fn reduced(self, by: u64) -> OrderView
        recommends
            by <= self.quantity,
    {
        OrderView {
            quantity: (self.quantity - by) as u64,
            status: if self.quantity == by {
                OrderStatus::Filled
            } else {
                self.status
            },
            ..self
        }
    }
}

/// The mathematical content of a run of orders.
pub open spec fn views_of(orders: Seq<Order>) -> Seq<OrderView> {
    Seq::new(orders.len(), |i: int| orders[i]@)
}

/// The error, if any, with which an order of this price and quantity is
/// turned away.
pub open spec fn order_fault(price_in_ticks: i64, quantity: u64) -> Option<ValidationError> {
    if price_in_ticks <= 0 {
        Some(ValidationError::NonPositiveTicks)
    } else if quantity == 0 {
        Some(ValidationError::NonPositiveQuantity)
    } else {
        None
    }
}

/// The quantity that two matching orders exchange: all that the smaller of
/// them has left.
pub open spec fn traded_quantity(resting: OrderView, incoming: OrderView) -> u64 {
    if resting.quantity <= incoming.quantity {
        resting.quantity
    } else {
        incoming.quantity
    }
}

/// The trade that two matching orders make. It executes at the price that
/// the seller quoted, so a buyer who bid more pays less than the bid.
pub open spec fn trade_between(resting: OrderView, incoming: OrderView, tick_size: u64) -> Trade {
    let (buyer, seller) = if resting.side == OrderType::Sell {
        (incoming, resting)
    } else {
        (resting, incoming)
    };
    Trade {
        quantity: traded_quantity(resting, incoming),
        price: (seller.price_in_ticks * tick_size) as u128,
        buy_id: buyer.id,
        sell_id: seller.id,
    }
}

/// One order: an identifier, a side, a price in ticks, the quantity that is
/// still to trade, a status, and the instant of its creation in nanoseconds
/// since the Unix epoch.
#[derive(Clone, Copy, Debug)]
pub struct Order {
    id: u128,
    side: OrderType,
    price_in_ticks: i64,
    quantity: u64,
    status: OrderStatus,
    timestamp: u64,
}

impl View for Order {
    type V = OrderView;

    closed spec fn view(&self) -> OrderView {
        OrderView {
            id: self.id,
            side: self.side,
            price_in_ticks: self.price_in_ticks,
            quantity: self.quantity,
            status: self.status,
            timestamp: self.timestamp,
        }
    }
}

impl Order {
    /// Every order is well formed.
    #[verifier::type_invariant]
    pub open spec fn inv(self) -> bool {
        self@.wf()
    }

    /// Creates an open order under a fresh random identifier, stamped with
    /// the current time. A price or a quantity that is not positive is turned
    /// away.
    pub fn new(side: OrderType, price_in_ticks: i64, quantity: u64) -> (r: Result<
        Self,
        ValidationError,
    >)
        ensures
            match r {
                Ok(order) => {
                    &&& order_fault(price_in_ticks, quantity) is None
                    &&& order@.side == side
                    &&& order@.price_in_ticks == price_in_ticks
                    &&& order@.quantity == quantity
                    &&& order@.status == OrderStatus::Open
                    &&& is_random_uuid(order@.id)
                },
                Err(e) => order_fault(price_in_ticks, quantity) == Some(e),
            },
    {
        if price_in_ticks <= 0 {
            return Err(ValidationError::NonPositiveTicks);
        }
        if quantity == 0 {
            return Err(ValidationError::NonPositiveQuantity);
        }
        let id = random_id();
        let timestamp = now();
        Self::with_identity(id, timestamp, side, price_in_ticks, quantity)
    }

    /// Creates an open order under the identifier and the timestamp given.
    pub fn with_identity(
        id: u128,
        timestamp: u64,
        side: OrderType,
        price_in_ticks: i64,
        quantity: u64,
    ) -> (r: Result<Self, ValidationError>)
        ensures
            match r {
                Ok(order) => {
                    &&& order_fault(price_in_ticks, quantity) is None
                    &&& order@ == (OrderView {
                        id,
                        side,
                        price_in_ticks,
                        quantity,
                        status: OrderStatus::Open,
                        timestamp,
                    })
                },
                Err(e) => order_fault(price_in_ticks, quantity) == Some(e),
            },
    {
        if price_in_ticks <= 0 {
            return Err(ValidationError::NonPositiveTicks);
        }
        if quantity == 0 {
            return Err(ValidationError::NonPositiveQuantity);
        }
        Ok(Self { id, side, price_in_ticks, quantity, status: OrderStatus::Open, timestamp })
    }

    /// Whether this order and `other` stand on opposite sides at prices that
    /// meet.
    pub fn can_match(&self, other: &Order) -> (r: bool)
        ensures
            r == self@.can_match(other@),
    {
        if self.side == other.side {
            return false;
        }
        match self.side {
            OrderType::Buy => self.price_in_ticks >= other.price_in_ticks,
            OrderType::Sell => self.price_in_ticks <= other.price_in_ticks,
        }
    }

    /// Trades this order against `incoming` and stamps the fill with the
    /// current time. See [`Order::fill_at`].
    pub fn fill(&mut self, incoming: &mut Order, tick_size: u64) -> (r: Option<Fill>)
        ensures
            match r {
                Some(fill) => {
                    &&& old(self)@.can_match(old(incoming)@)
                    &&& fill@.trade() == trade_between(old(self)@, old(incoming)@, tick_size)
                    &&& final(self)@ == old(self)@.reduced(fill@.quantity)
                    &&& final(incoming)@ == old(incoming)@.reduced(fill@.quantity)
                },
                None => {
                    &&& !old(self)@.can_match(old(incoming)@)
                    &&& final(self)@ == old(self)@
                    &&& final(incoming)@ == old(incoming)@
                },
            },
    {
        if !self.can_match(incoming) {
            return None;
        }
        let timestamp = now();
        self.fill_at(incoming, tick_size, timestamp)
    }

    /// Trades this order, the resting one, against `incoming`. Orders that
    /// do not match are left as they are. Orders that match exchange all
    /// that the smaller of them has left, at the seller's price; each that
    /// has nothing left becomes filled.
    pub fn fill_at(&mut self, incoming: &mut Order, tick_size: u64, timestamp: u64) -> (r: Option<
        Fill,
    >)
        ensures
            match r {
                Some(fill) => {
                    &&& old(self)@.can_match(old(incoming)@)
                    &&& fill@ == trade_between(old(self)@, old(incoming)@, tick_size).at(timestamp)
                    &&& final(self)@ == old(self)@.reduced(fill@.quantity)
                    &&& final(incoming)@ == old(incoming)@.reduced(fill@.quantity)
                },
                None => {
                    &&& !old(self)@.can_match(old(incoming)@)
                    &&& final(self)@ == old(self)@
                    &&& final(incoming)@ == old(incoming)@
                },
            },
    {
        if !self.can_match(incoming) {
            return None;
        }
        proof {
            use_type_invariant(&*self);
            use_type_invariant(&*incoming);
        }
        let resting = *self;
        let aggressor = *incoming;
        let quantity = if resting.quantity <= aggressor.quantity {
            resting.quantity
        } else {
            aggressor.quantity
        };
        *self = resting.after_trading(quantity);
        *incoming = aggressor.after_trading(quantity);
        let (buy_id, sell_id, ticks) = if resting.side == OrderType::Sell {
            (aggressor.id, resting.id, resting.price_in_ticks)
        } else {
            (resting.id, aggressor.id, aggressor.price_in_ticks)
        };
        let price = price_of(ticks, tick_size);
        Some(Fill::new(quantity, price, buy_id, sell_id, timestamp))
    }

    /// The order with `by` less to trade.
    fn after_trading(self, by: u64) -> (r: Order)
        requires
            by <= self@.quantity,
        ensures
            r@ == self@.reduced(by),
    {
        proof {
            use_type_invariant(&self);
        }
        Order {
            quantity: self.quantity - by,
            status: if self.quantity == by {
                OrderStatus::Filled
            } else {
                self.status
            },
            ..self
        }
    }

    /// Whether the order is still open.
    pub fn is_open(&self) -> (r: bool)
        ensures
            r == self@.is_open(),
    {
        self.status == OrderStatus::Open
    }

    /// The identifier of the order.
    pub fn id(&self) -> (id: u128)
        ensures
            id == self@.id,
    {
        self.id
    }

    /// The side of the order.
    pub fn side(&self) -> (side: OrderType)
        ensures
            side == self@.side,
    {
        self.side
    }

    /// The price of the order, in ticks.
    pub fn price_in_ticks(&self) -> (price: i64)
        ensures
            price == self@.price_in_ticks,
            price > 0,
    {
        proof {
            use_type_invariant(self);
        }
        self.price_in_ticks
    }

    /// The quantity that is still to trade.
    pub fn quantity(&self) -> (quantity: u64)
        ensures
            quantity == self@.quantity,
    {
        self.quantity
    }

    /// Where the order stands in its life.
    pub fn status(&self) -> (status: OrderStatus)
        ensures
            status == self@.status,
    {
        self.status
    }

    /// The instant of creation, in nanoseconds since the Unix epoch.
    pub fn timestamp(&self) -> (timestamp: u64)
        ensures
            timestamp == self@.timestamp,
    {
        self.timestamp
    }
}

/// The price, in price units, of `ticks` ticks of `tick_size` units each.
pub fn price_of(ticks: i64, tick_size: u64) -> (price: u128)
    requires
        ticks >= 0,
    ensures
        price == ticks * tick_size,
{
    let t: u128 = ticks as u128;
    let s: u128 = tick_size as u128;
    assert(t * s <= 0x7fff_ffff_ffff_ffff * 0xffff_ffff_ffff_ffff) by (nonlinear_arith)
        requires
            0 <= t <= 0x7fff_ffff_ffff_ffff,
            0 <= s <= 0xffff_ffff_ffff_ffff,
    ;
    t * s
}

} // verus!
