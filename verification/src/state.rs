//! The book as a mathematical value, and what submitting and cancelling an
//! order do to it.

use vstd::prelude::*;
use crate::fill::Trade;
use crate::level::{crosses, popped, removed, rested, rests, sorted, LevelView};
use crate::order::{trade_between, traded_quantity, OrderView};
use crate::types::{OrderType, ValidationError};

verus! {

/// The mathematical content of an order book: the levels of each side, the
/// orders it knows by identifier, and the size of a tick in price units.
///
/// Each side runs from its worst price to its best: `bids` by rising price,
/// `asks` by falling price, so the best level of a side is its last.
/// `orders` holds every resting order and every order that was filled; an
/// order that was cancelled is forgotten.
pub struct BookView {
    pub bids: Seq<LevelView>,
    pub asks: Seq<LevelView>,
    pub orders: Map<u128, OrderView>,
    pub tick_size: u64,
}

impl BookView {
    /// The book without orders.
    pub open spec fn empty(tick_size: u64) -> BookView {
        BookView { bids: Seq::empty(), asks: Seq::empty(), orders: Map::empty(), tick_size }
    }

    /// The levels of a side.
    pub open spec fn levels(self, side: OrderType) -> Seq<LevelView> {
        match side {
            OrderType::Buy => self.bids,
            OrderType::Sell => self.asks,
        }
    }

    /// The book with these levels on a side.
    pub open spec fn with_levels(self, side: OrderType, levels: Seq<LevelView>) -> BookView {
        match side {
            OrderType::Buy => BookView { bids: levels, ..self },
            OrderType::Sell => BookView { asks: levels, ..self },
        }
    }

    /// The book that knows `order` under `id`.
    pub open spec fn with_order(self, id: u128, order: OrderView) -> BookView {
        BookView { orders: self.orders.insert(id, order), ..self }
    }

    /// What holds of an identifier that stands in a queue of `side` at
    /// `price`: the book knows it as an open order of that side and price.
    pub open spec fn resting_wf(self, side: OrderType, price: i64, id: u128) -> bool {
        &&& self.orders.contains_key(id)
        &&& self.orders[id].is_open()
        &&& self.orders[id].side == side
        &&& self.orders[id].price_in_ticks == price
    }

    /// What holds of a level: it is not empty, no order stands in it twice,
    /// and each of its orders is open, of its side and of its price.
    pub open spec fn level_wf(self, side: OrderType, level: LevelView) -> bool {
        &&& level.ids.len() > 0
        &&& level.ids.no_duplicates()
        &&& forall|j: int|
            0 <= j < level.ids.len() ==> self.resting_wf(side, level.price, #[trigger] level.ids[j])
    }

    /// What holds of a side: its levels are sorted and each is well formed.
    pub open spec fn side_wf(self, side: OrderType) -> bool {
        &&& sorted(side, self.levels(side))
        &&& forall|i: int|
            0 <= i < self.levels(side).len() ==> self.level_wf(
                side,
                #[trigger] self.levels(side)[i],
            )
    }

    /// What holds of an order that the book knows: it is filed under its own
    /// identifier, it is well formed, and if it is open it rests in the queue
    /// of its side and price.
    pub open spec fn record_wf(self, id: u128) -> bool {
        let order = self.orders[id];
        &&& order.id == id
        &&& order.wf()
        &&& order.is_open() ==> rests(order.side, self.levels(order.side), order.price_in_ticks, id)
    }

    /// Whether the best bid lies below the best ask.
    pub open spec fn uncrossed(self) -> bool {
        self.bids.len() > 0 && self.asks.len() > 0 ==> self.bids.last().price
            < self.asks.last().price
    }

    /// The invariant of the book. Every book that the engine hands out
    /// satisfies it.
    pub open spec fn wf(self) -> bool {
        &&& self.tick_size > 0
        &&& self.orders.dom().finite()
        &&& self.side_wf(OrderType::Buy)
        &&& self.side_wf(OrderType::Sell)
        &&& self.uncrossed()
        &&& forall|id: u128| #[trigger] self.orders.contains_key(id) ==> self.record_wf(id)
    }

    /// The book and the order after the order has been submitted, with the
    /// trades that it made on the way, oldest first.
    ///
    /// The order first trades against the other side for as long as it
    /// crosses the best price there. What is left of it then comes to rest at
    /// the back of the queue of its own price. Filled or resting, the book
    /// knows it afterwards.
    pub open spec fn submit(self, order: OrderView) -> Matching {
        let swept = (Matching { book: self, incoming: order, trades: Seq::empty() }).run();
        let side = swept.incoming.side;
        let known = swept.book.with_order(swept.incoming.id, swept.incoming);
        let book = if swept.incoming.is_open() {
            known.with_levels(
                side,
                rested(side, known.levels(side), swept.incoming.price_in_ticks, swept.incoming.id),
            )
        } else {
            known
        };
        Matching { book, ..swept }
    }

    /// The book after the order `id` has been cancelled: the order has left
    /// its queue and the book has forgotten it. A book that does not know
    /// the order stays as it is.
    pub open spec fn cancel(self, id: u128) -> BookView {
        if self.orders.contains_key(id) {
            let order = self.orders[id];
            let side = order.side;
            let levels = removed(side, self.levels(side), order.price_in_ticks, id);
            BookView { orders: self.orders.remove(id), ..self.with_levels(side, levels) }
        } else {
            self
        }
    }

    /// The best price of a side and the quantity of the oldest order
    /// resting at it, if any order rests on that side.
    pub open spec fn best(self, side: OrderType) -> Option<(i64, u64)> {
        let levels = self.levels(side);
        if levels.len() > 0 {
            Some((levels.last().price, self.orders[levels.last().ids.first()].quantity))
        } else {
            None
        }
    }

    /// The orders that the book knows under these identifiers, in the same
    /// order.
    pub open spec fn queued(self, ids: Seq<u128>) -> Seq<OrderView> {
        Seq::new(ids.len(), |j: int| self.orders[ids[j]])
    }

    /// The orders of these levels, level after level, each level oldest
    /// order first.
    pub open spec fn listed(self, levels: Seq<LevelView>) -> Seq<OrderView>
        decreases levels.len(),
    {
        if levels.len() == 0 {
            Seq::empty()
        } else {
            self.listed(levels.drop_last()) + self.queued(levels.last().ids)
        }
    }

    /// The resting orders of a side by rising price, and oldest first where
    /// the price is the same.
    pub open spec fn resting(self, side: OrderType) -> Seq<OrderView> {
        match side {
            OrderType::Buy => self.listed(self.bids),
            OrderType::Sell => self.listed(self.asks.reverse()),
        }
    }

    /// The quantity that the orders under these identifiers have left, all
    /// together.
    pub open spec fn queue_volume(self, ids: Seq<u128>) -> nat
        decreases ids.len(),
    {
        if ids.len() == 0 {
            0
        } else {
            self.queue_volume(ids.drop_last()) + self.orders[ids.last()].quantity as nat
        }
    }

    /// The quantity that the orders of these levels have left, all together.
    pub open spec fn levels_volume(self, levels: Seq<LevelView>) -> nat
        decreases levels.len(),
    {
        if levels.len() == 0 {
            0
        } else {
            self.levels_volume(levels.drop_last()) + self.queue_volume(levels.last().ids)
        }
    }

    /// The quantity that rests on a side, over all its levels.
    pub open spec fn volume(self, side: OrderType) -> nat {
        self.levels_volume(self.levels(side))
    }

    /// The distance from the best bid to the best ask in price units, if
    /// both sides hold an order.
    pub open spec fn spread(self) -> Option<int> {
        if self.bids.len() > 0 && self.asks.len() > 0 {
            Some((self.asks.last().price - self.bids.last().price) * self.tick_size)
        } else {
            None
        }
    }
}

/// The number of ticks nearest to `price`, the halves rounded up.
pub open spec fn nearest_ticks(price: int, tick_size: int) -> int {
    (2 * price + tick_size) / (2 * tick_size)
}

/// The error, if any, with which the book's factory turns away an order of
/// this price, in price units, and quantity.
pub open spec fn creation_fault(price: i64, quantity: u64, tick_size: u64) -> Option<
    ValidationError,
> {
    if price <= 0 {
        Some(ValidationError::NonPositivePrice)
    } else if quantity == 0 {
        Some(ValidationError::NonPositiveQuantity)
    } else if nearest_ticks(price as int, tick_size as int) <= 0 {
        Some(ValidationError::NonPositiveTicks)
    } else {
        None
    }
}

/// An order on its way through the book: the book as it stands, the order
/// with what is left of it, and the trades made so far, oldest first.
pub struct Matching {
    pub book: BookView,
    pub incoming: OrderView,
    pub trades: Seq<Trade>,
}

impl Matching {
    /// What holds while an order is on its way: the book is well formed,
    /// the order is well formed, and the book does not know it yet.
    pub open spec fn wf(self) -> bool {
        &&& self.book.wf()
        &&& self.incoming.wf()
        &&& !self.book.orders.contains_key(self.incoming.id)
    }

    /// The side that the incoming order trades against.
    pub open spec fn resting_side(self) -> OrderType {
        self.incoming.side.spec_opposite()
    }

    /// Whether the incoming order is open and crosses the best price of the
    /// other side.
    pub open spec fn crossing(self) -> bool {
        let levels = self.book.levels(self.resting_side());
        &&& self.incoming.is_open()
        &&& levels.len() > 0
        &&& crosses(self.incoming.side, self.incoming.price_in_ticks, levels.last().price)
    }

    /// One trade: the incoming order against the oldest order of the best
    /// level of the other side. A resting order that is filled leaves its
    /// queue; one that is not keeps its place at the front.
    pub open spec fn step(self) -> Matching {
        let side = self.resting_side();
        let levels = self.book.levels(side);
        let id = levels.last().ids.first();
        let resting = self.book.orders[id];
        let quantity = traded_quantity(resting, self.incoming);
        let left = resting.reduced(quantity);
        let remaining = if left.is_open() {
            levels
        } else {
            popped(levels)
        };
        Matching {
            book: self.book.with_levels(side, remaining).with_order(id, left),
            incoming: self.incoming.reduced(quantity),
            trades: self.trades.push(trade_between(resting, self.incoming, self.book.tick_size)),
        }
    }

    /// Trades for as long as the incoming order crosses.
    pub open spec fn run(self) -> Matching
        decreases
            self.book.levels(self.resting_side()).len(),
            self.front_depth(),
            self.open_flag(),
    {
        if self.crossing() {
            self.step().run()
        } else {
            self
        }
    }

    /// The number of orders in the best level of the resting side.
    pub open spec fn front_depth(self) -> nat {
        let levels = self.book.levels(self.resting_side());
        if levels.len() > 0 {
            levels.last().ids.len()
        } else {
            0
        }
    }

    /// One while the incoming order is open, zero afterwards.
    pub open spec fn open_flag(self) -> nat {
        if self.incoming.is_open() {
            1
        } else {
            0
        }
    }
}

} // verus!
