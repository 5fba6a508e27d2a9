//! The order book: the matching engine and its queries.

use vstd::prelude::*;
use std::collections::HashMap;
use crate::clock::is_random_uuid;
use crate::fill::{trades_of, Fill};
use crate::history::{after_event, Event};
use crate::ladder::{is_crossing, Ladder};
use crate::level::{crosses, LevelView};
use crate::order::{price_of, views_of, Order, OrderView};
use crate::soundness::{
    lemma_cancel_wf, lemma_empty_wf, lemma_front, lemma_run_wf, lemma_step_wf, lemma_submit_wf,
};
use crate::state::{creation_fault, nearest_ticks, BookView, Matching};
use crate::types::{OrderStatus, OrderType, ValidationError, DEFAULT_TICK_SIZE};
use crate::volume::{
    lemma_levels_volume_bound, lemma_levels_volume_take, lemma_queue_volume_take,
    lemma_resting_count, resting_count,
};

verus! {

/// A limit order book. It holds the resting orders of both sides by price
/// and arrival, and every order it knows by identifier.
pub struct OrderBook {
    bids: Ladder,
    asks: Ladder,
    orders: HashMap<u128, Order>,
    tick_size: u64,
}

/// The orders of the index as mathematical values.
pub closed spec fn orders_view(orders: Map<u128, Order>) -> Map<u128, OrderView> {
    Map::new(|id: u128| orders.contains_key(id), |id: u128| orders[id]@)
}

/// The book that is made of these parts, `own` being the levels of `side`
/// and `other` those of the opposite side.
spec fn assembled(
    side: OrderType,
    own: Seq<LevelView>,
    other: Seq<LevelView>,
    orders: Map<u128, Order>,
    tick_size: u64,
) -> BookView {
    match side {
        OrderType::Buy => BookView {
            bids: own,
            asks: other,
            orders: orders_view(orders),
            tick_size,
        },
        OrderType::Sell => BookView {
            bids: other,
            asks: own,
            orders: orders_view(orders),
            tick_size,
        },
    }
}

/// The sweep as it stands when the book is made of these parts and these
/// fills have been made.
spec fn underway(
    side: OrderType,
    own: Seq<LevelView>,
    other: Seq<LevelView>,
    orders: Map<u128, Order>,
    tick_size: u64,
    incoming: OrderView,
    fills: Seq<Fill>,
) -> Matching {
    Matching {
        book: assembled(side, own, other, orders, tick_size),
        incoming,
        trades: trades_of(fills),
    }
}

impl View for OrderBook {
    type V = BookView;

    closed spec fn view(&self) -> BookView {
        BookView {
            bids: self.bids@,
            asks: self.asks@,
            orders: orders_view(self.orders@),
            tick_size: self.tick_size,
        }
    }
}

impl OrderBook {
    #[verifier::type_invariant]
    spec fn inv(self) -> bool {
        self@.wf()
    }

    /// An empty book with the tick size given, in price units.
    pub fn new(tick_size: u64) -> (book: Self)
        requires
            tick_size > 0,
        ensures
            book@ == BookView::empty(tick_size),
            book@.wf(),
    {
        let bids = Ladder::new();
        let asks = Ladder::new();
        let orders: HashMap<u128, Order> = HashMap::new();
        proof {
            assert(orders_view(orders@) =~= Map::<u128, OrderView>::empty());
            lemma_empty_wf(tick_size);
        }
        OrderBook { bids, asks, orders, tick_size }
    }

    /// The invariant holds of this book, as of every book.
    pub fn well_formed(&self)
        ensures
            self@.wf(),
    {
        proof {
            use_type_invariant(self);
        }
    }

    /// The size of a tick in price units.
    pub fn tick_size(&self) -> (t: u64)
        ensures
            t == self@.tick_size,
            t > 0,
    {
        proof {
            use_type_invariant(self);
        }
        self.tick_size
    }

    /// The order that the book knows under `id`, as it stands now.
    pub fn get_order(&self, id: u128) -> (r: Option<Order>)
        ensures
            match r {
                Some(order) => self@.orders.contains_key(id) && order@ == self@.orders[id],
                None => !self@.orders.contains_key(id),
            },
    {
        match self.orders.get(&id) {
            Some(order) => Some(*order),
            None => None,
        }
    }

    /// Creates an order for this book, without submitting it. The price is
    /// given in price units and rounded to the nearest tick. A price or a
    /// quantity that is not positive is turned away, and so is a price that
    /// rounds to no tick at all.
    pub fn create_order(&self, side: OrderType, price: i64, quantity: u64) -> (r: Result<
        Order,
        ValidationError,
    >)
        ensures
            match r {
                Ok(order) => {
                    &&& creation_fault(price, quantity, self@.tick_size) is None
                    &&& order@.side == side
                    &&& order@.price_in_ticks == nearest_ticks(
                        price as int,
                        self@.tick_size as int,
                    )
                    &&& order@.quantity == quantity
                    &&& order@.status == OrderStatus::Open
                    &&& is_random_uuid(order@.id)
                },
                Err(e) => creation_fault(price, quantity, self@.tick_size) == Some(e),
            },
    {
        proof {
            use_type_invariant(self);
        }
        if price <= 0 {
            return Err(ValidationError::NonPositivePrice);
        }
        if quantity == 0 {
            return Err(ValidationError::NonPositiveQuantity);
        }
        let price_in_ticks = ticks_for(price, self.tick_size);
        if price_in_ticks <= 0 {
            return Err(ValidationError::NonPositiveTicks);
        }
        Order::new(side, price_in_ticks, quantity)
    }

    /// Cancels the order `id`: takes it out of its queue and forgets it.
    /// Returns whether the book knew the order. A book that did not know it
    /// stays as it is.
    pub fn cancel(&mut self, id: u128) -> (r: bool)
        ensures
            r == old(self)@.orders.contains_key(id),
            final(self)@ == old(self)@.cancel(id),
            !final(self)@.orders.contains_key(id),
            final(self)@ == after_event(old(self)@, Event::Cancel(id)),
            final(self)@.wf(),
    {
        proof {
            use_type_invariant(&*self);
        }
        let order = match self.orders.get(&id) {
            Some(order) => *order,
            None => {
                return false;
            },
        };
        let tick_size = self.tick_size;
        let mut taken = OrderBook::new(tick_size);
        core::mem::swap(self, &mut taken);
        let OrderBook { mut bids, mut asks, mut orders, tick_size: _ } = taken;
        match order.side() {
            OrderType::Buy => bids.remove(OrderType::Buy, order.price_in_ticks(), id),
            OrderType::Sell => asks.remove(OrderType::Sell, order.price_in_ticks(), id),
        }
        orders.remove(&id);
        proof {
            lemma_cancel_wf(old(self)@, id);
            assert(orders_view(orders@) =~= old(self)@.orders.remove(id));
        }
        *self = OrderBook { bids, asks, orders, tick_size };
        true
    }

    /// The best price of a side, in ticks, and the quantity of the oldest
    /// order resting at it: of that one order, not of the whole level.
    pub fn best(&self, side: OrderType) -> (r: Option<(i64, u64)>)
        ensures
            r == self@.best(side),
    {
        proof {
            use_type_invariant(self);
        }
        let ladder = match side {
            OrderType::Buy => &self.bids,
            OrderType::Sell => &self.asks,
        };
        match ladder.best_price() {
            Some(price) => {
                proof {
                    lemma_front(self@, side);
                }
                let id = ladder.front();
                let order = self.orders.get(&id).unwrap();
                Some((price, order.quantity()))
            },
            None => None,
        }
    }

    /// The highest bid, in ticks, and the quantity of the oldest order
    /// bidding it.
    pub fn best_bid(&self) -> (r: Option<(i64, u64)>)
        ensures
            r == self@.best(OrderType::Buy),
    {
        self.best(OrderType::Buy)
    }

    /// The lowest ask, in ticks, and the quantity of the oldest order
    /// asking it.
    pub fn best_ask(&self) -> (r: Option<(i64, u64)>)
        ensures
            r == self@.best(OrderType::Sell),
    {
        self.best(OrderType::Sell)
    }

    /// The distance from the best bid to the best ask, in price units, if
    /// both sides hold an order. It is never zero.
    pub fn spread(&self) -> (r: Option<u128>)
        ensures
            match r {
                Some(spread) => self@.spread() == Some(spread as int) && spread > 0,
                None => self@.spread() is None,
            },
    {
        proof {
            use_type_invariant(self);
        }
        match (self.bids.best_price(), self.asks.best_price()) {
            (Some(bid), Some(ask)) => {
                proof {
                    lemma_front(self@, OrderType::Buy);
                    lemma_front(self@, OrderType::Sell);
                }
                let ticks = ask - bid;
                let tick_size = self.tick_size;
                assert(ticks * tick_size > 0) by (nonlinear_arith)
                    requires
                        ticks > 0,
                        tick_size > 0,
                ;
                Some(price_of(ticks, tick_size))
            },
            _ => None,
        }
    }

    /// The resting buy orders by rising price, and oldest first where the
    /// price is the same.
    pub fn get_buy_orders(&self) -> (r: Vec<Order>)
        ensures
            views_of(r@) == self@.resting(OrderType::Buy),
    {
        let mut out: Vec<Order> = Vec::new();
        let n = self.bids.len();
        let mut i: usize = 0;
        while i < n
            invariant
                n == self@.bids.len(),
                i <= n,
                views_of(out@) == self@.listed(self@.bids.take(i as int)),
            decreases n - i,
        {
            self.append_level(OrderType::Buy, i, &mut out);
            proof {
                let head = self@.bids.take(i + 1);
                assert(head.drop_last() =~= self@.bids.take(i as int));
            }
            i = i + 1;
        }
        assert(self@.bids.take(n as int) =~= self@.bids);
        out
    }

    /// The resting sell orders by rising price, and oldest first where the
    /// price is the same.
    pub fn get_sell_orders(&self) -> (r: Vec<Order>)
        ensures
            views_of(r@) == self@.resting(OrderType::Sell),
    {
        let mut out: Vec<Order> = Vec::new();
        let n = self.asks.len();
        let mut k: usize = 0;
        let ghost rising = self@.asks.reverse();
        while k < n
            invariant
                n == self@.asks.len(),
                k <= n,
                rising == self@.asks.reverse(),
                views_of(out@) == self@.listed(rising.take(k as int)),
            decreases n - k,
        {
            self.append_level(OrderType::Sell, n - 1 - k, &mut out);
            proof {
                let head = rising.take(k + 1);
                assert(head.drop_last() =~= rising.take(k as int));
            }
            k = k + 1;
        }
        assert(rising.take(n as int) =~= rising);
        out
    }

    /// Appends the orders of the level at `i` of a side to `out`, oldest
    /// first.
    fn append_level(&self, side: OrderType, i: usize, out: &mut Vec<Order>)
        requires
            i < self@.levels(side).len(),
        ensures
            views_of(final(out)@) == views_of(old(out)@) + self@.queued(
                self@.levels(side)[i as int].ids,
            ),
    {
        proof {
            use_type_invariant(self);
        }
        let ladder = match side {
            OrderType::Buy => &self.bids,
            OrderType::Sell => &self.asks,
        };
        let ghost level = self@.levels(side)[i as int];
        let depth = ladder.depth_at(i);
        let mut j: usize = 0;
        while j < depth
            invariant
                i < ladder@.len(),
                ladder@ == self@.levels(side),
                level == ladder@[i as int],
                self@.level_wf(side, level),
                depth == level.ids.len(),
                j <= depth,
                views_of(out@) == views_of(old(out)@) + self@.queued(level.ids.take(j as int)),
            decreases depth - j,
        {
            let id = ladder.id_at(i, j);
            let order = *self.orders.get(&id).unwrap();
            let ghost before = out@;
            out.push(order);
            assert(views_of(out@) =~= views_of(old(out)@) + self@.queued(
                level.ids.take(j + 1),
            )) by {
                assert(views_of(out@) =~= views_of(before).push(order@));
                assert(self@.queued(level.ids.take(j + 1)) =~= self@.queued(
                    level.ids.take(j as int),
                ).push(order@));
            }
            j = j + 1;
        }
    }

    /// The quantity that rests on a side, over all its levels.
    pub fn volume(&self, side: OrderType) -> (v: u128)
        ensures
            v == self@.volume(side),
    {
        proof {
            use_type_invariant(self);
        }
        let ladder = match side {
            OrderType::Buy => &self.bids,
            OrderType::Sell => &self.asks,
        };
        let ghost levels = self@.levels(side);
        proof {
            assert(self@.orders.dom() =~= self.orders@.dom());
            assert(self.orders@.len() == self.orders.len());
            lemma_resting_count(self@, side);
            lemma_levels_volume_bound(self@, levels);
            assert(resting_count(levels) * u64::MAX <= u64::MAX * u64::MAX) by (nonlinear_arith)
                requires
                    resting_count(levels) <= u64::MAX,
            ;
        }
        let n = ladder.len();
        let mut total: u128 = 0;
        let mut i: usize = 0;
        while i < n
            invariant
                ladder@ == levels,
                levels == self@.levels(side),
                self@.wf(),
                n == levels.len(),
                i <= n,
                total == self@.levels_volume(levels.take(i as int)),
                self@.levels_volume(levels) <= u64::MAX * u64::MAX,
            decreases n - i,
        {
            let ghost ids = levels[i as int].ids;
            proof {
                let head = levels.take(i + 1);
                assert(head.drop_last() =~= levels.take(i as int));
                lemma_levels_volume_take(self@, levels, i + 1);
            }
            let depth = ladder.depth_at(i);
            let mut j: usize = 0;
            let mut queued: u128 = 0;
            while j < depth
                invariant
                    ladder@ == levels,
                    i < levels.len(),
                    ids == levels[i as int].ids,
                    self@.level_wf(side, levels[i as int]),
                    depth == ids.len(),
                    j <= depth,
                    queued == self@.queue_volume(ids.take(j as int)),
                    self@.queue_volume(ids) <= u64::MAX * u64::MAX,
                decreases depth - j,
            {
                let id = ladder.id_at(i, j);
                proof {
                    let head = ids.take(j + 1);
                    assert(head.drop_last() =~= ids.take(j as int));
                    lemma_queue_volume_take(self@, ids, j + 1);
                }
                let order = self.orders.get(&id).unwrap();
                queued = queued + order.quantity() as u128;
                j = j + 1;
            }
            assert(ids.take(depth as int) =~= ids);
            total = total + queued;
            i = i + 1;
        }
        assert(levels.take(n as int) =~= levels);
        total
    }

    /// The quantity that rests on the buy side, over all its levels.
    pub fn buy_volume(&self) -> (v: u128)
        ensures
            v == self@.volume(OrderType::Buy),
    {
        self.volume(OrderType::Buy)
    }

    /// The quantity that rests on the sell side, over all its levels.
    pub fn sell_volume(&self) -> (v: u128)
        ensures
            v == self@.volume(OrderType::Sell),
    {
        self.volume(OrderType::Sell)
    }

    /// Submits an order: trades it against the other side for as long as
    /// it crosses the best price there, then lets what is left of it rest.
    /// The fills come back in the order in which they were made.
    ///
    /// An order whose identifier the book already knows is turned away, and
    /// the book stays as it is.
    pub fn add(&mut self, incoming_order: Order) -> (r: Result<Vec<Fill>, ValidationError>)
        ensures
            match r {
                Ok(fills) => {
                    &&& !old(self)@.orders.contains_key(incoming_order@.id)
                    &&& final(self)@ == old(self)@.submit(incoming_order@).book
                    &&& trades_of(fills@) == old(self)@.submit(incoming_order@).trades
                    &&& final(self)@.wf()
                },
                Err(e) => {
                    &&& e == ValidationError::DuplicateOrder
                    &&& old(self)@.orders.contains_key(incoming_order@.id)
                    &&& final(self)@ == old(self)@
                },
            },
            final(self)@ == after_event(old(self)@, Event::Submit(incoming_order@)),
    {
        proof {
            use_type_invariant(&*self);
            use_type_invariant(&incoming_order);
        }
        let id = incoming_order.id();
        if self.orders.contains_key(&id) {
            return Err(ValidationError::DuplicateOrder);
        }
        let side = incoming_order.side();
        let price = incoming_order.price_in_ticks();
        let tick_size = self.tick_size;
        let mut taken = OrderBook::new(tick_size);
        core::mem::swap(self, &mut taken);
        let OrderBook { bids, asks, mut orders, tick_size: _ } = taken;
        let (mut own, mut resting) = match side {
            OrderType::Buy => (bids, asks),
            OrderType::Sell => (asks, bids),
        };
        let mut incoming = incoming_order;
        let mut fills: Vec<Fill> = Vec::new();
        let ghost start = Matching {
            book: old(self)@,
            incoming: incoming_order@,
            trades: Seq::empty(),
        };
        assert(trades_of(fills@) =~= Seq::empty());
        while still_crossing(&resting, &incoming)
            invariant
                incoming@.side == side,
                underway(side, own@, resting@, orders@, tick_size, incoming@, fills@).wf(),
                underway(side, own@, resting@, orders@, tick_size, incoming@, fills@).run()
                    == start.run(),
            decreases
                    resting@.len(),
                    (if resting@.len() > 0 {
                        resting@.last().ids.len()
                    } else {
                        0
                    }),
                    (if incoming@.is_open() {
                        1nat
                    } else {
                        0nat
                    }),
        {
            let ghost m = underway(side, own@, resting@, orders@, tick_size, incoming@, fills@);
            proof {
                lemma_front(m.book, side.spec_opposite());
                lemma_step_wf(m);
            }
            let resting_id = resting.front();
            let mut order = *orders.get(&resting_id).unwrap();
            let fill = order.fill(&mut incoming, tick_size);
            orders.insert(resting_id, order);
            if !order.is_open() {
                resting.pop_front();
            }
            let ghost before = fills@;
            fills.push(fill.unwrap());
            proof {
                // The loop has made one step of the sweep.
                assert(trades_of(fills@) =~= trades_of(before).push(fill.unwrap()@.trade()));
                assert(orders_view(orders@) =~= m.book.orders.insert(resting_id, order@));
                assert(underway(side, own@, resting@, orders@, tick_size, incoming@, fills@)
                    == m.step());
            }
        }
        let ghost swept = underway(side, own@, resting@, orders@, tick_size, incoming@, fills@);
        proof {
            assert(swept == start.run());
            lemma_submit_wf(old(self)@, incoming_order@);
        }
        orders.insert(id, incoming);
        if incoming.is_open() {
            own.rest(side, price, id);
        }
        let (bids, asks) = match side {
            OrderType::Buy => (own, resting),
            OrderType::Sell => (resting, own),
        };
        proof {
            lemma_run_wf(start);
            assert(orders_view(orders@) =~= swept.book.orders.insert(id, incoming@));
            let after = assembled(OrderType::Buy, bids@, asks@, orders@, tick_size);
            assert(after == old(self)@.submit(incoming_order@).book);
        }
        *self = OrderBook { bids, asks, orders, tick_size };
        Ok(fills)
    }
}

impl Default for OrderBook {
    /// An empty book with a tick of a hundredth of a whole unit of price.
    fn default() -> (book: Self)
        ensures
            book@ == BookView::empty(DEFAULT_TICK_SIZE),
    {
        OrderBook::new(DEFAULT_TICK_SIZE)
    }
}

/// The number of ticks nearest to `price`, the halves rounded up.
pub fn ticks_for(price: i64, tick_size: u64) -> (ticks: i64)
    requires
        price > 0,
        tick_size > 0,
    ensures
        ticks == nearest_ticks(price as int, tick_size as int),
        0 <= ticks <= price,
{
    let p: u128 = price as u128;
    let t: u128 = tick_size as u128;
    let ticks: u128 = (2 * p + t) / (2 * t);
    assert(0 <= (2 * p + t) / (2 * t) <= p) by (nonlinear_arith)
        requires
            p >= 1,
            t >= 1,
    ;
    ticks as i64
}

/// Whether the incoming order is open and crosses the best resting price.
fn still_crossing(resting: &Ladder, incoming: &Order) -> (r: bool)
    ensures
        r == (incoming@.is_open() && resting@.len() > 0 && crosses(
            incoming@.side,
            incoming@.price_in_ticks,
            resting@.last().price,
        )),
{
    if !incoming.is_open() {
        return false;
    }
    match resting.best_price() {
        Some(best) => is_crossing(incoming.side(), incoming.price_in_ticks(), best),
        None => false,
    }
}

} // verus!
