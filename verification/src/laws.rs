//! What holds of every book and every submission: the book is never left
//! crossed, no quantity is made or lost, orders trade in order of price and
//! arrival, and a cancelled order is gone for good.

use vstd::prelude::*;
use crate::fill::Trade;
use crate::level::{has_level, lemma_slot, popped, slot, LevelView};
use crate::order::OrderView;
use crate::soundness::{lemma_run_wf, lemma_step_wf};
use crate::state::{BookView, Matching};
use crate::types::{OrderStatus, OrderType};

verus! {

/// Two orders match whichever of them is asked.
pub proof fn lemma_can_match_symmetric(a: OrderView, b: OrderView)
    ensures
        a.can_match(b) == b.can_match(a),
{
}

/// The book is never left crossed: in a well-formed book every open buy
/// order is priced below every open sell order.
pub proof fn lemma_never_crossed(book: BookView, bid: u128, ask: u128)
    requires
        book.wf(),
        book.orders.contains_key(bid),
        book.orders.contains_key(ask),
        book.orders[bid].is_open(),
        book.orders[ask].is_open(),
        book.orders[bid].side == OrderType::Buy,
        book.orders[ask].side == OrderType::Sell,
    ensures
        book.orders[bid].price_in_ticks < book.orders[ask].price_in_ticks,
{
}

/// Cancelling is idempotent: a cancelled order is unknown afterwards,
/// cancelling it again changes nothing, and neither does cancelling an
/// order that the book never knew.
pub proof fn lemma_cancel_idempotent(book: BookView, id: u128)
    ensures
        !book.cancel(id).orders.contains_key(id),
        book.cancel(id).cancel(id) == book.cancel(id),
        !book.orders.contains_key(id) ==> book.cancel(id) == book,
{
}

/// The quantity that the order `id` exchanged in these trades.
pub open spec fn traded(trades: Seq<Trade>, id: u128) -> nat
    decreases trades.len(),
{
    if trades.len() == 0 {
        0
    } else if trades.last().buy_id == id || trades.last().sell_id == id {
        traded(trades.drop_last(), id) + trades.last().quantity as nat
    } else {
        traded(trades.drop_last(), id)
    }
}

/// The quantity that the order `id` has left while an order is on its way:
/// the incoming order's own, a known order's as the book holds it, and
/// nothing for an order that is neither.
pub open spec fn left_of(m: Matching, id: u128) -> nat {
    if id == m.incoming.id {
        m.incoming.quantity as nat
    } else if m.book.orders.contains_key(id) {
        m.book.orders[id].quantity as nat
    } else {
        0
    }
}

/// A trade takes from each of its two orders what it records, and nothing
/// from any other.
pub proof fn lemma_step_conserves(m: Matching, id: u128)
    requires
        m.wf(),
        m.crossing(),
    ensures
        left_of(m.step(), id) + traded(m.step().trades, id) == left_of(m, id) + traded(
            m.trades,
            id,
        ),
        m.step().book.orders.dom() == m.book.orders.dom(),
{
    assert(m.step().trades.drop_last() =~= m.trades);
}

/// Trading until the order no longer crosses makes and loses no quantity.
pub proof fn lemma_run_conserves(m: Matching, id: u128)
    requires
        m.wf(),
    ensures
        left_of(m.run(), id) + traded(m.run().trades, id) == left_of(m, id) + traded(m.trades, id),
        m.run().book.orders.dom() == m.book.orders.dom(),
    decreases m.book.levels(m.resting_side()).len(), m.front_depth(), m.open_flag(),
{
    if m.crossing() {
        lemma_step_wf(m);
        lemma_step_conserves(m, id);
        lemma_run_conserves(m.step(), id);
    }
}

/// Quantity is conserved. After a submission, what an order has left and
/// what it exchanged in the trades of that submission add up to what it
/// had: for the submitted order, the quantity it came with; for an order
/// that the book knew, the quantity it had left before. An order that is
/// neither takes part in no trade.
pub proof fn lemma_quantity_conserved(book: BookView, order: OrderView, id: u128)
    requires
        book.wf(),
        order.wf(),
        !book.orders.contains_key(order.id),
    ensures
        id == order.id ==> traded(book.submit(order).trades, id) + book.submit(
            order,
        ).incoming.quantity == order.quantity,
        book.orders.contains_key(id) ==> book.submit(order).book.orders.contains_key(id) && traded(
            book.submit(order).trades,
            id,
        ) + book.submit(order).book.orders[id].quantity == book.orders[id].quantity,
        id != order.id && !book.orders.contains_key(id) ==> traded(book.submit(order).trades, id)
            == 0,
{
    let start = Matching { book, incoming: order, trades: Seq::empty() };
    lemma_run_wf(start);
    lemma_run_conserves(start, id);
}

/// Whether the order at place `ia` of level `ka` trades before the one at
/// place `ib` of level `kb`: it stands at a better price, or at the same
/// price and arrived earlier.
pub open spec fn precedes(ka: int, ia: int, kb: int, ib: int) -> bool {
    ka > kb || (ka == kb && ia < ib)
}

/// An order that does not rest on the side being traded against is left as
/// it is.
pub proof fn lemma_run_untouched(m: Matching, id: u128)
    requires
        m.wf(),
        m.book.orders.contains_key(id),
        !m.book.orders[id].is_open() || m.book.orders[id].side != m.resting_side(),
    ensures
        m.run().book.orders[id] == m.book.orders[id],
    decreases m.book.levels(m.resting_side()).len(), m.front_depth(), m.open_flag(),
{
    if m.crossing() {
        lemma_step_wf(m);
        lemma_run_untouched(m.step(), id);
    }
}

/// Of two orders that rest on the side being traded against, the one that
/// trades later is left as it is unless the other is filled.
pub proof fn lemma_run_priority(m: Matching, ka: int, ia: int, kb: int, ib: int)
    requires
        m.wf(),
        0 <= ka < m.book.levels(m.resting_side()).len(),
        0 <= kb < m.book.levels(m.resting_side()).len(),
        0 <= ia < m.book.levels(m.resting_side())[ka].ids.len(),
        0 <= ib < m.book.levels(m.resting_side())[kb].ids.len(),
        precedes(ka, ia, kb, ib),
    ensures
        ({
            let levels = m.book.levels(m.resting_side());
            let a = levels[ka].ids[ia];
            let b = levels[kb].ids[ib];
            m.run().book.orders[b] != m.book.orders[b] ==> m.run().book.orders[a].status
                == OrderStatus::Filled
        }),
    decreases m.book.levels(m.resting_side()).len(), m.front_depth(), m.open_flag(),
{
    if m.crossing() {
        let levels = m.book.levels(m.resting_side());
        let front = levels.last().ids.first();
        let next = m.step();
        lemma_step_wf(m);
        // The later of the two is not the front, so this trade leaves it as
        // it is. If the front is not filled by it, the incoming order is
        // used up and nothing more is traded.
        if !next.book.orders[front].is_open() {
            if levels[ka].ids[ia] == front {
                lemma_run_untouched(next, front);
            } else {
                // Both keep their places, one step nearer the front if they
                // stand in the best level.
                let last = levels.len() - 1;
                let ia2 = if ka == last {
                    ia - 1
                } else {
                    ia
                };
                let ib2 = if kb == last {
                    ib - 1
                } else {
                    ib
                };
                lemma_run_priority(next, ka, ia2, kb, ib2);
            }
        }
    }
}

/// Price-time priority. Of two orders that rest on the same side, one at
/// a better price than the other or at the same price and older, the
/// second receives no fill from a submission unless the first is filled by
/// it.
pub proof fn lemma_price_time_priority(
    book: BookView,
    order: OrderView,
    side: OrderType,
    ka: int,
    ia: int,
    kb: int,
    ib: int,
)
    requires
        book.wf(),
        order.wf(),
        !book.orders.contains_key(order.id),
        0 <= ka < book.levels(side).len(),
        0 <= kb < book.levels(side).len(),
        0 <= ia < book.levels(side)[ka].ids.len(),
        0 <= ib < book.levels(side)[kb].ids.len(),
        precedes(ka, ia, kb, ib),
    ensures
        ({
            let first = book.levels(side)[ka].ids[ia];
            let second = book.levels(side)[kb].ids[ib];
            let after = book.submit(order).book;
            after.orders[second].quantity != book.orders[second].quantity ==> {
                &&& after.orders[first].status == OrderStatus::Filled
                &&& after.orders[first].quantity == 0
            }
        }),
{
    let start = Matching { book, incoming: order, trades: Seq::empty() };
    let first = book.levels(side)[ka].ids[ia];
    let second = book.levels(side)[kb].ids[ib];
    lemma_run_wf(start);
    lemma_run_conserves(start, first);
    if side == start.resting_side() {
        lemma_run_priority(start, ka, ia, kb, ib);
    } else {
        lemma_run_untouched(start, second);
    }
}

/// First in, first out. Of two orders that rest at the same price, the
/// younger receives no fill from a submission unless the older is filled
/// by it.
pub proof fn lemma_fifo(book: BookView, order: OrderView, side: OrderType, k: int, i: int, j: int)
    requires
        book.wf(),
        order.wf(),
        !book.orders.contains_key(order.id),
        0 <= k < book.levels(side).len(),
        0 <= i < j < book.levels(side)[k].ids.len(),
    ensures
        ({
            let older = book.levels(side)[k].ids[i];
            let younger = book.levels(side)[k].ids[j];
            let after = book.submit(order).book;
            after.orders[younger].quantity != book.orders[younger].quantity ==> {
                &&& after.orders[older].status == OrderStatus::Filled
                &&& after.orders[older].quantity == 0
            }
        }),
{
    lemma_price_time_priority(book, order, side, k, i, k, j);
}

/// An order rests in one place only: in a well-formed book two places of
/// a side that hold the same identifier are the same place, and no
/// identifier stands on both sides.
pub proof fn lemma_rests_once(
    book: BookView,
    side: OrderType,
    ka: int,
    ia: int,
    other: OrderType,
    kb: int,
    ib: int,
)
    requires
        book.wf(),
        0 <= ka < book.levels(side).len(),
        0 <= ia < book.levels(side)[ka].ids.len(),
        0 <= kb < book.levels(other).len(),
        0 <= ib < book.levels(other)[kb].ids.len(),
        book.levels(side)[ka].ids[ia] == book.levels(other)[kb].ids[ib],
    ensures
        side == other,
        ka == kb,
        ia == ib,
{
}

/// Filled is final: an order that the book knows as filled is left as it
/// is by every submission.
pub proof fn lemma_filled_is_final(book: BookView, order: OrderView, id: u128)
    requires
        book.wf(),
        order.wf(),
        !book.orders.contains_key(order.id),
        book.orders.contains_key(id),
        book.orders[id].status == OrderStatus::Filled,
    ensures
        book.submit(order).book.orders.contains_key(id),
        book.submit(order).book.orders[id] == book.orders[id],
{
    let start = Matching { book, incoming: order, trades: Seq::empty() };
    lemma_run_wf(start);
    lemma_run_conserves(start, id);
    lemma_run_untouched(start, id);
}

/// Whether a trade is one that the incoming order can have made against
/// the book: it exchanges something, the incoming order is on its own side
/// of it, the book knows the order on the other side as an order of that
/// side, and the price is the seller's.
pub open spec fn trade_of_submission(trade: Trade, book: BookView, order: OrderView) -> bool {
    let (taker, maker) = match order.side {
        OrderType::Buy => (trade.buy_id, trade.sell_id),
        OrderType::Sell => (trade.sell_id, trade.buy_id),
    };
    let seller_ticks = match order.side {
        OrderType::Buy => book.orders[maker].price_in_ticks,
        OrderType::Sell => order.price_in_ticks,
    };
    &&& trade.quantity > 0
    &&& taker == order.id
    &&& book.orders.contains_key(maker)
    &&& book.orders[maker].side == order.side.spec_opposite()
    &&& order.can_match(book.orders[maker])
    &&& trade.price == seller_ticks * book.tick_size
}

/// Whether the book `now` knows the orders that `then` knew, each with the
/// identifier, side and price it had.
pub open spec fn same_quotes(now: BookView, then: BookView) -> bool {
    &&& now.tick_size == then.tick_size
    &&& now.orders.dom() == then.orders.dom()
    &&& forall|id: u128| #[trigger]
        now.orders.contains_key(id) ==> now.orders[id].side == then.orders[id].side
            && now.orders[id].price_in_ticks == then.orders[id].price_in_ticks
}

/// Trading until the order no longer crosses makes only trades that the
/// order can have made against the book it was submitted to.
pub proof fn lemma_run_trades(m: Matching, book: BookView, order: OrderView)
    requires
        m.wf(),
        same_quotes(m.book, book),
        m.incoming.id == order.id,
        m.incoming.side == order.side,
        m.incoming.price_in_ticks == order.price_in_ticks,
        forall|j: int|
            0 <= j < m.trades.len() ==> trade_of_submission(#[trigger] m.trades[j], book, order),
    ensures
        forall|j: int|
            0 <= j < m.run().trades.len() ==> trade_of_submission(
                #[trigger] m.run().trades[j],
                book,
                order,
            ),
    decreases m.book.levels(m.resting_side()).len(), m.front_depth(), m.open_flag(),
{
    if m.crossing() {
        let next = m.step();
        let front = m.book.levels(m.resting_side()).last().ids.first();
        lemma_step_wf(m);
        assert(next.book.orders.dom() =~= m.book.orders.dom());
        assert(trade_of_submission(next.trades.last(), book, order)) by {
            let ticks = if order.side == OrderType::Buy {
                book.orders[front].price_in_ticks
            } else {
                order.price_in_ticks
            };
            assert(0 <= ticks * book.tick_size <= 0x7fff_ffff_ffff_ffff * 0xffff_ffff_ffff_ffff)
                by (nonlinear_arith)
                requires
                    0 < ticks <= 0x7fff_ffff_ffff_ffff,
                    0 < book.tick_size <= 0xffff_ffff_ffff_ffff,
            ;
        }
        lemma_run_trades(next, book, order);
    }
}

/// Every trade of a submission exchanges something, is between the
/// submitted order and an order of the other side that rested in the book,
/// two orders that match, and is made at the seller's price.
pub proof fn lemma_trades_of_submission(book: BookView, order: OrderView, j: int)
    requires
        book.wf(),
        order.wf(),
        !book.orders.contains_key(order.id),
        0 <= j < book.submit(order).trades.len(),
    ensures
        trade_of_submission(book.submit(order).trades[j], book, order),
{
    let start = Matching { book, incoming: order, trades: Seq::empty() };
    lemma_run_trades(start, book, order);
}

/// The identifiers of the levels in the order in which they trade: the
/// best level first, and each level oldest order first.
pub open spec fn trading_order(levels: Seq<LevelView>) -> Seq<u128>
    decreases levels.len(),
{
    if levels.len() == 0 {
        Seq::empty()
    } else {
        levels.last().ids + trading_order(levels.drop_last())
    }
}

/// The resting orders of these trades, in the same order: the sellers if
/// the incoming order buys, the buyers if it sells.
pub open spec fn makers(side: OrderType, trades: Seq<Trade>) -> Seq<u128> {
    Seq::new(
        trades.len(),
        |j: int|
            match side {
                OrderType::Buy => trades[j].sell_id,
                OrderType::Sell => trades[j].buy_id,
            },
    )
}

/// When the oldest order of the best level leaves, the others trade in the
/// order they had.
pub proof fn lemma_trading_order_popped(levels: Seq<LevelView>)
    requires
        levels.len() > 0,
        levels.last().ids.len() > 0,
    ensures
        trading_order(popped(levels)) == trading_order(levels).drop_first(),
        trading_order(levels).len() > 0,
        trading_order(levels).first() == levels.last().ids.first(),
{
    if levels.last().ids.len() > 1 {
        assert(popped(levels).drop_last() =~= levels.drop_last());
    }
}

/// Trading until the order no longer crosses takes the resting orders in
/// their trading order, one trade each.
pub proof fn lemma_run_follows_priority(m: Matching)
    requires
        m.wf(),
    ensures
        m.run().trades.len() >= m.trades.len(),
        m.run().trades.len() - m.trades.len() <= trading_order(
            m.book.levels(m.resting_side()),
        ).len(),
        makers(m.incoming.side, m.run().trades) == makers(m.incoming.side, m.trades)
            + trading_order(m.book.levels(m.resting_side())).take(
            m.run().trades.len() - m.trades.len(),
        ),
    decreases m.book.levels(m.resting_side()).len(), m.front_depth(), m.open_flag(),
{
    if m.crossing() {
        lemma_step_wf(m);
        lemma_trading_order_popped(m.book.levels(m.resting_side()));
        lemma_run_follows_priority(m.step());
    }
}

/// A submission trades with the resting orders in order of price and
/// arrival. Its trades are made, one each, with the first orders of the
/// other side as they stood in line: the best price first, and the oldest
/// order first where the price is the same.
pub proof fn lemma_trades_follow_priority(book: BookView, order: OrderView)
    requires
        book.wf(),
        order.wf(),
        !book.orders.contains_key(order.id),
    ensures
        book.submit(order).trades.len() <= trading_order(
            book.levels(order.side.spec_opposite()),
        ).len(),
        makers(order.side, book.submit(order).trades) == trading_order(
            book.levels(order.side.spec_opposite()),
        ).take(book.submit(order).trades.len() as int),
{
    let start = Matching { book, incoming: order, trades: Seq::empty() };
    lemma_run_follows_priority(start);
}

/// An order that comes to rest stands last in the queue of its price,
/// behind the orders that were there before it, whose order is kept.
pub proof fn lemma_rests_at_the_back(book: BookView, order: OrderView)
    requires
        book.wf(),
        order.wf(),
        !book.orders.contains_key(order.id),
        book.submit(order).incoming.is_open(),
    ensures
        ({
            let before = book.levels(order.side);
            let after = book.submit(order).book.levels(order.side);
            let place = slot(order.side, before, order.price_in_ticks);
            &&& 0 <= place < after.len()
            &&& after[place].price == order.price_in_ticks
            &&& after[place].ids.last() == order.id
            &&& after[place].ids.drop_last() == if has_level(
                order.side,
                before,
                order.price_in_ticks,
            ) {
                before[place].ids
            } else {
                Seq::empty()
            }
        }),
{
    let start = Matching { book, incoming: order, trades: Seq::empty() };
    lemma_run_wf(start);
    lemma_run_own_side(start);
    lemma_slot(order.side, book.levels(order.side), order.price_in_ticks);
}

/// Trading leaves the incoming order's own side as it is.
pub proof fn lemma_run_own_side(m: Matching)
    requires
        m.wf(),
    ensures
        m.run().book.levels(m.incoming.side) == m.book.levels(m.incoming.side),
    decreases m.book.levels(m.resting_side()).len(), m.front_depth(), m.open_flag(),
{
    if m.crossing() {
        lemma_step_wf(m);
        lemma_run_own_side(m.step());
    }
}

} // verus!
