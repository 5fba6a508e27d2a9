//! The book's invariant is kept: by every trade, by an order that comes to
//! rest, and by a cancellation.

use vstd::prelude::*;
use crate::level::{
    has_level, lemma_removed, lemma_rested, lemma_rests_at, lemma_slot, lemma_without, popped,
    rests, slot, sorted, without, LevelView,
};
use crate::order::OrderView;
use crate::state::{BookView, Matching};
use crate::types::OrderType;

verus! {

/// The empty book is well formed.
pub proof fn lemma_empty_wf(tick_size: u64)
    requires
        tick_size > 0,
    ensures
        BookView::empty(tick_size).wf(),
{
}

/// In a well-formed book the best level of a side is well formed, and the
/// oldest order in it is known to the book as an open order of that side
/// and price.
pub proof fn lemma_front(book: BookView, side: OrderType)
    requires
        book.wf(),
        book.levels(side).len() > 0,
    ensures
        book.level_wf(side, book.levels(side).last()),
        book.resting_wf(
            side,
            book.levels(side).last().price,
            book.levels(side).last().ids.first(),
        ),
        book.record_wf(book.levels(side).last().ids.first()),
{
}

/// A trade keeps the invariant.
pub proof fn lemma_step_wf(m: Matching)
    requires
        m.wf(),
        m.crossing(),
    ensures
        m.step().wf(),
        m.step().incoming.id == m.incoming.id,
        m.step().incoming.side == m.incoming.side,
        m.step().incoming.price_in_ticks == m.incoming.price_in_ticks,
{
    let side = m.resting_side();
    let levels = m.book.levels(side);
    let front = levels.last().ids.first();
    let after = m.step().book;
    // The levels and the traded order are as the invariant asks. Every
    // other order that rested on this side still rests there.
    assert forall|id: u128| #[trigger] after.orders.contains_key(id) implies after.record_wf(
        id,
    ) by {
        let order = m.book.orders[id];
        if id != front && order.is_open() && order.side == side && !after.orders[front].is_open() {
            lemma_stays_after_pop(side, levels, order.price_in_ticks, id);
        }
    }
}

/// An order that rests anywhere but at the front of the best level still
/// rests after the front has left.
pub proof fn lemma_stays_after_pop(side: OrderType, levels: Seq<LevelView>, price: i64, id: u128)
    requires
        sorted(side, levels),
        levels.len() > 0,
        levels.last().ids.len() > 0,
        rests(side, levels, price, id),
        id != levels.last().ids.first(),
    ensures
        rests(side, popped(levels), price, id),
{
    let k = slot(side, levels, price);
    lemma_slot(side, levels, price);
    let j = choose|j: int| 0 <= j < levels[k].ids.len() && levels[k].ids[j] == id;
    if k < levels.len() - 1 {
        lemma_rests_at(side, popped(levels), k, id);
    } else {
        assert(popped(levels)[k].ids[j - 1] == id);
        lemma_rests_at(side, popped(levels), k, id);
    }
}

/// Trading until the order no longer crosses keeps the invariant, and
/// leaves the order its identifier, side and price.
pub proof fn lemma_run_wf(m: Matching)
    requires
        m.wf(),
    ensures
        m.run().wf(),
        !m.run().crossing(),
        m.run().incoming.id == m.incoming.id,
        m.run().incoming.side == m.incoming.side,
        m.run().incoming.price_in_ticks == m.incoming.price_in_ticks,
        m.run().book.tick_size == m.book.tick_size,
    decreases m.book.levels(m.resting_side()).len(), m.front_depth(), m.open_flag(),
{
    if m.crossing() {
        lemma_step_wf(m);
        lemma_run_wf(m.step());
    }
}

/// Submitting an order that the book does not know keeps the invariant.
pub proof fn lemma_submit_wf(book: BookView, order: OrderView)
    requires
        book.wf(),
        order.wf(),
        !book.orders.contains_key(order.id),
    ensures
        book.submit(order).book.wf(),
        book.submit(order).incoming.wf(),
        book.submit(order).book.orders.contains_key(order.id),
        book.submit(order).book.orders[order.id] == book.submit(order).incoming,
{
    let start = Matching { book, incoming: order, trades: Seq::empty() };
    let levels = start.run().book.levels(order.side);
    lemma_run_wf(start);
    if start.run().incoming.is_open() {
        lemma_rested(order.side, levels, order.price_in_ticks, order.id);
        lemma_slot(order.side, levels, order.price_in_ticks);
    }
}

/// Cancelling keeps the invariant.
pub proof fn lemma_cancel_wf(book: BookView, id: u128)
    requires
        book.wf(),
    ensures
        book.cancel(id).wf(),
{
    if book.orders.contains_key(id) {
        let order = book.orders[id];
        let side = order.side;
        let price = order.price_in_ticks;
        let after = book.cancel(id);
        let levels = book.levels(side);
        let left = after.levels(side);
        let i = slot(side, levels, price);
        lemma_removed(side, levels, price, id);
        lemma_slot(side, levels, price);
        assert forall|k: int| 0 <= k < left.len() implies after.level_wf(
            side,
            #[trigger] left[k],
        ) by {
            if has_level(side, levels, price) {
                lemma_without(levels[i].ids, id);
                if left.len() == levels.len() && k == i {
                    // The level that the order has left.
                    assert forall|j: int| 0 <= j < left[k].ids.len() implies after.resting_wf(
                        side,
                        price,
                        #[trigger] left[k].ids[j],
                    ) by {
                        assert(without(levels[i].ids, id).contains(left[k].ids[j]));
                    }
                }
            }
        }
    }
}

} // verus!
