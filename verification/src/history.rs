//! Books as they come about: every state that a sequence of submissions
//! and cancellations can lead to, and what holds of all of them.

use vstd::prelude::*;
use crate::fill::Trade;
use crate::laws::{lemma_never_crossed, lemma_quantity_conserved, traded};
use crate::order::OrderView;
use crate::soundness::{lemma_cancel_wf, lemma_submit_wf};
use crate::state::BookView;
use crate::types::OrderType;

verus! {

/// Something that is asked of a book.
pub enum Event {
    /// An order is submitted.
    Submit(OrderView),
    /// The order of this identifier is cancelled.
    Cancel(u128),
}

/// Whether the book takes the order: it is well formed and the book does
/// not know its identifier yet.
pub open spec fn accepts(book: BookView, order: OrderView) -> bool {
    order.wf() && !book.orders.contains_key(order.id)
}

/// The book after the event. An order that the book does not take leaves it
/// as it is. This is what `OrderBook::add` and `OrderBook::cancel` do to a
/// book.
pub open spec fn after_event(book: BookView, event: Event) -> BookView {
    match event {
        Event::Submit(order) => if accepts(book, order) {
            book.submit(order).book
        } else {
            book
        },
        Event::Cancel(id) => book.cancel(id),
    }
}

/// The trades that the event makes on the book.
pub open spec fn trades_of_event(book: BookView, event: Event) -> Seq<Trade> {
    match event {
        Event::Submit(order) => if accepts(book, order) {
            book.submit(order).trades
        } else {
            Seq::empty()
        },
        Event::Cancel(id) => Seq::empty(),
    }
}

/// The book that an empty book becomes by these events, in their order.
pub open spec fn replay(tick_size: u64, events: Seq<Event>) -> BookView
    decreases events.len(),
{
    if events.len() == 0 {
        BookView::empty(tick_size)
    } else {
        after_event(replay(tick_size, events.drop_last()), events.last())
    }
}

/// The trades that the events from the one at `from` on make, in their
/// order, when all the events are replayed on an empty book.
pub open spec fn trades_since(tick_size: u64, events: Seq<Event>, from: int) -> Seq<Trade>
    decreases events.len(),
{
    if events.len() <= from || events.len() == 0 {
        Seq::empty()
    } else {
        trades_since(tick_size, events.drop_last(), from) + trades_of_event(
            replay(tick_size, events.drop_last()),
            events.last(),
        )
    }
}

/// Every book that events lead to is well formed.
pub proof fn lemma_replay_wf(tick_size: u64, events: Seq<Event>)
    requires
        tick_size > 0,
    ensures
        replay(tick_size, events).wf(),
    decreases events.len(),
{
    if events.len() > 0 {
        let before = replay(tick_size, events.drop_last());
        lemma_replay_wf(tick_size, events.drop_last());
        match events.last() {
            Event::Submit(order) => {
                if accepts(before, order) {
                    lemma_submit_wf(before, order);
                }
            },
            Event::Cancel(id) => {
                lemma_cancel_wf(before, id);
            },
        }
    }
}

/// No book that events lead to is crossed: every open buy order in it is
/// priced below every open sell order.
pub proof fn lemma_history_never_crossed(
    tick_size: u64,
    events: Seq<Event>,
    bid: u128,
    ask: u128,
)
    requires
        tick_size > 0,
        replay(tick_size, events).orders.contains_key(bid),
        replay(tick_size, events).orders.contains_key(ask),
        replay(tick_size, events).orders[bid].is_open(),
        replay(tick_size, events).orders[ask].is_open(),
        replay(tick_size, events).orders[bid].side == OrderType::Buy,
        replay(tick_size, events).orders[ask].side == OrderType::Sell,
    ensures
        replay(tick_size, events).orders[bid].price_in_ticks < replay(
            tick_size,
            events,
        ).orders[ask].price_in_ticks,
{
    lemma_replay_wf(tick_size, events);
    lemma_never_crossed(replay(tick_size, events), bid, ask);
}

/// What an order exchanged in two runs of trades is what it exchanged in
/// the one and in the other.
pub proof fn lemma_traded_concat(a: Seq<Trade>, b: Seq<Trade>, id: u128)
    ensures
        traded(a + b, id) == traded(a, id) + traded(b, id),
    decreases b.len(),
{
    if b.len() == 0 {
        assert(a + b =~= a);
    } else {
        assert((a + b).drop_last() =~= a + b.drop_last());
        lemma_traded_concat(a, b.drop_last(), id);
    }
}

/// Quantity is conserved over the life of an order. From the submission
/// that the book took it with up to any later state in which it has not
/// been cancelled, what the order has left and what it exchanged in all the
/// trades made since add up to the quantity it was submitted with.
pub proof fn lemma_history_conserves(tick_size: u64, events: Seq<Event>, at: int, order: OrderView)
    requires
        tick_size > 0,
        0 <= at < events.len(),
        events[at] == Event::Submit(order),
        accepts(replay(tick_size, events.take(at)), order),
        forall|j: int| at < j < events.len() ==> events[j] != Event::Cancel(order.id),
    ensures
        replay(tick_size, events).orders.contains_key(order.id),
        traded(trades_since(tick_size, events, at), order.id) + replay(
            tick_size,
            events,
        ).orders[order.id].quantity == order.quantity,
    decreases events.len(),
{
    let earlier = events.drop_last();
    let before = replay(tick_size, earlier);
    let made = trades_of_event(before, events.last());
    lemma_replay_wf(tick_size, earlier);
    lemma_traded_concat(trades_since(tick_size, earlier, at), made, order.id);
    if at == events.len() - 1 {
        assert(earlier =~= events.take(at));
        lemma_submit_wf(before, order);
        lemma_quantity_conserved(before, order, order.id);
    } else {
        assert(earlier.take(at) =~= events.take(at));
        lemma_history_conserves(tick_size, earlier, at, order);
        match events.last() {
            Event::Submit(next) => {
                if accepts(before, next) {
                    lemma_quantity_conserved(before, next, order.id);
                }
            },
            Event::Cancel(id) => {
                assert(events[events.len() - 1] != Event::Cancel(order.id));
            },
        }
    }
}

} // verus!
