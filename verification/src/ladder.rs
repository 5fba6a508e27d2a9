//! The price levels of one side of the book, as the engine stores them.

use vstd::prelude::*;
use std::collections::VecDeque;
use crate::level::{
    crosses, lemma_slot, popped, removed, rested, slot, sorted, without, worse, LevelView,
};
use crate::types::OrderType;

verus! {

/// One price and the queue of the orders that rest at it, oldest first.
pub(crate) struct PriceLevel {
    price: i64,
    queue: VecDeque<u128>,
}

impl View for PriceLevel {
    type V = LevelView;

    closed spec fn view(&self) -> LevelView {
        LevelView { price: self.price, ids: self.queue@ }
    }
}

/// The levels of one side, kept from the worst price to the best.
pub(crate) struct Ladder {
    levels: Vec<PriceLevel>,
}

impl View for Ladder {
    type V = Seq<LevelView>;

    closed spec fn view(&self) -> Seq<LevelView> {
        Seq::new(self.levels@.len(), |i: int| self.levels@[i]@)
    }
}

/// Whether an order of `side` priced at `p` stands behind one priced at `q`.
pub(crate) fn is_worse(side: OrderType, p: i64, q: i64) -> (r: bool)
    ensures
        r == worse(side, p, q),
{
    match side {
        OrderType::Buy => p < q,
        OrderType::Sell => p > q,
    }
}

/// Whether an incoming order of `side` priced at `incoming` can trade with a
/// resting order priced at `resting`.
pub(crate) fn is_crossing(side: OrderType, incoming: i64, resting: i64) -> (r: bool)
    ensures
        r == crosses(side, incoming, resting),
{
    match side {
        OrderType::Buy => incoming >= resting,
        OrderType::Sell => incoming <= resting,
    }
}

impl Ladder {
    /// A side without orders.
    pub(crate) fn new() -> (r: Ladder)
        ensures
            r@ == Seq::<LevelView>::empty(),
    {
        Ladder { levels: Vec::new() }
    }

    /// The number of levels.
    pub(crate) fn len(&self) -> (n: usize)
        ensures
            n == self@.len(),
    {
        self.levels.len()
    }

    /// The number of orders in the level at `i`.
    pub(crate) fn depth_at(&self, i: usize) -> (n: usize)
        requires
            i < self@.len(),
        ensures
            n == self@[i as int].ids.len(),
    {
        self.levels[i].queue.len()
    }

    /// The identifier at place `j` of the level at `i`.
    pub(crate) fn id_at(&self, i: usize, j: usize) -> (id: u128)
        requires
            i < self@.len(),
            j < self@[i as int].ids.len(),
        ensures
            id == self@[i as int].ids[j as int],
    {
        self.levels[i].queue[j]
    }

    /// The best price, if the side holds any order.
    pub(crate) fn best_price(&self) -> (r: Option<i64>)
        ensures
            r == if self@.len() > 0 {
                Some(self@.last().price)
            } else {
                None
            },
    {
        let n = self.levels.len();
        if n == 0 {
            None
        } else {
            Some(self.levels[n - 1].price)
        }
    }

    /// The oldest order of the best level.
    pub(crate) fn front(&self) -> (id: u128)
        requires
            self@.len() > 0,
            self@.last().ids.len() > 0,
        ensures
            id == self@.last().ids.first(),
    {
        let n = self.levels.len();
        self.levels[n - 1].queue[0]
    }

    /// Where the level of `price` stands or would have to be put, found by
    /// halving the levels.
    pub(crate) fn slot_of(&self, side: OrderType, price: i64) -> (i: usize)
        requires
            sorted(side, self@),
        ensures
            i == slot(side, self@, price),
            i <= self@.len(),
    {
        let mut lo: usize = 0;
        let mut hi: usize = self.levels.len();
        while lo < hi
            invariant
                lo <= hi <= self@.len(),
                sorted(side, self@),
                forall|j: int| 0 <= j < lo ==> worse(side, #[trigger] self@[j].price, price),
                forall|j: int|
                    hi <= j < self@.len() ==> !worse(side, #[trigger] self@[j].price, price),
            decreases hi - lo,
        {
            let mid = lo + (hi - lo) / 2;
            if is_worse(side, self.levels[mid].price, price) {
                assert forall|j: int| 0 <= j < mid + 1 implies worse(
                    side,
                    #[trigger] self@[j].price,
                    price,
                ) by {
                    if j < mid {
                        assert(worse(side, self@[j].price, self@[mid as int].price));
                    }
                }
                lo = mid + 1;
            } else {
                assert forall|j: int| mid <= j < self@.len() implies !worse(
                    side,
                    #[trigger] self@[j].price,
                    price,
                ) by {
                    if j > mid {
                        assert(worse(side, self@[mid as int].price, self@[j].price));
                    }
                }
                hi = mid;
            }
        }
        proof {
            lemma_slot(side, self@, price);
            let found = slot(side, self@, price);
            if lo < found {
                assert(worse(side, self@[lo as int].price, price));
            } else if lo > found {
                assert(worse(side, self@[lo - 1].price, price));
            }
        }
        lo
    }

    /// Takes the oldest order out of the best level, and the level with it
    /// if no order is left there.
    pub(crate) fn pop_front(&mut self)
        requires
            old(self)@.len() > 0,
        ensures
            final(self)@ == popped(old(self)@),
    {
        let mut best = self.levels.pop().unwrap();
        let _ = best.queue.pop_front();
        if best.queue.len() > 0 {
            self.levels.push(best);
        }
    }

    /// Puts the order `id` at the back of the queue at `price`.
    pub(crate) fn rest(&mut self, side: OrderType, price: i64, id: u128)
        requires
            sorted(side, old(self)@),
        ensures
            final(self)@ == rested(side, old(self)@, price, id),
    {
        let i = self.slot_of(side, price);
        if i < self.levels.len() && self.levels[i].price == price {
            self.levels[i].queue.push_back(id);
        } else {
            let mut queue = VecDeque::new();
            queue.push_back(id);
            self.levels.insert(i, PriceLevel { price, queue });
        }
    }

    /// Takes the order `id` out of the queue at `price`, and the level with
    /// it if no order is left there.
    pub(crate) fn remove(&mut self, side: OrderType, price: i64, id: u128)
        requires
            sorted(side, old(self)@),
        ensures
            final(self)@ == removed(side, old(self)@, price, id),
    {
        let i = self.slot_of(side, price);
        if i < self.levels.len() && self.levels[i].price == price {
            let kept = queue_without(&self.levels[i].queue, id);
            if kept.len() == 0 {
                let _ = self.levels.remove(i);
            } else {
                self.levels[i].queue = kept;
            }
        }
    }
}

/// The queue without `id`, the others in the order they had.
fn queue_without(queue: &VecDeque<u128>, id: u128) -> (kept: VecDeque<u128>)
    ensures
        kept@ == without(queue@, id),
{
    let mut kept: VecDeque<u128> = VecDeque::new();
    let n = queue.len();
    let mut j: usize = 0;
    while j < n
        invariant
            n == queue@.len(),
            j <= n,
            kept@ == without(queue@.take(j as int), id),
        decreases n - j,
    {
        let x = queue[j];
        assert(queue@.take(j + 1).drop_last() =~= queue@.take(j as int));
        if x != id {
            kept.push_back(x);
        }
        j = j + 1;
    }
    assert(queue@.take(n as int) =~= queue@);
    kept
}

} // verus!
