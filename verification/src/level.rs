//! Price levels: for one side of the book, the resting orders grouped by
//! price, each group in order of arrival.
//!
//! A side keeps its levels from the price furthest from the market to the
//! best price, so the best level is always the last one. For bids that is
//! rising price, for asks falling price.

use vstd::prelude::*;
use crate::types::OrderType;

verus! {

/// The mathematical content of a price level: a price in ticks and the
/// identifiers of the orders resting at it, oldest first.
pub struct LevelView {
    pub price: i64,
    pub ids: Seq<u128>,
}

/// Whether a resting order of `side` priced at `p` stands behind one priced
/// at `q`: a lower bid, or a higher ask.
pub open spec fn worse(side: OrderType, p: i64, q: i64) -> bool {
    match side {
        OrderType::Buy => p < q,
        OrderType::Sell => p > q,
    }
}

/// Whether an incoming order of `side` priced at `incoming` can trade with a
/// resting order of the other side priced at `resting`.
pub open spec fn crosses(side: OrderType, incoming: i64, resting: i64) -> bool {
    match side {
        OrderType::Buy => incoming >= resting,
        OrderType::Sell => incoming <= resting,
    }
}

/// Whether the levels run from the worst price to the best, no price twice.
pub open spec fn sorted(side: OrderType, levels: Seq<LevelView>) -> bool {
    forall|i: int, j: int|
        0 <= i < j < levels.len() ==> worse(
            side,
            #[trigger] levels[i].price,
            #[trigger] levels[j].price,
        )
}

/// The number of leading levels that are priced worse than `price`. In
/// sorted levels this is where the level of that price stands, or where it
/// would have to be put.
pub open spec fn slot(side: OrderType, levels: Seq<LevelView>, price: i64) -> int
    decreases levels.len(),
{
    if levels.len() == 0 {
        0
    } else if worse(side, levels.last().price, price) {
        levels.len() as int
    } else {
        slot(side, levels.drop_last(), price)
    }
}

/// Whether a level of this price is among the levels.
pub open spec fn has_level(side: OrderType, levels: Seq<LevelView>, price: i64) -> bool {
    let i = slot(side, levels, price);
    i < levels.len() && levels[i].price == price
}

/// Whether the order `id` rests at `price`.
pub open spec fn rests(side: OrderType, levels: Seq<LevelView>, price: i64, id: u128) -> bool {
    has_level(side, levels, price) && levels[slot(side, levels, price)].ids.contains(id)
}

/// The identifiers without `id`, the others in the order they had.
pub open spec fn without(ids: Seq<u128>, id: u128) -> Seq<u128>
    decreases ids.len(),
{
    if ids.len() == 0 {
        ids
    } else if ids.last() == id {
        without(ids.drop_last(), id)
    } else {
        without(ids.drop_last(), id).push(ids.last())
    }
}

/// The levels after the order `id` has come to rest at `price`: at the back
/// of the queue of that price, or alone in a new level.
pub open spec fn rested(side: OrderType, levels: Seq<LevelView>, price: i64, id: u128) -> Seq<
    LevelView,
> {
    let i = slot(side, levels, price);
    if has_level(side, levels, price) {
        levels.update(i, LevelView { price, ids: levels[i].ids.push(id) })
    } else {
        levels.insert(i, LevelView { price, ids: seq![id] })
    }
}

/// The levels after the order `id` has left the queue at `price`. A level
/// that is left without orders goes too.
pub open spec fn removed(side: OrderType, levels: Seq<LevelView>, price: i64, id: u128) -> Seq<
    LevelView,
> {
    let i = slot(side, levels, price);
    if has_level(side, levels, price) {
        let ids = without(levels[i].ids, id);
        if ids.len() == 0 {
            levels.remove(i)
        } else {
            levels.update(i, LevelView { price, ids })
        }
    } else {
        levels
    }
}

/// The levels after the oldest order of the best level has left. A level
/// that is left without orders goes too.
pub open spec fn popped(levels: Seq<LevelView>) -> Seq<LevelView>
    recommends
        levels.len() > 0,
{
    let best = levels.last();
    if best.ids.len() <= 1 {
        levels.drop_last()
    } else {
        levels.drop_last().push(LevelView { price: best.price, ids: best.ids.drop_first() })
    }
}

/// What `slot` finds: it lies within the levels or just behind them, and in
/// sorted levels it parts those priced worse than `price` from the others.
pub proof fn lemma_slot(side: OrderType, levels: Seq<LevelView>, price: i64)
    ensures
        0 <= slot(side, levels, price) <= levels.len(),
        sorted(side, levels) ==> forall|j: int|
            0 <= j < levels.len() ==> (j < slot(side, levels, price) <==> worse(
                side,
                #[trigger] levels[j].price,
                price,
            )),
    decreases levels.len(),
{
    if levels.len() > 0 && !worse(side, levels.last().price, price) {
        let rest = levels.drop_last();
        lemma_slot(side, rest, price);
        if sorted(side, levels) {
            assert forall|j: int| 0 <= j < levels.len() implies (j < slot(side, levels, price)
                <==> worse(side, #[trigger] levels[j].price, price)) by {
                if j < rest.len() {
                    assert(rest[j] == levels[j]);
                }
            }
        }
    }
}

/// In sorted levels, the level of a given price stands at that price's slot.
pub proof fn lemma_slot_of_level(side: OrderType, levels: Seq<LevelView>, k: int)
    requires
        sorted(side, levels),
        0 <= k < levels.len(),
    ensures
        slot(side, levels, levels[k].price) == k,
        has_level(side, levels, levels[k].price),
{
    lemma_slot(side, levels, levels[k].price);
}

/// In sorted levels an order that stands in the queue of a level rests at
/// that level's price.
pub proof fn lemma_rests_at(side: OrderType, levels: Seq<LevelView>, k: int, id: u128)
    requires
        sorted(side, levels),
        0 <= k < levels.len(),
        levels[k].ids.contains(id),
    ensures
        rests(side, levels, levels[k].price, id),
{
    lemma_slot_of_level(side, levels, k);
}

/// What `without` keeps: every identifier but `id`, each as often as before.
pub proof fn lemma_without(ids: Seq<u128>, id: u128)
    ensures
        without(ids, id).len() <= ids.len(),
        !without(ids, id).contains(id),
        forall|x: u128| x != id ==> (#[trigger] without(ids, id).contains(x) <==> ids.contains(x)),
        ids.no_duplicates() ==> without(ids, id).no_duplicates(),
        !ids.contains(id) ==> without(ids, id) == ids,
    decreases ids.len(),
{
    if ids.len() > 0 {
        let head = ids.drop_last();
        let last = ids.last();
        lemma_without(head, id);
        let kept = without(head, id);
        assert(ids =~= head.push(last));
        assert forall|x: u128| x != id implies (#[trigger] without(ids, id).contains(x)
            <==> ids.contains(x)) by {
            if without(ids, id).contains(x) {
                let j = choose|j: int| 0 <= j < without(ids, id).len() && without(ids, id)[j] == x;
                if j < kept.len() {
                    assert(kept.contains(x));
                }
            }
            if ids.contains(x) {
                let i = choose|i: int| 0 <= i < ids.len() && ids[i] == x;
                if i < head.len() {
                    assert(kept.contains(x));
                    let j = choose|j: int| 0 <= j < kept.len() && kept[j] == x;
                    assert(without(ids, id)[j] == x);
                } else {
                    assert(without(ids, id)[kept.len() as int] == x);
                }
            }
        }
        if ids.no_duplicates() && last != id {
            // The last identifier is not among those kept before it.
            assert forall|a: int, b: int|
                0 <= a < without(ids, id).len() && 0 <= b < without(ids, id).len() && a
                    != b implies without(ids, id)[a] != without(ids, id)[b] by {
                if a == kept.len() || b == kept.len() {
                    let c = if a == kept.len() {
                        b
                    } else {
                        a
                    };
                    assert(kept.contains(kept[c]));
                }
            }
        }
    }
}

/// What coming to rest does to sorted levels: they stay sorted, the order
/// rests at its price, every order that rested still rests, and the best
/// price is the old one unless the new order improves on it.
pub proof fn lemma_rested(side: OrderType, levels: Seq<LevelView>, price: i64, id: u128)
    requires
        sorted(side, levels),
    ensures
        sorted(side, rested(side, levels, price, id)),
        rests(side, rested(side, levels, price, id), price, id),
        forall|p: i64, x: u128|
            rests(side, levels, p, x) ==> #[trigger] rests(
                side,
                rested(side, levels, price, id),
                p,
                x,
            ),
        rested(side, levels, price, id).len() > 0,
        rested(side, levels, price, id).last().price == price || (levels.len() > 0 && rested(
            side,
            levels,
            price,
            id,
        ).last().price == levels.last().price),
{
    let i = slot(side, levels, price);
    let after = rested(side, levels, price, id);
    lemma_slot(side, levels, price);
    if has_level(side, levels, price) {
        assert(after[i].ids[levels[i].ids.len() as int] == id);
        lemma_rests_at(side, after, i, id);
        assert forall|p: i64, x: u128| rests(side, levels, p, x) implies #[trigger] rests(
            side,
            after,
            p,
            x,
        ) by {
            let k = slot(side, levels, p);
            lemma_slot(side, levels, p);
            let j = choose|j: int| 0 <= j < levels[k].ids.len() && levels[k].ids[j] == x;
            assert(after[k].ids[j] == x);
            lemma_rests_at(side, after, k, x);
        }
    } else {
        assert(after[i].ids[0] == id);
        lemma_rests_at(side, after, i, id);
        assert forall|p: i64, x: u128| rests(side, levels, p, x) implies #[trigger] rests(
            side,
            after,
            p,
            x,
        ) by {
            let k = slot(side, levels, p);
            lemma_slot(side, levels, p);
            let k2 = if k < i {
                k
            } else {
                k + 1
            };
            lemma_rests_at(side, after, k2, x);
        }
    }
}

/// What leaving does to sorted levels: they stay sorted, every other order
/// that rested still rests, and the best price does not improve.
pub proof fn lemma_removed(side: OrderType, levels: Seq<LevelView>, price: i64, id: u128)
    requires
        sorted(side, levels),
    ensures
        sorted(side, removed(side, levels, price, id)),
        forall|p: i64, x: u128|
            x != id && rests(side, levels, p, x) ==> #[trigger] rests(
                side,
                removed(side, levels, price, id),
                p,
                x,
            ),
        removed(side, levels, price, id).len() > 0 ==> levels.len() > 0 && !worse(
            side,
            levels.last().price,
            removed(side, levels, price, id).last().price,
        ),
{
    let i = slot(side, levels, price);
    let after = removed(side, levels, price, id);
    lemma_slot(side, levels, price);
    if has_level(side, levels, price) {
        let ids = without(levels[i].ids, id);
        lemma_without(levels[i].ids, id);
        assert forall|p: i64, x: u128|
            x != id && rests(side, levels, p, x) implies #[trigger] rests(side, after, p, x) by {
            let k = slot(side, levels, p);
            lemma_slot(side, levels, p);
            if k == i {
                assert(ids.contains(x));
                lemma_rests_at(side, after, i, x);
            } else {
                let k2 = if ids.len() == 0 && k > i {
                    k - 1
                } else {
                    k
                };
                lemma_rests_at(side, after, k2, x);
            }
        }
    }
}

} // verus!
