//! How much can rest in a book: the bounds that keep the sums of resting
//! quantity within 128 bits.

use vstd::prelude::*;
use vstd::set_lib::{lemma_len_subset, lemma_set_disjoint_lens};
use crate::level::{sorted, worse, LevelView};
use crate::state::BookView;
use crate::types::OrderType;

verus! {

/// The number of orders in the levels.
pub open spec fn resting_count(levels: Seq<LevelView>) -> nat
    decreases levels.len(),
{
    if levels.len() == 0 {
        0
    } else {
        resting_count(levels.drop_last()) + levels.last().ids.len()
    }
}

/// The identifiers that stand in the levels.
pub open spec fn resting_ids(levels: Seq<LevelView>) -> Set<u128>
    decreases levels.len(),
{
    if levels.len() == 0 {
        Set::empty()
    } else {
        resting_ids(levels.drop_last()) + levels.last().ids.to_set()
    }
}

/// The orders of a queue have no more left than `u64::MAX` each.
pub proof fn lemma_queue_volume_bound(book: BookView, ids: Seq<u128>)
    ensures
        book.queue_volume(ids) <= ids.len() * u64::MAX,
    decreases ids.len(),
{
    if ids.len() > 0 {
        lemma_queue_volume_bound(book, ids.drop_last());
    }
}

/// The orders of some levels have no more left than `u64::MAX` each.
pub proof fn lemma_levels_volume_bound(book: BookView, levels: Seq<LevelView>)
    ensures
        book.levels_volume(levels) <= resting_count(levels) * u64::MAX,
    decreases levels.len(),
{
    if levels.len() > 0 {
        lemma_levels_volume_bound(book, levels.drop_last());
        lemma_queue_volume_bound(book, levels.last().ids);
    }
}

/// The leading levels hold no more than all the levels do.
pub proof fn lemma_levels_volume_take(book: BookView, levels: Seq<LevelView>, i: int)
    requires
        0 <= i <= levels.len(),
    ensures
        book.levels_volume(levels.take(i)) <= book.levels_volume(levels),
    decreases levels.len(),
{
    if i == levels.len() {
        assert(levels.take(i) =~= levels);
    } else {
        assert(levels.take(i) =~= levels.drop_last().take(i));
        lemma_levels_volume_take(book, levels.drop_last(), i);
    }
}

/// The leading orders of a queue hold no more than the whole queue does.
pub proof fn lemma_queue_volume_take(book: BookView, ids: Seq<u128>, j: int)
    requires
        0 <= j <= ids.len(),
    ensures
        book.queue_volume(ids.take(j)) <= book.queue_volume(ids),
    decreases ids.len(),
{
    if j == ids.len() {
        assert(ids.take(j) =~= ids);
    } else {
        assert(ids.take(j) =~= ids.drop_last().take(j));
        lemma_queue_volume_take(book, ids.drop_last(), j);
    }
}

/// In well-formed levels no order is counted twice: there are as many
/// identifiers as orders, the book knows each, and none is priced better
/// than the best level.
pub proof fn lemma_resting_ids(book: BookView, side: OrderType, levels: Seq<LevelView>)
    requires
        sorted(side, levels),
        forall|k: int| 0 <= k < levels.len() ==> book.level_wf(side, #[trigger] levels[k]),
    ensures
        resting_ids(levels).finite(),
        resting_ids(levels).len() == resting_count(levels),
        forall|x: u128| #[trigger]
            resting_ids(levels).contains(x) ==> book.orders.contains_key(x) && levels.len() > 0
                && !worse(side, levels.last().price, book.orders[x].price_in_ticks),
    decreases levels.len(),
{
    if levels.len() > 0 {
        let head = levels.drop_last();
        let last = levels.last();
        lemma_resting_ids(book, side, head);
        last.ids.unique_seq_to_set();
        // The orders of the leading levels are priced worse than those of
        // the last, so the two sets share no identifier.
        lemma_set_disjoint_lens(resting_ids(head), last.ids.to_set());
    }
}

/// A side of a well-formed book holds no more orders than the book knows.
pub proof fn lemma_resting_count(book: BookView, side: OrderType)
    requires
        book.wf(),
    ensures
        resting_count(book.levels(side)) <= book.orders.dom().len(),
{
    let levels = book.levels(side);
    lemma_resting_ids(book, side, levels);
    lemma_len_subset(resting_ids(levels), book.orders.dom());
}

} // verus!
