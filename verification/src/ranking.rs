//! Putting scored items in order: the best score first, and of equal scores the earlier item.

use vstd::prelude::*;

verus! {

/// An item put into an order behind every item whose score is at least its own.
pub open spec fn inserted(scores: Seq<i64>, order: Seq<usize>, item: usize) -> Seq<usize>
    decreases order.len(),
{
    if order.len() > 0 && scores[order.last() as int] < scores[item as int] {
        inserted(scores, order.drop_last(), item).push(order.last())
    } else {
        order.push(item)
    }
}

/// The first few items, the best score first.
pub open spec fn ranked(scores: Seq<i64>, items: int) -> Seq<usize>
    decreases items,
{
    if items <= 0 {
        Seq::empty()
    } else {
        inserted(scores, ranked(scores, items - 1), (items - 1) as usize)
    }
}

/// All items, the best score first.
pub open spec fn ranking(scores: Seq<i64>) -> Seq<usize> {
    ranked(scores, scores.len() as int)
}

/// Whether an item comes before another one: by a better score, or by its place among equals.
pub open spec fn comes_before(scores: Seq<i64>, a: usize, b: usize) -> bool {
    ||| scores[a as int] > scores[b as int]
    ||| scores[a as int] == scores[b as int] && a < b
}

/// Whether an order holds each of the first few items once, the better ones first.
pub open spec fn is_order(scores: Seq<i64>, order: Seq<usize>, items: int) -> bool {
    &&& order.len() == items
    &&& forall|i: int| 0 <= i < order.len() ==> #[trigger] order[i] < items
    &&& forall|item: usize| item < items ==> #[trigger] order.contains(item)
    &&& forall|i: int, j: int|
        0 <= i < j < order.len() ==> comes_before(scores, #[trigger] order[i], #[trigger] order[j])
}

proof fn lemma_inserted(scores: Seq<i64>, order: Seq<usize>, place: int, item: usize)
    requires
        0 <= place <= order.len(),
        forall|i: int|
            place <= i < order.len() ==> scores[#[trigger] order[i] as int] < scores[item as int],
        place > 0 ==> scores[order[place - 1] as int] >= scores[item as int],
    ensures
        inserted(scores, order, item) == order.insert(place, item),
    decreases order.len(),
{
    if place < order.len() {
        lemma_inserted(scores, order.drop_last(), place, item);
        assert(scores[order[order.len() - 1] as int] < scores[item as int]);
        assert(inserted(scores, order, item) =~= order.insert(place, item));
    } else {
        assert(inserted(scores, order, item) =~= order.insert(place, item));
    }
}

proof fn lemma_place(scores: Seq<i64>, order: Seq<usize>, item: usize) -> (place: int)
    ensures
        0 <= place <= order.len(),
        forall|i: int|
            place <= i < order.len() ==> scores[#[trigger] order[i] as int] < scores[item as int],
        place > 0 ==> scores[order[place - 1] as int] >= scores[item as int],
    decreases order.len(),
{
    if order.len() > 0 && scores[order.last() as int] < scores[item as int] {
        let place = lemma_place(scores, order.drop_last(), item);
        assert forall|i: int| place <= i < order.len() implies scores[#[trigger] order[i] as int]
            < scores[item as int] by {
            if i < order.len() - 1 {
                assert(order.drop_last()[i] == order[i]);
            }
        }
        place
    } else {
        order.len() as int
    }
}

proof fn lemma_ranked(scores: Seq<i64>, items: int)
    requires
        0 <= items <= scores.len() <= usize::MAX,
    ensures
        is_order(scores, ranked(scores, items), items),
    decreases items,
{
    if items > 0 {
        lemma_ranked(scores, items - 1);
        let order = ranked(scores, items - 1);
        let item = (items - 1) as usize;
        let place = lemma_place(scores, order, item);
        lemma_inserted(scores, order, place, item);
        let after = order.insert(place, item);
        assert(ranked(scores, items) == after);
        assert forall|i: int| 0 <= i < after.len() implies #[trigger] after[i] < items by {
            if i < place {
                assert(after[i] == order[i]);
            } else if i > place {
                assert(after[i] == order[i - 1]);
            }
        }
        assert forall|other: usize| other < items implies #[trigger] after.contains(other) by {
            if other == item {
                assert(after[place] == item);
            } else {
                assert(order.contains(other));
                let i = choose|i: int| 0 <= i < order.len() && order[i] == other;
                if i < place {
                    assert(after[i] == other);
                } else {
                    assert(after[i + 1] == other);
                }
            }
        }
        assert forall|i: int, j: int| 0 <= i < j < after.len() implies comes_before(
            scores,
            #[trigger] after[i],
            #[trigger] after[j],
        ) by {
            if i < place {
                assert(after[i] == order[i]);
                if j < place {
                    assert(after[j] == order[j]);
                } else if j == place {
                    assert(comes_before(scores, order[i], order[place - 1]) || i == place - 1);
                } else {
                    assert(after[j] == order[j - 1]);
                }
            } else if i == place {
                assert(after[j] == order[j - 1]);
            } else {
                assert(after[i] == order[i - 1]);
                assert(after[j] == order[j - 1]);
            }
        }
    }
}

/// The ranking holds every item once, the best score first, and equal scores in their order.
pub proof fn the_ranking_is_a_stable_order(scores: Seq<i64>)
    requires
        scores.len() <= usize::MAX,
    ensures
        is_order(scores, ranking(scores), scores.len() as int),
{
    lemma_ranked(scores, scores.len() as int);
}

/// The items in order, the best score first.
pub fn rank_by_score(scores: &Vec<i64>) -> (order: Vec<usize>)
    ensures
        order@ == ranking(scores@),
        is_order(scores@, order@, scores@.len() as int),
{
    let mut order: Vec<usize> = Vec::new();
    let mut item: usize = 0;
    while item < scores.len()
        invariant
            item <= scores@.len(),
            order@ == ranked(scores@, item as int),
            is_order(scores@, order@, item as int),
        decreases scores@.len() - item,
    {
        let mut place: usize = order.len();
        while place > 0 && scores[order[place - 1]] < scores[item]
            invariant
                place <= order@.len(),
                item < scores@.len(),
                is_order(scores@, order@, item as int),
                forall|i: int|
                    place <= i < order@.len() ==> scores@[#[trigger] order@[i] as int]
                        < scores@[item as int],
            decreases place,
        {
            place = place - 1;
        }
        proof {
            lemma_inserted(scores@, order@, place as int, item);
            lemma_ranked(scores@, item + 1);
        }
        order.insert(place, item);
        item = item + 1;
    }
    order
}

/// Of two items in a ranking the one with the higher score comes first, and of two with the same
/// score the one that was listed first; every item is in the ranking, and none twice.
pub proof fn a_higher_score_comes_first(scores: Seq<i64>, i: int, j: int)
    requires
        0 <= i < j < scores.len() <= usize::MAX,
    ensures
        ({
            let order = ranking(scores);
            &&& order.len() == scores.len()
            &&& order[i] < scores.len() && order[j] < scores.len()
            &&& scores[order[i] as int] >= scores[order[j] as int]
            &&& scores[order[i] as int] == scores[order[j] as int] ==> order[i] < order[j]
            &&& order[i] != order[j]
        }),
{
    the_ranking_is_a_stable_order(scores);
    let order = ranking(scores);
    assert(comes_before(scores, order[i], order[j]));
}

} // verus!
