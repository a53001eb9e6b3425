//! Ranking individuals by their scores, worst first.

use vstd::prelude::*;

verus! {

/// Whether the item at `i` stands before the item at `j` once the items are ranked: its score
/// is lower, or the scores are equal and it stood before the other.
pub open spec fn precedes(items: Seq<(usize, isize)>, i: int, j: int) -> bool {
    items[i].1 < items[j].1 || (items[i].1 == items[j].1 && i < j)
}

/// Whether `order` names the positions of `items` in their ranked order: each entry is a
/// position, and of two entries the earlier one names the item that stands first.
pub open spec fn is_ranking_order(items: Seq<(usize, isize)>, order: Seq<int>) -> bool {
    &&& order.len() == items.len()
    &&& forall|k: int| 0 <= k < order.len() ==> 0 <= #[trigger] order[k] < items.len()
    &&& forall|a: int, b: int|
        0 <= a < b < order.len() ==> precedes(items, #[trigger] order[a], #[trigger] order[b])
}

/// Whether `ranked` holds the items of `items` by ascending score, items of equal score in the
/// order they had.
pub open spec fn is_ranked(items: Seq<(usize, isize)>, ranked: Seq<(usize, isize)>) -> bool {
    exists|order: Seq<int>| #[trigger]
        is_ranking_order(items, order) && ranked == Seq::new(
            items.len(),
            |k: int| items[order[k]],
        )
}

/// Each type with the score at the same position.
pub open spec fn listed(types: Seq<usize>, scores: Seq<isize>) -> Seq<(usize, isize)> {
    Seq::new(types.len(), |k: int| (types[k], scores[k]))
}

/// The types of the items, in their order.
pub open spec fn types_of(items: Seq<(usize, isize)>) -> Seq<usize> {
    Seq::new(items.len(), |k: int| items[k].0)
}

/// Sorts with `sort_by_key` of std's slices, the score being the key. That sort is stable: the
/// items end up by ascending score, and items of equal score keep the order they had.
#[verifier::external_body]
fn sort_by_score(items: &mut Vec<(usize, isize)>)
    ensures
        is_ranked(old(items)@, final(items)@),
{
    items.sort_by_key(|item| item.1);
}

/// The types of a population from the worst score to the best; individuals of equal score
/// keep the order they have in the population.
pub fn rank_by_score(types: &Vec<usize>, scores: &Vec<isize>) -> (ranked_types: Vec<usize>)
    requires
        types.len() == scores.len(),
    ensures
        exists|ranked: Seq<(usize, isize)>| #[trigger]
            is_ranked(listed(types@, scores@), ranked) && ranked_types@ == types_of(ranked),
{
    let mut items: Vec<(usize, isize)> = Vec::new();
    let mut at: usize = 0;
    while at < types.len()
        invariant
            at <= types.len() == scores.len(),
            items@ == listed(types@, scores@).take(at as int),
        decreases types.len() - at,
    {
        items.push((types[at], scores[at]));
        at += 1;
    }
    assert(items@ == listed(types@, scores@));
    sort_by_score(&mut items);
    let mut ranked_types: Vec<usize> = Vec::new();
    let mut at: usize = 0;
    while at < items.len()
        invariant
            at <= items.len(),
            ranked_types@ == types_of(items@).take(at as int),
        decreases items.len() - at,
    {
        ranked_types.push(items[at].0);
        at += 1;
    }
    assert(ranked_types@ == types_of(items@));
    ranked_types
}

/// A ranking has the length of the list it ranks, each of its items is an item of that list,
/// and its scores ascend.
pub proof fn lemma_ranked(items: Seq<(usize, isize)>, ranked: Seq<(usize, isize)>)
    requires
        is_ranked(items, ranked),
    ensures
        ranked.len() == items.len(),
        forall|k: int| 0 <= k < ranked.len() ==> items.contains(#[trigger] ranked[k]),
        forall|a: int, b: int| 0 <= a < b < ranked.len() ==> ranked[a].1 <= ranked[b].1,
{
    let order = choose|order: Seq<int>| #[trigger]
        is_ranking_order(items, order) && ranked == Seq::new(
            items.len(),
            |k: int| items[order[k]],
        );
    assert forall|k: int| 0 <= k < ranked.len() implies items.contains(#[trigger] ranked[k]) by {
        assert(ranked[k] == items[order[k]]);
    }
    assert forall|a: int, b: int| 0 <= a < b < ranked.len() implies ranked[a].1
        <= ranked[b].1 by {
        assert(precedes(items, order[a], order[b]));
    }
}

proof fn lemma_order_names_every_position(
    items: Seq<(usize, isize)>,
    order: Seq<int>,
    position: int,
)
    requires
        is_ranking_order(items, order),
        0 <= position < items.len(),
    ensures
        order.contains(position),
{
    assert forall|i: int, j: int|
        0 <= i < order.len() && 0 <= j < order.len() && i != j implies order[i] != order[j] by {
        if i < j {
            assert(precedes(items, order[i], order[j]));
        } else {
            assert(precedes(items, order[j], order[i]));
        }
    }
    order.unique_seq_to_set();
    let positions = vstd::set_lib::set_int_range(0, items.len() as int);
    vstd::set_lib::lemma_int_range(0, items.len() as int);
    assert forall|named: int| order.to_set().contains(named) implies positions.contains(named) by {
        let k = choose|k: int| 0 <= k < order.len() && order[k] == named;
        assert(0 <= order[k] < items.len());
    }
    vstd::set_lib::lemma_len_subset(order.to_set(), positions);
    vstd::set_lib::lemma_subset_equality(order.to_set(), positions);
    assert(positions.contains(position));
}

proof fn lemma_orders_agree(
    items: Seq<(usize, isize)>,
    first: Seq<int>,
    second: Seq<int>,
    upto: int,
)
    requires
        is_ranking_order(items, first),
        is_ranking_order(items, second),
        0 <= upto <= items.len(),
    ensures
        forall|k: int| 0 <= k < upto ==> first[k] == second[k],
    decreases upto,
{
    if upto > 0 {
        lemma_orders_agree(items, first, second, upto - 1);
        let k = upto - 1;
        if first[k] != second[k] {
            lemma_order_names_every_position(items, second, first[k]);
            lemma_order_names_every_position(items, first, second[k]);
            let later = choose|later: int| 0 <= later < second.len() && second[later] == first[k];
            let other = choose|other: int| 0 <= other < first.len() && first[other] == second[k];
            if later < k {
                assert(precedes(items, first[later], first[k]));
            }
            if other < k {
                assert(precedes(items, second[other], second[k]));
            }
            assert(precedes(items, second[k], second[later]));
            assert(precedes(items, first[k], first[other]));
        }
    }
}

/// A list has one ranking only.
pub proof fn lemma_ranking_is_unique(
    items: Seq<(usize, isize)>,
    first: Seq<(usize, isize)>,
    second: Seq<(usize, isize)>,
)
    requires
        is_ranked(items, first),
        is_ranked(items, second),
    ensures
        first == second,
{
    let first_order = choose|order: Seq<int>| #[trigger]
        is_ranking_order(items, order) && first == Seq::new(
            items.len(),
            |k: int| items[order[k]],
        );
    let second_order = choose|order: Seq<int>| #[trigger]
        is_ranking_order(items, order) && second == Seq::new(
            items.len(),
            |k: int| items[order[k]],
        );
    lemma_orders_agree(items, first_order, second_order, items.len() as int);
    assert(first == second);
}

} // verus!
