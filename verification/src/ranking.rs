//! Ranking by weight: heaviest first, earlier first among equals.
//!
//! Both the cache directories and the processes of the dashboard are shown as
//! a short list of the heaviest items. This module defines that order once,
//! for any type that has a weight, and proves what the order promises.

use vstd::prelude::*;

verus! {

/// Something that is ranked by a weight.
pub trait Weighted: Sized {
    /// The weight of the item.
    spec fn weight(&self) -> nat;

    /// Whether the item is strictly heavier than `other`.
    fn outweighs(&self, other: &Self) -> (heavier: bool)
        ensures
            heavier == (self.weight() > other.weight()),
    ;
}

/// Whether no item of `items` is lighter than a later one.
pub open spec fn is_descending<T: Weighted>(items: Seq<T>) -> bool {
    forall|i: int, j: int| 0 <= i < j < items.len() ==> items[i].weight() >= items[j].weight()
}

/// Whether every item of `items` is strictly heavier than each later one.
pub open spec fn is_strictly_descending<T: Weighted>(items: Seq<T>) -> bool {
    forall|i: int, j: int| 0 <= i < j < items.len() ==> items[i].weight() > items[j].weight()
}

/// Whether no two items of `items` have the same weight.
pub open spec fn has_distinct_weights<T: Weighted>(items: Seq<T>) -> bool {
    forall|i: int, j: int| 0 <= i < j < items.len() ==> items[i].weight() != items[j].weight()
}

/// The test that picks the items of weight `weight`.
pub open spec fn has_weight<T: Weighted>(weight: nat) -> spec_fn(T) -> bool {
    |item: T| item.weight() == weight
}

/// Where an item of weight `weight` joins `ranking`: directly behind the last
/// item that is at least as heavy, or in front where there is none.
pub open spec fn landing_index<T: Weighted>(ranking: Seq<T>, weight: nat) -> int
    decreases ranking.len(),
{
    if ranking.len() == 0 || ranking.last().weight() >= weight {
        ranking.len() as int
    } else {
        landing_index(ranking.drop_last(), weight)
    }
}

/// `items` in ranked order: heaviest first, and items of equal weight in the
/// order in which `items` holds them.
pub open spec fn ranked<T: Weighted>(items: Seq<T>) -> Seq<T>
    decreases items.len(),
{
    if items.len() == 0 {
        Seq::empty()
    } else {
        let earlier = ranked(items.drop_last());
        earlier.insert(landing_index(earlier, items.last().weight()), items.last())
    }
}

/// The first `limit` items of the ranked order, or all of them where there
/// are fewer.
pub open spec fn top_ranked<T: Weighted>(items: Seq<T>, limit: nat) -> Seq<T> {
    if limit < items.len() {
        ranked(items).take(limit as int)
    } else {
        ranked(items)
    }
}

/// The landing index splits a ranking into the items that are at least as
/// heavy as the newcomer, in front, and the strictly lighter ones, behind.
pub proof fn lemma_landing_index_splits<T: Weighted>(ranking: Seq<T>, weight: nat)
    ensures
        0 <= landing_index(ranking, weight) <= ranking.len(),
        forall|k: int|
            landing_index(ranking, weight) <= k < ranking.len() ==> ranking[k].weight() < weight,
        landing_index(ranking, weight) > 0 ==> ranking[landing_index(ranking, weight)
            - 1].weight() >= weight,
    decreases ranking.len(),
{
    if ranking.len() != 0 && ranking.last().weight() < weight {
        let front = ranking.drop_last();
        lemma_landing_index_splits(front, weight);
        assert forall|k: int| landing_index(ranking, weight) <= k < ranking.len() implies (
        #[trigger] ranking[k]).weight() < weight by {
            if k < front.len() {
                assert(ranking[k] == front[k]);
            }
        }
        if landing_index(ranking, weight) > 0 {
            assert(ranking[landing_index(ranking, weight) - 1] == front[landing_index(
                front,
                weight,
            ) - 1]);
        }
    }
}

/// Ranking neither adds nor drops an item.
pub proof fn lemma_ranked_len<T: Weighted>(items: Seq<T>)
    ensures
        ranked(items).len() == items.len(),
    decreases items.len(),
{
    if items.len() != 0 {
        lemma_ranked_len(items.drop_last());
        lemma_landing_index_splits(ranked(items.drop_last()), items.last().weight());
    }
}

/// The ranked order is descending by weight.
pub proof fn lemma_ranked_is_descending<T: Weighted>(items: Seq<T>)
    ensures
        is_descending(ranked(items)),
    decreases items.len(),
{
    if items.len() != 0 {
        let earlier = ranked(items.drop_last());
        let newcomer = items.last();
        let at = landing_index(earlier, newcomer.weight());
        lemma_ranked_is_descending(items.drop_last());
        lemma_landing_index_splits(earlier, newcomer.weight());
        let later = earlier.insert(at, newcomer);
        assert forall|i: int, j: int| 0 <= i < j < later.len() implies later[i].weight()
            >= later[j].weight() by {
            if j < at {
                assert(later[i] == earlier[i] && later[j] == earlier[j]);
            } else if j == at {
                assert(later[i] == earlier[i]);
                assert(earlier[i].weight() >= earlier[at - 1].weight());
            } else if i < at {
                assert(later[i] == earlier[i] && later[j] == earlier[j - 1]);
                assert(earlier[i].weight() >= earlier[at - 1].weight());
            } else if i == at {
                assert(later[j] == earlier[j - 1]);
            } else {
                assert(later[i] == earlier[i - 1] && later[j] == earlier[j - 1]);
            }
        }
    }
}

/// The ranked order holds exactly the items it was given, each as often.
pub proof fn lemma_ranked_is_permutation<T: Weighted>(items: Seq<T>)
    ensures
        ranked(items).to_multiset() == items.to_multiset(),
    decreases items.len(),
{
    broadcast use vstd::seq_lib::group_to_multiset_ensures;

    if items.len() != 0 {
        let earlier = ranked(items.drop_last());
        lemma_ranked_is_permutation(items.drop_last());
        lemma_landing_index_splits(earlier, items.last().weight());
        assert(items.drop_last().push(items.last()) =~= items);
    } else {
        assert(ranked(items) =~= items);
    }
}

/// Ranking is stable: the items of any one weight stand in the ranked order
/// as they stood in `items`.
pub proof fn lemma_ranked_is_stable<T: Weighted>(items: Seq<T>, weight: nat)
    ensures
        ranked(items).filter(has_weight(weight)) == items.filter(has_weight(weight)),
    decreases items.len(),
{
    let pick = has_weight::<T>(weight);
    if items.len() != 0 {
        let earlier = ranked(items.drop_last());
        let newcomer = items.last();
        let at = landing_index(earlier, newcomer.weight());
        lemma_ranked_is_stable(items.drop_last(), weight);
        lemma_landing_index_splits(earlier, newcomer.weight());
        let front = earlier.take(at);
        let back = earlier.skip(at);
        assert(earlier =~= front + back);
        assert(earlier.insert(at, newcomer) =~= front.push(newcomer) + back);
        Seq::filter_distributes_over_add(front, back, pick);
        Seq::filter_distributes_over_add(front.push(newcomer), back, pick);
        front.lemma_filter_push(newcomer, pick);
        items.drop_last().lemma_filter_push(newcomer, pick);
        assert(items.drop_last().push(newcomer) =~= items);
        if newcomer.weight() == weight {
            assert forall|k: int| 0 <= k < back.len() implies !pick(#[trigger] back[k]) by {
                assert(back[k] == earlier[at + k]);
            }
            back.lemma_all_neg_filter_empty(pick);
            assert(back.filter(pick) =~= Seq::<T>::empty());
        }
    } else {
        assert(ranked(items) =~= items);
    }
}

/// A descending order is settled by what it holds of each weight: two
/// descending sequences that agree on the items of every weight, in order,
/// are the same sequence.
pub proof fn lemma_descending_order_is_settled<T: Weighted>(first: Seq<T>, second: Seq<T>)
    requires
        is_descending(first),
        is_descending(second),
        forall|weight: nat| #[trigger]
            first.filter(has_weight(weight)) == second.filter(has_weight(weight)),
    ensures
        first == second,
    decreases first.len(),
{
    if first.len() == 0 || second.len() == 0 {
        if first.len() != 0 {
            lemma_head_is_heaviest(first, second);
        }
        if second.len() != 0 {
            lemma_head_is_heaviest(second, first);
        }
        assert(first =~= second);
    } else {
        lemma_head_is_heaviest(first, second);
        lemma_head_is_heaviest(second, first);
        let head_weight = first[0].weight();
        let first_tail = first.drop_first();
        let second_tail = second.drop_first();
        assert(first =~= seq![first[0]] + first_tail);
        assert(second =~= seq![second[0]] + second_tail);
        assert forall|weight: nat| #[trigger]
            first_tail.filter(has_weight(weight)) == second_tail.filter(
                has_weight(weight),
            ) by {
            let pick = has_weight::<T>(weight);
            first_tail.lemma_filter_prepend(first[0], pick);
            second_tail.lemma_filter_prepend(second[0], pick);
            assert(first.filter(pick) == second.filter(pick));
            if weight == head_weight {
                let kept_first = seq![first[0]] + first_tail.filter(pick);
                let kept_second = seq![second[0]] + second_tail.filter(pick);
                assert(kept_first == kept_second);
                assert(first_tail.filter(pick) =~= kept_first.drop_first());
                assert(second_tail.filter(pick) =~= kept_second.drop_first());
            } else {
                assert(Seq::<T>::empty() + first_tail.filter(pick) =~= first_tail.filter(pick));
                assert(Seq::<T>::empty() + second_tail.filter(pick) =~= second_tail.filter(
                    pick,
                ));
            }
        }
        assert(first[0] == second[0]) by {
            let pick = has_weight::<T>(head_weight);
            first_tail.lemma_filter_prepend(first[0], pick);
            second_tail.lemma_filter_prepend(second[0], pick);
            assert(first.filter(pick) == second.filter(pick));
            let kept_first = seq![first[0]] + first_tail.filter(pick);
            let kept_second = seq![second[0]] + second_tail.filter(pick);
            assert(kept_first[0] == kept_second[0]);
        }
        assert(is_descending(first_tail)) by {
            assert forall|i: int, j: int| 0 <= i < j < first_tail.len() implies first_tail[i].weight()
                >= first_tail[j].weight() by {
                assert(first_tail[i] == first[i + 1] && first_tail[j] == first[j + 1]);
            }
        }
        assert(is_descending(second_tail)) by {
            assert forall|i: int, j: int| 0 <= i < j < second_tail.len() implies second_tail[i].weight()
                >= second_tail[j].weight() by {
                assert(second_tail[i] == second[i + 1] && second_tail[j] == second[j + 1]);
            }
        }
        lemma_descending_order_is_settled(first_tail, second_tail);
    }
}

/// Where `other` holds the items of every weight that `order` holds, `other`
/// is not empty and its first item is at least as heavy as that of `order`.
proof fn lemma_head_is_heaviest<T: Weighted>(order: Seq<T>, other: Seq<T>)
    requires
        order.len() > 0,
        is_descending(other),
        forall|weight: nat| #[trigger]
            order.filter(has_weight(weight)) == other.filter(has_weight(weight)),
    ensures
        other.len() > 0,
        other[0].weight() >= order[0].weight(),
{
    let pick = has_weight::<T>(order[0].weight());
    assert(pick(order[0]));
    order.lemma_filter_contains(pick, 0);
    assert(other.filter(pick).contains(order[0]));
    other.lemma_filter_contains_rev(pick, order[0]);
    let at = choose|at: int| 0 <= at < other.len() && other[at] == order[0];
    assert(other[0].weight() >= other[at].weight());
}

/// The ranked order is the only descending order of `items` that keeps the
/// items of each weight as `items` holds them. So a ranking is settled by its
/// input alone: equal inputs give equal rankings, ties included.
pub proof fn lemma_ranked_is_unique<T: Weighted>(items: Seq<T>, order: Seq<T>)
    requires
        is_descending(order),
        forall|weight: nat| #[trigger]
            order.filter(has_weight(weight)) == items.filter(has_weight(weight)),
    ensures
        order == ranked(items),
{
    lemma_ranked_is_descending(items);
    assert forall|weight: nat| #[trigger]
        order.filter(has_weight(weight)) == ranked(items).filter(has_weight(weight)) by {
        lemma_ranked_is_stable(items, weight);
    }
    lemma_descending_order_is_settled(order, ranked(items));
}

/// Where no two items weigh the same, the ranked order is strictly
/// descending.
pub proof fn lemma_ranked_is_strict_without_ties<T: Weighted>(items: Seq<T>)
    requires
        has_distinct_weights(items),
    ensures
        is_strictly_descending(ranked(items)),
{
    let order = ranked(items);
    lemma_ranked_is_descending(items);
    assert forall|i: int, j: int| 0 <= i < j < order.len() implies order[i].weight()
        > order[j].weight() by {
        if order[i].weight() == order[j].weight() {
            let weight = order[i].weight();
            let pick = has_weight::<T>(weight);
            lemma_ranked_is_stable(items, weight);
            lemma_two_of_a_kind(order, pick, i, j);
            lemma_at_most_one_of_a_kind(items, weight);
        }
    }
}

/// A sequence with two items that pass a test keeps at least two.
proof fn lemma_two_of_a_kind<T>(items: Seq<T>, pick: spec_fn(T) -> bool, i: int, j: int)
    requires
        0 <= i < j < items.len(),
        pick(items[i]),
        pick(items[j]),
    ensures
        items.filter(pick).len() >= 2,
{
    let front = items.take(j);
    let back = items.skip(j);
    assert(items =~= front + back);
    Seq::filter_distributes_over_add(front, back, pick);
    assert(front[i] == items[i]);
    front.lemma_filter_contains(pick, i);
    assert(back[0] == items[j]);
    back.lemma_filter_contains(pick, 0);
    assert(front.filter(pick).len() >= 1);
    assert(back.filter(pick).len() >= 1);
}

/// Without ties, at most one item has any given weight.
proof fn lemma_at_most_one_of_a_kind<T: Weighted>(items: Seq<T>, weight: nat)
    requires
        has_distinct_weights(items),
    ensures
        items.filter(has_weight(weight)).len() <= 1,
    decreases items.len(),
{
    let pick = has_weight::<T>(weight);
    reveal(Seq::filter);
    if items.len() != 0 {
        let front = items.drop_last();
        assert(has_distinct_weights(front)) by {
            assert forall|i: int, j: int| 0 <= i < j < front.len() implies front[i].weight()
                != front[j].weight() by {
                assert(front[i] == items[i] && front[j] == items[j]);
            }
        }
        lemma_at_most_one_of_a_kind(front, weight);
        if pick(items.last()) {
            assert forall|k: int| 0 <= k < front.len() implies !pick(#[trigger] front[k]) by {
                assert(front[k] == items[k]);
            }
            front.lemma_all_neg_filter_empty(pick);
        }
    }
}

/// Leaving items out does not create ties.
pub proof fn lemma_filter_keeps_weights_distinct<T: Weighted>(
    items: Seq<T>,
    pick: spec_fn(T) -> bool,
)
    requires
        has_distinct_weights(items),
    ensures
        has_distinct_weights(items.filter(pick)),
    decreases items.len(),
{
    reveal(Seq::filter);
    if items.len() != 0 {
        let front = items.drop_last();
        let kept = items.filter(pick);
        assert(has_distinct_weights(front)) by {
            assert forall|i: int, j: int| 0 <= i < j < front.len() implies front[i].weight()
                != front[j].weight() by {
                assert(front[i] == items[i] && front[j] == items[j]);
            }
        }
        lemma_filter_keeps_weights_distinct(front, pick);
        assert forall|i: int, j: int| 0 <= i < j < kept.len() implies kept[i].weight()
            != kept[j].weight() by {
            if j < front.filter(pick).len() {
                assert(kept[i] == front.filter(pick)[i] && kept[j] == front.filter(pick)[j]);
            } else {
                assert(kept[j] == items.last());
                assert(kept[i] == front.filter(pick)[i]);
                assert(front.filter(pick).contains(kept[i]));
                front.lemma_filter_contains_rev(pick, kept[i]);
                let source = choose|source: int| 0 <= source < front.len() && front[source] == kept[i];
                assert(items[source] == kept[i]);
            }
        }
    }
}

/// Where no two items weigh the same, the short list is strictly descending.
pub proof fn lemma_top_ranked_is_strict_without_ties<T: Weighted>(items: Seq<T>, limit: nat)
    requires
        has_distinct_weights(items),
    ensures
        is_strictly_descending(top_ranked(items, limit)),
{
    lemma_ranked_len(items);
    lemma_ranked_is_strict_without_ties(items);
    let order = ranked(items);
    let top = top_ranked(items, limit);
    assert forall|i: int, j: int| 0 <= i < j < top.len() implies top[i].weight()
        > top[j].weight() by {
        assert(top[i] == order[i] && top[j] == order[j]);
    }
}

/// Every item of the short list is an item of the input, and the short list
/// repeats none where the input repeats none.
pub proof fn lemma_top_ranked_selects<T: Weighted>(items: Seq<T>, limit: nat)
    ensures
        forall|i: int|
            0 <= i < top_ranked(items, limit).len() ==> items.contains(
                #[trigger] top_ranked(items, limit)[i],
            ),
        items.no_duplicates() ==> top_ranked(items, limit).no_duplicates(),
{
    broadcast use vstd::seq_lib::group_to_multiset_ensures;

    let top = top_ranked(items, limit);
    lemma_top_ranked_is_drawn_from_items(items, limit);
    assert forall|i: int| 0 <= i < top.len() implies items.contains(#[trigger] top[i]) by {
        assert(top.contains(top[i]));
        assert(top.to_multiset().count(top[i]) > 0);
        assert(top.to_multiset().count(top[i]) <= items.to_multiset().count(top[i]));
    }
    if items.no_duplicates() {
        items.lemma_multiset_has_no_duplicates();
        assert forall|item: T| top.to_multiset().contains(item) implies top.to_multiset().count(
            item,
        ) == 1 by {
            assert(top.to_multiset().count(item) <= items.to_multiset().count(item));
        }
        top.lemma_multiset_has_no_duplicates_conv();
    }
}

/// Whether two sequences are as long as each other and related item by item.
pub open spec fn related_pairwise<T>(
    first: Seq<T>,
    second: Seq<T>,
    related: spec_fn(T, T) -> bool,
) -> bool {
    &&& first.len() == second.len()
    &&& forall|i: int| 0 <= i < first.len() ==> related(#[trigger] first[i], second[i])
}

/// The landing index looks at weights only.
proof fn lemma_landing_index_follows_weights<T: Weighted>(
    first: Seq<T>,
    second: Seq<T>,
    related: spec_fn(T, T) -> bool,
    weight: nat,
)
    requires
        related_pairwise(first, second, related),
        forall|a: T, b: T| #[trigger] related(a, b) ==> a.weight() == b.weight(),
    ensures
        landing_index(first, weight) == landing_index(second, weight),
    decreases first.len(),
{
    if first.len() != 0 {
        assert(related(first[first.len() - 1], second[first.len() - 1]));
        if first.last().weight() < weight {
            let first_front = first.drop_last();
            let second_front = second.drop_last();
            assert forall|i: int| 0 <= i < first_front.len() implies related(
                #[trigger] first_front[i],
                second_front[i],
            ) by {
                assert(related(first[i], second[i]));
            }
            lemma_landing_index_follows_weights(first_front, second_front, related, weight);
        }
    }
}

/// Ranking looks at weights only: inputs that are related item by item, by
/// a relation that holds between items of equal weight only, have rankings
/// that are related item by item.
pub proof fn lemma_ranking_follows_weights<T: Weighted>(
    first: Seq<T>,
    second: Seq<T>,
    related: spec_fn(T, T) -> bool,
)
    requires
        related_pairwise(first, second, related),
        forall|a: T, b: T| #[trigger] related(a, b) ==> a.weight() == b.weight(),
    ensures
        related_pairwise(ranked(first), ranked(second), related),
    decreases first.len(),
{
    lemma_ranked_len(first);
    lemma_ranked_len(second);
    if first.len() != 0 {
        let first_front = first.drop_last();
        let second_front = second.drop_last();
        assert(related(first[first.len() - 1], second[first.len() - 1]));
        assert forall|i: int| 0 <= i < first_front.len() implies related(
            #[trigger] first_front[i],
            second_front[i],
        ) by {
            assert(related(first[i], second[i]));
        }
        lemma_ranking_follows_weights(first_front, second_front, related);
        let first_earlier = ranked(first_front);
        let second_earlier = ranked(second_front);
        let weight = first.last().weight();
        lemma_landing_index_follows_weights(first_earlier, second_earlier, related, weight);
        lemma_landing_index_splits(first_earlier, weight);
        let at = landing_index(first_earlier, weight);
        let first_later = first_earlier.insert(at, first.last());
        let second_later = second_earlier.insert(at, second.last());
        assert forall|i: int| 0 <= i < first_later.len() implies related(
            #[trigger] first_later[i],
            second_later[i],
        ) by {
            if i < at {
                assert(related(first_earlier[i], second_earlier[i]));
            } else if i > at {
                assert(related(first_earlier[i - 1], second_earlier[i - 1]));
            }
        }
    }
}

/// The short list looks at weights only, as the ranking does.
pub proof fn lemma_top_ranked_follows_weights<T: Weighted>(
    first: Seq<T>,
    second: Seq<T>,
    related: spec_fn(T, T) -> bool,
    limit: nat,
)
    requires
        related_pairwise(first, second, related),
        forall|a: T, b: T| #[trigger] related(a, b) ==> a.weight() == b.weight(),
    ensures
        related_pairwise(top_ranked(first, limit), top_ranked(second, limit), related),
{
    lemma_ranked_len(first);
    lemma_ranked_len(second);
    lemma_ranking_follows_weights(first, second, related);
    let first_top = top_ranked(first, limit);
    let second_top = top_ranked(second, limit);
    assert forall|i: int| 0 <= i < first_top.len() implies related(
        #[trigger] first_top[i],
        second_top[i],
    ) by {
        assert(related(ranked(first)[i], ranked(second)[i]));
    }
}

/// The short list is descending, holds `limit` items or all of them, and
/// none that it leaves out is heavier than one that it keeps.
pub proof fn lemma_top_ranked_keeps_heaviest<T: Weighted>(items: Seq<T>, limit: nat)
    ensures
        is_descending(top_ranked(items, limit)),
        top_ranked(items, limit).len() == if limit < items.len() {
            limit
        } else {
            items.len()
        },
        top_ranked(items, limit) == ranked(items).take(top_ranked(items, limit).len() as int),
        forall|i: int, j: int|
            0 <= i < top_ranked(items, limit).len() <= j < items.len() ==> ranked(
                items,
            )[i].weight() >= ranked(items)[j].weight(),
{
    lemma_ranked_len(items);
    lemma_ranked_is_descending(items);
    let order = ranked(items);
    let top = top_ranked(items, limit);
    assert(top =~= order.take(top.len() as int));
    assert forall|i: int, j: int| 0 <= i < j < top.len() implies top[i].weight()
        >= top[j].weight() by {
        assert(top[i] == order[i] && top[j] == order[j]);
    }
}

/// Everything in the short list is an item of the input.
pub proof fn lemma_top_ranked_is_drawn_from_items<T: Weighted>(items: Seq<T>, limit: nat)
    ensures
        top_ranked(items, limit).to_multiset().subset_of(items.to_multiset()),
{
    broadcast use vstd::seq_lib::group_to_multiset_ensures;

    lemma_ranked_len(items);
    lemma_ranked_is_permutation(items);
    let order = ranked(items);
    let top = top_ranked(items, limit);
    let rest = order.skip(top.len() as int);
    assert(order =~= top + rest);
    vstd::seq_lib::lemma_multiset_commutative(top, rest);
}

/// Where an item of `item`'s weight joins `ranking`.
fn landing_position<T: Weighted>(ranking: &Vec<T>, item: &T) -> (at: usize)
    ensures
        at as int == landing_index(ranking@, item.weight()),
        at <= ranking.len(),
{
    let mut at: usize = ranking.len();
    proof {
        assert(ranking@.take(at as int) =~= ranking@);
    }
    while at > 0 && item.outweighs(&ranking[at - 1])
        invariant
            at <= ranking.len(),
            landing_index(ranking@, item.weight()) == landing_index(
                ranking@.take(at as int),
                item.weight(),
            ),
        decreases at,
    {
        proof {
            assert(ranking@.take(at as int).drop_last() =~= ranking@.take(at - 1));
        }
        at = at - 1;
    }
    at
}

/// Puts `items` in ranked order: heaviest first, and items of equal weight
/// in the order in which they were given.
pub fn sort_descending<T: Weighted>(items: Vec<T>) -> (sorted: Vec<T>)
    ensures
        sorted@ == ranked(items@),
        sorted@.len() == items@.len(),
        sorted@.to_multiset() == items@.to_multiset(),
        is_descending(sorted@),
{
    let ghost all = items@;
    proof {
        lemma_ranked_len(all);
        lemma_ranked_is_permutation(all);
        lemma_ranked_is_descending(all);
    }
    let mut sorted: Vec<T> = Vec::new();
    for item in it: items
        invariant
            it.seq() == all,
            sorted@ == ranked(all.take(it.index() as int)),
    {
        proof {
            let seen = it.index() as int;
            assert(all.take(seen + 1).drop_last() =~= all.take(seen));
            lemma_ranked_len(all.take(seen));
        }
        let at: usize = landing_position(&sorted, &item);
        sorted.insert(at, item);
    }
    proof {
        assert(all.take(all.len() as int) =~= all);
    }
    sorted
}

/// The `limit` heaviest of `items` in ranked order, or all of them where
/// there are fewer.
pub fn rank_top<T: Weighted>(items: Vec<T>, limit: usize) -> (top: Vec<T>)
    ensures
        top@ == top_ranked(items@, limit as nat),
        top@.len() <= limit,
        top@.len() <= items@.len(),
        is_descending(top@),
{
    proof {
        lemma_ranked_len(items@);
        lemma_top_ranked_keeps_heaviest(items@, limit as nat);
    }
    let mut sorted = sort_descending(items);
    sorted.truncate(limit);
    sorted
}

} // verus!
