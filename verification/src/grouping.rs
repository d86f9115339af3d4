//! What the tie-break key of a hand holds, and in which order.

use vstd::prelude::*;
use crate::card::Card;
use crate::hand::{rank_count, ranks_by_group, ranks_with_count, tie_break_key};

verus! {

/// Whether rank strength `a` stands before rank strength `b` in a tie-break
/// key: it has the larger group, or a group of the same size and is stronger.
pub open spec fn precedes(cards: Seq<Card>, a: int, b: int) -> bool {
    rank_count(cards, a) > rank_count(cards, b) || (rank_count(cards, a) == rank_count(cards, b)
        && a > b)
}

/// No rank strength occurs more often than there are cards, and one that
/// occurs lies between 2 and 14.
pub proof fn lemma_rank_count_bounds(cards: Seq<Card>, v: int)
    ensures
        rank_count(cards, v) <= cards.len(),
        rank_count(cards, v) > 0 ==> 2 <= v <= 14,
    decreases cards.len(),
{
    if cards.len() > 0 {
        lemma_rank_count_bounds(cards.drop_last(), v);
    }
}

/// The rank strength of every card occurs at least once.
pub proof fn lemma_rank_count_of_card(cards: Seq<Card>, i: int)
    requires
        0 <= i < cards.len(),
    ensures
        rank_count(cards, cards[i].rank.strength()) >= 1,
    decreases cards.len(),
{
    if i < cards.len() - 1 {
        lemma_rank_count_of_card(cards.drop_last(), i);
    }
}

/// The rank strengths up to `hi` with groups of `n` cards: exactly those, each
/// once, strongest first.
pub proof fn lemma_ranks_with_count(cards: Seq<Card>, n: nat, hi: int)
    ensures
        forall|i: int|
            0 <= i < ranks_with_count(cards, n, hi).len() ==> 2 <= (#[trigger] ranks_with_count(
                cards,
                n,
                hi,
            )[i]) <= hi && rank_count(cards, ranks_with_count(cards, n, hi)[i]) == n,
        forall|i: int, j: int|
            0 <= i < j < ranks_with_count(cards, n, hi).len() ==> ranks_with_count(cards, n, hi)[i]
                > ranks_with_count(cards, n, hi)[j],
        forall|v: int|
            2 <= v <= hi && rank_count(cards, v) == n ==> ranks_with_count(cards, n, hi).contains(
                v,
            ),
    decreases hi,
{
    if hi >= 2 {
        lemma_ranks_with_count(cards, n, hi - 1);
        let rest = ranks_with_count(cards, n, hi - 1);
        let all = ranks_with_count(cards, n, hi);
        if rank_count(cards, hi) == n {
            assert(all[0] == hi);
            assert forall|i: int| 0 < i < all.len() implies all[i] == rest[i - 1] by {}
            assert forall|v: int| 2 <= v <= hi && rank_count(cards, v) == n implies all.contains(
                v,
            ) by {
                if v < hi {
                    let k = choose|k: int| 0 <= k < rest.len() && rest[k] == v;
                    assert(all[k + 1] == v);
                }
            }
        }
    }
}

/// The rank strengths with groups of at most `n` cards: exactly those, each
/// once, larger groups first and within one size the stronger rank first.
pub proof fn lemma_ranks_by_group(cards: Seq<Card>, n: nat)
    ensures
        forall|i: int|
            0 <= i < ranks_by_group(cards, n).len() ==> 2 <= (#[trigger] ranks_by_group(
                cards,
                n,
            )[i]) <= 14 && 1 <= rank_count(cards, ranks_by_group(cards, n)[i]) <= n,
        forall|i: int, j: int|
            0 <= i < j < ranks_by_group(cards, n).len() ==> precedes(
                cards,
                ranks_by_group(cards, n)[i],
                ranks_by_group(cards, n)[j],
            ),
        forall|v: int|
            2 <= v <= 14 && 1 <= rank_count(cards, v) <= n ==> ranks_by_group(cards, n).contains(v),
    decreases n,
{
    if n > 0 {
        let m = (n - 1) as nat;
        lemma_ranks_by_group(cards, m);
        lemma_ranks_with_count(cards, n, 14);
        let head = ranks_with_count(cards, n, 14);
        let tail = ranks_by_group(cards, m);
        let all = ranks_by_group(cards, n);
        assert forall|i: int| 0 <= i < all.len() implies 2 <= (#[trigger] all[i]) <= 14 && 1
            <= rank_count(cards, all[i]) <= n by {}
        assert forall|i: int, j: int| 0 <= i < j < all.len() implies precedes(
            cards,
            all[i],
            all[j],
        ) by {}
        assert forall|v: int| 2 <= v <= 14 && 1 <= rank_count(cards, v) <= n implies all.contains(
            v,
        ) by {
            if rank_count(cards, v) == n {
                let k = choose|k: int| 0 <= k < head.len() && head[k] == v;
                assert(all[k] == v);
            } else {
                assert(tail.contains(v));
                let k = choose|k: int| 0 <= k < tail.len() && tail[k] == v;
                assert(all[k + head.len()] == v);
            }
        }
    }
}

/// The tie-break key of five cards holds the rank strengths of the cards,
/// each once: larger groups first, and within one size the stronger rank
/// first.
pub proof fn lemma_tie_break_key(cards: Seq<Card>)
    requires
        cards.len() == 5,
    ensures
        forall|v: int| tie_break_key(cards).contains(v) <==> rank_count(cards, v) >= 1,
        forall|i: int| 0 <= i < 5 ==> tie_break_key(cards).contains(cards[i].rank.strength()),
        forall|i: int, j: int|
            0 <= i < j < tie_break_key(cards).len() ==> precedes(
                cards,
                tie_break_key(cards)[i],
                tie_break_key(cards)[j],
            ),
{
    let key = tie_break_key(cards);
    lemma_ranks_by_group(cards, 5);
    assert forall|v: int| key.contains(v) <==> rank_count(cards, v) >= 1 by {
        lemma_rank_count_bounds(cards, v);
    }
    assert forall|i: int| 0 <= i < 5 implies key.contains(cards[i].rank.strength()) by {
        lemma_rank_count_of_card(cards, i);
    }
}

} // verus!
