//! The group sizes that a hand of five distinct cards can have.

use vstd::prelude::*;
use crate::card::Card;
use crate::grouping::{lemma_rank_count_bounds, lemma_tie_break_key, precedes};
use crate::hand::{
    category, flush, group_sizes, rank_count, straight, suits, tie_break_key, valid_hand,
    PokerHandType,
};

verus! {

/// The number of cards over all the rank strengths of `k`.
pub open spec fn cards_of_ranks(cards: Seq<Card>, k: Seq<int>) -> nat
    decreases k.len(),
{
    if k.len() == 0 {
        0
    } else {
        cards_of_ranks(cards, k.drop_last()) + rank_count(cards, k.last())
    }
}

/// The number of cards whose rank strength is one of `k`.
pub open spec fn cards_among(cards: Seq<Card>, k: Seq<int>) -> nat
    decreases cards.len(),
{
    if cards.len() == 0 {
        0
    } else {
        cards_among(cards.drop_last(), k) + if k.contains(cards.last().rank.strength()) {
            1nat
        } else {
            0nat
        }
    }
}

proof fn lemma_cards_among_push(cards: Seq<Card>, k: Seq<int>, v: int)
    requires
        !k.contains(v),
    ensures
        cards_among(cards, k.push(v)) == cards_among(cards, k) + rank_count(cards, v),
    decreases cards.len(),
{
    if cards.len() > 0 {
        lemma_cards_among_push(cards.drop_last(), k, v);
        let s = cards.last().rank.strength();
        if k.contains(s) {
            let i = choose|i: int| 0 <= i < k.len() && k[i] == s;
            assert(k.push(v)[i] == s);
        }
        if s == v {
            assert(k.push(v)[k.len() as int] == s);
        }
        if k.push(v).contains(s) {
            let i = choose|i: int| 0 <= i < k.push(v).len() && k.push(v)[i] == s;
            if i < k.len() {
                assert(k[i] == s);
            }
        }
    }
}

/// Counting by rank counts each card once, where no rank is listed twice.
pub proof fn lemma_cards_of_ranks(cards: Seq<Card>, k: Seq<int>)
    requires
        forall|i: int, j: int| 0 <= i < j < k.len() ==> k[i] != k[j],
    ensures
        cards_of_ranks(cards, k) == cards_among(cards, k),
    decreases k.len(),
{
    if k.len() == 0 {
        lemma_cards_among_none(cards);
        assert(k =~= Seq::<int>::empty());
    } else {
        let r = k.drop_last();
        assert forall|i: int, j: int| 0 <= i < j < r.len() implies r[i] != r[j] by {
            assert(r[i] == k[i] && r[j] == k[j]);
        }
        lemma_cards_of_ranks(cards, r);
        if r.contains(k.last()) {
            let i = choose|i: int| 0 <= i < r.len() && r[i] == k.last();
            assert(k[i] == k[k.len() - 1]);
        }
        lemma_cards_among_push(cards, r, k.last());
        assert(r.push(k.last()) =~= k);
    }
}

proof fn lemma_cards_among_none(cards: Seq<Card>)
    ensures
        cards_among(cards, Seq::<int>::empty()) == 0,
    decreases cards.len(),
{
    if cards.len() > 0 {
        lemma_cards_among_none(cards.drop_last());
    }
}

proof fn lemma_cards_among_all(cards: Seq<Card>, k: Seq<int>)
    requires
        forall|i: int| 0 <= i < cards.len() ==> k.contains(#[trigger] cards[i].rank.strength()),
    ensures
        cards_among(cards, k) == cards.len(),
    decreases cards.len(),
{
    if cards.len() > 0 {
        let r = cards.drop_last();
        assert forall|i: int| 0 <= i < r.len() implies k.contains(
            #[trigger] r[i].rank.strength(),
        ) by {
            assert(r[i] == cards[i]);
        }
        lemma_cards_among_all(r, k);
        assert(k.contains(cards[cards.len() - 1].rank.strength()));
    }
}

proof fn lemma_all_of_one_rank(cards: Seq<Card>, v: int)
    requires
        rank_count(cards, v) == cards.len(),
    ensures
        forall|i: int| 0 <= i < cards.len() ==> (#[trigger] cards[i]).rank.strength() == v,
    decreases cards.len(),
{
    if cards.len() > 0 {
        let r = cards.drop_last();
        lemma_rank_count_bounds(r, v);
        lemma_all_of_one_rank(r, v);
        assert forall|i: int| 0 <= i < cards.len() implies (#[trigger] cards[i]).rank.strength()
            == v by {
            if i < r.len() {
                assert(r[i] == cards[i]);
            }
        }
    }
}

/// Five distinct cards are not all of one rank: there are four suits.
pub proof fn lemma_no_five_of_a_kind(cards: Seq<Card>, v: int)
    requires
        valid_hand(cards),
    ensures
        rank_count(cards, v) <= 4,
{
    lemma_rank_count_bounds(cards, v);
    if rank_count(cards, v) == 5 {
        lemma_all_of_one_rank(cards, v);
        let c0 = cards[0];
        let c1 = cards[1];
        let c2 = cards[2];
        let c3 = cards[3];
        let c4 = cards[4];
        assert(c0.rank == c1.rank && c1.rank == c2.rank && c2.rank == c3.rank && c3.rank
            == c4.rank);
        assert(c0 != c1 && c0 != c2 && c0 != c3 && c0 != c4 && c1 != c2 && c1 != c3 && c1 != c4
            && c2 != c3 && c2 != c4 && c3 != c4);
        assert(false);
    }
}

/// The groups of equal rank of a hand have sizes 4 and 1, or 3 and 2, or 3, 1
/// and 1, or 2, 2 and 1, or 2, 1, 1 and 1, or 1 throughout.
pub proof fn lemma_group_sizes(cards: Seq<Card>)
    requires
        valid_hand(cards),
    ensures
        group_sizes(cards) == seq![4nat, 1nat] || group_sizes(cards) == seq![3nat, 2nat]
            || group_sizes(cards) == seq![3nat, 1nat, 1nat] || group_sizes(cards) == seq![
            2nat,
            2nat,
            1nat,
        ] || group_sizes(cards) == seq![2nat, 1nat, 1nat, 1nat] || group_sizes(cards) == seq![
            1nat,
            1nat,
            1nat,
            1nat,
            1nat,
        ],
{
    let key = tie_break_key(cards);
    let g = group_sizes(cards);
    lemma_tie_break_key(cards);
    assert forall|i: int, j: int| 0 <= i < j < key.len() implies key[i] != key[j] by {
        assert(precedes(cards, key[i], key[j]));
    }
    lemma_cards_of_ranks(cards, key);
    lemma_cards_among_all(cards, key);
    assert(cards_of_ranks(cards, key) == 5);
    assert forall|i: int| 0 <= i < key.len() implies 1 <= #[trigger] g[i] <= 4 by {
        assert(key.contains(key[i]));
        lemma_no_five_of_a_kind(cards, key[i]);
    }
    assert forall|i: int, j: int| 0 <= i < j < key.len() implies g[i] >= g[j] by {
        assert(precedes(cards, key[i], key[j]));
    }
    lemma_cards_of_ranks_prefix(cards, key, key.len() as int);
    let n = key.len() as int;
    assert(key.take(n) =~= key);
    if n >= 1 {
        lemma_cards_of_ranks_prefix(cards, key, 1);
        assert(g[0] == rank_count(cards, key[0]));
    }
    if n >= 2 {
        lemma_cards_of_ranks_prefix(cards, key, 2);
        assert(g[1] == rank_count(cards, key[1]));
    }
    if n >= 3 {
        lemma_cards_of_ranks_prefix(cards, key, 3);
        assert(g[2] == rank_count(cards, key[2]));
    }
    if n >= 4 {
        lemma_cards_of_ranks_prefix(cards, key, 4);
        assert(g[3] == rank_count(cards, key[3]));
    }
    if n >= 5 {
        lemma_cards_of_ranks_prefix(cards, key, 5);
        assert(g[4] == rank_count(cards, key[4]));
    }
    if n >= 6 {
        lemma_cards_of_ranks_prefix(cards, key, 6);
        assert(g[5] == rank_count(cards, key[5]));
    }
    assert(cards_of_ranks(cards, key.take(0)) == 0);
    assert(key.contains(cards[0].rank.strength()));
    assert(1 <= n <= 5);
    if n == 2 {
        assert(g =~= seq![4nat, 1nat] || g =~= seq![3nat, 2nat]);
    } else if n == 3 {
        assert(g =~= seq![3nat, 1nat, 1nat] || g =~= seq![2nat, 2nat, 1nat]);
    } else if n == 4 {
        assert(g =~= seq![2nat, 1nat, 1nat, 1nat]);
    } else if n == 5 {
        assert(g =~= seq![1nat, 1nat, 1nat, 1nat, 1nat]);
    }
}

/// Where a rank strength occurs twice or more, two cards have it.
pub proof fn lemma_two_of_a_rank(cards: Seq<Card>, v: int) -> (r: (int, int))
    requires
        rank_count(cards, v) >= 2,
    ensures
        0 <= r.0 < r.1 < cards.len(),
        cards[r.0].rank.strength() == v,
        cards[r.1].rank.strength() == v,
    decreases cards.len(),
{
    let rest = cards.drop_last();
    if rank_count(rest, v) >= 2 {
        let r = lemma_two_of_a_rank(rest, v);
        assert(rest[r.0] == cards[r.0] && rest[r.1] == cards[r.1]);
        r
    } else {
        let i = lemma_one_of_a_rank(rest, v);
        assert(rest[i] == cards[i]);
        (i, cards.len() - 1)
    }
}

proof fn lemma_one_of_a_rank(cards: Seq<Card>, v: int) -> (i: int)
    requires
        rank_count(cards, v) >= 1,
    ensures
        0 <= i < cards.len(),
        cards[i].rank.strength() == v,
    decreases cards.len(),
{
    if cards.last().rank.strength() == v {
        cards.len() - 1
    } else {
        let rest = cards.drop_last();
        let i = lemma_one_of_a_rank(rest, v);
        assert(rest[i] == cards[i]);
        i
    }
}

/// The cards of a flush all differ in rank.
pub proof fn lemma_flush_ranks_differ(cards: Seq<Card>)
    requires
        valid_hand(cards),
        flush(cards),
    ensures
        group_sizes(cards) == seq![1nat, 1nat, 1nat, 1nat, 1nat],
{
    lemma_group_sizes(cards);
    let g = group_sizes(cards);
    assert(g.len() == tie_break_key(cards).len());
    assert(seq![4nat, 1nat].len() == 2 && seq![3nat, 2nat].len() == 2);
    assert(seq![3nat, 1nat, 1nat].len() == 3 && seq![2nat, 2nat, 1nat].len() == 3);
    assert(seq![2nat, 1nat, 1nat, 1nat].len() == 4);
    assert(seq![1nat, 1nat, 1nat, 1nat, 1nat].len() == 5);
    let v = tie_break_key(cards)[0];
    assert(g[0] == rank_count(cards, v));
    if rank_count(cards, v) >= 2 {
        let (i, j) = lemma_two_of_a_rank(cards, v);
        assert(suits(cards)[i] == cards[i].suit);
        assert(suits(cards)[j] == cards[j].suit);
        assert(cards[i].suit == cards[j].suit);
        assert(cards[i].rank == cards[j].rank);
        assert(cards[i] == cards[j]);
    }
}

/// A hand is a high card exactly when it is no flush and no straight and
/// its cards all differ in rank; a flush is never four of a kind or a full
/// house.
pub proof fn lemma_category_of_groups(cards: Seq<Card>)
    requires
        valid_hand(cards),
    ensures
        category(cards) == PokerHandType::HighCard <==> !flush(cards) && !straight(cards)
            && group_sizes(cards) == seq![1nat, 1nat, 1nat, 1nat, 1nat],
        flush(cards) ==> category(cards) == PokerHandType::Flush || category(cards)
            == PokerHandType::StraightFlush,
{
    lemma_group_sizes(cards);
    if flush(cards) {
        lemma_flush_ranks_differ(cards);
    }
    assert(seq![4nat, 1nat].len() == 2 && seq![3nat, 2nat].len() == 2);
    assert(seq![3nat, 1nat, 1nat].len() == 3 && seq![2nat, 2nat, 1nat].len() == 3);
    assert(seq![2nat, 1nat, 1nat, 1nat].len() == 4);
    assert(seq![1nat, 1nat, 1nat, 1nat, 1nat].len() == 5);
}

/// The cards of the first `n` ranks of `k` are those of the first `n - 1`
/// and those of the next rank; each listed rank that occurs adds a card.
proof fn lemma_cards_of_ranks_prefix(cards: Seq<Card>, k: Seq<int>, n: int)
    requires
        0 <= n <= k.len(),
    ensures
        n > 0 ==> cards_of_ranks(cards, k.take(n)) == cards_of_ranks(cards, k.take(n - 1))
            + rank_count(cards, k[n - 1]),
        cards_of_ranks(cards, k.take(n)) <= cards_of_ranks(cards, k),
    decreases k.len() - n,
{
    if n > 0 {
        assert(k.take(n).drop_last() =~= k.take(n - 1));
    }
    if n < k.len() {
        lemma_cards_of_ranks_prefix(cards, k, n + 1);
    } else {
        assert(k.take(n) =~= k);
    }
}

} // verus!
