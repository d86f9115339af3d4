//! Choosing the winning hands among many.

use vstd::prelude::*;
use crate::card::{Card, ParseError};
use crate::hand::{parse_hand, PokerHand};
use crate::ranking::{
    equally_strong, lemma_order_antisymmetric, lemma_order_transitive,
    lemma_tied_hands_stand_alike, weaker,
};

verus! {

/// The hand that a text denotes, where it denotes one.
pub open spec fn hand_of(text: Seq<char>) -> Seq<Card> {
    parse_hand(text)->Ok_0
}

/// The error of the first text that denotes no hand, if there is one.
pub open spec fn first_failure(hands: Seq<&str>) -> Option<ParseError>
    decreases hands.len(),
{
    if hands.len() == 0 {
        None
    } else {
        match first_failure(hands.drop_last()) {
            Some(e) => Some(e),
            None => match parse_hand(hands.last()@) {
                Err(e) => Some(e),
                Ok(_) => None,
            },
        }
    }
}

/// Whether the hand of `h` loses to none of `hands`.
pub open spec fn is_winner(hands: Seq<&str>, h: &str) -> bool {
    forall|j: int| 0 <= j < hands.len() ==> !weaker(hand_of(h@), #[trigger] hand_of(hands[j]@))
}

/// The test that picks the winners among `hands`.
pub open spec fn winner_test(hands: Seq<&str>) -> spec_fn(&str) -> bool {
    |h: &str| is_winner(hands, h)
}

/// The texts of `hands` whose hand loses to no other, in their order in
/// `hands`.
pub open spec fn winners<'a>(hands: Seq<&'a str>) -> Seq<&'a str> {
    hands.filter(winner_test(hands))
}

/// What evaluating `hands` gives: the error of the first text that denotes no
/// hand, or else the winners.
pub open spec fn evaluation<'a>(hands: Seq<&'a str>) -> Result<Seq<&'a str>, ParseError> {
    match first_failure(hands) {
        Some(e) => Err(e),
        None => Ok(winners(hands)),
    }
}

/// An outcome with the winners as a sequence.
pub open spec fn outcome_view<'a>(r: Result<Vec<&'a str>, ParseError>) -> Result<
    Seq<&'a str>,
    ParseError,
> {
    match r {
        Ok(w) => Ok(w@),
        Err(e) => Err(e),
    }
}

/// A failure among the first texts is the failure of the whole sequence.
pub proof fn lemma_first_failure_prefix(hands: Seq<&str>, k: int)
    requires
        0 <= k <= hands.len(),
        first_failure(hands.take(k)) is Some,
    ensures
        first_failure(hands) == first_failure(hands.take(k)),
    decreases hands.len() - k,
{
    if k == hands.len() {
        assert(hands.take(k) =~= hands);
    } else {
        assert(hands.take(k + 1).drop_last() =~= hands.take(k));
        lemma_first_failure_prefix(hands, k + 1);
    }
}

/// The winning hands among `hands`: every text whose hand loses to no other,
/// in the order of `hands`, each the very text that was passed in. Where a
/// text denotes no hand, the error of the first such text is returned.
pub fn winning_hands<'a>(hands: &[&'a str]) -> (r: Result<Vec<&'a str>, ParseError>)
    ensures
        outcome_view(r) == evaluation(hands@),
{
    let n: usize = hands.len();
    let mut parsed: Vec<PokerHand> = Vec::new();
    let mut i: usize = 0;
    while i < n
        invariant
            n == hands@.len(),
            i <= n,
            parsed@.len() == i,
            first_failure(hands@.take(i as int)) is None,
            forall|k: int|
                0 <= k < i ==> parse_hand(hands@[k]@) == Ok::<Seq<Card>, ParseError>(
                    #[trigger] parsed@[k]@,
                ),
        decreases n - i,
    {
        proof {
            let p = hands@.take(i + 1);
            assert(p.drop_last() =~= hands@.take(i as int));
            assert(p.last() == hands@[i as int]);
        }
        match PokerHand::new(hands[i]) {
            Err(e) => {
                proof {
                    assert(first_failure(hands@.take(i + 1)) == Some(e));
                    lemma_first_failure_prefix(hands@, i + 1);
                }
                return Err(e);
            },
            Ok(h) => {
                parsed.push(h);
            },
        }
        i += 1;
    }
    assert(hands@.take(n as int) =~= hands@);
    let mut out: Vec<&'a str> = Vec::new();
    if n == 0 {
        proof {
            reveal(Seq::filter);
        }
        return Ok(out);
    }
    let mut best: usize = 0;
    i = 1;
    proof {
        lemma_order_antisymmetric(parsed@[0]@, parsed@[0]@);
    }
    while i < n
        invariant
            n == parsed@.len(),
            1 <= i <= n,
            best < i,
            forall|k: int| 0 <= k < i ==> !weaker(parsed@[best as int]@, #[trigger] parsed@[k]@),
        decreases n - i,
    {
        if parsed[i].beats(&parsed[best]) {
            proof {
                let top = parsed@[i as int]@;
                let was = parsed@[best as int]@;
                lemma_order_antisymmetric(top, was);
                lemma_order_antisymmetric(top, top);
                assert forall|k: int| 0 <= k < i + 1 implies !weaker(
                    top,
                    #[trigger] parsed@[k]@,
                ) by {
                    if k < i {
                        lemma_order_transitive(top, was, parsed@[k]@);
                    }
                }
            }
            best = i;
        } else {
            proof {
                lemma_order_antisymmetric(parsed@[i as int]@, parsed@[best as int]@);
            }
        }
        i += 1;
    }
    i = 0;
    proof {
        reveal(Seq::filter);
        assert(hands@.take(0) =~= Seq::<&str>::empty());
    }
    while i < n
        invariant
            n == hands@.len(),
            n == parsed@.len(),
            i <= n,
            best < n,
            forall|k: int|
                0 <= k < n ==> parse_hand(hands@[k]@) == Ok::<Seq<Card>, ParseError>(
                    #[trigger] parsed@[k]@,
                ),
            forall|k: int| 0 <= k < n ==> !weaker(parsed@[best as int]@, #[trigger] parsed@[k]@),
            out@ == hands@.take(i as int).filter(winner_test(hands@)),
        decreases n - i,
    {
        let tied: bool = parsed[i].ties_with(&parsed[best]);
        proof {
            reveal(Seq::filter);
            let p = hands@.take(i + 1);
            assert(p.drop_last() =~= hands@.take(i as int));
            let mine = parsed@[i as int]@;
            let top = parsed@[best as int]@;
            assert(hand_of(hands@[i as int]@) == mine);
            assert(hand_of(hands@[best as int]@) == top);
            if tied {
                assert forall|j: int| 0 <= j < hands@.len() implies !weaker(
                    mine,
                    #[trigger] hand_of(hands@[j]@),
                ) by {
                    lemma_tied_hands_stand_alike(mine, top, parsed@[j]@);
                }
            } else {
                lemma_order_antisymmetric(mine, top);
                assert(weaker(mine, hand_of(hands@[best as int]@)));
                assert(!is_winner(hands@, hands@[i as int]));
            }
        }
        if tied {
            out.push(hands[i]);
        }
        i += 1;
    }
    Ok(out)
}

/// Evaluating the same texts again gives the same outcome: the same winners
/// in the same order, or the same error.
pub proof fn lemma_evaluation_repeats<'a>(
    hands: Seq<&'a str>,
    first: Result<Vec<&'a str>, ParseError>,
    second: Result<Vec<&'a str>, ParseError>,
)
    requires
        outcome_view(first) == evaluation(hands),
        outcome_view(second) == evaluation(hands),
    ensures
        outcome_view(first) == outcome_view(second),
        first is Ok <==> second is Ok,
        first is Ok ==> first->Ok_0@ == second->Ok_0@,
        first is Err ==> first->Err_0 == second->Err_0,
{
}

/// Every winner is one of the hands and loses to none of them, and any two
/// winners tie.
pub proof fn lemma_winners_tie(hands: Seq<&str>, a: &str, b: &str)
    requires
        winners(hands).contains(a),
        winners(hands).contains(b),
    ensures
        hands.contains(a),
        is_winner(hands, a),
        equally_strong(hand_of(a@), hand_of(b@)),
{
    let test = winner_test(hands);
    let i = choose|i: int| 0 <= i < winners(hands).len() && winners(hands)[i] == a;
    let j = choose|j: int| 0 <= j < winners(hands).len() && winners(hands)[j] == b;
    hands.lemma_filter_pred(test, i);
    hands.lemma_filter_pred(test, j);
    hands.lemma_filter_contains_rev(test, a);
    hands.lemma_filter_contains_rev(test, b);
    let ia = choose|k: int| 0 <= k < hands.len() && hands[k] == a;
    let ib = choose|k: int| 0 <= k < hands.len() && hands[k] == b;
    assert(!weaker(hand_of(a@), hand_of(hands[ib]@)));
    assert(!weaker(hand_of(b@), hand_of(hands[ia]@)));
    lemma_order_antisymmetric(hand_of(a@), hand_of(b@));
    lemma_order_antisymmetric(hand_of(b@), hand_of(a@));
}

/// A hand that is not among the winners loses to every winner.
pub proof fn lemma_others_lose(hands: Seq<&str>, h: &str, w: &str)
    requires
        hands.contains(h),
        !winners(hands).contains(h),
        winners(hands).contains(w),
    ensures
        weaker(hand_of(h@), hand_of(w@)),
{
    let test = winner_test(hands);
    lemma_winners_tie(hands, w, w);
    let i = choose|k: int| 0 <= k < hands.len() && hands[k] == h;
    if is_winner(hands, h) {
        hands.lemma_filter_contains(test, i);
    }
    let j = choose|j: int|
        0 <= j < hands.len() && weaker(hand_of(h@), #[trigger] hand_of(hands[j]@));
    if !weaker(hand_of(h@), hand_of(w@)) {
        lemma_order_transitive(hand_of(h@), hand_of(w@), hand_of(hands[j]@));
    }
}

/// Among the first `n` hands there is one that loses to none of them.
pub proof fn lemma_best_exists(hands: Seq<&str>, n: int) -> (m: int)
    requires
        0 < n <= hands.len(),
    ensures
        0 <= m < n,
        forall|k: int|
            0 <= k < n ==> !weaker(hand_of(hands[m]@), #[trigger] hand_of(hands[k]@)),
    decreases n,
{
    let last = hand_of(hands[n - 1]@);
    lemma_order_antisymmetric(last, last);
    if n == 1 {
        0
    } else {
        let m = lemma_best_exists(hands, n - 1);
        let top = hand_of(hands[m]@);
        lemma_order_antisymmetric(top, last);
        if weaker(top, last) {
            assert forall|k: int| 0 <= k < n implies !weaker(
                last,
                #[trigger] hand_of(hands[k]@),
            ) by {
                if k < n - 1 {
                    lemma_order_transitive(last, top, hand_of(hands[k]@));
                }
            }
            n - 1
        } else {
            m
        }
    }
}

/// Where there are hands, there is a winner.
pub proof fn lemma_some_hand_wins(hands: Seq<&str>)
    requires
        hands.len() > 0,
    ensures
        winners(hands).len() > 0,
{
    let m = lemma_best_exists(hands, hands.len() as int);
    hands.lemma_filter_contains(winner_test(hands), m);
}

} // verus!
