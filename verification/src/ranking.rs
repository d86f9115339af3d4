//! The total order between hands: category first, then the tie-break key.

use std::cmp::Ordering;
use vstd::prelude::*;
use crate::card::Card;
use crate::hand::{category, tie_break_key, PokerHand};
use crate::order::{
    compare_keys, lemma_lex_order_equal, lemma_lex_order_flip, lemma_lex_order_transitive,
    lex_order,
};

verus! {

/// How hand `a` stands to hand `b`: the stronger category wins; within one
/// category the tie-break keys are compared lexicographically.
pub open spec fn hand_order(a: Seq<Card>, b: Seq<Card>) -> Ordering {
    if category(a).rank() < category(b).rank() {
        Ordering::Less
    } else if category(a).rank() > category(b).rank() {
        Ordering::Greater
    } else {
        lex_order(tie_break_key(a), tie_break_key(b))
    }
}

/// Hand `a` loses to hand `b`.
pub open spec fn weaker(a: Seq<Card>, b: Seq<Card>) -> bool {
    hand_order(a, b) == Ordering::Less
}

/// Hand `a` wins over hand `b`.
pub open spec fn stronger(a: Seq<Card>, b: Seq<Card>) -> bool {
    hand_order(a, b) == Ordering::Greater
}

/// Hands `a` and `b` tie.
pub open spec fn equally_strong(a: Seq<Card>, b: Seq<Card>) -> bool {
    hand_order(a, b) == Ordering::Equal
}

/// Two hands tie exactly when they have the same category and the same
/// tie-break key. Every hand ties with itself.
pub proof fn lemma_equally_strong(a: Seq<Card>, b: Seq<Card>)
    ensures
        equally_strong(a, b) <==> category(a) == category(b) && tie_break_key(a) == tie_break_key(
            b,
        ),
        equally_strong(a, a),
{
    lemma_lex_order_equal(tie_break_key(a), tie_break_key(b));
    lemma_lex_order_equal(tie_break_key(a), tie_break_key(a));
}

/// Of two hands exactly one of three holds: the first loses, they tie, or
/// the first wins. Swapping the hands swaps losing and winning.
pub proof fn lemma_order_antisymmetric(a: Seq<Card>, b: Seq<Card>)
    ensures
        weaker(a, b) <==> stronger(b, a),
        equally_strong(a, b) <==> equally_strong(b, a),
        weaker(a, b) || equally_strong(a, b) || stronger(a, b),
{
    lemma_lex_order_flip(tie_break_key(a), tie_break_key(b));
    lemma_lex_order_flip(tie_break_key(b), tie_break_key(a));
}

/// The order is transitive: a hand that does not lose to `b`, which does not
/// lose to `c`, does not lose to `c`, and wins over `c` where it wins over
/// `b` or `b` wins over `c`.
pub proof fn lemma_order_transitive(a: Seq<Card>, b: Seq<Card>, c: Seq<Card>)
    requires
        !weaker(a, b),
        !weaker(b, c),
    ensures
        !weaker(a, c),
        stronger(a, b) || stronger(b, c) ==> stronger(a, c),
{
    if category(a) == category(b) && category(b) == category(c) {
        lemma_lex_order_transitive(tie_break_key(a), tie_break_key(b), tie_break_key(c));
    }
}

/// Hands that tie stand alike to every third hand.
pub proof fn lemma_tied_hands_stand_alike(a: Seq<Card>, b: Seq<Card>, c: Seq<Card>)
    requires
        equally_strong(a, b),
    ensures
        weaker(a, c) == weaker(b, c),
        equally_strong(a, c) == equally_strong(b, c),
        stronger(a, c) == stronger(b, c),
{
    lemma_equally_strong(a, b);
}

impl PokerHand {
    /// Compares two hands: by category, then by tie-break key.
    pub fn compare(&self, other: &PokerHand) -> (o: Ordering)
        ensures
            o == hand_order(self@, other@),
    {
        let a: u8 = self.classify().strength();
        let b: u8 = other.classify().strength();
        if a < b {
            Ordering::Less
        } else if a > b {
            Ordering::Greater
        } else {
            let (ka, _) = self.groups();
            let (kb, _) = other.groups();
            compare_keys(&ka, &kb)
        }
    }

    /// Whether this hand wins over `other`.
    pub fn beats(&self, other: &PokerHand) -> (b: bool)
        ensures
            b == stronger(self@, other@),
    {
        match self.compare(other) {
            Ordering::Greater => true,
            _ => false,
        }
    }

    /// Whether this hand and `other` tie.
    pub fn ties_with(&self, other: &PokerHand) -> (b: bool)
        ensures
            b == equally_strong(self@, other@),
    {
        match self.compare(other) {
            Ordering::Equal => true,
            _ => false,
        }
    }
}

} // verus!
