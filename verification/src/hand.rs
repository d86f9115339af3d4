//! Hands of five cards: reading them, their category, and their tie-break key.

use vstd::prelude::*;
use vstd::std_specs::cmp::PartialEqSpec;
use crate::card::{parse_card, Card, ParseError, Suit};
use crate::order::ints;
use crate::sorting::{sort_by_rank, SortedImpl};
use crate::text::{chars_of, split_ascii_whitespace, token_views, tokens};

verus! {

/// The category of a hand, strongest first.
#[derive(Clone, Copy, Debug, PartialEq, Eq, Structural)]
pub enum PokerHandType {
    StraightFlush,
    FourOfAKind,
    FullHouse,
    Flush,
    Straight,
    ThreeOfAKind,
    TwoPair,
    OnePair,
    HighCard,
}

impl PokerHandType {
    /// The strength of the category: 8 for a straight flush down to 0 for a
    /// high card.
    pub open spec fn rank(self) -> int {
        match self {
            PokerHandType::StraightFlush => 8,
            PokerHandType::FourOfAKind => 7,
            PokerHandType::FullHouse => 6,
            PokerHandType::Flush => 5,
            PokerHandType::Straight => 4,
            PokerHandType::ThreeOfAKind => 3,
            PokerHandType::TwoPair => 2,
            PokerHandType::OnePair => 1,
            PokerHandType::HighCard => 0,
        }
    }

    /// The strength of the category.
    pub fn strength(self) -> (v: u8)
        ensures
            v == self.rank(),
    {
        match self {
            PokerHandType::StraightFlush => 8,
            PokerHandType::FourOfAKind => 7,
            PokerHandType::FullHouse => 6,
            PokerHandType::Flush => 5,
            PokerHandType::Straight => 4,
            PokerHandType::ThreeOfAKind => 3,
            PokerHandType::TwoPair => 2,
            PokerHandType::OnePair => 1,
            PokerHandType::HighCard => 0,
        }
    }
}

/// The cards that a sequence of tokens denotes, or the error of the first
/// token that denotes none.
pub open spec fn parse_cards(t: Seq<Seq<char>>) -> Result<Seq<Card>, ParseError>
    decreases t.len(),
{
    if t.len() == 0 {
        Ok(Seq::<Card>::empty())
    } else {
        match parse_cards(t.drop_last()) {
            Err(e) => Err(e),
            Ok(cards) => match parse_card(t.last()) {
                Err(e) => Err(e),
                Ok(c) => Ok(cards.push(c)),
            },
        }
    }
}

/// Whether some card stands at two places of `cards`.
pub open spec fn has_duplicate(cards: Seq<Card>) -> bool {
    exists|i: int, j: int| 0 <= i < j < cards.len() && cards[i] == cards[j]
}

/// Five cards, no two of them the same.
pub open spec fn valid_hand(cards: Seq<Card>) -> bool {
    cards.len() == 5 && !has_duplicate(cards)
}

/// What a hand's text denotes: its five whitespace-separated tokens, each
/// read as a card, no card twice.
pub open spec fn parse_hand(text: Seq<char>) -> Result<Seq<Card>, ParseError> {
    let t = tokens(text);
    if t.len() != 5 {
        Err(ParseError::WrongCardCount)
    } else {
        match parse_cards(t) {
            Err(e) => Err(e),
            Ok(cards) => if has_duplicate(cards) {
                Err(ParseError::DuplicateCard)
            } else {
                Ok(cards)
            },
        }
    }
}

/// An error among the first tokens is the error of the whole sequence.
pub proof fn lemma_parse_cards_prefix_error(t: Seq<Seq<char>>, k: int)
    requires
        0 <= k <= t.len(),
        parse_cards(t.take(k)) is Err,
    ensures
        parse_cards(t) == parse_cards(t.take(k)),
    decreases t.len() - k,
{
    if k == t.len() {
        assert(t.take(k) =~= t);
    } else {
        assert(t.take(k + 1).drop_last() =~= t.take(k));
        lemma_parse_cards_prefix_error(t, k + 1);
    }
}

/// Reading tokens gives one card for each token.
pub proof fn lemma_parse_cards_len(t: Seq<Seq<char>>)
    requires
        parse_cards(t) is Ok,
    ensures
        parse_cards(t)->Ok_0.len() == t.len(),
    decreases t.len(),
{
    if t.len() > 0 {
        lemma_parse_cards_len(t.drop_last());
    }
}

/// Text that denotes a hand denotes five cards, no two of them the same.
pub proof fn lemma_parsed_hand_is_valid(text: Seq<char>)
    requires
        parse_hand(text) is Ok,
    ensures
        valid_hand(parse_hand(text)->Ok_0),
{
    lemma_parse_cards_len(tokens(text));
}

/// Whether every element of `s` behind the first equals the first.
pub open spec fn all_equal<T: PartialEq>(s: Seq<T>) -> bool {
    forall|i: int| 0 < i < s.len() ==> (#[trigger] s[i]).eq_spec(&s[0])
}

/// The suits of `cards`, in order.
pub open spec fn suits(cards: Seq<Card>) -> Seq<Suit> {
    Seq::new(cards.len(), |i: int| cards[i].suit)
}

/// All cards are of one suit.
pub open spec fn flush(cards: Seq<Card>) -> bool {
    all_equal(suits(cards))
}

/// Each card is one stronger than the card before it.
pub open spec fn consecutive(s: Seq<Card>) -> bool {
    forall|i: int|
        0 <= i < s.len() - 1 ==> s[i].rank.strength() + 1 == #[trigger] s[i + 1].rank.strength()
}

/// The rank strengths, sorted, are consecutive integers. The ace counts high
/// only.
pub open spec fn straight(cards: Seq<Card>) -> bool {
    consecutive(sort_by_rank(cards))
}

/// How many of `cards` have rank strength `v`.
pub open spec fn rank_count(cards: Seq<Card>, v: int) -> nat
    decreases cards.len(),
{
    if cards.len() == 0 {
        0
    } else {
        rank_count(cards.drop_last(), v) + if cards.last().rank.strength() == v {
            1nat
        } else {
            0nat
        }
    }
}

/// The rank strengths from `hi` down to 2 that exactly `n` of `cards` have,
/// strongest first.
pub open spec fn ranks_with_count(cards: Seq<Card>, n: nat, hi: int) -> Seq<int>
    decreases hi,
{
    if hi < 2 {
        Seq::<int>::empty()
    } else if rank_count(cards, hi) == n {
        seq![hi] + ranks_with_count(cards, n, hi - 1)
    } else {
        ranks_with_count(cards, n, hi - 1)
    }
}

/// The rank strengths of the groups of at most `n` cards of one rank: larger
/// groups first, and among groups of one size the stronger rank first.
pub open spec fn ranks_by_group(cards: Seq<Card>, n: nat) -> Seq<int>
    decreases n,
{
    if n == 0 {
        Seq::<int>::empty()
    } else {
        ranks_with_count(cards, n, 14) + ranks_by_group(cards, (n - 1) as nat)
    }
}

/// The tie-break key of a hand: its distinct rank strengths, ordered by the
/// number of cards of that rank, largest group first, then by strength,
/// strongest first.
pub open spec fn tie_break_key(cards: Seq<Card>) -> Seq<int> {
    ranks_by_group(cards, 5)
}

/// The sizes of the groups of equal rank, in the order of the tie-break key.
pub open spec fn group_sizes(cards: Seq<Card>) -> Seq<nat> {
    Seq::new(tie_break_key(cards).len(), |i: int| rank_count(cards, tie_break_key(cards)[i]))
}

/// The category of a hand.
pub open spec fn category(cards: Seq<Card>) -> PokerHandType {
    let g = group_sizes(cards);
    if flush(cards) && straight(cards) {
        PokerHandType::StraightFlush
    } else if g == seq![4nat, 1nat] {
        PokerHandType::FourOfAKind
    } else if g == seq![3nat, 2nat] {
        PokerHandType::FullHouse
    } else if flush(cards) {
        PokerHandType::Flush
    } else if straight(cards) {
        PokerHandType::Straight
    } else if g == seq![3nat, 1nat, 1nat] {
        PokerHandType::ThreeOfAKind
    } else if g == seq![2nat, 2nat, 1nat] {
        PokerHandType::TwoPair
    } else if g == seq![2nat, 1nat, 1nat, 1nat] {
        PokerHandType::OnePair
    } else {
        PokerHandType::HighCard
    }
}

/// A hand of five distinct cards, in the order in which its text gave them.
#[derive(Debug)]
pub struct PokerHand {
    cards: Vec<Card>,
}

impl View for PokerHand {
    type V = Seq<Card>;

    closed spec fn view(&self) -> Seq<Card> {
        self.cards@
    }
}

impl PokerHand {
    #[verifier::type_invariant]
    spec fn well_formed(self) -> bool {
        valid_hand(self.cards@)
    }

    /// Reads a hand from text such as `2H 3D 10C KS AS`.
    pub fn new(hand: &str) -> (r: Result<PokerHand, ParseError>)
        ensures
            match parse_hand(hand@) {
                Ok(cards) => r is Ok && r->Ok_0@ == cards,
                Err(e) => r is Err && r->Err_0 == e,
            },
            r is Ok ==> valid_hand(r->Ok_0@),
    {
        let text: Vec<char> = chars_of(hand);
        let toks: Vec<Vec<char>> = split_ascii_whitespace(&text);
        let ghost t = tokens(hand@);
        if toks.len() != 5 {
            return Err(ParseError::WrongCardCount);
        }
        let mut cards: Vec<Card> = Vec::new();
        let mut i: usize = 0;
        while i < 5
            invariant
                i <= 5,
                t == tokens(hand@),
                t.len() == 5,
                toks@.len() == 5,
                token_views(toks@) == t,
                parse_cards(t.take(i as int)) == Ok::<Seq<Card>, ParseError>(cards@),
                cards@.len() == i,
            decreases 5 - i,
        {
            proof {
                let p = t.take(i + 1);
                assert(p.drop_last() =~= t.take(i as int));
            }
            match Card::from_chars(&toks[i]) {
                Err(e) => {
                    proof {
                        lemma_parse_cards_prefix_error(t, i + 1);
                    }
                    return Err(e);
                },
                Ok(c) => {
                    cards.push(c);
                },
            }
            i += 1;
        }
        proof {
            assert(t.take(5) =~= t);
            lemma_parse_cards_len(t);
        }
        if has_duplicate_card(&cards) {
            return Err(ParseError::DuplicateCard);
        }
        Ok(PokerHand { cards })
    }

    /// The cards of the hand, in the order in which its text gave them.
    pub fn cards(&self) -> (cards: &Vec<Card>)
        ensures
            cards@ == self@,
            valid_hand(cards@),
    {
        proof {
            use_type_invariant(self);
        }
        &self.cards
    }

    /// Whether all five cards are of one suit.
    pub fn is_flush(&self) -> (b: bool)
        ensures
            b == flush(self@),
    {
        let mut hand_suits: Vec<Suit> = Vec::new();
        let mut i: usize = 0;
        while i < self.cards.len()
            invariant
                i <= self.cards@.len(),
                hand_suits@ == suits(self.cards@.take(i as int)),
            decreases self.cards@.len() - i,
        {
            hand_suits.push(self.cards[i].suit);
            i += 1;
        }
        assert(self.cards@.take(i as int) =~= self.cards@);
        PokerHand::all_elements_equal(hand_suits.as_slice())
    }

    /// Whether the hand is both a flush and a straight.
    pub fn is_straight_flush(&self) -> (b: bool)
        ensures
            b == (flush(self@) && straight(self@)),
    {
        self.is_flush() && self.is_straight()
    }

    /// Whether all elements of `slice` are the same. True of an empty slice.
    /// The answer is that of the element type's `==`, where that is known.
    pub fn all_elements_equal<T: PartialEq>(slice: &[T]) -> (b: bool)
        ensures
            T::obeys_eq_spec() ==> b == all_equal(slice@),
    {
        let n: usize = slice.len();
        let mut i: usize = 1;
        while i < n
            invariant
                n == slice@.len(),
                1 <= i,
                T::obeys_eq_spec() ==> forall|k: int|
                    0 < k < i && k < n ==> (#[trigger] slice@[k]).eq_spec(&slice@[0]),
            decreases n - i,
        {
            if slice[i] != slice[0] {
                return false;
            }
            i += 1;
        }
        true
    }

    /// Whether the rank strengths of the hand, sorted, are five consecutive
    /// integers. An ace counts high only.
    pub fn is_straight(&self) -> (b: bool)
        ensures
            b == straight(self@),
    {
        let copy: Vec<Card> = self.cards.clone();
        let sorted_cards: Vec<Card> = copy.sorted();
        let n: usize = sorted_cards.len();
        if n == 0 {
            return true;
        }
        let mut i: usize = 0;
        while i < n - 1
            invariant
                n == sorted_cards@.len(),
                sorted_cards@ == sort_by_rank(self@),
                n >= 1,
                i <= n - 1,
                forall|k: int|
                    0 <= k < i ==> sorted_cards@[k].rank.strength() + 1 == #[trigger] sorted_cards@[k
                        + 1].rank.strength(),
            decreases n - i,
        {
            if sorted_cards[i].numeric_value() + 1 != sorted_cards[i + 1].numeric_value() {
                return false;
            }
            i += 1;
        }
        true
    }

    /// How many cards of the hand have rank strength `v`.
    pub fn count_rank(&self, v: i8) -> (n: u8)
        ensures
            n == rank_count(self@, v as int),
            n <= 5,
    {
        proof {
            use_type_invariant(self);
        }
        let mut n: u8 = 0;
        let mut i: usize = 0;
        while i < 5
            invariant
                self.cards@.len() == 5,
                i <= 5,
                n <= i,
                n == rank_count(self.cards@.take(i as int), v as int),
            decreases 5 - i,
        {
            proof {
                let p = self.cards@.take(i + 1);
                assert(p.drop_last() =~= self.cards@.take(i as int));
            }
            if self.cards[i].numeric_value() == v {
                n += 1;
            }
            i += 1;
        }
        assert(self.cards@.take(5) =~= self.cards@);
        n
    }

    /// The tie-break key of the hand, and beside each of its rank strengths
    /// the number of cards of that rank.
    pub fn groups(&self) -> (r: (Vec<i8>, Vec<u8>))
        ensures
            ints(r.0@) == tie_break_key(self@),
            r.1@.len() == group_sizes(self@).len(),
            forall|i: int| 0 <= i < r.1@.len() ==> r.1@[i] == group_sizes(self@)[i],
    {
        let mut key: Vec<i8> = Vec::new();
        let mut sizes: Vec<u8> = Vec::new();
        let mut n: u8 = 5;
        while n > 0
            invariant
                n <= 5,
                tie_break_key(self@) == ints(key@) + ranks_by_group(self@, n as nat),
                sizes@.len() == key@.len(),
                forall|i: int|
                    0 <= i < key@.len() ==> sizes@[i] == rank_count(self@, #[trigger] key@[i] as int),
            decreases n,
        {
            let mut v: i8 = 14;
            while v >= 2
                invariant
                    1 <= v <= 14,
                    1 <= n <= 5,
                    tie_break_key(self@) == ints(key@) + ranks_with_count(self@, n as nat, v as int)
                        + ranks_by_group(self@, (n - 1) as nat),
                    sizes@.len() == key@.len(),
                    forall|i: int|
                        0 <= i < key@.len() ==> sizes@[i] == rank_count(
                            self@,
                            #[trigger] key@[i] as int,
                        ),
                decreases v,
            {
                if self.count_rank(v) == n {
                    proof {
                        assert(ints(key@) + (seq![v as int] + ranks_with_count(
                            self@,
                            n as nat,
                            v - 1,
                        )) =~= ints(key@) + seq![v as int] + ranks_with_count(
                            self@,
                            n as nat,
                            v - 1,
                        ));
                    }
                    key.push(v);
                    sizes.push(n);
                }
                v -= 1;
            }
            n -= 1;
        }
        (key, sizes)
    }

    /// The category of the hand.
    pub fn classify(&self) -> (c: PokerHandType)
        ensures
            c == category(self@),
    {
        let is_flush: bool = self.is_flush();
        let is_straight: bool = self.is_straight();
        let (_key, g) = self.groups();
        let ghost gs = group_sizes(self@);
        let len: usize = g.len();
        if is_flush && is_straight {
            PokerHandType::StraightFlush
        } else if len == 2 && g[0] == 4 && g[1] == 1 {
            assert(gs =~= seq![4nat, 1nat]);
            PokerHandType::FourOfAKind
        } else if len == 2 && g[0] == 3 && g[1] == 2 {
            assert(gs =~= seq![3nat, 2nat]);
            PokerHandType::FullHouse
        } else if is_flush {
            PokerHandType::Flush
        } else if is_straight {
            PokerHandType::Straight
        } else if len == 3 && g[0] == 3 && g[1] == 1 && g[2] == 1 {
            assert(gs =~= seq![3nat, 1nat, 1nat]);
            PokerHandType::ThreeOfAKind
        } else if len == 3 && g[0] == 2 && g[1] == 2 && g[2] == 1 {
            assert(gs =~= seq![2nat, 2nat, 1nat]);
            PokerHandType::TwoPair
        } else if len == 4 && g[0] == 2 && g[1] == 1 && g[2] == 1 && g[3] == 1 {
            assert(gs =~= seq![2nat, 1nat, 1nat, 1nat]);
            PokerHandType::OnePair
        } else {
            PokerHandType::HighCard
        }
    }
}

/// Whether some card stands at two places of `cards`.
pub fn has_duplicate_card(cards: &Vec<Card>) -> (b: bool)
    ensures
        b == has_duplicate(cards@),
{
    let n: usize = cards.len();
    let mut i: usize = 0;
    while i < n
        invariant
            n == cards@.len(),
            i <= n,
            forall|a: int, b: int| 0 <= a < b < n && a < i ==> cards@[a] != cards@[b],
        decreases n - i,
    {
        let mut j: usize = i + 1;
        while j < n
            invariant
                n == cards@.len(),
                i < j <= n,
                forall|a: int, b: int| 0 <= a < b < n && a < i ==> cards@[a] != cards@[b],
                forall|b: int| i < b < j ==> cards@[i as int] != cards@[b],
            decreases n - j,
        {
            if cards[i] == cards[j] {
                return true;
            }
            j += 1;
        }
        i += 1;
    }
    false
}

} // verus!
