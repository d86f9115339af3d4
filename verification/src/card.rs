//! Cards: ranks, suits, their text notation and the order of cards by rank.

use std::cmp::Ordering;
use vstd::prelude::*;
use vstd::string::*;
use crate::text::chars_of;

verus! {

/// Why a card or a hand could not be read.
#[derive(Clone, Copy, Debug, PartialEq, Eq, Structural)]
pub enum ParseError {
    /// The rank token is not one of the thirteen rank symbols.
    InvalidRank,
    /// The suit token is not one of the four suit symbols.
    InvalidSuit,
    /// The hand does not hold exactly five tokens.
    WrongCardCount,
    /// The same card occurs twice in one hand.
    DuplicateCard,
}

/// The face value of a card, ace high.
#[derive(Clone, Copy, Debug, PartialEq, Eq, Structural)]
pub enum Rank {
    Two,
    Three,
    Four,
    Five,
    Six,
    Seven,
    Eight,
    Nine,
    Ten,
    Jack,
    Queen,
    King,
    Ace,
}

/// One of the four card families.
#[derive(Clone, Copy, Debug, Eq)]
pub enum Suit {
    Clubs,
    Diamonds,
    Hearts,
    Spades,
}

impl PartialEq for Suit {
    fn eq(&self, other: &Suit) -> (r: bool) {
        match (*self, *other) {
            (Suit::Clubs, Suit::Clubs) => true,
            (Suit::Diamonds, Suit::Diamonds) => true,
            (Suit::Hearts, Suit::Hearts) => true,
            (Suit::Spades, Suit::Spades) => true,
            _ => false,
        }
    }
}

impl vstd::std_specs::cmp::PartialEqSpecImpl for Suit {
    open spec fn obeys_eq_spec() -> bool {
        true
    }

    open spec fn eq_spec(&self, other: &Suit) -> bool {
        *self == *other
    }
}

impl Rank {
    /// The numeric strength of the rank, from 2 for the two to 14 for the ace.
    pub open spec fn strength(self) -> int {
        match self {
            Rank::Two => 2,
            Rank::Three => 3,
            Rank::Four => 4,
            Rank::Five => 5,
            Rank::Six => 6,
            Rank::Seven => 7,
            Rank::Eight => 8,
            Rank::Nine => 9,
            Rank::Ten => 10,
            Rank::Jack => 11,
            Rank::Queen => 12,
            Rank::King => 13,
            Rank::Ace => 14,
        }
    }

    /// The rank's symbol in card notation.
    pub open spec fn token(self) -> Seq<char> {
        match self {
            Rank::Two => seq!['2'],
            Rank::Three => seq!['3'],
            Rank::Four => seq!['4'],
            Rank::Five => seq!['5'],
            Rank::Six => seq!['6'],
            Rank::Seven => seq!['7'],
            Rank::Eight => seq!['8'],
            Rank::Nine => seq!['9'],
            Rank::Ten => seq!['1', '0'],
            Rank::Jack => seq!['J'],
            Rank::Queen => seq!['Q'],
            Rank::King => seq!['K'],
            Rank::Ace => seq!['A'],
        }
    }

    /// The rank that a token denotes, if any. Tokens are case-sensitive.
    pub open spec fn of_token(t: Seq<char>) -> Option<Rank> {
        if t.len() == 1 {
            if t[0] == '2' {
                Some(Rank::Two)
            }             else if t[0] == '3' {
                Some(Rank::Three)
            }             else if t[0] == '4' {
                Some(Rank::Four)
            }             else if t[0] == '5' {
                Some(Rank::Five)
            }             else if t[0] == '6' {
                Some(Rank::Six)
            }             else if t[0] == '7' {
                Some(Rank::Seven)
            }             else if t[0] == '8' {
                Some(Rank::Eight)
            }             else if t[0] == '9' {
                Some(Rank::Nine)
            }             else if t[0] == 'J' {
                Some(Rank::Jack)
            }             else if t[0] == 'Q' {
                Some(Rank::Queen)
            }             else if t[0] == 'K' {
                Some(Rank::King)
            }             else if t[0] == 'A' {
                Some(Rank::Ace)
            } else {
                None
            }
        } else if t.len() == 2 && t[0] == '1' && t[1] == '0' {
            Some(Rank::Ten)
        } else {
            None
        }
    }

    /// The numeric strength of the rank.
    pub fn numeric_value(self) -> (v: i8)
        ensures
            v == self.strength(),
            2 <= v <= 14,
    {
        match self {
            Rank::Two => 2,
            Rank::Three => 3,
            Rank::Four => 4,
            Rank::Five => 5,
            Rank::Six => 6,
            Rank::Seven => 7,
            Rank::Eight => 8,
            Rank::Nine => 9,
            Rank::Ten => 10,
            Rank::Jack => 11,
            Rank::Queen => 12,
            Rank::King => 13,
            Rank::Ace => 14,
        }
    }

    /// The rank's symbol in card notation.
    pub fn symbol(self) -> (s: &'static str)
        ensures
            s@ == self.token(),
    {
        proof {
            reveal_strlit("2");
            reveal_strlit("3");
            reveal_strlit("4");
            reveal_strlit("5");
            reveal_strlit("6");
            reveal_strlit("7");
            reveal_strlit("8");
            reveal_strlit("9");
            reveal_strlit("10");
            reveal_strlit("J");
            reveal_strlit("Q");
            reveal_strlit("K");
            reveal_strlit("A");
        }
        let s: &'static str = match self {
            Rank::Two => "2",
            Rank::Three => "3",
            Rank::Four => "4",
            Rank::Five => "5",
            Rank::Six => "6",
            Rank::Seven => "7",
            Rank::Eight => "8",
            Rank::Nine => "9",
            Rank::Ten => "10",
            Rank::Jack => "J",
            Rank::Queen => "Q",
            Rank::King => "K",
            Rank::Ace => "A",
        };
        s
    }

    /// Reads the rank token that the first `len` characters of `t` form.
    pub fn parse(t: &Vec<char>, len: usize) -> (r: Option<Rank>)
        requires
            len <= t@.len(),
        ensures
            r == Rank::of_token(t@.take(len as int)),
    {
        if len == 1 {
            let c: char = t[0];
            if c == '2' {
                Some(Rank::Two)
            }             else if c == '3' {
                Some(Rank::Three)
            }             else if c == '4' {
                Some(Rank::Four)
            }             else if c == '5' {
                Some(Rank::Five)
            }             else if c == '6' {
                Some(Rank::Six)
            }             else if c == '7' {
                Some(Rank::Seven)
            }             else if c == '8' {
                Some(Rank::Eight)
            }             else if c == '9' {
                Some(Rank::Nine)
            }             else if c == 'J' {
                Some(Rank::Jack)
            }             else if c == 'Q' {
                Some(Rank::Queen)
            }             else if c == 'K' {
                Some(Rank::King)
            }             else if c == 'A' {
                Some(Rank::Ace)
            } else {
                None
            }
        } else if len == 2 && t[0] == '1' && t[1] == '0' {
            Some(Rank::Ten)
        } else {
            None
        }
    }
}

impl Suit {
    /// The suit's symbol in card notation.
    pub open spec fn token(self) -> Seq<char> {
        match self {
            Suit::Clubs => seq!['C'],
            Suit::Diamonds => seq!['D'],
            Suit::Hearts => seq!['H'],
            Suit::Spades => seq!['S'],
        }
    }

    /// The suit that a character denotes, if any.
    pub open spec fn of_char(c: char) -> Option<Suit> {
        if c == 'C' {
            Some(Suit::Clubs)
        }         else if c == 'D' {
            Some(Suit::Diamonds)
        }         else if c == 'H' {
            Some(Suit::Hearts)
        }         else if c == 'S' {
            Some(Suit::Spades)
        } else {
            None
        }
    }

    /// The suit's symbol in card notation.
    pub fn symbol(self) -> (s: &'static str)
        ensures
            s@ == self.token(),
    {
        proof {
            reveal_strlit("C");
            reveal_strlit("D");
            reveal_strlit("H");
            reveal_strlit("S");
        }
        let s: &'static str = match self {
            Suit::Clubs => "C",
            Suit::Diamonds => "D",
            Suit::Hearts => "H",
            Suit::Spades => "S",
        };
        s
    }

    /// Reads a suit character.
    pub fn parse(c: char) -> (r: Option<Suit>)
        ensures
            r == Suit::of_char(c),
    {
        if c == 'C' {
            Some(Suit::Clubs)
        }         else if c == 'D' {
            Some(Suit::Diamonds)
        }         else if c == 'H' {
            Some(Suit::Hearts)
        }         else if c == 'S' {
            Some(Suit::Spades)
        } else {
            None
        }
    }
}

/// A playing card. Two cards are equal when rank and suit are; cards are
/// ordered by rank alone.
#[derive(Clone, Copy, Debug, Eq)]
pub struct Card {
    pub rank: Rank,
    pub suit: Suit,
}

impl PartialEq for Card {
    fn eq(&self, other: &Card) -> (r: bool) {
        self.rank == other.rank && self.suit == other.suit
    }
}

impl vstd::std_specs::cmp::PartialEqSpecImpl for Card {
    open spec fn obeys_eq_spec() -> bool {
        true
    }

    open spec fn eq_spec(&self, other: &Card) -> bool {
        self.rank == other.rank && self.suit == other.suit
    }
}

impl PartialOrd for Card {
    fn partial_cmp(&self, other: &Card) -> (o: Option<Ordering>) {
        Some(self.cmp(other))
    }
}

impl vstd::std_specs::cmp::PartialOrdSpecImpl for Card {
    open spec fn obeys_partial_cmp_spec() -> bool {
        true
    }

    open spec fn partial_cmp_spec(&self, other: &Card) -> Option<Ordering> {
        Some(card_order(*self, *other))
    }
}

/// What a card token denotes: its last character is the suit token, what
/// stands before it the rank token. The suit is looked at first.
pub open spec fn parse_card(t: Seq<char>) -> Result<Card, ParseError> {
    if t.len() == 0 {
        Err(ParseError::InvalidSuit)
    } else {
        match Suit::of_char(t.last()) {
            None => Err(ParseError::InvalidSuit),
            Some(suit) => match Rank::of_token(t.drop_last()) {
                None => Err(ParseError::InvalidRank),
                Some(rank) => Ok(Card { rank, suit }),
            },
        }
    }
}

/// How two cards stand to each other: by rank strength, whatever the suits.
pub open spec fn card_order(a: Card, b: Card) -> Ordering {
    if a.rank.strength() < b.rank.strength() {
        Ordering::Less
    } else if a.rank.strength() > b.rank.strength() {
        Ordering::Greater
    } else {
        Ordering::Equal
    }
}

impl Card {
    /// The card's notation: the rank token followed by the suit token.
    pub open spec fn token(self) -> Seq<char> {
        self.rank.token() + self.suit.token()
    }

    /// Reads a card from its characters.
    pub fn from_chars(t: &Vec<char>) -> (r: Result<Card, ParseError>)
        ensures
            r == parse_card(t@),
    {
        let n: usize = t.len();
        if n == 0 {
            return Err(ParseError::InvalidSuit);
        }
        match Suit::parse(t[n - 1]) {
            None => Err(ParseError::InvalidSuit),
            Some(suit) => match Rank::parse(t, n - 1) {
                None => Err(ParseError::InvalidRank),
                Some(rank) => Ok(Card { rank, suit }),
            },
        }
    }

    /// Reads a card from a token such as `10D` or `KS`.
    pub fn new(card: &str) -> (r: Result<Card, ParseError>)
        ensures
            r == parse_card(card@),
    {
        let t: Vec<char> = chars_of(card);
        Card::from_chars(&t)
    }

    /// The rank token of the card.
    pub fn value(&self) -> (s: String)
        ensures
            s@ == self.rank.token(),
    {
        String::from_str(self.rank.symbol())
    }

    /// The suit token of the card.
    pub fn suit(&self) -> (s: String)
        ensures
            s@ == self.suit.token(),
    {
        String::from_str(self.suit.symbol())
    }

    /// The numeric strength of the card's rank.
    pub fn numeric_value(&self) -> (v: i8)
        ensures
            v == self.rank.strength(),
            2 <= v <= 14,
    {
        self.rank.numeric_value()
    }

    /// Compares two cards by rank strength.
    pub fn cmp(&self, other: &Card) -> (o: Ordering)
        ensures
            o == card_order(*self, *other),
    {
        let a: i8 = self.numeric_value();
        let b: i8 = other.numeric_value();
        if a < b {
            Ordering::Less
        } else if a > b {
            Ordering::Greater
        } else {
            Ordering::Equal
        }
    }
}

/// Reading a card's notation gives the card back.
pub proof fn lemma_parse_card_of_token(c: Card)
    ensures
        parse_card(c.token()) == Ok::<Card, ParseError>(c),
{
}

/// A token that reads as a card is that card's notation.
pub proof fn lemma_token_of_parsed_card(t: Seq<char>)
    requires
        parse_card(t) is Ok,
    ensures
        parse_card(t)->Ok_0.token() == t,
{
}

} // verus!
