use poker::card::{Card, ParseError, Rank, Suit};
use poker::SortedImpl;

#[test]
fn test_numeric_value() {
    let card = Card::new("2C").unwrap();
    assert!(card.numeric_value() == 2);
}

#[test]
fn test_new_card() {
    let card = Card::new("2C").unwrap();
    assert!(card.value() == "2");
    assert!(card.suit() == "C");
}

#[test]
fn test_another_new_card() {
    let card = Card::new("10D").unwrap();
    assert!(card.value() == "10");
    assert!(card.suit() == "D");
}

#[test]
fn test_bad_card() {
    let card = Card::new("11S");
    assert!(card.is_err());
}

#[test]
fn test_card_sorting() {
    let card_names = ["10H", "6C", "2D", "KS", "JH"];
    let sorted_card_names = ["2D", "6C", "10H", "JH", "KS"];
    let cards: Vec<Card> =
        card_names.iter().map(|cn| Card::new(cn).unwrap()).collect::<Vec<Card>>().sorted();
    let sorted_cards: Vec<Card> =
        sorted_card_names.iter().map(|cn| Card::new(cn).unwrap()).collect();
    assert!(cards == sorted_cards);
}

#[test]
fn every_rank_and_suit_reads_back() {
    let ranks = [
        ("2", Rank::Two, 2),
        ("3", Rank::Three, 3),
        ("4", Rank::Four, 4),
        ("5", Rank::Five, 5),
        ("6", Rank::Six, 6),
        ("7", Rank::Seven, 7),
        ("8", Rank::Eight, 8),
        ("9", Rank::Nine, 9),
        ("10", Rank::Ten, 10),
        ("J", Rank::Jack, 11),
        ("Q", Rank::Queen, 12),
        ("K", Rank::King, 13),
        ("A", Rank::Ace, 14),
    ];
    let suits = [("C", Suit::Clubs), ("D", Suit::Diamonds), ("H", Suit::Hearts), ("S", Suit::Spades)];
    for (rank_token, rank, strength) in ranks.iter() {
        for (suit_token, suit) in suits.iter() {
            let text = format!("{}{}", rank_token, suit_token);
            let card = Card::new(&text).unwrap();
            assert_eq!(card, Card { rank: *rank, suit: *suit });
            assert_eq!(card.value(), *rank_token);
            assert_eq!(card.suit(), *suit_token);
            assert_eq!(card.numeric_value(), *strength);
            assert_eq!(rank.symbol(), *rank_token);
            assert_eq!(suit.symbol(), *suit_token);
        }
    }
}

#[test]
fn invalid_ranks_are_refused() {
    assert_eq!(Card::new("11S"), Err(ParseError::InvalidRank));
    assert_eq!(Card::new("1H"), Err(ParseError::InvalidRank));
    assert_eq!(Card::new("0C"), Err(ParseError::InvalidRank));
    assert_eq!(Card::new("TD"), Err(ParseError::InvalidRank));
    assert_eq!(Card::new("jH"), Err(ParseError::InvalidRank));
    assert_eq!(Card::new("100H"), Err(ParseError::InvalidRank));
    assert_eq!(Card::new("H"), Err(ParseError::InvalidRank));
}

#[test]
fn invalid_suits_are_refused() {
    assert_eq!(Card::new("2X"), Err(ParseError::InvalidSuit));
    assert_eq!(Card::new("2h"), Err(ParseError::InvalidSuit));
    assert_eq!(Card::new("10"), Err(ParseError::InvalidSuit));
    assert_eq!(Card::new(""), Err(ParseError::InvalidSuit));
    assert_eq!(Card::new("1X"), Err(ParseError::InvalidSuit));
    assert_eq!(Card::new("2\u{2665}"), Err(ParseError::InvalidSuit));
}

#[test]
fn cards_are_ordered_by_rank_alone() {
    let two = Card::new("2S").unwrap();
    let ten_h = Card::new("10H").unwrap();
    let ten_c = Card::new("10C").unwrap();
    let ace = Card::new("AC").unwrap();
    assert_eq!(two.cmp(&ten_h), std::cmp::Ordering::Less);
    assert_eq!(ace.cmp(&ten_h), std::cmp::Ordering::Greater);
    assert_eq!(ten_h.cmp(&ten_c), std::cmp::Ordering::Equal);
    assert_ne!(ten_h, ten_c);
}

#[test]
fn sorting_keeps_the_order_of_equal_ranks() {
    let names = ["KS", "3H", "KD", "3C", "2D"];
    let cards: Vec<Card> = names.iter().map(|n| Card::new(n).unwrap()).collect();
    let expected: Vec<Card> =
        ["2D", "3H", "3C", "KS", "KD"].iter().map(|n| Card::new(n).unwrap()).collect();
    assert_eq!(cards.sorted(), expected);
    assert_eq!(Vec::<Card>::new().sorted(), Vec::<Card>::new());
}

#[test]
fn less_than_goes_by_rank() {
    let two = Card::new("2S").unwrap();
    let ten_h = Card::new("10H").unwrap();
    let ten_c = Card::new("10C").unwrap();
    assert!(two < ten_h);
    assert!(ten_h > two);
    assert!(!(ten_h < ten_c));
    assert!(!(ten_c < ten_h));
    assert!(ten_h <= ten_c);
    assert_eq!(ten_h.partial_cmp(&ten_c), Some(std::cmp::Ordering::Equal));
    assert_eq!(two.partial_cmp(&ten_c), Some(std::cmp::Ordering::Less));
}

#[test]
fn suits_are_equal_to_themselves_only() {
    let all = [Suit::Clubs, Suit::Diamonds, Suit::Hearts, Suit::Spades];
    for (i, a) in all.iter().enumerate() {
        for (j, b) in all.iter().enumerate() {
            assert_eq!(a == b, i == j);
        }
    }
    assert_ne!(Card::new("2S").unwrap(), Card::new("3S").unwrap());
    assert_ne!(Card::new("2S").unwrap(), Card::new("2H").unwrap());
    assert_eq!(Card::new("2S").unwrap(), Card::new("2S").unwrap());
}
