use poker::card::{Card, ParseError};
use poker::hand::{has_duplicate_card, PokerHand, PokerHandType};
use poker::order::compare_keys;
use poker::text::{chars_of, is_ascii_whitespace, split_ascii_whitespace};
use std::cmp::Ordering;

fn hand(text: &str) -> PokerHand {
    PokerHand::new(text).unwrap()
}

#[test]
fn test_poker_hand() {
    let hand = PokerHand::new("2C 3D 4H 5C 8S");
    assert!(hand.is_ok());
}

#[test]
fn test_bad_poker_hand() {
    let hand = PokerHand::new("2C 3X 4H 5C 8S");
    assert!(hand.is_err());
}

#[test]
fn test_is_flush() {
    let hand = PokerHand::new("2H 3H 4H 5H 8H").unwrap();
    assert!(hand.is_flush());
    let hand = PokerHand::new("2D 3D 6D 7D 8D").unwrap();
    assert!(hand.is_flush());
    let hand = PokerHand::new("2C 3C 6C 7C 8C").unwrap();
    assert!(hand.is_flush());
    let hand = PokerHand::new("2S 3S 6S 7S 8S").unwrap();
    assert!(hand.is_flush());
    let hand = PokerHand::new("2S 3C 6S 7S 8S").unwrap();
    assert!(!hand.is_flush());
}

#[test]
fn test_is_straight() {
    let hand = PokerHand::new("2H 3D 4C 5H 6S").unwrap();
    assert!(hand.is_straight());
    let hand = PokerHand::new("2D 3D 6C 5D 4S").unwrap();
    assert!(hand.is_straight());
    let hand = PokerHand::new("2D 3D 8C 5D 4S").unwrap();
    assert!(!hand.is_straight());
}

#[test]
fn test_is_straight_flush() {
    let hand = PokerHand::new("2D 3D 4D 5D 6D").unwrap();
    assert!(hand.is_straight_flush());
    let hand = PokerHand::new("9C 8C 10C QC JC").unwrap();
    assert!(hand.is_straight_flush());
    let hand = PokerHand::new("2D 3D 6C 5D 4S").unwrap();
    assert!(!hand.is_straight_flush());
    let hand = PokerHand::new("2D 3D 8D 5D 4D").unwrap();
    assert!(!hand.is_straight_flush());
}

#[test]
fn text_is_split_on_ascii_whitespace() {
    let toks = split_ascii_whitespace(&chars_of("  2H\t3D \n 10C\r\x0CKS   AS  "));
    let words: Vec<String> = toks.iter().map(|t| t.iter().collect::<String>()).collect();
    assert_eq!(words, vec!["2H", "3D", "10C", "KS", "AS"]);
    assert!(split_ascii_whitespace(&chars_of("")).is_empty());
    assert!(split_ascii_whitespace(&chars_of(" \t ")).is_empty());
    assert_eq!(chars_of("10D"), vec!['1', '0', 'D']);
    assert!(is_ascii_whitespace(' '));
    assert!(!is_ascii_whitespace('\u{00A0}'));
    assert!(!is_ascii_whitespace('\x0B'));
}

#[test]
fn hand_keeps_its_cards_in_text_order() {
    let h = hand(" 10H  6C\t2D KS JH\n");
    let expected: Vec<Card> =
        ["10H", "6C", "2D", "KS", "JH"].iter().map(|n| Card::new(n).unwrap()).collect();
    assert_eq!(h.cards(), &expected);
}

#[test]
fn wrong_card_count_is_refused() {
    assert_eq!(PokerHand::new("2C 3D 4H 5C").unwrap_err(), ParseError::WrongCardCount);
    assert_eq!(PokerHand::new("2C 3D 4H 5C 8S 9S").unwrap_err(), ParseError::WrongCardCount);
    assert_eq!(PokerHand::new("").unwrap_err(), ParseError::WrongCardCount);
    assert_eq!(PokerHand::new("2C 3X 4H 5C").unwrap_err(), ParseError::WrongCardCount);
}

#[test]
fn first_bad_token_decides_the_error() {
    assert_eq!(PokerHand::new("2C 3X 4H 5C 8S").unwrap_err(), ParseError::InvalidSuit);
    assert_eq!(PokerHand::new("2C 11S 4H 5C 8S").unwrap_err(), ParseError::InvalidRank);
    assert_eq!(PokerHand::new("2C 11S 4X 5C 8S").unwrap_err(), ParseError::InvalidRank);
    assert_eq!(PokerHand::new("2C 3X 1H 5C 8S").unwrap_err(), ParseError::InvalidSuit);
    assert_eq!(PokerHand::new("2C 2C 4H 5C TS").unwrap_err(), ParseError::InvalidRank);
}

#[test]
fn duplicate_cards_are_refused() {
    assert_eq!(PokerHand::new("2C 3D 4H 5C 2C").unwrap_err(), ParseError::DuplicateCard);
    assert_eq!(PokerHand::new("KS KS KD KH KC").unwrap_err(), ParseError::DuplicateCard);
    assert!(PokerHand::new("KS 2S KD KH KC").is_ok());
    let cards: Vec<Card> = ["2C", "3D", "2C"].iter().map(|n| Card::new(n).unwrap()).collect();
    assert!(has_duplicate_card(&cards));
    let cards: Vec<Card> = ["2C", "3D", "2D"].iter().map(|n| Card::new(n).unwrap()).collect();
    assert!(!has_duplicate_card(&cards));
}

#[test]
fn every_category_is_recognised() {
    assert_eq!(hand("2D 3D 4D 5D 6D").classify(), PokerHandType::StraightFlush);
    assert_eq!(hand("9C 8C 10C QC JC").classify(), PokerHandType::StraightFlush);
    assert_eq!(hand("2H 2D 2S 2C 3H").classify(), PokerHandType::FourOfAKind);
    assert_eq!(hand("3H 2D 2S 2C 3D").classify(), PokerHandType::FullHouse);
    assert_eq!(hand("2H 3H 4H 5H 8H").classify(), PokerHandType::Flush);
    assert_eq!(hand("2D 3D 6D 7D 8D").classify(), PokerHandType::Flush);
    assert_eq!(hand("2D 3D 8D 5D 4D").classify(), PokerHandType::Flush);
    assert_eq!(hand("2H 3D 4C 5H 6S").classify(), PokerHandType::Straight);
    assert_eq!(hand("2D 3D 6C 5D 4S").classify(), PokerHandType::Straight);
    assert_eq!(hand("10D JD QC KD AS").classify(), PokerHandType::Straight);
    assert_eq!(hand("7H 2D 7S 7C 3D").classify(), PokerHandType::ThreeOfAKind);
    assert_eq!(hand("7H 3C 7S 2C 3D").classify(), PokerHandType::TwoPair);
    assert_eq!(hand("7H 3C 7S 2C AD").classify(), PokerHandType::OnePair);
    assert_eq!(hand("2S 3C 6S 7S 8S").classify(), PokerHandType::HighCard);
    assert_eq!(hand("2D 3D 8C 5D 4S").classify(), PokerHandType::HighCard);
}

#[test]
fn ace_counts_high_only() {
    let wheel = hand("AH 2D 3C 4H 5S");
    assert!(!wheel.is_straight());
    assert_eq!(wheel.classify(), PokerHandType::HighCard);
    assert_eq!(hand("AH 2H 3H 4H 5H").classify(), PokerHandType::Flush);
}

#[test]
fn category_strengths_descend() {
    let all = [
        PokerHandType::StraightFlush,
        PokerHandType::FourOfAKind,
        PokerHandType::FullHouse,
        PokerHandType::Flush,
        PokerHandType::Straight,
        PokerHandType::ThreeOfAKind,
        PokerHandType::TwoPair,
        PokerHandType::OnePair,
        PokerHandType::HighCard,
    ];
    let strengths: Vec<u8> = all.iter().map(|c| c.strength()).collect();
    assert_eq!(strengths, vec![8, 7, 6, 5, 4, 3, 2, 1, 0]);
}

#[test]
fn rank_counts_are_exact() {
    let h = hand("7H 3C 7S 2C 3D");
    assert_eq!(h.count_rank(7), 2);
    assert_eq!(h.count_rank(3), 2);
    assert_eq!(h.count_rank(2), 1);
    assert_eq!(h.count_rank(14), 0);
}

#[test]
fn tie_break_keys_put_larger_groups_first() {
    assert_eq!(hand("3H 2D 2S 2C 3D").groups(), (vec![2, 3], vec![3, 2]));
    assert_eq!(hand("2H 2D 2S 2C AH").groups(), (vec![2, 14], vec![4, 1]));
    assert_eq!(hand("7H 2D 7S 7C 3D").groups(), (vec![7, 3, 2], vec![3, 1, 1]));
    assert_eq!(hand("7H 3C 7S KC 3D").groups(), (vec![7, 3, 13], vec![2, 2, 1]));
    assert_eq!(hand("7H 3C 7S 2C AD").groups(), (vec![7, 14, 3, 2], vec![2, 1, 1, 1]));
    assert_eq!(hand("2S 3C 6S KS 8S").groups(), (vec![13, 8, 6, 3, 2], vec![1, 1, 1, 1, 1]));
}

#[test]
fn keys_compare_lexicographically() {
    assert_eq!(compare_keys(&vec![7, 14, 3], &vec![7, 13, 12]), Ordering::Greater);
    assert_eq!(compare_keys(&vec![7, 3, 2], &vec![7, 3, 4]), Ordering::Less);
    assert_eq!(compare_keys(&vec![7, 3, 2], &vec![7, 3, 2]), Ordering::Equal);
    assert_eq!(compare_keys(&vec![7, 3], &vec![7, 3, 2]), Ordering::Less);
    assert_eq!(compare_keys(&vec![7, 3, 2], &vec![7, 3]), Ordering::Greater);
    assert_eq!(compare_keys(&vec![], &vec![]), Ordering::Equal);
}

#[test]
fn category_decides_before_the_key() {
    assert_eq!(hand("2D 3D 4D 5D 6D").compare(&hand("AH AD AS AC KH")), Ordering::Greater);
    assert_eq!(hand("AH AD AS AC KH").compare(&hand("KH KD KS AC AD")), Ordering::Greater);
    assert_eq!(hand("2H 2D 2S 3C 3D").compare(&hand("2C 4C 6C 8C 10C")), Ordering::Greater);
    assert_eq!(hand("2C 4C 6C 8C 10C").compare(&hand("10D JD QC KD AS")), Ordering::Greater);
    assert_eq!(hand("2H 3D 4C 5H 6S").compare(&hand("AH AD AS KC QD")), Ordering::Greater);
    assert_eq!(hand("2H 2D 2S 4C 3D").compare(&hand("AH AD KS KC QD")), Ordering::Greater);
    assert_eq!(hand("2H 2D 3S 3C 4D").compare(&hand("AH AD KS QC JD")), Ordering::Greater);
    assert_eq!(hand("2H 2D 3S 4C 5D").compare(&hand("AH KD QS JC 9D")), Ordering::Greater);
    assert_eq!(hand("AH KD QS JC 9D").compare(&hand("2H 2D 3S 4C 5D")), Ordering::Less);
}

#[test]
fn kickers_break_ties_within_a_category() {
    assert_eq!(hand("2H 2D 2S 2C 4H").compare(&hand("3H 3D 3S 3C 2H")), Ordering::Less);
    assert_eq!(hand("5H 5D 5S 5C 4H").compare(&hand("5H 5D 5S 5C 3H")), Ordering::Greater);
    assert_eq!(hand("5H 5D 5S 8C 8H").compare(&hand("4H 4D 4S 9C 9H")), Ordering::Greater);
    assert_eq!(hand("5H 5D 5S 8C 8H").compare(&hand("5H 5D 5S 9C 9H")), Ordering::Less);
    assert_eq!(hand("4S 4H 6S 3D JH").compare(&hand("4D 4C 6D 2S JD")), Ordering::Greater);
    assert_eq!(hand("2S 8H 2D 8D 3H").compare(&hand("4S 5H 4C 8S 5D")), Ordering::Greater);
    assert_eq!(hand("2S QS 2C QD JH").compare(&hand("JD QH JS 8D QC")), Ordering::Less);
    assert_eq!(hand("3S 5H 6S 8D 7H").compare(&hand("2S 5D 6D 8C 7S")), Ordering::Greater);
    assert_eq!(hand("4H 6H 7H 8H 5H").compare(&hand("5S 7S 8S 9S 6S")), Ordering::Less);
    assert_eq!(hand("4S 5H 6D 7C 8S").compare(&hand("4D 5S 6H 7D 8C")), Ordering::Equal);
    assert!(hand("4S 5H 6D 7C 8S").ties_with(&hand("8D 7S 6H 5D 4C")));
    assert!(hand("5H 5D 5S 5C 4H").beats(&hand("5H 5D 5S 5C 3H")));
    assert!(!hand("5H 5D 5S 5C 3H").beats(&hand("5H 5D 5S 5C 4H")));
    assert!(!hand("5H 5D 5S 5C 3H").ties_with(&hand("5H 5D 5S 5C 4H")));
}

#[test]
fn all_elements_equal_compares_with_the_first() {
    assert!(PokerHand::all_elements_equal::<u8>(&[]));
    assert!(PokerHand::all_elements_equal(&[7]));
    assert!(PokerHand::all_elements_equal(&["H", "H", "H"]));
    assert!(!PokerHand::all_elements_equal(&["H", "H", "D"]));
    assert!(!PokerHand::all_elements_equal(&[1, 2, 1]));
}
