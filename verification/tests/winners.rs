use poker::card::ParseError;
use poker::winning_hands;

#[test]
fn highest_flush_is_the_sole_winner() {
    let hands = ["4S 5S 7H 8D JC", "2S 4C 7S 9H 10H", "3S 4S 5D 6H JH", "3D 6D 7D 10D QD"];
    assert_eq!(winning_hands(&hands), Ok(vec!["3D 6D 7D 10D QD"]));
}

#[test]
fn letter_t_is_no_rank() {
    let hands = ["4S 5S 7H 8D JC", "2S 4C 7S 9H 10H", "3S 4S 5D 6H JH", "3D 6D 7D TD QD"];
    assert_eq!(winning_hands(&hands), Err(ParseError::InvalidRank));
}

#[test]
fn tied_straights_both_win() {
    let hands = ["4S 5H 6D 7C 8S", "4D 5S 6H 7D 8C"];
    assert_eq!(winning_hands(&hands), Ok(vec!["4S 5H 6D 7C 8S", "4D 5S 6H 7D 8C"]));
    let hands = ["4D 5S 6H 7D 8C", "2S 4C 7S 9H 10H", "4S 5H 6D 7C 8S"];
    assert_eq!(winning_hands(&hands), Ok(vec!["4D 5S 6H 7D 8C", "4S 5H 6D 7C 8S"]));
}

#[test]
fn winners_are_the_texts_that_were_passed_in() {
    let a = String::from("4S 5H 6D 7C 8S");
    let b = String::from("2S 4C 7S 9H 10H");
    let hands = [a.as_str(), b.as_str()];
    let winners = winning_hands(&hands).unwrap();
    assert_eq!(winners.len(), 1);
    assert!(std::ptr::eq(winners[0], a.as_str()));
}

#[test]
fn a_single_hand_wins() {
    assert_eq!(winning_hands(&["4S 5S 7H 8D JC"]), Ok(vec!["4S 5S 7H 8D JC"]));
}

#[test]
fn no_hands_no_winners() {
    let hands: [&str; 0] = [];
    assert_eq!(winning_hands(&hands), Ok(Vec::<&str>::new()));
}

#[test]
fn first_unreadable_hand_fails_the_whole_call() {
    assert_eq!(
        winning_hands(&["4S 5S 7H 8D JC", "2S 4C 7S 9H", "3S 4X 5D 6H JH"]),
        Err(ParseError::WrongCardCount)
    );
    assert_eq!(
        winning_hands(&["4S 5S 7H 8D JC", "3S 4X 5D 6H JH", "2S 4C 7S 9H"]),
        Err(ParseError::InvalidSuit)
    );
    assert_eq!(
        winning_hands(&["4S 5S 7H 8D 4S", "3S 4X 5D 6H JH"]),
        Err(ParseError::DuplicateCard)
    );
}

#[test]
fn evaluating_twice_gives_the_same_winners() {
    let hands = ["4S 5H 6D 7C 8S", "2S 4C 7S 9H 10H", "4D 5S 6H 7D 8C", "3S 4S 5D 6H JH"];
    let first = winning_hands(&hands);
    let second = winning_hands(&hands);
    assert_eq!(first, second);
    assert_eq!(first, Ok(vec!["4S 5H 6D 7C 8S", "4D 5S 6H 7D 8C"]));
}

#[test]
fn the_best_hand_may_come_first_or_last() {
    assert_eq!(
        winning_hands(&["2H 2D 2S 2C 3H", "2S 4C 7S 9H 10H", "3S 4S 5D 6H JH"]),
        Ok(vec!["2H 2D 2S 2C 3H"])
    );
    assert_eq!(
        winning_hands(&["2S 4C 7S 9H 10H", "3S 4S 5D 6H JH", "5H 5D 5S 8C 8H"]),
        Ok(vec!["5H 5D 5S 8C 8H"])
    );
    assert_eq!(
        winning_hands(&["2S 4C 7S 9H 10H", "2S 8H 2D 8D 3H", "4S 5H 4C 8S 5D"]),
        Ok(vec!["2S 8H 2D 8D 3H"])
    );
}
