//! Poker hand evaluation: card and hand parsing, hand classification, the
//! total order between hands, and the choice of the winning hands.

pub mod card;
pub mod evaluator;
pub mod grouping;
pub mod hand;
pub mod order;
pub mod partition;
pub mod ranking;
pub mod sorting;
pub mod text;

pub use card::{Card, ParseError, Rank, Suit};
pub use evaluator::winning_hands;
pub use hand::{PokerHand, PokerHandType};
pub use sorting::SortedImpl;
