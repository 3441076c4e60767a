//! Five-card poker hand evaluation over pools of up to seven cards, and the
//! decision logic of a Monte Carlo simulation of Texas hold'em deals.

pub mod suit;
pub mod rank;
pub mod card;
pub mod comparer;
pub mod poker;
pub mod phase;
pub mod deck;
pub mod straight;
pub mod total_hand;
pub mod hand_rank;
pub mod hand_value;
pub mod hand;
pub mod board;
pub mod starting_hand;
pub mod flop_hand;
pub mod worker;
pub mod text;
pub mod tally;
pub mod outcome;
pub mod aggregator;
