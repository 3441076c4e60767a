use crate::card::NonJokerCard;
use crate::hand_rank::{found, pick_first, BestFiveHand, FiveCards, HandRank, Pick};
use crate::total_hand::{TotalHand};
use vstd::prelude::*;

verus! {

/// The high-card hand of the cards of a total hand: the five highest cards,
/// highest first, if there are five.
pub open spec fn high_card_hand(cards: Seq<NonJokerCard>) -> Option<FiveCards> {
    if cards.len() < 5 {
        None
    } else {
        Some(FiveCards { cards: cards.take(5), rank: HandRank::HighCard })
    }
}

/// Builds the high-card hand, which every hand of five or more cards has.
pub fn try_to_build_from_total_hand(hand: &TotalHand) -> (result: Option<BestFiveHand>)
    ensures
        found(result, high_card_hand(hand@)),
{
    let cards = hand.cards();
    if cards.len() < 5 {
        return None;
    }
    let mut five: Vec<NonJokerCard> = Vec::new();
    five.push(cards[0]);
    five.push(cards[1]);
    five.push(cards[2]);
    five.push(cards[3]);
    five.push(cards[4]);
    assert(five@ =~= hand@.take(5));
    Some(BestFiveHand::from_cards(&five, HandRank::HighCard))
}

} // verus!
