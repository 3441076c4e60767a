use crate::card::NonJokerCard;
use crate::hand_rank::{found, pick_first, BestFiveHand, FiveCards, HandRank, Pick};
use crate::total_hand::{flush_suit, with_suit, TotalHand};
use vstd::prelude::*;

verus! {

/// The flush hand of the cards of a total hand: the five highest cards of
/// the suit that five or more cards have.
pub open spec fn flush_hand(cards: Seq<NonJokerCard>) -> Option<FiveCards> {
    if cards.len() < 5 {
        None
    } else {
        match flush_suit(cards) {
            None => None,
            Some(suit) => Some(
                FiveCards { cards: cards.filter(with_suit(suit)).take(5), rank: HandRank::Flush },
            ),
        }
    }
}

/// Builds the flush hand if five or more cards share a suit.
pub fn try_to_build_from_total_hand(hand: &TotalHand) -> (result: Option<BestFiveHand>)
    ensures
        found(result, flush_hand(hand@)),
{
    let cards = hand.cards();
    let maybe_suit_of_flush = hand.suit_of_flush();
    if cards.len() < 5 {
        return None;
    }
    match maybe_suit_of_flush {
        None => None,
        Some(suit) => {
            let cards_of_suits = pick_first(cards, &Pick::Suit(suit), 5);
            let mut five: Vec<NonJokerCard> = Vec::new();
            five.push(cards_of_suits[0]);
            five.push(cards_of_suits[1]);
            five.push(cards_of_suits[2]);
            five.push(cards_of_suits[3]);
            five.push(cards_of_suits[4]);
            assert(five@ =~= hand@.filter(with_suit(suit)).take(5));
            Some(BestFiveHand::from_cards(&five, HandRank::Flush))
        },
    }
}

} // verus!
