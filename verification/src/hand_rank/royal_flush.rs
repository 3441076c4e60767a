use crate::card::NonJokerCard;
use crate::hand_rank::straight_flush::{self, straight_flush_hand};
use crate::hand_rank::{found, BestFiveHand, FiveCards, HandRank};
use crate::rank::CardRank;
use crate::total_hand::TotalHand;
use vstd::prelude::*;

verus! {

/// The royal-flush hand of the cards of a total hand: its straight-flush
/// hand, if that is headed by an ace.
pub open spec fn royal_flush_hand(cards: Seq<NonJokerCard>) -> Option<FiveCards> {
    match straight_flush_hand(cards) {
        None => None,
        Some(best) => if best.cards[0].rank == CardRank::Ace {
            Some(FiveCards { cards: best.cards, rank: HandRank::RoyalFlush })
        } else {
            None
        },
    }
}

/// Builds the royal-flush hand if the best straight flush of the hand is
/// headed by an ace.
pub fn try_to_build_from_total_hand(hand: &TotalHand) -> (result: Option<BestFiveHand>)
    ensures
        found(result, royal_flush_hand(hand@)),
{
    let maybe_straight_flush_hand = straight_flush::try_to_build_from_total_hand(hand);
    match maybe_straight_flush_hand {
        None => None,
        Some(straight_flush_hand) => {
            let five = straight_flush_hand.cards();
            let head_rank = five[0].rank();
            if head_rank != CardRank::Ace {
                return None;
            }
            Some(BestFiveHand::crowned(straight_flush_hand))
        },
    }
}

} // verus!
