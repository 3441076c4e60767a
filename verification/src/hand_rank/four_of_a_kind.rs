use crate::card::NonJokerCard;
use crate::hand_rank::{found, pick_first, BestFiveHand, FiveCards, HandRank, Pick};
use crate::total_hand::{
    lemma_rank_split, lemma_ranks_counted, quads_rank, with_rank, without_rank, TotalHand,
};
use vstd::prelude::*;

verus! {

/// The four-of-a-kind hand of the cards of a total hand: the four cards of
/// the rank that exactly four cards have, then the highest other card.
pub open spec fn four_of_a_kind_hand(cards: Seq<NonJokerCard>) -> Option<FiveCards> {
    if cards.len() < 5 {
        None
    } else {
        match quads_rank(cards) {
            None => None,
            Some(rank) => Some(
                FiveCards {
                    cards: cards.filter(with_rank(rank)) + cards.filter(without_rank(rank)).take(1),
                    rank: HandRank::FourOfAKind,
                },
            ),
        }
    }
}

/// Builds the four-of-a-kind hand if some rank occurs exactly four times
/// among five or more cards.
pub fn try_to_build_from_total_hand(hand: &TotalHand) -> (result: Option<BestFiveHand>)
    ensures
        found(result, four_of_a_kind_hand(hand@)),
{
    let cards = hand.cards();
    let maybe_rank = hand.rank_of_quads();
    if cards.len() < 5 {
        return None;
    }
    match maybe_rank {
        None => None,
        Some(rank_of_quads) => {
            proof {
                lemma_ranks_counted(hand@, 4, 2);
                lemma_rank_split(hand@, rank_of_quads);
            }
            let cards_of_quads = pick_first(cards, &Pick::Rank(rank_of_quads), 4);
            let non_quad_cards = pick_first(cards, &Pick::NotRank(rank_of_quads), 1);
            let mut five: Vec<NonJokerCard> = Vec::new();
            five.push(cards_of_quads[0]);
            five.push(cards_of_quads[1]);
            five.push(cards_of_quads[2]);
            five.push(cards_of_quads[3]);
            five.push(non_quad_cards[0]);
            assert(five@ =~= hand@.filter(with_rank(rank_of_quads)) + hand@.filter(
                without_rank(rank_of_quads),
            ).take(1));
            Some(BestFiveHand::from_cards(&five, HandRank::FourOfAKind))
        },
    }
}

} // verus!
