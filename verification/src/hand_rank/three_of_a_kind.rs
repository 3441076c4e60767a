use crate::card::NonJokerCard;
use crate::hand_rank::{found, pick_first, BestFiveHand, FiveCards, HandRank, Pick};
use crate::total_hand::{
    lemma_rank_split, lemma_ranks_counted, ranks_with_count, with_rank, without_rank, TotalHand,
};
use vstd::prelude::*;

verus! {

/// The three-of-a-kind hand of the cards of a total hand: the three cards of
/// the highest rank that exactly three cards have, then the two highest other
/// cards.
pub open spec fn three_of_a_kind_hand(cards: Seq<NonJokerCard>) -> Option<FiveCards> {
    let sets = ranks_with_count(cards, 3);
    if cards.len() < 5 || sets.len() == 0 {
        None
    } else {
        Some(
            FiveCards {
                cards: cards.filter(with_rank(sets[0])) + cards.filter(without_rank(sets[0])).take(
                    2,
                ),
                rank: HandRank::ThreeOfAKind,
            },
        )
    }
}

/// Builds the three-of-a-kind hand if some rank occurs exactly three times
/// among five or more cards.
pub fn try_to_build_from_total_hand(hand: &TotalHand) -> (result: Option<BestFiveHand>)
    ensures
        found(result, three_of_a_kind_hand(hand@)),
{
    let cards = hand.cards();
    let ranks_of_sets = hand.ranks_of_sets();
    if cards.len() < 5 || ranks_of_sets.len() == 0 {
        return None;
    }
    let rank_of_set = ranks_of_sets[0];
    proof {
        lemma_ranks_counted(hand@, 3, 2);
        lemma_rank_split(hand@, rank_of_set);
    }
    let cards_of_set = pick_first(cards, &Pick::Rank(rank_of_set), 3);
    let non_set_cards = pick_first(cards, &Pick::NotRank(rank_of_set), 2);
    let mut five: Vec<NonJokerCard> = Vec::new();
    five.push(cards_of_set[0]);
    five.push(cards_of_set[1]);
    five.push(cards_of_set[2]);
    five.push(non_set_cards[0]);
    five.push(non_set_cards[1]);
    assert(five@ =~= hand@.filter(with_rank(rank_of_set)) + hand@.filter(
        without_rank(rank_of_set),
    ).take(2));
    Some(BestFiveHand::from_cards(&five, HandRank::ThreeOfAKind))
}

} // verus!
