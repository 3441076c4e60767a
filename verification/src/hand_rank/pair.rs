use crate::card::NonJokerCard;
use crate::hand_rank::{found, pick_first, BestFiveHand, FiveCards, HandRank, Pick};
use crate::total_hand::{
    lemma_rank_split, lemma_ranks_counted, ranks_with_count, with_rank, without_rank, TotalHand,
};
use vstd::prelude::*;

verus! {

/// The pair hand of the cards of a total hand: the two cards of the highest
/// rank that exactly two cards have, then the three highest other cards.
pub open spec fn pair_hand(cards: Seq<NonJokerCard>) -> Option<FiveCards> {
    let pairs = ranks_with_count(cards, 2);
    if cards.len() < 5 || pairs.len() == 0 {
        None
    } else {
        Some(
            FiveCards {
                cards: cards.filter(with_rank(pairs[0])) + cards.filter(
                    without_rank(pairs[0]),
                ).take(3),
                rank: HandRank::Pair,
            },
        )
    }
}

/// Builds the pair hand if some rank occurs exactly twice among five or more
/// cards.
pub fn try_to_build_from_total_hand(hand: &TotalHand) -> (result: Option<BestFiveHand>)
    ensures
        found(result, pair_hand(hand@)),
{
    let cards = hand.cards();
    let rank_of_pairs = hand.ranks_of_pairs();
    if cards.len() < 5 || rank_of_pairs.len() == 0 {
        return None;
    }
    let rank = rank_of_pairs[0];
    proof {
        lemma_ranks_counted(hand@, 2, 2);
        lemma_rank_split(hand@, rank);
    }
    let cards_of_pair = pick_first(cards, &Pick::Rank(rank), 2);
    let non_pair_cards = pick_first(cards, &Pick::NotRank(rank), 3);
    let mut five: Vec<NonJokerCard> = Vec::new();
    five.push(cards_of_pair[0]);
    five.push(cards_of_pair[1]);
    five.push(non_pair_cards[0]);
    five.push(non_pair_cards[1]);
    five.push(non_pair_cards[2]);
    assert(five@ =~= hand@.filter(with_rank(rank)) + hand@.filter(without_rank(rank)).take(3));
    Some(BestFiveHand::from_cards(&five, HandRank::Pair))
}

} // verus!
