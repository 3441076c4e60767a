use crate::card::NonJokerCard;
use crate::hand_rank::{found, pick_first, BestFiveHand, FiveCards, HandRank, Pick};
use crate::total_hand::{
    lemma_ranks_counted, lemma_two_ranks_split, ranks_with_count, with_rank, without_ranks,
    TotalHand,
};
use vstd::prelude::*;

verus! {

/// The two-pairs hand of the cards of a total hand: the two cards of the
/// highest rank that exactly two cards have, the two cards of the next such
/// rank, then the highest card of neither rank.
pub open spec fn two_pairs_hand(cards: Seq<NonJokerCard>) -> Option<FiveCards> {
    let pairs = ranks_with_count(cards, 2);
    if cards.len() < 5 || pairs.len() < 2 {
        None
    } else {
        Some(
            FiveCards {
                cards: cards.filter(with_rank(pairs[0])) + cards.filter(with_rank(pairs[1]))
                    + cards.filter(without_ranks(pairs[0], pairs[1])).take(1),
                rank: HandRank::TwoPairs,
            },
        )
    }
}

/// Builds the two-pairs hand if two ranks occur exactly twice among five or
/// more cards.
pub fn try_to_build_from_total_hand(hand: &TotalHand) -> (result: Option<BestFiveHand>)
    ensures
        found(result, two_pairs_hand(hand@)),
{
    let cards = hand.cards();
    let ranks_of_pairs = hand.ranks_of_pairs();
    if cards.len() < 5 || ranks_of_pairs.len() < 2 {
        return None;
    }
    let higher_rank = ranks_of_pairs[0];
    let lower_rank = ranks_of_pairs[1];
    proof {
        lemma_ranks_counted(hand@, 2, 2);
        lemma_two_ranks_split(hand@, higher_rank, lower_rank);
    }
    let cards_of_higher_pair = pick_first(cards, &Pick::Rank(higher_rank), 2);
    let cards_of_lower_pair = pick_first(cards, &Pick::Rank(lower_rank), 2);
    let non_pair_cards = pick_first(cards, &Pick::NotRanks(higher_rank, lower_rank), 1);
    let mut five: Vec<NonJokerCard> = Vec::new();
    five.push(cards_of_higher_pair[0]);
    five.push(cards_of_higher_pair[1]);
    five.push(cards_of_lower_pair[0]);
    five.push(cards_of_lower_pair[1]);
    five.push(non_pair_cards[0]);
    assert(five@ =~= hand@.filter(with_rank(higher_rank)) + hand@.filter(with_rank(lower_rank))
        + hand@.filter(without_ranks(higher_rank, lower_rank)).take(1));
    Some(BestFiveHand::from_cards(&five, HandRank::TwoPairs))
}

} // verus!
