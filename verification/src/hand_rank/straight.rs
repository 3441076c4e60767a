use crate::card::NonJokerCard;
use crate::hand_rank::{found, pick_first, BestFiveHand, FiveCards, HandRank, Pick};
use crate::total_hand::{ranks_present, with_rank, TotalHand};
use crate::poker::{key_of_rank, poker_rank_key, rank_for_key, rank_of_key};
use crate::straight::{lemma_heads, run_complete, run_value, straight_heads};
use vstd::prelude::*;

verus! {

/// The first card of a total hand that has the rank at position `j` of the
/// straight headed by the rank with poker key `head_key`.
pub open spec fn run_card(cards: Seq<NonJokerCard>, head_key: int, j: int) -> NonJokerCard {
    cards.filter(with_rank(rank_of_key(head_key - j)))[0]
}

/// The straight hand of the cards of a total hand: for each rank of the
/// highest completed straight, from its head down, the highest card of that
/// rank. The five-high straight ends in an ace.
pub open spec fn straight_hand(cards: Seq<NonJokerCard>) -> Option<FiveCards> {
    let heads = straight_heads(ranks_present(cards));
    if heads.len() == 0 {
        None
    } else {
        let head_key = poker_rank_key(heads[0]);
        Some(
            FiveCards {
                cards: seq![
                    run_card(cards, head_key, 0),
                    run_card(cards, head_key, 1),
                    run_card(cards, head_key, 2),
                    run_card(cards, head_key, 3),
                    run_card(cards, head_key, 4),
                ],
                rank: HandRank::Straight,
            },
        )
    }
}

/// Builds the straight hand if the ranks of the hand complete a straight.
pub fn try_to_build_from_total_hand(hand: &TotalHand) -> (result: Option<BestFiveHand>)
    ensures
        found(result, straight_hand(hand@)),
{
    let cards = hand.cards();
    let head_ranks_of_straight = hand.head_ranks_of_straight();
    if head_ranks_of_straight.len() == 0 {
        return None;
    }
    let head = head_ranks_of_straight[0];
    let head_key: u8 = key_of_rank(head);
    proof {
        lemma_heads(ranks_present(hand@), 5);
        assert(run_complete(ranks_present(hand@), head_key as int));
    }
    let first = pick_first(cards, &Pick::Rank(rank_for_key(head_key)), 1);
    let second = pick_first(cards, &Pick::Rank(rank_for_key(head_key - 1)), 1);
    let third = pick_first(cards, &Pick::Rank(rank_for_key(head_key - 2)), 1);
    let fourth = pick_first(cards, &Pick::Rank(rank_for_key(head_key - 3)), 1);
    let fifth = pick_first(cards, &Pick::Rank(rank_for_key(head_key - 4)), 1);
    proof {
        let present = ranks_present(hand@);
        assert(present(run_value(head_key as int, 0)));
        assert(present(run_value(head_key as int, 1)));
        assert(present(run_value(head_key as int, 2)));
        assert(present(run_value(head_key as int, 3)));
        assert(present(run_value(head_key as int, 4)));
    }
    let mut five: Vec<NonJokerCard> = Vec::new();
    five.push(first[0]);
    five.push(second[0]);
    five.push(third[0]);
    five.push(fourth[0]);
    five.push(fifth[0]);
    assert(five@ =~= straight_hand(hand@)->0.cards);
    Some(BestFiveHand::from_cards(&five, HandRank::Straight))
}

} // verus!
