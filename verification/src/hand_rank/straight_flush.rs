use crate::card::NonJokerCard;
use crate::hand_rank::{found, pick_first, BestFiveHand, FiveCards, HandRank, Pick};
use crate::total_hand::{flush_suit, ranks_present, with_rank_and_suit, TotalHand};
use crate::poker::{key_of_rank, poker_rank_key, rank_for_key, rank_of_key};
use crate::rank::CardRank;
use crate::straight::{lemma_heads, straight_heads};
use crate::suit::Suit;
use vstd::prelude::*;

verus! {

/// The card of a total hand that has the given suit and the rank at position
/// `j` of the straight headed by the rank with poker key `head_key`.
pub open spec fn suited_run_card(
    cards: Seq<NonJokerCard>,
    suit: Suit,
    head_key: int,
    j: int,
) -> NonJokerCard {
    cards.filter(with_rank_and_suit(rank_of_key(head_key - j), suit))[0]
}

/// Whether the hand holds, in the given suit, the rank at position `j` of the
/// straight headed by `head_key`.
pub open spec fn has_suited(cards: Seq<NonJokerCard>, suit: Suit, head_key: int, j: int) -> bool {
    cards.filter(with_rank_and_suit(rank_of_key(head_key - j), suit)).len() > 0
}

/// Whether the hand holds all five ranks of the straight headed by
/// `head_key` in the given suit.
pub open spec fn suited_run(cards: Seq<NonJokerCard>, suit: Suit, head_key: int) -> bool {
    &&& has_suited(cards, suit, head_key, 0)
    &&& has_suited(cards, suit, head_key, 1)
    &&& has_suited(cards, suit, head_key, 2)
    &&& has_suited(cards, suit, head_key, 3)
    &&& has_suited(cards, suit, head_key, 4)
}

/// The first of the given head ranks whose straight the hand holds in the
/// given suit.
pub open spec fn first_suited_head(
    cards: Seq<NonJokerCard>,
    suit: Suit,
    heads: Seq<CardRank>,
) -> Option<CardRank>
    decreases heads.len(),
{
    if heads.len() == 0 {
        None
    } else if suited_run(cards, suit, poker_rank_key(heads[0])) {
        Some(heads[0])
    } else {
        first_suited_head(cards, suit, heads.skip(1))
    }
}

/// The straight-flush hand of the cards of a total hand: the five cards, from
/// the head down, of the highest completed straight that the hand holds in
/// the suit that five or more of its cards have.
pub open spec fn straight_flush_hand(cards: Seq<NonJokerCard>) -> Option<FiveCards> {
    match flush_suit(cards) {
        None => None,
        Some(suit) => match first_suited_head(cards, suit, straight_heads(ranks_present(cards))) {
            None => None,
            Some(head) => {
                let head_key = poker_rank_key(head);
                Some(
                    FiveCards {
                        cards: seq![
                            suited_run_card(cards, suit, head_key, 0),
                            suited_run_card(cards, suit, head_key, 1),
                            suited_run_card(cards, suit, head_key, 2),
                            suited_run_card(cards, suit, head_key, 3),
                            suited_run_card(cards, suit, head_key, 4),
                        ],
                        rank: HandRank::StraightFlush,
                    },
                )
            },
        },
    }
}

/// Builds the straight-flush hand if the hand holds a straight in one suit.
pub fn try_to_build_from_total_hand(hand: &TotalHand) -> (result: Option<BestFiveHand>)
    ensures
        found(result, straight_flush_hand(hand@)),
{
    let cards = hand.cards();
    let maybe_suit_of_flush = hand.suit_of_flush();
    let head_ranks_of_straight = hand.head_ranks_of_straight();
    let suit = match maybe_suit_of_flush {
        None => {
            return None;
        },
        Some(suit) => suit,
    };
    let ghost heads = straight_heads(ranks_present(hand@));
    proof {
        lemma_heads(ranks_present(hand@), 5);
        assert(heads.skip(0) =~= heads);
    }
    let mut index: usize = 0;
    while index < head_ranks_of_straight.len()
        invariant
            index <= heads.len(),
            cards@ == hand@,
            head_ranks_of_straight@ == heads,
            flush_suit(hand@) == Some(suit),
            heads == straight_heads(ranks_present(hand@)),
            forall|i: int| 0 <= i < heads.len() ==> 5 <= poker_rank_key(#[trigger] heads[i]) <= 14,
            first_suited_head(hand@, suit, heads) == first_suited_head(
                hand@,
                suit,
                heads.skip(index as int),
            ),
        decreases heads.len() - index,
    {
        let head = head_ranks_of_straight[index];
        let head_key: u8 = key_of_rank(head);
        assert(heads.skip(index as int)[0] == head);
        let first = pick_first(cards, &Pick::RankAndSuit(rank_for_key(head_key), suit), 1);
        let second = pick_first(cards, &Pick::RankAndSuit(rank_for_key(head_key - 1), suit), 1);
        let third = pick_first(cards, &Pick::RankAndSuit(rank_for_key(head_key - 2), suit), 1);
        let fourth = pick_first(cards, &Pick::RankAndSuit(rank_for_key(head_key - 3), suit), 1);
        let fifth = pick_first(cards, &Pick::RankAndSuit(rank_for_key(head_key - 4), suit), 1);
        if first.len() > 0 && second.len() > 0 && third.len() > 0 && fourth.len() > 0
            && fifth.len() > 0 {
            let mut five: Vec<NonJokerCard> = Vec::new();
            five.push(first[0]);
            five.push(second[0]);
            five.push(third[0]);
            five.push(fourth[0]);
            five.push(fifth[0]);
            assert(suited_run(hand@, suit, head_key as int));
            assert(first_suited_head(hand@, suit, heads) == Some(head));
            assert(five@ =~= straight_flush_hand(hand@)->0.cards);
            return Some(BestFiveHand::from_cards(&five, HandRank::StraightFlush));
        }
        proof {
            assert(!suited_run(hand@, suit, head_key as int));
            assert(heads.skip(index as int).skip(1) =~= heads.skip(index + 1));
        }
        index += 1;
    }
    None
}

} // verus!
