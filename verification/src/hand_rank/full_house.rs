use crate::card::NonJokerCard;
use crate::hand_rank::{found, pick_first, BestFiveHand, FiveCards, HandRank, Pick};
use crate::poker::{poker_rank_key, rank_of_key};
use crate::total_hand::{
    is_total_hand, lemma_ranks_counted, lemma_three_ranks_fit, lemma_two_ranks_split,
    rank_count, ranks_with_count, with_rank, TotalHand,
};
use crate::rank::CardRank;
use vstd::prelude::*;

verus! {

/// The rank that supplies the pair of a full house: the second-highest rank
/// that exactly three cards have if there is one, else the highest rank that
/// exactly two cards have.
pub open spec fn full_house_pair_rank(cards: Seq<NonJokerCard>) -> CardRank {
    if ranks_with_count(cards, 3).len() >= 2 {
        ranks_with_count(cards, 3)[1]
    } else {
        ranks_with_count(cards, 2)[0]
    }
}

/// The full-house hand of the cards of a total hand: the three cards of the
/// highest rank that exactly three cards have, then the two highest cards of
/// the rank that supplies the pair.
pub open spec fn full_house_hand(cards: Seq<NonJokerCard>) -> Option<FiveCards> {
    let sets = ranks_with_count(cards, 3);
    let pairs = ranks_with_count(cards, 2);
    if cards.len() < 5 || sets.len() == 0 || (sets.len() < 2 && pairs.len() == 0) {
        None
    } else {
        Some(
            FiveCards {
                cards: cards.filter(with_rank(sets[0])) + cards.filter(
                    with_rank(full_house_pair_rank(cards)),
                ).take(2),
                rank: HandRank::FullHouse,
            },
        )
    }
}

/// Builds the full-house hand if one rank occurs exactly three times and
/// another exactly three times or exactly twice.
pub fn try_to_build_from_total_hand(hand: &TotalHand) -> (result: Option<BestFiveHand>)
    ensures
        found(result, full_house_hand(hand@)),
{
    let cards = hand.cards();
    let ranks_of_sets = hand.ranks_of_sets();
    let ranks_of_pairs = hand.ranks_of_pairs();
    if cards.len() < 5 || ranks_of_sets.len() == 0 {
        return None;
    }
    if ranks_of_sets.len() < 2 && ranks_of_pairs.len() == 0 {
        return None;
    }
    let rank_of_set = ranks_of_sets[0];
    let rank_of_pair = if ranks_of_sets.len() >= 2 {
        ranks_of_sets[1]
    } else {
        ranks_of_pairs[0]
    };
    proof {
        lemma_ranks_counted(hand@, 3, 2);
        lemma_ranks_counted(hand@, 2, 2);
    }
    let cards_of_set = pick_first(cards, &Pick::Rank(rank_of_set), 3);
    let cards_of_pair = pick_first(cards, &Pick::Rank(rank_of_pair), 2);
    let mut five: Vec<NonJokerCard> = Vec::new();
    five.push(cards_of_set[0]);
    five.push(cards_of_set[1]);
    five.push(cards_of_set[2]);
    five.push(cards_of_pair[0]);
    five.push(cards_of_pair[1]);
    assert(five@ =~= hand@.filter(with_rank(rank_of_set)) + hand@.filter(
        with_rank(rank_of_pair),
    ).take(2));
    Some(BestFiveHand::from_cards(&five, HandRank::FullHouse))
}

/// A well-formed rank is the rank made from its own poker key.
pub proof fn lemma_rank_of_own_key(rank: CardRank)
    requires
        rank.wf(),
    ensures
        rank_of_key(poker_rank_key(rank)) == rank,
        2 <= poker_rank_key(rank) <= 14,
{
    crate::rank::lemma_rank_round_trip(rank.value(), rank);
}

/// With two sets the higher set is the triple and the lower set gives the
/// pair: if exactly three cards of a total hand have the rank `higher` and
/// exactly three the lower rank `lower`, the ranks of the full house are
/// `higher` three times and then `lower` twice.
pub proof fn lemma_full_house_of_two_sets(
    cards: Seq<NonJokerCard>,
    higher: CardRank,
    lower: CardRank,
)
    requires
        is_total_hand(cards),
        higher.wf(),
        lower.wf(),
        rank_count(cards, higher) == 3,
        rank_count(cards, lower) == 3,
        poker_rank_key(higher) > poker_rank_key(lower),
    ensures
        full_house_hand(cards) matches Some(best) && {
            &&& best.rank == HandRank::FullHouse
            &&& best.cards.len() == 5
            &&& best.cards[0].rank == higher
            &&& best.cards[1].rank == higher
            &&& best.cards[2].rank == higher
            &&& best.cards[3].rank == lower
            &&& best.cards[4].rank == lower
        },
{
    let sets = ranks_with_count(cards, 3);
    lemma_ranks_counted(cards, 3, 2);
    lemma_rank_of_own_key(higher);
    lemma_rank_of_own_key(lower);
    assert(sets.contains(rank_of_key(poker_rank_key(higher))));
    assert(sets.contains(rank_of_key(poker_rank_key(lower))));
    let h = choose|h: int| 0 <= h < sets.len() && sets[h] == higher;
    let l = choose|l: int| 0 <= l < sets.len() && sets[l] == lower;
    assert(h < l) by {
        if l < h {
            assert(poker_rank_key(sets[l]) > poker_rank_key(sets[h]));
        }
    }
    if sets.len() >= 3 {
        assert(poker_rank_key(sets[0]) > poker_rank_key(sets[1]));
        assert(poker_rank_key(sets[1]) > poker_rank_key(sets[2]));
        assert(poker_rank_key(sets[0]) > poker_rank_key(sets[2]));
        lemma_three_ranks_fit(cards, sets[0], sets[1], sets[2]);
    }
    assert(sets.len() == 2);
    assert(h == 0 && l == 1);
    lemma_two_ranks_split(cards, higher, lower);
    let triple = cards.filter(with_rank(higher));
    let pair = cards.filter(with_rank(lower));
    cards.lemma_filter_pred(with_rank(higher), 0);
    cards.lemma_filter_pred(with_rank(higher), 1);
    cards.lemma_filter_pred(with_rank(higher), 2);
    cards.lemma_filter_pred(with_rank(lower), 0);
    cards.lemma_filter_pred(with_rank(lower), 1);
    let best = full_house_hand(cards)->0;
    assert(best.cards =~= triple + pair.take(2));
}

} // verus!
