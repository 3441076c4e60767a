use crate::card::NonJokerCard;
use crate::hand::StartingHand;
use crate::hand_rank::{best_five, HandRank};
use crate::poker::{card_outranks, poker_rank_key, rank_at_least};
use crate::straight::straight_draws;
use crate::suit::Suit;
use crate::total_hand::{arranged, ranks_present, suit_count, TotalHand};
use vstd::prelude::*;

verus! {

/// The highest poker key among the ranks of the three flop cards.
pub open spec fn top_flop_key(flop: Seq<NonJokerCard>) -> int {
    let first = poker_rank_key(flop[0].rank);
    let second = poker_rank_key(flop[1].rank);
    let third = poker_rank_key(flop[2].rank);
    if first >= second && first >= third {
        first
    } else if second >= third {
        second
    } else {
        third
    }
}

/// How many of the two hole cards rank at least as high as every flop card.
pub open spec fn over_card_count(hand: StartingHand, flop: Seq<NonJokerCard>) -> int {
    (if poker_rank_key(hand.higher().rank) >= top_flop_key(flop) {
        1int
    } else {
        0int
    }) + (if poker_rank_key(hand.lower().rank) >= top_flop_key(flop) {
        1int
    } else {
        0int
    })
}

/// The total hand of the hole cards and the flop.
pub open spec fn flop_total(hand: StartingHand, flop: Seq<NonJokerCard>) -> Seq<NonJokerCard> {
    arranged(seq![hand.higher(), hand.lower(), flop[0], flop[1], flop[2]])
}

/// Whether a hand is worth playing on after the flop.
///
/// It is with two over cards; with two or more straight draws; with four
/// cards of one suit; with one over card and one straight draw; and whenever
/// its best five cards make more than a high card.
pub open spec fn is_playable_on_flop(hand: StartingHand, flop: Seq<NonJokerCard>) -> bool {
    let over = over_card_count(hand, flop);
    let total = flop_total(hand, flop);
    let draws = straight_draws(ranks_present(total)).len();
    ||| over >= 2
    ||| draws >= 2
    ||| exists|suit: Suit| suit_count(total, suit) >= 4
    ||| (over == 1 && draws == 1)
    ||| (best_five(total) matches Some(best) && best.rank != HandRank::HighCard)
}

/// Whether a hand is worth playing on after the given flop.
pub fn evaluate_hand(hand: StartingHand, flop: [NonJokerCard; 3]) -> (playable: bool)
    ensures
        playable == is_playable_on_flop(hand, flop@),
{
    let mut greatest = flop[0];
    if !card_outranks(greatest, flop[1]) {
        greatest = flop[1];
    }
    if !card_outranks(greatest, flop[2]) {
        greatest = flop[2];
    }
    let greatest_flop_rank = greatest.rank();
    assert(poker_rank_key(greatest_flop_rank) == top_flop_key(flop@));
    let mut over_card_count: u8 = 0;
    if rank_at_least(hand.higher_card().rank(), greatest_flop_rank) {
        over_card_count += 1;
    }
    if rank_at_least(hand.lower_card().rank(), greatest_flop_rank) {
        over_card_count += 1;
    }
    if over_card_count >= 2 {
        return true;
    }
    let five = [hand.higher_card(), hand.lower_card(), flop[0], flop[1], flop[2]];
    assert(five@ =~= seq![hand.higher(), hand.lower(), flop@[0], flop@[1], flop@[2]]);
    let total_hand = TotalHand::new(five.as_slice());
    if total_hand.straight_draw_ranks().len() >= 2 || total_hand.is_flush_draw() {
        return true;
    }
    if over_card_count == 1 && total_hand.straight_draw_ranks().len() == 1 {
        return true;
    }
    let best = total_hand.find_best_five_hand().unwrap();
    match best.hand_rank() {
        HandRank::HighCard => false,
        _ => true,
    }
}

} // verus!
