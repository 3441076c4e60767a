use crate::hand::StartingHand;
use crate::rank::CardRank;
use vstd::prelude::*;

verus! {

/// The points a starting hand needs to be played.
pub const TARGET_VALUE: u8 = 3;

/// The points of a rank: 3 for ace and king, 2 for queen, jack and ten, 1 for
/// nine down to six, none below.
pub open spec fn rank_points(rank: CardRank) -> int {
    let value = rank.value();
    if value == 1 || value == 13 {
        3
    } else if 10 <= value <= 12 {
        2
    } else if 6 <= value <= 9 {
        1
    } else {
        0
    }
}

/// The points of a starting hand: the points of its two ranks, 3 more for a
/// pair, 1 more for two cards of one suit, 1 more for neighbouring ranks.
pub open spec fn hand_points(hand: StartingHand) -> int {
    rank_points(hand.higher().rank) + rank_points(hand.lower().rank) + (if hand.higher().rank
        == hand.lower().rank {
        3int
    } else {
        0int
    }) + (if hand.higher().suit == hand.lower().suit {
        1int
    } else {
        0int
    }) + (if hand.ranks_apart(1) {
        1int
    } else {
        0int
    })
}

/// Whether a starting hand is worth playing before the flop: whether it has
/// three points or more.
pub fn evaluate_hand(hand: StartingHand) -> (playable: bool)
    ensures
        playable == (hand_points(hand) >= TARGET_VALUE),
{
    calculate_hand_value(hand) >= TARGET_VALUE
}

/// The points of a starting hand.
pub fn calculate_hand_value(hand: StartingHand) -> (points: u8)
    ensures
        points == hand_points(hand),
        points <= 11,
{
    let mut v: u8 = 0;
    v += evaluate_card_rank(hand.higher_card().rank());
    v += evaluate_card_rank(hand.lower_card().rank());
    if hand.is_pair() {
        v += 3;
    }
    if hand.is_suited() {
        v += 1;
    }
    if hand.is_connector() {
        v += 1;
    }
    v
}

/// The points of a rank.
pub fn evaluate_card_rank(rank: CardRank) -> (points: u8)
    ensures
        points == rank_points(rank),
        points <= 3,
{
    let value: u8 = rank.to_int();
    if value == 1 || value == 13 {
        3
    } else if value >= 10 {
        2
    } else if value >= 6 {
        1
    } else {
        0
    }
}

} // verus!
