use crate::comparer::{order_of, order_then};
use crate::hand_rank::HandRank;
use crate::poker::{cmp_card_ranks, poker_rank_key};
use crate::rank::CardRank;
use std::cmp::Ordering;
use vstd::prelude::*;

verus! {

/// What a five-card hand is worth: its category, then its five ranks in the
/// order in which the category counts them.
#[derive(Debug, PartialEq, Eq, Copy, Clone, Hash)]
pub struct HandValue {
    pub hand_rank: HandRank,
    pub card_ranks: [CardRank; 5],
}

/// How two hand values compare at one position of their ranks, the ace high.
pub open spec fn rank_order_at(a: HandValue, b: HandValue, position: int) -> Ordering {
    order_of(poker_rank_key(a.card_ranks[position]), poker_rank_key(b.card_ranks[position]))
}

/// How two hand values compare: by category first, then by the five ranks
/// one after the other.
pub open spec fn value_order(a: HandValue, b: HandValue) -> Ordering {
    order_then(
        order_of(a.hand_rank.strength(), b.hand_rank.strength()),
        order_then(
            rank_order_at(a, b, 0),
            order_then(
                rank_order_at(a, b, 1),
                order_then(
                    rank_order_at(a, b, 2),
                    order_then(rank_order_at(a, b, 3), rank_order_at(a, b, 4)),
                ),
            ),
        ),
    )
}

/// The first ordering unless it is `Equal`, in which case the second.
pub fn then_with(first: Ordering, second: Ordering) -> (ordering: Ordering)
    ensures
        ordering == order_then(first, second),
{
    match first {
        Ordering::Equal => second,
        _ => first,
    }
}

/// Compares two categories by strength.
pub fn cmp_hand_ranks(a: HandRank, b: HandRank) -> (ordering: Ordering)
    ensures
        ordering == order_of(a.strength(), b.strength()),
{
    let x: u8 = a.strength_value();
    let y: u8 = b.strength_value();
    if x < y {
        Ordering::Less
    } else if x == y {
        Ordering::Equal
    } else {
        Ordering::Greater
    }
}

/// The value of five cards of a category: the category and the ranks of the
/// cards in their order.
pub open spec fn value_of(rank: HandRank, cards: Seq<crate::card::NonJokerCard>) -> HandValue {
    HandValue {
        hand_rank: rank,
        card_ranks: [cards[0].rank, cards[1].rank, cards[2].rank, cards[3].rank, cards[4].rank],
    }
}

impl HandValue {
    /// A value is well formed when its five ranks are.
    pub open spec fn wf(self) -> bool {
        forall|i: int| 0 <= i < 5 ==> (#[trigger] self.card_ranks[i]).wf()
    }

    /// Compares two hand values: `Greater` if this one wins.
    pub fn cmp(&self, other: &HandValue) -> (ordering: Ordering)
        ensures
            ordering == value_order(*self, *other),
    {
        let by_category = cmp_hand_ranks(self.hand_rank, other.hand_rank);
        let first = cmp_card_ranks(self.card_ranks[0], other.card_ranks[0]);
        let second = cmp_card_ranks(self.card_ranks[1], other.card_ranks[1]);
        let third = cmp_card_ranks(self.card_ranks[2], other.card_ranks[2]);
        let fourth = cmp_card_ranks(self.card_ranks[3], other.card_ranks[3]);
        let fifth = cmp_card_ranks(self.card_ranks[4], other.card_ranks[4]);
        then_with(
            by_category,
            then_with(first, then_with(second, then_with(third, then_with(fourth, fifth)))),
        )
    }
}

impl PartialOrd for HandValue {
    /// Always `Some`: any two hand values compare.
    fn partial_cmp(&self, other: &HandValue) -> (ordering: Option<Ordering>) {
        Some(self.cmp(other))
    }
}

impl vstd::std_specs::cmp::PartialOrdSpecImpl for HandValue {
    open spec fn obeys_partial_cmp_spec() -> bool {
        true
    }

    open spec fn partial_cmp_spec(&self, other: &HandValue) -> Option<Ordering> {
        Some(value_order(*self, *other))
    }
}

/// Whether the first hand value wins over the second.
pub open spec fn beats(a: HandValue, b: HandValue) -> bool {
    value_order(a, b) == Ordering::Greater
}

/// Whether the first hand value wins over the second.
pub fn wins_over(a: &HandValue, b: &HandValue) -> (wins: bool)
    ensures
        wins == beats(*a, *b),
{
    match a.cmp(b) {
        Ordering::Greater => true,
        _ => false,
    }
}

/// Winning is transitive, nothing wins over itself, and of two values at
/// most one wins over the other.
pub proof fn lemma_beats_is_strict_order(a: HandValue, b: HandValue, c: HandValue)
    ensures
        !beats(a, a),
        beats(a, b) ==> !beats(b, a),
        beats(a, b) && beats(b, c) ==> beats(a, c),
        !beats(a, b) && !beats(b, c) ==> !beats(a, c),
{
}

/// A value that wins over a second value wins over everything the second
/// does not lose to.
pub proof fn lemma_value_order_connected(a: HandValue, b: HandValue, c: HandValue)
    requires
        beats(a, b),
        !beats(c, b),
    ensures
        beats(a, c),
{
}

/// Two well-formed ranks with the same poker key are the same rank.
pub proof fn lemma_rank_key_injective(a: CardRank, b: CardRank)
    requires
        a.wf(),
        b.wf(),
        poker_rank_key(a) == poker_rank_key(b),
    ensures
        a == b,
{
    crate::rank::lemma_rank_value_injective(a, b);
}

/// Hand values are totally ordered: of two well-formed values the first is
/// less than, equal to or greater than the second, and exactly one of the
/// three; they compare as equal exactly when they are the same value, and
/// the first is less than the second exactly when the second is greater than
/// the first.
pub proof fn lemma_value_order_total(a: HandValue, b: HandValue)
    requires
        a.wf(),
        b.wf(),
    ensures
        value_order(a, a) == Ordering::Equal,
        (value_order(a, b) == Ordering::Equal) <==> a == b,
        (value_order(a, b) == Ordering::Less) <==> (value_order(b, a) == Ordering::Greater),
        (value_order(a, b) == Ordering::Greater) <==> (value_order(b, a) == Ordering::Less),
        value_order(a, b) == Ordering::Less || value_order(a, b) == Ordering::Equal
            || value_order(a, b) == Ordering::Greater,
{
    if value_order(a, b) == Ordering::Equal {
        assert(a.hand_rank == b.hand_rank);
        assert forall|i: int| 0 <= i < 5 implies a.card_ranks[i] == b.card_ranks[i] by {
            assert(rank_order_at(a, b, i) == Ordering::Equal);
            lemma_rank_key_injective(a.card_ranks[i], b.card_ranks[i]);
        }
        assert(a.card_ranks =~= b.card_ranks);
    }
}

/// The order of hand values is transitive.
pub proof fn lemma_value_order_transitive(a: HandValue, b: HandValue, c: HandValue)
    requires
        value_order(a, b) == Ordering::Less,
        value_order(b, c) == Ordering::Less,
    ensures
        value_order(a, c) == Ordering::Less,
{
}

} // verus!
