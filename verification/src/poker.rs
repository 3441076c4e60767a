use crate::card::NonJokerCard;
use crate::comparer::{order_of, order_then, CardComparer};
use crate::rank::CardRank;
use crate::suit::Suit;
use std::cmp::Ordering;
use vstd::prelude::*;

verus! {

/// The key of a rank in poker, where the ace is high: 14 for the ace, the
/// canonical integer (2 to 13) for every other rank.
pub open spec fn poker_rank_key(rank: CardRank) -> int {
    if rank.value() <= 1 {
        rank.value() + 13
    } else {
        rank.value()
    }
}

/// The strength of a suit in the default order: spade, heart, diamond, club.
pub open spec fn poker_suit_strength(suit: Suit) -> int {
    match suit {
        Suit::Spade => 4,
        Suit::Heart => 3,
        Suit::Diamond => 2,
        Suit::Club => 1,
    }
}

/// One integer per card that orders cards by rank first and suit second.
pub open spec fn poker_card_key(card: NonJokerCard) -> int {
    poker_rank_key(card.rank) * 5 + poker_suit_strength(card.suit)
}

/// The comparer used for poker: the ace is the highest rank, and suits rank
/// spade, heart, diamond, club.
pub fn get_poker_card_comparer() -> (comparer: CardComparer)
    ensures
        comparer.wf(),
        comparer.highest_rank() == CardRank::Ace,
        forall|r: CardRank| comparer.rank_key(r) == poker_rank_key(r),
        forall|s: Suit| comparer.strength(s) == poker_suit_strength(s),
{
    CardComparer::new(CardRank::Ace)
}

/// Compares two ranks with the ace high.
pub fn cmp_card_ranks(a: CardRank, b: CardRank) -> (ordering: Ordering)
    ensures
        ordering == order_of(poker_rank_key(a), poker_rank_key(b)),
{
    let comparer = get_poker_card_comparer();
    comparer.cmp_card_ranks(&a, &b)
}

/// Compares two cards by rank with the ace high, then by suit.
pub fn cmp_cards(a: NonJokerCard, b: NonJokerCard) -> (ordering: Ordering)
    ensures
        ordering == order_then(
            order_of(poker_rank_key(a.rank), poker_rank_key(b.rank)),
            order_of(poker_suit_strength(a.suit), poker_suit_strength(b.suit)),
        ),
        ordering == order_of(poker_card_key(a), poker_card_key(b)),
{
    let comparer = get_poker_card_comparer();
    comparer.cmp_cards(&a, &b)
}

/// Whether the first card ranks strictly above the second.
pub fn card_outranks(a: NonJokerCard, b: NonJokerCard) -> (above: bool)
    ensures
        above == (poker_card_key(a) > poker_card_key(b)),
{
    match cmp_cards(a, b) {
        Ordering::Greater => true,
        _ => false,
    }
}

/// Whether the first rank is at least as high as the second, the ace high.
pub fn rank_at_least(a: CardRank, b: CardRank) -> (at_least: bool)
    ensures
        at_least == (poker_rank_key(a) >= poker_rank_key(b)),
{
    match cmp_card_ranks(a, b) {
        Ordering::Less => false,
        _ => true,
    }
}

/// The poker key of a rank: 14 for the ace, the canonical integer otherwise.
pub fn key_of_rank(rank: CardRank) -> (key: u8)
    ensures
        key == poker_rank_key(rank),
        2 <= key <= 14,
        rank.wf(),
{
    let value: u8 = rank.to_int();
    if value == 1 {
        14
    } else {
        value
    }
}

/// The canonical integer of the rank with a given poker key: 1 for the key
/// 14 (and for 1, the ace counted low), the key itself otherwise.
pub open spec fn value_of_key(key: int) -> int {
    if key == 14 {
        1
    } else {
        key
    }
}

/// The rank with a given poker key.
pub open spec fn rank_of_key(key: int) -> CardRank {
    CardRank::of_value(value_of_key(key))
}

/// The rank with a given poker key, for keys from 1 to 14; the keys 1 and 14
/// both give the ace.
pub fn rank_for_key(key: u8) -> (rank: CardRank)
    requires
        1 <= key <= 14,
    ensures
        rank == rank_of_key(key as int),
        rank.value() == value_of_key(key as int),
        rank.wf(),
{
    if key == 14 {
        CardRank::new(1)
    } else {
        CardRank::new(key)
    }
}

/// The poker key of the rank made from a key between 2 and 14 is that key,
/// and the rank is well formed.
pub proof fn lemma_key_round_trip(key: int)
    requires
        2 <= key <= 14,
    ensures
        poker_rank_key(rank_of_key(key)) == key,
        rank_of_key(key).wf(),
        rank_of_key(key).value() == value_of_key(key),
{
    crate::rank::lemma_rank_round_trip(value_of_key(key), CardRank::Ace);
}

/// Two well-formed cards with the same key are the same card.
pub proof fn lemma_card_key_injective(a: NonJokerCard, b: NonJokerCard)
    requires
        a.rank.wf(),
        b.rank.wf(),
        poker_card_key(a) == poker_card_key(b),
    ensures
        a == b,
{
    crate::rank::lemma_rank_value_injective(a.rank, b.rank);
}

} // verus!
