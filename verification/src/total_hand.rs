use crate::board::Board;
use crate::card::NonJokerCard;
use crate::hand::StartingHand;
use crate::comparer::suit_slot;
use crate::poker::{
    card_outranks, lemma_key_round_trip, poker_card_key, poker_rank_key, rank_for_key,
    rank_of_key,
};
use crate::rank::{lemma_rank_round_trip, CardRank};
use crate::straight::{
    bit_of_rank, lemma_mark_rank, mask_holds, mask_ranks, straight_draws, straight_heads,
    RanksOfStraight,
};
use crate::suit::Suit;
use vstd::prelude::*;

verus! {

/// All the cards a player can build a hand from: at most seven, kept from the
/// highest to the lowest.
#[derive(Debug, PartialEq, Eq)]
pub struct TotalHand {
    cards: Vec<NonJokerCard>,
    rank_counts: [u8; 13],
    suit_counts: [u8; 4],
    ranks_of_straight: RanksOfStraight,
}

/// Holds of the cards of the given rank.
pub open spec fn with_rank(rank: CardRank) -> spec_fn(NonJokerCard) -> bool {
    |card: NonJokerCard| card.rank == rank
}

/// Holds of the cards of any other rank.
pub open spec fn without_rank(rank: CardRank) -> spec_fn(NonJokerCard) -> bool {
    |card: NonJokerCard| card.rank != rank
}

/// Holds of the cards of neither rank.
pub open spec fn without_ranks(first: CardRank, second: CardRank) -> spec_fn(NonJokerCard) -> bool {
    |card: NonJokerCard| card.rank != first && card.rank != second
}

/// Holds of the cards of the given suit.
pub open spec fn with_suit(suit: Suit) -> spec_fn(NonJokerCard) -> bool {
    |card: NonJokerCard| card.suit == suit
}

/// Holds of the one card of the given rank and suit.
pub open spec fn with_rank_and_suit(rank: CardRank, suit: Suit) -> spec_fn(NonJokerCard) -> bool {
    |card: NonJokerCard| card.rank == rank && card.suit == suit
}

/// How many of the cards have the given rank.
pub open spec fn rank_count(cards: Seq<NonJokerCard>, rank: CardRank) -> nat {
    cards.filter(with_rank(rank)).len()
}

/// How many of the cards have the given suit.
pub open spec fn suit_count(cards: Seq<NonJokerCard>, suit: Suit) -> nat {
    cards.filter(with_suit(suit)).len()
}

/// The canonical integers (1 to 13) of the ranks that occur among the cards.
pub open spec fn ranks_present(cards: Seq<NonJokerCard>) -> spec_fn(int) -> bool {
    |value: int| 1 <= value <= 13 && rank_count(cards, CardRank::of_value(value)) > 0
}

/// Whether the cards run from the highest to the lowest, by rank with the ace
/// high and, within a rank, by suit.
pub open spec fn sorted_high_to_low(cards: Seq<NonJokerCard>) -> bool {
    forall|i: int, j: int|
        0 <= i < j < cards.len() ==> poker_card_key(#[trigger] cards[i]) >= poker_card_key(
            #[trigger] cards[j],
        )
}

/// What holds of the cards of every total hand: at most seven well-formed
/// cards, from the highest to the lowest.
pub open spec fn is_total_hand(cards: Seq<NonJokerCard>) -> bool {
    &&& cards.len() <= 7
    &&& sorted_high_to_low(cards)
    &&& forall|i: int| 0 <= i < cards.len() ==> (#[trigger] cards[i]).rank.wf()
}

/// The ranks with poker keys from 14 down to `low` that exactly `count` of
/// the cards have, highest first.
pub open spec fn ranks_counted_down_to(cards: Seq<NonJokerCard>, count: nat, low: int) -> Seq<
    CardRank,
>
    decreases 15 - low,
{
    if low > 14 {
        Seq::empty()
    } else {
        let higher = ranks_counted_down_to(cards, count, low + 1);
        if rank_count(cards, rank_of_key(low)) == count {
            higher.push(rank_of_key(low))
        } else {
            higher
        }
    }
}

/// The ranks, from the ace down to the two, that exactly `count` of the cards
/// have.
pub open spec fn ranks_with_count(cards: Seq<NonJokerCard>, count: nat) -> Seq<CardRank> {
    ranks_counted_down_to(cards, count, 2)
}

/// The highest rank that exactly four of the cards have, if there is one.
pub open spec fn quads_rank(cards: Seq<NonJokerCard>) -> Option<CardRank> {
    if ranks_with_count(cards, 4).len() > 0 {
        Some(ranks_with_count(cards, 4)[0])
    } else {
        None
    }
}

/// The first suit in the order spade, diamond, heart, club that at least
/// `least` of the cards have. Among seven cards at most one suit has five.
pub open spec fn suit_with_at_least(cards: Seq<NonJokerCard>, least: nat) -> Option<Suit> {
    if suit_count(cards, Suit::Spade) >= least {
        Some(Suit::Spade)
    } else if suit_count(cards, Suit::Diamond) >= least {
        Some(Suit::Diamond)
    } else if suit_count(cards, Suit::Heart) >= least {
        Some(Suit::Heart)
    } else if suit_count(cards, Suit::Club) >= least {
        Some(Suit::Club)
    } else {
        None
    }
}

/// The suit that five or more of the cards have, if there is one.
pub open spec fn flush_suit(cards: Seq<NonJokerCard>) -> Option<Suit> {
    suit_with_at_least(cards, 5)
}

/// What adding a card at the end does to the count of a rank.
pub proof fn lemma_rank_count_push(cards: Seq<NonJokerCard>, card: NonJokerCard, rank: CardRank)
    ensures
        rank_count(cards.push(card), rank) == rank_count(cards, rank) + (if card.rank == rank {
            1int
        } else {
            0int
        }),
{
    cards.lemma_filter_len_push(with_rank(rank), card);
}

/// What adding a card at the end does to the count of a suit.
pub proof fn lemma_suit_count_push(cards: Seq<NonJokerCard>, card: NonJokerCard, suit: Suit)
    ensures
        suit_count(cards.push(card), suit) == suit_count(cards, suit) + (if card.suit == suit {
            1int
        } else {
            0int
        }),
{
    cards.lemma_filter_len_push(with_suit(suit), card);
}

/// No count exceeds the number of cards.
pub proof fn lemma_counts_bounded(cards: Seq<NonJokerCard>, rank: CardRank, suit: Suit)
    ensures
        rank_count(cards, rank) <= cards.len(),
        suit_count(cards, suit) <= cards.len(),
{
    cards.lemma_filter_len(with_rank(rank));
    cards.lemma_filter_len(with_suit(suit));
}

/// The cards of a rank and the cards of all other ranks are all the cards.
pub proof fn lemma_rank_split(cards: Seq<NonJokerCard>, rank: CardRank)
    ensures
        cards.filter(with_rank(rank)).len() + cards.filter(without_rank(rank)).len()
            == cards.len(),
    decreases cards.len(),
{
    if cards.len() == 0 {
        cards.lemma_filter_len(with_rank(rank));
        cards.lemma_filter_len(without_rank(rank));
    } else {
        let front = cards.drop_last();
        lemma_rank_split(front, rank);
        assert(cards =~= front.push(cards.last()));
        front.lemma_filter_len_push(with_rank(rank), cards.last());
        front.lemma_filter_len_push(without_rank(rank), cards.last());
    }
}

/// The cards of two different ranks and the cards of neither are all the
/// cards.
pub proof fn lemma_two_ranks_split(cards: Seq<NonJokerCard>, first: CardRank, second: CardRank)
    requires
        first != second,
    ensures
        cards.filter(with_rank(first)).len() + cards.filter(with_rank(second)).len()
            + cards.filter(without_ranks(first, second)).len() == cards.len(),
    decreases cards.len(),
{
    if cards.len() == 0 {
        cards.lemma_filter_len(with_rank(first));
        cards.lemma_filter_len(with_rank(second));
        cards.lemma_filter_len(without_ranks(first, second));
    } else {
        let front = cards.drop_last();
        lemma_two_ranks_split(front, first, second);
        assert(cards =~= front.push(cards.last()));
        front.lemma_filter_len_push(with_rank(first), cards.last());
        front.lemma_filter_len_push(with_rank(second), cards.last());
        front.lemma_filter_len_push(without_ranks(first, second), cards.last());
    }
}

/// The ranks of three different ranks take up no more cards than there are.
pub proof fn lemma_three_ranks_fit(
    cards: Seq<NonJokerCard>,
    first: CardRank,
    second: CardRank,
    third: CardRank,
)
    requires
        first != second,
        first != third,
        second != third,
    ensures
        rank_count(cards, first) + rank_count(cards, second) + rank_count(cards, third)
            <= cards.len(),
    decreases cards.len(),
{
    if cards.len() == 0 {
        cards.lemma_filter_len(with_rank(first));
        cards.lemma_filter_len(with_rank(second));
        cards.lemma_filter_len(with_rank(third));
    } else {
        let front = cards.drop_last();
        lemma_three_ranks_fit(front, first, second, third);
        assert(cards =~= front.push(cards.last()));
        lemma_rank_count_push(front, cards.last(), first);
        lemma_rank_count_push(front, cards.last(), second);
        lemma_rank_count_push(front, cards.last(), third);
    }
}

/// Cards of five different ranks are five cards at least.
pub proof fn lemma_five_ranks_fit(
    cards: Seq<NonJokerCard>,
    first: CardRank,
    second: CardRank,
    third: CardRank,
    fourth: CardRank,
    fifth: CardRank,
)
    requires
        first != second && first != third && first != fourth && first != fifth,
        second != third && second != fourth && second != fifth,
        third != fourth && third != fifth,
        fourth != fifth,
    ensures
        rank_count(cards, first) + rank_count(cards, second) + rank_count(cards, third)
            + rank_count(cards, fourth) + rank_count(cards, fifth) <= cards.len(),
    decreases cards.len(),
{
    if cards.len() == 0 {
        cards.lemma_filter_len(with_rank(first));
        cards.lemma_filter_len(with_rank(second));
        cards.lemma_filter_len(with_rank(third));
        cards.lemma_filter_len(with_rank(fourth));
        cards.lemma_filter_len(with_rank(fifth));
    } else {
        let front = cards.drop_last();
        lemma_five_ranks_fit(front, first, second, third, fourth, fifth);
        assert(cards =~= front.push(cards.last()));
        lemma_rank_count_push(front, cards.last(), first);
        lemma_rank_count_push(front, cards.last(), second);
        lemma_rank_count_push(front, cards.last(), third);
        lemma_rank_count_push(front, cards.last(), fourth);
        lemma_rank_count_push(front, cards.last(), fifth);
    }
}

/// A hand whose ranks complete a straight has five cards at least.
pub proof fn lemma_straight_needs_five(cards: Seq<NonJokerCard>)
    requires
        straight_heads(ranks_present(cards)).len() > 0,
    ensures
        cards.len() >= 5,
{
    let present = ranks_present(cards);
    crate::straight::lemma_heads(present, 5);
    let key = poker_rank_key(straight_heads(present)[0]);
    assert(crate::straight::run_complete(present, key));
    let v0 = crate::straight::run_value(key, 0);
    let v1 = crate::straight::run_value(key, 1);
    let v2 = crate::straight::run_value(key, 2);
    let v3 = crate::straight::run_value(key, 3);
    let v4 = crate::straight::run_value(key, 4);
    assert(present(v0) && present(v1) && present(v2) && present(v3) && present(v4));
    lemma_rank_round_trip(v0, CardRank::Ace);
    lemma_rank_round_trip(v1, CardRank::Ace);
    lemma_rank_round_trip(v2, CardRank::Ace);
    lemma_rank_round_trip(v3, CardRank::Ace);
    lemma_rank_round_trip(v4, CardRank::Ace);
    lemma_five_ranks_fit(
        cards,
        CardRank::of_value(v0),
        CardRank::of_value(v1),
        CardRank::of_value(v2),
        CardRank::of_value(v3),
        CardRank::of_value(v4),
    );
}

/// What holds of the ranks that exactly `count` cards have: each is well
/// formed and has that count, they come from the highest to the lowest
/// without repetition, and no rank with that count is left out.
pub proof fn lemma_ranks_counted(cards: Seq<NonJokerCard>, count: nat, low: int)
    requires
        2 <= low <= 15,
    ensures
        ({
            let ranks = ranks_counted_down_to(cards, count, low);
            &&& ranks.len() <= 15 - low
            &&& forall|i: int|
                0 <= i < ranks.len() ==> {
                    &&& rank_count(cards, #[trigger] ranks[i]) == count
                    &&& ranks[i].wf()
                    &&& low <= poker_rank_key(ranks[i]) <= 14
                    &&& ranks[i] == rank_of_key(poker_rank_key(ranks[i]))
                }
            &&& forall|i: int, j: int|
                0 <= i < j < ranks.len() ==> poker_rank_key(#[trigger] ranks[i]) > poker_rank_key(
                    #[trigger] ranks[j],
                )
            &&& forall|key: int|
                low <= key <= 14 && rank_count(cards, #[trigger] rank_of_key(key)) == count
                    ==> ranks.contains(rank_of_key(key))
        }),
    decreases 15 - low,
{
    if low <= 14 {
        lemma_ranks_counted(cards, count, low + 1);
        lemma_key_round_trip(low);
        let higher = ranks_counted_down_to(cards, count, low + 1);
        let ranks = ranks_counted_down_to(cards, count, low);
        assert forall|key: int|
            low <= key <= 14 && rank_count(cards, #[trigger] rank_of_key(key))
                == count implies ranks.contains(rank_of_key(key)) by {
            if key == low {
                assert(ranks[ranks.len() - 1] == rank_of_key(key));
            } else {
                assert(higher.contains(rank_of_key(key)));
                let i = choose|i: int| 0 <= i < higher.len() && higher[i] == rank_of_key(key);
                assert(ranks[i] == rank_of_key(key));
            }
        }
    }
}

/// The cards of two different suits are no more than all the cards.
pub proof fn lemma_two_suits_fit(cards: Seq<NonJokerCard>, first: Suit, second: Suit)
    requires
        first != second,
    ensures
        suit_count(cards, first) + suit_count(cards, second) <= cards.len(),
    decreases cards.len(),
{
    if cards.len() == 0 {
        cards.lemma_filter_len(with_suit(first));
        cards.lemma_filter_len(with_suit(second));
    } else {
        let front = cards.drop_last();
        lemma_two_suits_fit(front, first, second);
        assert(cards =~= front.push(cards.last()));
        lemma_suit_count_push(front, cards.last(), first);
        lemma_suit_count_push(front, cards.last(), second);
    }
}

/// Among seven cards at most one suit occurs five times: a suit that five or
/// more of the cards have is the flush suit.
pub proof fn lemma_one_flush_suit(cards: Seq<NonJokerCard>, suit: Suit)
    requires
        cards.len() <= 7,
        suit_count(cards, suit) >= 5,
    ensures
        flush_suit(cards) == Some(suit),
{
    if suit != Suit::Spade {
        lemma_two_suits_fit(cards, suit, Suit::Spade);
    }
    if suit != Suit::Diamond {
        lemma_two_suits_fit(cards, suit, Suit::Diamond);
    }
    if suit != Suit::Heart {
        lemma_two_suits_fit(cards, suit, Suit::Heart);
    }
    if suit != Suit::Club {
        lemma_two_suits_fit(cards, suit, Suit::Club);
    }
}

/// Among seven cards at most one rank occurs four times: a well-formed rank
/// that exactly four of the cards have is the rank of the quads.
pub proof fn lemma_one_quads_rank(cards: Seq<NonJokerCard>, rank: CardRank)
    requires
        cards.len() <= 7,
        rank.wf(),
        rank_count(cards, rank) == 4,
    ensures
        quads_rank(cards) == Some(rank),
        ranks_with_count(cards, 4) == seq![rank],
{
    let quads = ranks_with_count(cards, 4);
    lemma_ranks_counted(cards, 4, 2);
    lemma_rank_round_trip(rank.value(), rank);
    assert(quads.contains(rank_of_key(poker_rank_key(rank))));
    let position = choose|position: int| 0 <= position < quads.len() && quads[position] == rank;
    if quads.len() >= 2 {
        assert(poker_rank_key(quads[0]) > poker_rank_key(quads[1]));
        lemma_two_ranks_split(cards, quads[0], quads[1]);
    }
    assert(quads =~= seq![rank]);
}

/// There is one way only to arrange given cards as a total hand.
pub proof fn lemma_arrangement_unique(first: Seq<NonJokerCard>, second: Seq<NonJokerCard>)
    requires
        is_total_hand(first),
        is_total_hand(second),
        first.to_multiset() == second.to_multiset(),
    ensures
        first == second,
    decreases first.len(),
{
    first.to_multiset_ensures();
    second.to_multiset_ensures();
    if first.len() == 0 {
        assert(first =~= second);
    } else {
        assert(first.contains(first[0]));
        assert(second.contains(second[0]));
        vstd::seq_lib::to_multiset_contains(first, first[0]);
        vstd::seq_lib::to_multiset_contains(second, first[0]);
        vstd::seq_lib::to_multiset_contains(first, second[0]);
        vstd::seq_lib::to_multiset_contains(second, second[0]);
        assert(second.contains(first[0]));
        assert(first.contains(second[0]));
        let i = choose|i: int| 0 <= i < second.len() && second[i] == first[0];
        let j = choose|j: int| 0 <= j < first.len() && first[j] == second[0];
        assert(poker_card_key(second[0]) >= poker_card_key(second[i]));
        assert(poker_card_key(first[0]) >= poker_card_key(first[j]));
        crate::poker::lemma_card_key_injective(first[0], second[0]);
        vstd::seq_lib::to_multiset_remove(first, 0);
        vstd::seq_lib::to_multiset_remove(second, 0);
        assert(first.remove(0) =~= first.skip(1));
        assert(second.remove(0) =~= second.skip(1));
        lemma_arrangement_unique(first.skip(1), second.skip(1));
        assert(first =~= seq![first[0]] + first.skip(1));
        assert(second =~= seq![second[0]] + second.skip(1));
    }
}

/// The given cards arranged as a total hand: the same cards, each as often,
/// from the highest to the lowest. For at most seven well-formed cards there
/// is exactly one such arrangement.
pub open spec fn arranged(cards: Seq<NonJokerCard>) -> Seq<NonJokerCard> {
    choose|total: Seq<NonJokerCard>|
        is_total_hand(total) && total.to_multiset() == cards.to_multiset()
}

/// Puts the cards in order from the highest to the lowest.
fn sort_high_to_low(cards: &[NonJokerCard]) -> (sorted: Vec<NonJokerCard>)
    ensures
        sorted_high_to_low(sorted@),
        sorted@.to_multiset() == cards@.to_multiset(),
        sorted@.len() == cards@.len(),
        forall|i: int| 0 <= i < sorted@.len() ==> (#[trigger] sorted@[i]).rank.wf(),
{
    let mut sorted: Vec<NonJokerCard> = Vec::new();
    let mut i: usize = 0;
    assert(cards@.take(0) =~= Seq::empty());
    while i < cards.len()
        invariant
            i <= cards@.len(),
            sorted@.len() == i,
            sorted_high_to_low(sorted@),
            sorted@.to_multiset() == cards@.take(i as int).to_multiset(),
            forall|k: int| 0 <= k < sorted@.len() ==> (#[trigger] sorted@[k]).rank.wf(),
        decreases cards@.len() - i,
    {
        let card = cards[i];
        // Reading the rank's integer establishes that the rank is well formed.
        let _ = card.rank.to_int();
        let mut position: usize = 0;
        while position < sorted.len() && !card_outranks(card, sorted[position])
            invariant
                position <= sorted@.len(),
                forall|k: int|
                    0 <= k < position ==> poker_card_key(#[trigger] sorted@[k]) >= poker_card_key(
                        card,
                    ),
            decreases sorted@.len() - position,
        {
            position += 1;
        }
        let ghost before = sorted@;
        sorted.insert(position, card);
        proof {
            vstd::seq_lib::to_multiset_insert(before, position as int, card);
            assert(cards@.take(i + 1) =~= cards@.take(i as int).push(card));
            vstd::seq_lib::to_multiset_build(cards@.take(i as int), card);
            assert forall|a: int, b: int| 0 <= a < b < sorted@.len() implies poker_card_key(
                #[trigger] sorted@[a],
            ) >= poker_card_key(#[trigger] sorted@[b]) by {
                if a < position && b > position {
                    assert(sorted@[a] == before[a]);
                    assert(sorted@[b] == before[b - 1]);
                } else if a < position && b < position {
                    assert(sorted@[a] == before[a]);
                    assert(sorted@[b] == before[b]);
                } else if a > position {
                    assert(sorted@[a] == before[a - 1]);
                    assert(sorted@[b] == before[b - 1]);
                } else if a == position {
                    assert(sorted@[b] == before[b - 1]);
                    assert(poker_card_key(card) > poker_card_key(before[position as int]));
                } else {
                    assert(sorted@[a] == before[a]);
                }
            }
        }
        i += 1;
    }
    assert(cards@.take(i as int) =~= cards@);
    sorted
}

/// A vector with the same elements in the same order.
fn copy_of<T: Copy>(items: &Vec<T>) -> (copy: Vec<T>)
    ensures
        copy@ == items@,
{
    let mut copy: Vec<T> = Vec::new();
    let mut i: usize = 0;
    while i < items.len()
        invariant
            i <= items@.len(),
            copy@ == items@.take(i as int),
        decreases items@.len() - i,
    {
        copy.push(items[i]);
        assert(copy@ =~= items@.take(i + 1));
        i += 1;
    }
    assert(items@.take(i as int) =~= items@);
    copy
}

impl Clone for TotalHand {
    /// A hand of the same cards.
    fn clone(&self) -> (copy: TotalHand)
        ensures
            copy@ == self@,
    {
        proof {
            use_type_invariant(self);
        }
        TotalHand {
            cards: copy_of(&self.cards),
            rank_counts: self.rank_counts,
            suit_counts: self.suit_counts,
            ranks_of_straight: RanksOfStraight {
                ranks_of_head: copy_of(&self.ranks_of_straight.ranks_of_head),
                ranks_of_draw: copy_of(&self.ranks_of_straight.ranks_of_draw),
            },
        }
    }
}

impl View for TotalHand {
    type V = Seq<NonJokerCard>;

    /// The cards of the hand, from the highest to the lowest.
    closed spec fn view(&self) -> Seq<NonJokerCard> {
        self.cards@
    }
}

impl TotalHand {
    #[verifier::type_invariant]
    closed spec fn inv(self) -> bool {
        &&& is_total_hand(self.cards@)
        &&& forall|v: int|
            1 <= v <= 13 ==> #[trigger] self.rank_counts[v - 1] == rank_count(
                self.cards@,
                CardRank::of_value(v),
            )
        &&& forall|s: Suit| self.suit_counts[#[trigger] s.index()] == suit_count(self.cards@, s)
        &&& self.ranks_of_straight.ranks_of_head@ == straight_heads(ranks_present(self.cards@))
        &&& self.ranks_of_straight.ranks_of_draw@ == straight_draws(ranks_present(self.cards@))
    }

    /// The total hand of the given cards, which must be seven at most.
    ///
    /// The hand holds exactly the given cards, each as often as given, from
    /// the highest to the lowest.
    pub fn new(cards: &[NonJokerCard]) -> (hand: TotalHand)
        requires
            cards@.len() <= 7,
        ensures
            is_total_hand(hand@),
            hand@.to_multiset() == cards@.to_multiset(),
            hand@.len() == cards@.len(),
            hand@ == arranged(cards@),
    {
        let sorted = sort_high_to_low(cards);
        proof {
            lemma_arrangement_unique(sorted@, arranged(cards@));
        }
        let mut rank_counts: [u8; 13] = [0, 0, 0, 0, 0, 0, 0, 0, 0, 0, 0, 0, 0];
        let mut suit_counts: [u8; 4] = [0, 0, 0, 0];
        let mut bit_of_cards: u16 = 0;
        let mut i: usize = 0;
        proof {
            assert(sorted@.take(0) =~= Seq::empty());
            assert forall|v: int| 1 <= v <= 13 implies !mask_holds(0u16, v) by {
                lemma_mark_rank(0u16, 1, v);
            }
            assert forall|r: CardRank| rank_count(Seq::empty(), r) == 0 by {
                Seq::<NonJokerCard>::empty().lemma_filter_len(with_rank(r));
            }
            assert forall|s: Suit| suit_count(Seq::empty(), s) == 0 by {
                Seq::<NonJokerCard>::empty().lemma_filter_len(with_suit(s));
            }
        }
        while i < sorted.len()
            invariant
                i <= sorted@.len() <= 7,
                sorted_high_to_low(sorted@),
                forall|k: int| 0 <= k < sorted@.len() ==> (#[trigger] sorted@[k]).rank.wf(),
                forall|v: int|
                    1 <= v <= 13 ==> #[trigger] rank_counts[v - 1] == rank_count(
                        sorted@.take(i as int),
                        CardRank::of_value(v),
                    ),
                forall|s: Suit|
                    suit_counts[#[trigger] s.index()] == suit_count(sorted@.take(i as int), s),
                forall|v: int|
                    1 <= v <= 13 ==> #[trigger] mask_holds(bit_of_cards, v) == (rank_count(
                        sorted@.take(i as int),
                        CardRank::of_value(v),
                    ) > 0),
            decreases sorted@.len() - i,
        {
            let card = sorted[i];
            let value: u8 = card.rank.to_int();
            let slot = suit_slot(card.suit);
            let bit = bit_of_rank(value);
            let ghost seen = sorted@.take(i as int);
            let ghost mask_before = bit_of_cards;
            proof {
                assert(sorted@.take(i + 1) =~= seen.push(card));
                lemma_rank_round_trip(value as int, card.rank);
                assert forall|v: int| 1 <= v <= 13 implies rank_count(
                    seen.push(card),
                    CardRank::of_value(v),
                ) == rank_count(seen, CardRank::of_value(v)) + (if v == value {
                    1int
                } else {
                    0int
                }) by {
                    lemma_rank_count_push(seen, card, CardRank::of_value(v));
                    lemma_rank_round_trip(v, card.rank);
                }
                assert forall|s: Suit|
                    suit_count(seen.push(card), s) == suit_count(seen, s) + (if s == card.suit {
                        1int
                    } else {
                        0int
                    }) by {
                    lemma_suit_count_push(seen, card, s);
                }
                lemma_counts_bounded(seen, card.rank, card.suit);
                assert(rank_counts[value - 1] == rank_count(
                    seen,
                    CardRank::of_value(value as int),
                ));
                assert(suit_counts[card.suit.index()] == suit_count(seen, card.suit));
            }
            rank_counts[(value - 1) as usize] = rank_counts[(value - 1) as usize] + 1;
            suit_counts[slot] = suit_counts[slot] + 1;
            bit_of_cards = bit_of_cards | bit;
            proof {
                assert forall|v: int| 1 <= v <= 13 implies #[trigger] mask_holds(bit_of_cards, v)
                    == (rank_count(sorted@.take(i + 1), CardRank::of_value(v)) > 0) by {
                    lemma_mark_rank(mask_before, value as int, v);
                    assert(mask_holds(mask_before, v) == (rank_count(seen, CardRank::of_value(v))
                        > 0));
                }
                assert forall|s: Suit|
                    suit_counts[#[trigger] s.index()] == suit_count(sorted@.take(i + 1), s) by {
                    if s != card.suit {
                        assert(s.index() != card.suit.index());
                    }
                }
            }
            i += 1;
        }
        let ranks_of_straight = RanksOfStraight::calculate(bit_of_cards);
        proof {
            assert(sorted@.take(i as int) =~= sorted@);
            assert(mask_ranks(bit_of_cards) =~= ranks_present(sorted@));
        }
        TotalHand { cards: sorted, rank_counts, suit_counts, ranks_of_straight }
    }

    /// The total hand of the given cards, or nothing if they are more than
    /// seven.
    pub fn try_new(cards: &[NonJokerCard]) -> (hand: Option<TotalHand>)
        ensures
            hand is Some <==> cards@.len() <= 7,
            hand matches Some(total) ==> is_total_hand(total@) && total@ == arranged(cards@)
                && total@.to_multiset() == cards@.to_multiset(),
    {
        if cards.len() <= 7 {
            Some(Self::new(cards))
        } else {
            None
        }
    }

    /// The total hand of a player's two hole cards and the community cards
    /// on the board.
    pub fn new_from_starting_hand_and_board(hand: StartingHand, board: &Board) -> (total: TotalHand)
        requires
            board.wf(),
        ensures
            is_total_hand(total@),
            total@.to_multiset() == (seq![hand.higher(), hand.lower()]
                + board@.community).to_multiset(),
            total@.len() == 2 + board@.community.len(),
            total@ == arranged(seq![hand.higher(), hand.lower()] + board@.community),
    {
        let hole = hand.both_cards();
        let community = board.cards();
        let mut cards: Vec<NonJokerCard> = Vec::new();
        cards.push(hole[0]);
        cards.push(hole[1]);
        let mut i: usize = 0;
        while i < community.len()
            invariant
                i <= community@.len(),
                cards@ == seq![hand.higher(), hand.lower()] + community@.take(i as int),
            decreases community@.len() - i,
        {
            cards.push(community[i]);
            assert(cards@ =~= seq![hand.higher(), hand.lower()] + community@.take(i + 1));
            i += 1;
        }
        assert(community@.take(i as int) =~= community@);
        Self::new(cards.as_slice())
    }

    /// The cards of the hand, from the highest to the lowest.
    pub fn cards(&self) -> (cards: &[NonJokerCard])
        ensures
            cards@ == self@,
            is_total_hand(self@),
    {
        proof {
            use_type_invariant(self);
        }
        self.cards.as_slice()
    }

    /// The ranks, highest first, that exactly `count` cards of the hand have.
    fn ranks_of_count(&self, count: u8) -> (ranks: Vec<CardRank>)
        ensures
            ranks@ == ranks_with_count(self@, count as nat),
    {
        proof {
            use_type_invariant(self);
        }
        let mut ranks: Vec<CardRank> = Vec::new();
        let mut key: u8 = 14;
        while key >= 2
            invariant
                1 <= key <= 14,
                ranks@ == ranks_counted_down_to(self@, count as nat, key + 1),
                forall|v: int|
                    1 <= v <= 13 ==> #[trigger] self.rank_counts[v - 1] == rank_count(
                        self.cards@,
                        CardRank::of_value(v),
                    ),
            decreases key,
        {
            let rank = rank_for_key(key);
            let value: u8 = rank.to_int();
            assert(self.rank_counts[value - 1] == rank_count(
                self.cards@,
                CardRank::of_value(value as int),
            ));
            if self.rank_counts[(value - 1) as usize] == count {
                ranks.push(rank);
            }
            key -= 1;
        }
        ranks
    }

    /// The ranks that exactly two cards of the hand have, highest first.
    pub fn ranks_of_pairs(&self) -> (ranks: Vec<CardRank>)
        ensures
            ranks@ == ranks_with_count(self@, 2),
    {
        self.ranks_of_count(2)
    }

    /// The ranks that exactly three cards of the hand have, highest first.
    pub fn ranks_of_sets(&self) -> (ranks: Vec<CardRank>)
        ensures
            ranks@ == ranks_with_count(self@, 3),
    {
        self.ranks_of_count(3)
    }

    /// The rank that exactly four cards of the hand have, if there is one.
    pub fn rank_of_quads(&self) -> (rank: Option<CardRank>)
        ensures
            rank == quads_rank(self@),
    {
        let quads = self.ranks_of_count(4);
        if quads.len() > 0 {
            Some(quads[0])
        } else {
            None
        }
    }

    /// The first suit in the order spade, diamond, heart, club that at least
    /// `least` cards of the hand have.
    fn suit_of_at_least(&self, least: u8) -> (suit: Option<Suit>)
        ensures
            suit == suit_with_at_least(self@, least as nat),
    {
        proof {
            use_type_invariant(self);
            assert(self.suit_counts[Suit::Spade.index()] == suit_count(self.cards@, Suit::Spade));
            assert(self.suit_counts[Suit::Diamond.index()] == suit_count(
                self.cards@,
                Suit::Diamond,
            ));
            assert(self.suit_counts[Suit::Heart.index()] == suit_count(self.cards@, Suit::Heart));
            assert(self.suit_counts[Suit::Club.index()] == suit_count(self.cards@, Suit::Club));
        }
        if self.suit_counts[0] >= least {
            Some(Suit::Spade)
        } else if self.suit_counts[1] >= least {
            Some(Suit::Diamond)
        } else if self.suit_counts[2] >= least {
            Some(Suit::Heart)
        } else if self.suit_counts[3] >= least {
            Some(Suit::Club)
        } else {
            None
        }
    }

    /// The suit that five or more cards of the hand have, if there is one.
    pub fn suit_of_flush(&self) -> (suit: Option<Suit>)
        ensures
            suit == flush_suit(self@),
    {
        self.suit_of_at_least(5)
    }

    /// Whether four or more cards of the hand share a suit.
    pub fn is_flush_draw(&self) -> (draw: bool)
        ensures
            draw == exists|suit: Suit| suit_count(self@, suit) >= 4,
    {
        let suit = self.suit_of_at_least(4);
        proof {
            if suit is None {
                assert forall|s: Suit| suit_count(self@, s) < 4 by {
                    match s {
                        Suit::Spade => {},
                        Suit::Diamond => {},
                        Suit::Heart => {},
                        Suit::Club => {},
                    }
                }
            } else {
                assert(suit_count(self@, suit->0) >= 4);
            }
        }
        suit.is_some()
    }

    /// The head ranks of the straights that the ranks of the hand complete,
    /// from the ace-high straight down to the five-high one.
    pub fn head_ranks_of_straight(&self) -> (heads: &[CardRank])
        ensures
            heads@ == straight_heads(ranks_present(self@)),
    {
        proof {
            use_type_invariant(self);
        }
        self.ranks_of_straight.ranks_of_head.as_slice()
    }

    /// The ranks absent from the hand that alone are missing from some
    /// straight, from the ace down to the two.
    pub fn straight_draw_ranks(&self) -> (draws: &[CardRank])
        ensures
            draws@ == straight_draws(ranks_present(self@)),
    {
        proof {
            use_type_invariant(self);
        }
        self.ranks_of_straight.ranks_of_draw.as_slice()
    }
}

} // verus!
