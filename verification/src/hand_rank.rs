use crate::card::NonJokerCard;
use crate::hand_value::{value_of, HandValue};
use crate::rank::CardRank;
use crate::suit::Suit;
use crate::total_hand::{
    lemma_counts_bounded, lemma_straight_needs_five, with_rank,
    with_rank_and_suit, with_suit, without_rank, without_ranks, TotalHand,
};
use vstd::prelude::*;

pub mod flush;
pub mod four_of_a_kind;
pub mod full_house;
pub mod high_card;
pub mod pair;
pub mod royal_flush;
pub mod straight;
pub mod straight_flush;
pub mod three_of_a_kind;
pub mod two_pairs;

verus! {

/// The ten categories of five-card hands, from the weakest to the strongest.
#[derive(Debug, PartialEq, Eq, Copy, Clone, Hash, PartialOrd, Ord, Structural)]
pub enum HandRank {
    HighCard,
    Pair,
    TwoPairs,
    ThreeOfAKind,
    Straight,
    Flush,
    FullHouse,
    FourOfAKind,
    StraightFlush,
    RoyalFlush,
}

impl HandRank {
    /// Position of the category in order of strength, from 0 (high card) to
    /// 9 (royal flush).
    pub open spec fn strength(self) -> int {
        match self {
            HandRank::HighCard => 0,
            HandRank::Pair => 1,
            HandRank::TwoPairs => 2,
            HandRank::ThreeOfAKind => 3,
            HandRank::Straight => 4,
            HandRank::Flush => 5,
            HandRank::FullHouse => 6,
            HandRank::FourOfAKind => 7,
            HandRank::StraightFlush => 8,
            HandRank::RoyalFlush => 9,
        }
    }

    /// Position of the category in order of strength.
    pub fn strength_value(self) -> (strength: u8)
        ensures
            strength == self.strength(),
    {
        match self {
            HandRank::HighCard => 0,
            HandRank::Pair => 1,
            HandRank::TwoPairs => 2,
            HandRank::ThreeOfAKind => 3,
            HandRank::Straight => 4,
            HandRank::Flush => 5,
            HandRank::FullHouse => 6,
            HandRank::FourOfAKind => 7,
            HandRank::StraightFlush => 8,
            HandRank::RoyalFlush => 9,
        }
    }

    /// Position of the category in order of strength, as an index.
    pub fn strength_slot(self) -> (slot: usize)
        ensures
            slot == self.strength(),
    {
        match self {
            HandRank::HighCard => 0,
            HandRank::Pair => 1,
            HandRank::TwoPairs => 2,
            HandRank::ThreeOfAKind => 3,
            HandRank::Straight => 4,
            HandRank::Flush => 5,
            HandRank::FullHouse => 6,
            HandRank::FourOfAKind => 7,
            HandRank::StraightFlush => 8,
            HandRank::RoyalFlush => 9,
        }
    }

    /// All ten categories, from the weakest to the strongest.
    pub fn all() -> (ranks: [HandRank; 10])
        ensures
            forall|i: int| 0 <= i < 10 ==> (#[trigger] ranks[i]).strength() == i,
    {
        [
            HandRank::HighCard,
            HandRank::Pair,
            HandRank::TwoPairs,
            HandRank::ThreeOfAKind,
            HandRank::Straight,
            HandRank::Flush,
            HandRank::FullHouse,
            HandRank::FourOfAKind,
            HandRank::StraightFlush,
            HandRank::RoyalFlush,
        ]
    }
}

/// Five cards and their category, as mathematical values.
pub struct FiveCards {
    pub cards: Seq<NonJokerCard>,
    pub rank: HandRank,
}

/// The best five cards that a category detector found, in the order in which
/// the category counts them, with the category.
#[derive(Debug, PartialEq, Eq, Copy, Clone, Hash)]
pub struct BestFiveHand {
    pub(crate) cards: [NonJokerCard; 5],
    pub(crate) rank: HandRank,
}

impl View for BestFiveHand {
    type V = FiveCards;

    closed spec fn view(&self) -> FiveCards {
        FiveCards { cards: self.cards@, rank: self.rank }
    }
}

/// Whether a detector's answer is the one expected: the same five cards in
/// the same order with the same category, or nothing where nothing is
/// expected.
pub open spec fn found(result: Option<BestFiveHand>, expected: Option<FiveCards>) -> bool {
    match result {
        Some(best) => expected == Some(best@),
        None => expected is None,
    }
}

impl BestFiveHand {
    /// The hand of the given five cards and category.
    pub(crate) fn from_cards(cards: &Vec<NonJokerCard>, rank: HandRank) -> (best: BestFiveHand)
        requires
            cards@.len() == 5,
        ensures
            best@ == (FiveCards { cards: cards@, rank }),
    {
        let five = [cards[0], cards[1], cards[2], cards[3], cards[4]];
        assert(five@ =~= cards@);
        BestFiveHand { cards: five, rank }
    }

    /// The same five cards as a royal flush.
    pub(crate) fn crowned(straight_flush: BestFiveHand) -> (best: BestFiveHand)
        ensures
            best@ == (FiveCards { cards: straight_flush@.cards, rank: HandRank::RoyalFlush }),
    {
        BestFiveHand { cards: straight_flush.cards, rank: HandRank::RoyalFlush }
    }

    /// The five cards, the most significant first.
    pub fn cards(self) -> (cards: [NonJokerCard; 5])
        ensures
            cards@ == self@.cards,
    {
        self.cards
    }

    /// The category of the hand.
    pub fn hand_rank(self) -> (rank: HandRank)
        ensures
            rank == self@.rank,
    {
        self.rank
    }

    /// The category and the five ranks, by which hands are compared.
    pub fn value(self) -> (value: HandValue)
        ensures
            value == value_of(self@.rank, self@.cards),
            value.hand_rank == self@.rank,
            forall|i: int| 0 <= i < 5 ==> #[trigger] value.card_ranks[i] == self@.cards[i].rank,
    {
        let card_ranks = [
            self.cards[0].rank(),
            self.cards[1].rank(),
            self.cards[2].rank(),
            self.cards[3].rank(),
            self.cards[4].rank(),
        ];
        assert(card_ranks =~= value_of(self@.rank, self@.cards).card_ranks);
        HandValue { hand_rank: self.hand_rank(), card_ranks }
    }
}

/// Which cards of a hand to pick.
pub enum Pick {
    /// The cards of a rank.
    Rank(CardRank),
    /// The cards of any other rank.
    NotRank(CardRank),
    /// The cards of neither of two ranks.
    NotRanks(CardRank, CardRank),
    /// The cards of a suit.
    Suit(Suit),
    /// The card of a rank and a suit.
    RankAndSuit(CardRank, Suit),
}

impl Pick {
    /// The condition on a card that the pick stands for.
    pub open spec fn holds(self) -> spec_fn(NonJokerCard) -> bool {
        match self {
            Pick::Rank(rank) => with_rank(rank),
            Pick::NotRank(rank) => without_rank(rank),
            Pick::NotRanks(first, second) => without_ranks(first, second),
            Pick::Suit(suit) => with_suit(suit),
            Pick::RankAndSuit(rank, suit) => with_rank_and_suit(rank, suit),
        }
    }

    /// Whether the pick takes the card.
    pub fn takes(&self, card: NonJokerCard) -> (taken: bool)
        ensures
            taken == (self.holds())(card),
    {
        match self {
            Pick::Rank(rank) => card.rank == *rank,
            Pick::NotRank(rank) => card.rank != *rank,
            Pick::NotRanks(first, second) => card.rank != *first && card.rank != *second,
            Pick::Suit(suit) => card.suit == *suit,
            Pick::RankAndSuit(rank, suit) => card.rank == *rank && card.suit == *suit,
        }
    }
}

/// The first `limit` elements of a sequence, or all of them if there are
/// fewer.
pub open spec fn first_of<T>(items: Seq<T>, limit: int) -> Seq<T> {
    if limit < items.len() {
        items.take(limit)
    } else {
        items
    }
}

/// The first `limit` cards, in order, that the pick takes.
pub fn pick_first(cards: &[NonJokerCard], pick: &Pick, limit: usize) -> (picked: Vec<NonJokerCard>)
    ensures
        picked@ == first_of(cards@.filter(pick.holds()), limit as int),
{
    let mut picked: Vec<NonJokerCard> = Vec::new();
    let mut i: usize = 0;
    proof {
        assert(cards@.take(0) =~= Seq::empty());
        Seq::<NonJokerCard>::empty().lemma_filter_len(pick.holds());
    }
    while i < cards.len() && picked.len() < limit
        invariant
            i <= cards@.len(),
            picked@.len() <= limit,
            picked@ == cards@.take(i as int).filter(pick.holds()),
        decreases cards@.len() - i,
    {
        let card = cards[i];
        proof {
            assert(cards@.take(i + 1) =~= cards@.take(i as int).push(card));
            cards@.take(i as int).lemma_filter_push(card, pick.holds());
        }
        if pick.takes(card) {
            picked.push(card);
        }
        i += 1;
    }
    proof {
        let seen = cards@.take(i as int);
        let rest = cards@.skip(i as int);
        assert(cards@ =~= seen + rest);
        Seq::filter_distributes_over_add(seen, rest, pick.holds());
        if i == cards@.len() {
            assert(rest =~= Seq::empty());
            rest.lemma_filter_len(pick.holds());
            assert(cards@.filter(pick.holds()) =~= picked@);
        } else {
            assert(picked@ =~= cards@.filter(pick.holds()).take(limit as int));
        }
    }
    picked
}

/// What the detector of a category builds from the cards of a total hand.
pub open spec fn detect(rank: HandRank, cards: Seq<NonJokerCard>) -> Option<FiveCards> {
    match rank {
        HandRank::HighCard => high_card::high_card_hand(cards),
        HandRank::Pair => pair::pair_hand(cards),
        HandRank::TwoPairs => two_pairs::two_pairs_hand(cards),
        HandRank::ThreeOfAKind => three_of_a_kind::three_of_a_kind_hand(cards),
        HandRank::Straight => straight::straight_hand(cards),
        HandRank::Flush => flush::flush_hand(cards),
        HandRank::FullHouse => full_house::full_house_hand(cards),
        HandRank::FourOfAKind => four_of_a_kind::four_of_a_kind_hand(cards),
        HandRank::StraightFlush => straight_flush::straight_flush_hand(cards),
        HandRank::RoyalFlush => royal_flush::royal_flush_hand(cards),
    }
}

/// The best five-card hand of the cards of a total hand: what the detector
/// of the strongest category that builds anything builds.
pub open spec fn best_five(cards: Seq<NonJokerCard>) -> Option<FiveCards> {
    if detect(HandRank::RoyalFlush, cards) is Some {
        detect(HandRank::RoyalFlush, cards)
    } else if detect(HandRank::StraightFlush, cards) is Some {
        detect(HandRank::StraightFlush, cards)
    } else if detect(HandRank::FourOfAKind, cards) is Some {
        detect(HandRank::FourOfAKind, cards)
    } else if detect(HandRank::FullHouse, cards) is Some {
        detect(HandRank::FullHouse, cards)
    } else if detect(HandRank::Flush, cards) is Some {
        detect(HandRank::Flush, cards)
    } else if detect(HandRank::Straight, cards) is Some {
        detect(HandRank::Straight, cards)
    } else if detect(HandRank::ThreeOfAKind, cards) is Some {
        detect(HandRank::ThreeOfAKind, cards)
    } else if detect(HandRank::TwoPairs, cards) is Some {
        detect(HandRank::TwoPairs, cards)
    } else if detect(HandRank::Pair, cards) is Some {
        detect(HandRank::Pair, cards)
    } else {
        detect(HandRank::HighCard, cards)
    }
}

/// Every detector builds a hand of five cards of its own category, and only
/// from five cards or more.
pub proof fn lemma_detect_own_category(rank: HandRank, cards: Seq<NonJokerCard>)
    ensures
        detect(rank, cards) matches Some(best) ==> best.rank == rank && cards.len() >= 5,
{
    if detect(rank, cards) is Some {
        match rank {
            HandRank::Straight => {
                lemma_straight_needs_five(cards);
            },
            HandRank::StraightFlush => {
                let suit = crate::total_hand::flush_suit(cards)->0;
                lemma_counts_bounded(cards, CardRank::Ace, suit);
            },
            HandRank::RoyalFlush => {
                let suit = crate::total_hand::flush_suit(cards)->0;
                lemma_counts_bounded(cards, CardRank::Ace, suit);
            },
            _ => {},
        }
    }
}

/// A card picked by a condition is one of the cards and meets the condition.
pub proof fn lemma_picked_card(
    cards: Seq<NonJokerCard>,
    condition: spec_fn(NonJokerCard) -> bool,
    position: int,
)
    requires
        0 <= position < cards.filter(condition).len(),
    ensures
        cards.contains(cards.filter(condition)[position]),
        condition(cards.filter(condition)[position]),
{
    cards.lemma_filter_pred(condition, position);
    assert(cards.filter(condition).contains(cards.filter(condition)[position]));
    cards.lemma_filter_contains_rev(condition, cards.filter(condition)[position]);
}

/// The head that a straight flush is built on is one of the head ranks and
/// the hand holds its straight in the suit.
pub proof fn lemma_first_suited_head(cards: Seq<NonJokerCard>, suit: Suit, heads: Seq<CardRank>)
    ensures
        straight_flush::first_suited_head(cards, suit, heads) matches Some(head) ==> heads.contains(
            head,
        ) && straight_flush::suited_run(cards, suit, crate::poker::poker_rank_key(head)),
    decreases heads.len(),
{
    if heads.len() > 0 && !straight_flush::suited_run(
        cards,
        suit,
        crate::poker::poker_rank_key(heads[0]),
    ) {
        lemma_first_suited_head(cards, suit, heads.skip(1));
        if straight_flush::first_suited_head(cards, suit, heads) is Some {
            let head = straight_flush::first_suited_head(cards, suit, heads)->0;
            let i = choose|i: int| 0 <= i < heads.skip(1).len() && heads.skip(1)[i] == head;
            assert(heads[i + 1] == head);
        }
    } else if heads.len() > 0 {
        assert(heads.contains(heads[0]));
    }
}

/// Whatever a detector builds is made of five cards of the hand.
pub proof fn lemma_detected_cards_come_from_hand(rank: HandRank, cards: Seq<NonJokerCard>)
    ensures
        detect(rank, cards) matches Some(best) ==> {
            &&& best.cards.len() == 5
            &&& forall|i: int| 0 <= i < 5 ==> cards.contains(#[trigger] best.cards[i])
        },
{
    if detect(rank, cards) is Some {
        let best = detect(rank, cards)->0;
        crate::total_hand::lemma_ranks_counted(cards, 2, 2);
        crate::total_hand::lemma_ranks_counted(cards, 3, 2);
        crate::total_hand::lemma_ranks_counted(cards, 4, 2);
        let pairs = crate::total_hand::ranks_with_count(cards, 2);
        let sets = crate::total_hand::ranks_with_count(cards, 3);
        let present = crate::total_hand::ranks_present(cards);
        match rank {
            HandRank::HighCard => {
                assert forall|i: int| 0 <= i < 5 implies cards.contains(
                    #[trigger] best.cards[i],
                ) by {
                    assert(best.cards[i] == cards[i]);
                }
            },
            HandRank::Pair => {
                crate::total_hand::lemma_rank_split(cards, pairs[0]);
                let own = cards.filter(with_rank(pairs[0]));
                let others = cards.filter(without_rank(pairs[0]));
                assert forall|i: int| 0 <= i < 5 implies cards.contains(
                    #[trigger] best.cards[i],
                ) by {
                    if i < 2 {
                        lemma_picked_card(cards, with_rank(pairs[0]), i);
                        assert(best.cards[i] == own[i]);
                    } else {
                        lemma_picked_card(cards, without_rank(pairs[0]), i - 2);
                        assert(best.cards[i] == others[i - 2]);
                    }
                }
            },
            HandRank::TwoPairs => {
                crate::total_hand::lemma_two_ranks_split(cards, pairs[0], pairs[1]);
                let higher = cards.filter(with_rank(pairs[0]));
                let lower = cards.filter(with_rank(pairs[1]));
                let others = cards.filter(without_ranks(pairs[0], pairs[1]));
                assert forall|i: int| 0 <= i < 5 implies cards.contains(
                    #[trigger] best.cards[i],
                ) by {
                    if i < 2 {
                        lemma_picked_card(cards, with_rank(pairs[0]), i);
                        assert(best.cards[i] == higher[i]);
                    } else if i < 4 {
                        lemma_picked_card(cards, with_rank(pairs[1]), i - 2);
                        assert(best.cards[i] == lower[i - 2]);
                    } else {
                        lemma_picked_card(cards, without_ranks(pairs[0], pairs[1]), 0);
                        assert(best.cards[i] == others[0]);
                    }
                }
            },
            HandRank::ThreeOfAKind => {
                crate::total_hand::lemma_rank_split(cards, sets[0]);
                let own = cards.filter(with_rank(sets[0]));
                let others = cards.filter(without_rank(sets[0]));
                assert forall|i: int| 0 <= i < 5 implies cards.contains(
                    #[trigger] best.cards[i],
                ) by {
                    if i < 3 {
                        lemma_picked_card(cards, with_rank(sets[0]), i);
                        assert(best.cards[i] == own[i]);
                    } else {
                        lemma_picked_card(cards, without_rank(sets[0]), i - 3);
                        assert(best.cards[i] == others[i - 3]);
                    }
                }
            },
            HandRank::Straight => {
                crate::straight::lemma_heads(present, 5);
                let key = crate::poker::poker_rank_key(crate::straight::straight_heads(present)[0]);
                assert(crate::straight::run_complete(present, key));
                assert forall|i: int| 0 <= i < 5 implies cards.contains(
                    #[trigger] best.cards[i],
                ) by {
                    assert(present(crate::straight::run_value(key, i)));
                    lemma_picked_card(cards, with_rank(crate::poker::rank_of_key(key - i)), 0);
                    assert(best.cards[i] == straight::run_card(cards, key, i));
                }
            },
            HandRank::Flush => {
                let suit = crate::total_hand::flush_suit(cards)->0;
                let own = cards.filter(with_suit(suit));
                assert forall|i: int| 0 <= i < 5 implies cards.contains(
                    #[trigger] best.cards[i],
                ) by {
                    lemma_picked_card(cards, with_suit(suit), i);
                    assert(best.cards[i] == own[i]);
                }
            },
            HandRank::FullHouse => {
                let pair_rank = full_house::full_house_pair_rank(cards);
                let triple = cards.filter(with_rank(sets[0]));
                let pair = cards.filter(with_rank(pair_rank));
                assert forall|i: int| 0 <= i < 5 implies cards.contains(
                    #[trigger] best.cards[i],
                ) by {
                    if i < 3 {
                        lemma_picked_card(cards, with_rank(sets[0]), i);
                        assert(best.cards[i] == triple[i]);
                    } else {
                        lemma_picked_card(cards, with_rank(pair_rank), i - 3);
                        assert(best.cards[i] == pair[i - 3]);
                    }
                }
            },
            HandRank::FourOfAKind => {
                let quad = crate::total_hand::quads_rank(cards)->0;
                crate::total_hand::lemma_rank_split(cards, quad);
                let own = cards.filter(with_rank(quad));
                let others = cards.filter(without_rank(quad));
                assert forall|i: int| 0 <= i < 5 implies cards.contains(
                    #[trigger] best.cards[i],
                ) by {
                    if i < 4 {
                        lemma_picked_card(cards, with_rank(quad), i);
                        assert(best.cards[i] == own[i]);
                    } else {
                        lemma_picked_card(cards, without_rank(quad), 0);
                        assert(best.cards[i] == others[0]);
                    }
                }
            },
            HandRank::StraightFlush => {
                lemma_straight_flush_cards_come_from_hand(cards);
            },
            HandRank::RoyalFlush => {
                lemma_straight_flush_cards_come_from_hand(cards);
            },
        }
    }
}

/// A straight flush is made of five cards of the hand.
proof fn lemma_straight_flush_cards_come_from_hand(cards: Seq<NonJokerCard>)
    ensures
        straight_flush::straight_flush_hand(cards) matches Some(best) ==> {
            &&& best.cards.len() == 5
            &&& forall|i: int| 0 <= i < 5 ==> cards.contains(#[trigger] best.cards[i])
        },
{
    if straight_flush::straight_flush_hand(cards) is Some {
        let best = straight_flush::straight_flush_hand(cards)->0;
        let suit = crate::total_hand::flush_suit(cards)->0;
        let heads = crate::straight::straight_heads(crate::total_hand::ranks_present(cards));
        lemma_first_suited_head(cards, suit, heads);
        let head = straight_flush::first_suited_head(cards, suit, heads)->0;
        let key = crate::poker::poker_rank_key(head);
        assert forall|i: int| 0 <= i < 5 implies cards.contains(#[trigger] best.cards[i]) by {
            assert(straight_flush::has_suited(cards, suit, key, i));
            lemma_picked_card(
                cards,
                with_rank_and_suit(crate::poker::rank_of_key(key - i), suit),
                0,
            );
            assert(best.cards[i] == straight_flush::suited_run_card(cards, suit, key, i));
        }
    }
}

/// Of the ten detectors exactly one gives the best hand: on five cards or
/// more there is a best hand, it is what the detector of its own category
/// builds, and the detector of every stronger category builds nothing. On
/// fewer than five cards no detector builds anything.
pub proof fn lemma_best_is_first_success(cards: Seq<NonJokerCard>)
    ensures
        best_five(cards) is Some <==> cards.len() >= 5,
        best_five(cards) matches Some(best) ==> {
            &&& detect(best.rank, cards) == Some(best)
            &&& forall|stronger: HandRank|
                stronger.strength() > best.rank.strength() ==> detect(stronger, cards) is None
        },
        cards.len() < 5 ==> forall|rank: HandRank| detect(rank, cards) is None,
{
    lemma_detect_own_category(HandRank::HighCard, cards);
    lemma_detect_own_category(HandRank::Pair, cards);
    lemma_detect_own_category(HandRank::TwoPairs, cards);
    lemma_detect_own_category(HandRank::ThreeOfAKind, cards);
    lemma_detect_own_category(HandRank::Straight, cards);
    lemma_detect_own_category(HandRank::Flush, cards);
    lemma_detect_own_category(HandRank::FullHouse, cards);
    lemma_detect_own_category(HandRank::FourOfAKind, cards);
    lemma_detect_own_category(HandRank::StraightFlush, cards);
    lemma_detect_own_category(HandRank::RoyalFlush, cards);
    assert forall|rank: HandRank| cards.len() < 5 implies detect(rank, cards) is None by {
        lemma_detect_own_category(rank, cards);
    }
}

impl TotalHand {
    /// Finds the best five-card hand among the cards.
    ///
    /// The detectors are asked from the strongest category to the weakest,
    /// and the first hand built is the answer. There is one exactly when the
    /// hand has five cards or more.
    pub fn find_best_five_hand(&self) -> (result: Option<BestFiveHand>)
        ensures
            found(result, best_five(self@)),
            result is Some <==> self@.len() >= 5,
    {
        proof {
            lemma_best_is_first_success(self@);
        }
        let royal = royal_flush::try_to_build_from_total_hand(self);
        if royal.is_some() {
            return royal;
        }
        let straight_flush = straight_flush::try_to_build_from_total_hand(self);
        if straight_flush.is_some() {
            return straight_flush;
        }
        let four = four_of_a_kind::try_to_build_from_total_hand(self);
        if four.is_some() {
            return four;
        }
        let full = full_house::try_to_build_from_total_hand(self);
        if full.is_some() {
            return full;
        }
        let flush = flush::try_to_build_from_total_hand(self);
        if flush.is_some() {
            return flush;
        }
        let straight = straight::try_to_build_from_total_hand(self);
        if straight.is_some() {
            return straight;
        }
        let three = three_of_a_kind::try_to_build_from_total_hand(self);
        if three.is_some() {
            return three;
        }
        let two = two_pairs::try_to_build_from_total_hand(self);
        if two.is_some() {
            return two;
        }
        let pair = pair::try_to_build_from_total_hand(self);
        if pair.is_some() {
            return pair;
        }
        high_card::try_to_build_from_total_hand(self)
    }
}

} // verus!
