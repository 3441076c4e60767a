use crate::card::NonJokerCard;
use crate::poker::{card_outranks, key_of_rank, poker_card_key};
use crate::rank::{symbol_str, CardRank};
use crate::suit::Suit;
use vstd::prelude::*;
use vstd::string::StringExecFns;

verus! {

/// The two hole cards of a player, the higher card first.
#[derive(Debug, PartialEq, Eq, Copy, Clone, Hash, Structural)]
pub struct Hand(NonJokerCard, NonJokerCard);

/// A starting hand is a hand of two hole cards.
pub type StartingHand = Hand;

impl Hand {
    #[verifier::type_invariant]
    closed spec fn inv(self) -> bool {
        &&& poker_card_key(self.0) >= poker_card_key(self.1)
        &&& self.0.rank.wf()
        &&& self.1.rank.wf()
    }

    /// The card stored first.
    pub closed spec fn higher(self) -> NonJokerCard {
        self.0
    }

    /// The card stored second.
    pub closed spec fn lower(self) -> NonJokerCard {
        self.1
    }

    /// The hand of two cards: the card that ranks above the other comes
    /// first, by rank with the ace high and then by suit.
    pub closed spec fn of(a: NonJokerCard, b: NonJokerCard) -> Hand {
        if poker_card_key(a) > poker_card_key(b) {
            Hand(a, b)
        } else {
            Hand(b, a)
        }
    }

    /// Whether the two cards of the hand are the given two, in either order.
    pub open spec fn holds(self, a: NonJokerCard, b: NonJokerCard) -> bool {
        ||| self.higher() == a && self.lower() == b
        ||| self.higher() == b && self.lower() == a
    }

    /// What holds of every hand that executable code can reach: the first
    /// card does not rank below the second, and both ranks are well formed.
    pub open spec fn wf(self) -> bool {
        &&& poker_card_key(self.higher()) >= poker_card_key(self.lower())
        &&& self.higher().rank.wf()
        &&& self.lower().rank.wf()
    }

    /// The hand of the two cards, whichever is given first.
    pub fn new(a: NonJokerCard, b: NonJokerCard) -> (hand: Hand)
        ensures
            hand == Hand::of(a, b),
            hand.wf(),
            hand.holds(a, b),
            poker_card_key(a) > poker_card_key(b) ==> hand.higher() == a && hand.lower() == b,
            poker_card_key(a) <= poker_card_key(b) ==> hand.higher() == b && hand.lower() == a,
    {
        // Reading the keys establishes that both ranks are well formed.
        let _ = key_of_rank(a.rank);
        let _ = key_of_rank(b.rank);
        if card_outranks(a, b) {
            Self(a, b)
        } else {
            Self(b, a)
        }
    }

    /// The higher card.
    pub fn higher_card(self) -> (card: NonJokerCard)
        ensures
            card == self.higher(),
            self.wf(),
    {
        proof {
            use_type_invariant(&self);
        }
        self.0
    }

    /// The lower card.
    pub fn lower_card(self) -> (card: NonJokerCard)
        ensures
            card == self.lower(),
            self.wf(),
    {
        proof {
            use_type_invariant(&self);
        }
        self.1
    }

    /// Both cards, the higher first.
    pub fn both_cards(self) -> (cards: [NonJokerCard; 2])
        ensures
            cards@ == seq![self.higher(), self.lower()],
            self.wf(),
    {
        proof {
            use_type_invariant(&self);
        }
        let cards = [self.0, self.1];
        assert(cards@ =~= seq![self.higher(), self.lower()]);
        cards
    }

    /// Whether one of the cards has the rank.
    pub open spec fn holds_rank(self, rank: CardRank) -> bool {
        self.higher().rank == rank || self.lower().rank == rank
    }

    /// Whether one of the cards has the rank.
    pub fn has_rank_of(self, rank: CardRank) -> (has: bool)
        ensures
            has == self.holds_rank(rank),
    {
        self.0.rank == rank || self.1.rank == rank
    }

    /// Whether one of the cards has one of the ranks.
    pub fn has_any_rank_of(self, ranks: &[CardRank]) -> (has: bool)
        ensures
            has == exists|i: int| 0 <= i < ranks@.len() && self.holds_rank(#[trigger] ranks@[i]),
    {
        let mut i: usize = 0;
        while i < ranks.len()
            invariant
                i <= ranks@.len(),
                forall|k: int| 0 <= k < i ==> !self.holds_rank(#[trigger] ranks@[k]),
            decreases ranks@.len() - i,
        {
            if self.has_rank_of(ranks[i]) {
                return true;
            }
            i += 1;
        }
        false
    }

    /// Whether both cards have the same suit.
    pub fn is_suited(self) -> (suited: bool)
        ensures
            suited == (self.higher().suit == self.lower().suit),
    {
        self.0.suit == self.1.suit
    }

    /// Whether one of the cards has the suit.
    pub fn has_suit_of(self, suit: Suit) -> (has: bool)
        ensures
            has == (self.higher().suit == suit || self.lower().suit == suit),
    {
        self.0.suit == suit || self.1.suit == suit
    }

    /// Whether both cards have the suit.
    pub fn is_suited_in(self, suit: Suit) -> (suited: bool)
        ensures
            suited == (self.higher().suit == suit && self.lower().suit == suit),
    {
        self.is_suited() && self.has_suit_of(suit)
    }

    /// Whether both cards have the same rank.
    pub fn is_pair(self) -> (pair: bool)
        ensures
            pair == (self.higher().rank == self.lower().rank),
    {
        self.0.rank == self.1.rank
    }

    /// Whether both cards have the rank.
    pub fn is_pair_of(self, rank: CardRank) -> (pair: bool)
        ensures
            pair == (self.higher().rank == rank && self.lower().rank == rank),
    {
        self.is_pair() && self.has_rank_of(rank)
    }

    /// Whether the lower card's rank lies `gap` below the higher card's, the
    /// ace counting as high next to the king and as low next to the two.
    pub open spec fn ranks_apart(self, gap: int) -> bool {
        if self.higher().rank == CardRank::Ace {
            self.lower().rank.value() == 14 - gap || self.lower().rank.value() == 1 + gap
        } else {
            self.lower().rank.value() == self.higher().rank.value() - gap
        }
    }

    /// Whether the ranks of the two cards are neighbours.
    pub fn is_connector(self) -> (connector: bool)
        ensures
            connector == self.ranks_apart(1),
    {
        let low: u8 = self.1.rank.to_int();
        match self.0.rank {
            CardRank::Ace => low == 13 || low == 2,
            _ => {
                let high: u8 = self.0.rank.to_int();
                assert(high != 1) by {
                    if high == 1 {
                        crate::rank::lemma_rank_value_injective(self.0.rank, CardRank::Ace);
                    }
                }
                low == high - 1
            },
        }
    }

    /// Whether both cards have the same suit and neighbouring ranks.
    pub fn is_suited_connector(self) -> (suited_connector: bool)
        ensures
            suited_connector == (self.higher().suit == self.lower().suit && self.ranks_apart(1)),
    {
        self.is_suited() && self.is_connector()
    }

    /// Whether exactly one rank lies between the ranks of the two cards.
    pub fn is_one_gapper(self) -> (gapper: bool)
        ensures
            gapper == self.ranks_apart(2),
    {
        let low: u8 = self.1.rank.to_int();
        match self.0.rank {
            CardRank::Ace => low == 12 || low == 3,
            _ => {
                let high: u8 = self.0.rank.to_int();
                assert(high != 1) by {
                    if high == 1 {
                        crate::rank::lemma_rank_value_injective(self.0.rank, CardRank::Ace);
                    }
                }
                low == high - 2
            },
        }
    }

    /// Whether both cards have the same suit and exactly one rank between
    /// theirs.
    pub fn is_suited_one_gapper(self) -> (suited_gapper: bool)
        ensures
            suited_gapper == (self.higher().suit == self.lower().suit && self.ranks_apart(2)),
    {
        self.is_suited() && self.is_one_gapper()
    }

    /// The shape of the hand: the symbols of the two ranks, the higher
    /// first, followed by nothing for a pair, by `s` for two cards of one
    /// suit, and by `o` otherwise.
    pub open spec fn shape(self) -> Seq<char> {
        let ranks = seq![self.higher().rank.symbol(), self.lower().rank.symbol()];
        if self.higher().rank == self.lower().rank {
            ranks
        } else if self.higher().suit == self.lower().suit {
            ranks.push('s')
        } else {
            ranks.push('o')
        }
    }

    /// The shape of the hand, such as `AKs`, `77` or `T9o`.
    pub fn summary(self) -> (summary: String)
        ensures
            summary@ == self.shape(),
    {
        proof {
            reveal_strlit("s");
            reveal_strlit("o");
        }
        let mut summary = String::new();
        summary.append(symbol_str(self.0.rank.to_char()));
        summary.append(symbol_str(self.1.rank.to_char()));
        assert(summary@ =~= seq![self.higher().rank.symbol(), self.lower().rank.symbol()]);
        if self.is_pair() {
        } else if self.is_suited() {
            summary.append("s");
            assert(summary@ =~= self.shape());
        } else {
            summary.append("o");
            assert(summary@ =~= self.shape());
        }
        summary
    }

    /// The printed form of the hand: both cards between square brackets.
    pub open spec fn text(self) -> Seq<char> {
        seq!['['] + self.higher().text() + seq![' '] + self.lower().text() + seq![']']
    }

    /// The printed form of the hand.
    pub fn to_string(self) -> (text: String)
        ensures
            text@ == self.text(),
    {
        proof {
            reveal_strlit("[");
            reveal_strlit(" ");
            reveal_strlit("]");
        }
        let mut text = String::new();
        text.append("[");
        let first = self.0.to_string();
        text.append(first.as_str());
        text.append(" ");
        let second = self.1.to_string();
        text.append(second.as_str());
        text.append("]");
        assert(text@ =~= self.text());
        text
    }
}

/// Which cards the hand of two cards holds: the card that ranks above the
/// other is its higher card and the other its lower card; of two cards that
/// rank alike, the second given is the higher card.
pub proof fn lemma_hand_of_cards(a: NonJokerCard, b: NonJokerCard)
    ensures
        poker_card_key(a) > poker_card_key(b) ==> Hand::of(a, b).higher() == a && Hand::of(
            a,
            b,
        ).lower() == b,
        poker_card_key(a) <= poker_card_key(b) ==> Hand::of(a, b).higher() == b && Hand::of(
            a,
            b,
        ).lower() == a,
        Hand::of(a, b).holds(a, b),
{
}

/// A hand is fixed by its two cards.
pub proof fn lemma_hand_is_its_cards(first: Hand, second: Hand)
    requires
        first.higher() == second.higher(),
        first.lower() == second.lower(),
    ensures
        first == second,
{
}

/// A hand does not depend on the order in which its two cards are given.
pub proof fn lemma_hand_is_canonical(a: NonJokerCard, b: NonJokerCard)
    requires
        a.rank.wf(),
        b.rank.wf(),
    ensures
        Hand::of(a, b) == Hand::of(b, a),
        Hand::of(a, b).wf(),
{
    if poker_card_key(a) == poker_card_key(b) {
        crate::poker::lemma_card_key_injective(a, b);
    }
}

} // verus!
