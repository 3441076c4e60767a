use crate::rank::CardRank;
use crate::suit::Suit;
use vstd::prelude::*;
use vstd::string::StringExecFns;

verus! {

/// A card of a deck that may hold jokers.
#[derive(Debug, PartialEq, Eq, Copy, Clone, Hash, Structural)]
pub enum Card {
    Joker,
    Other(NonJokerCard),
}

/// A card with a suit and a rank.
#[derive(Debug, PartialEq, Eq, Copy, Clone, Hash, Structural)]
pub struct NonJokerCard {
    pub suit: Suit,
    pub rank: CardRank,
}

/// The card at a position of the standard deck: suits in declaration order,
/// and within a suit the ranks from ace (1) to king (13).
pub open spec fn standard_card_holds(card: NonJokerCard, position: int) -> bool {
    &&& card.suit == Suit::of_index(position / 13)
    &&& card.rank.value() == position % 13 + 1
    &&& card.rank.wf()
}

/// The cards of a standard deck, in order.
pub open spec fn is_standard_deck(cards: Seq<NonJokerCard>) -> bool {
    &&& cards.len() == 52
    &&& forall|i: int| 0 <= i < 52 ==> standard_card_holds(#[trigger] cards[i], i)
}

impl Card {
    /// The non-joker card of the given suit and rank.
    pub fn new(suit: Suit, rank: CardRank) -> (card: Card)
        ensures
            card == Card::Other(NonJokerCard { suit, rank }),
    {
        Self::Other(NonJokerCard { suit, rank })
    }

    /// The 52 standard cards followed by one joker.
    pub fn all_cards_with_one_joker() -> (cards: Vec<Card>)
        ensures
            cards.len() == 53,
            cards[52] == Card::Joker,
            forall|i: int|
                0 <= i < 52 ==> ((#[trigger] cards[i]) matches Card::Other(c)
                    && standard_card_holds(c, i)),
    {
        let plain = NonJokerCard::all();
        let mut cards: Vec<Card> = Vec::new();
        let mut i: usize = 0;
        while i < 52
            invariant
                i <= 52,
                is_standard_deck(plain@),
                cards.len() == i,
                forall|k: int| 0 <= k < i ==> #[trigger] cards[k] == Card::Other(plain[k]),
            decreases 52 - i,
        {
            cards.push(Card::Other(plain[i]));
            i += 1;
        }
        cards.push(Card::Joker);
        cards
    }

    /// The 52 standard cards followed by two jokers.
    pub fn all_cards_with_two_jokers() -> (cards: Vec<Card>)
        ensures
            cards.len() == 54,
            cards[52] == Card::Joker,
            cards[53] == Card::Joker,
            forall|i: int|
                0 <= i < 52 ==> ((#[trigger] cards[i]) matches Card::Other(c)
                    && standard_card_holds(c, i)),
    {
        let mut cards: Vec<Card> = Self::all_cards_with_one_joker();
        cards.push(Card::Joker);
        cards
    }
}

impl NonJokerCard {
    /// The card of the given suit and rank.
    pub fn new(suit: Suit, rank: CardRank) -> (card: NonJokerCard)
        ensures
            card == (NonJokerCard { suit, rank }),
    {
        Self { suit, rank }
    }

    /// The 52 cards of a standard deck: spades, diamonds, hearts, clubs, each
    /// from ace to king.
    pub fn all() -> (cards: Vec<NonJokerCard>)
        ensures
            is_standard_deck(cards@),
    {
        let suits = Suit::all();
        let ranks = CardRank::all();
        let mut cards: Vec<NonJokerCard> = Vec::new();
        let mut s: usize = 0;
        while s < 4
            invariant
                s <= 4,
                cards.len() == s * 13,
                forall|i: int| 0 <= i < 4 ==> #[trigger] suits[i] == Suit::of_index(i),
                forall|i: int| 0 <= i < 13 ==> (#[trigger] ranks[i]).value() == i + 1,
                forall|i: int| 0 <= i < 13 ==> (#[trigger] ranks[i]).wf(),
                forall|i: int| 0 <= i < cards.len() ==> standard_card_holds(#[trigger] cards[i], i),
            decreases 4 - s,
        {
            let mut r: usize = 0;
            while r < 13
                invariant
                    s < 4,
                    r <= 13,
                    cards.len() == s * 13 + r,
                    forall|i: int| 0 <= i < 4 ==> #[trigger] suits[i] == Suit::of_index(i),
                    forall|i: int| 0 <= i < 13 ==> (#[trigger] ranks[i]).value() == i + 1,
                    forall|i: int| 0 <= i < 13 ==> (#[trigger] ranks[i]).wf(),
                    forall|i: int|
                        0 <= i < cards.len() ==> standard_card_holds(#[trigger] cards[i], i),
                decreases 13 - r,
            {
                cards.push(NonJokerCard { suit: suits[s], rank: ranks[r] });
                r += 1;
            }
            s += 1;
        }
        cards
    }

    /// The suit of the card.
    pub fn suit(self) -> (suit: Suit)
        ensures
            suit == self.suit,
    {
        self.suit
    }

    /// The rank of the card.
    pub fn rank(self) -> (rank: CardRank)
        ensures
            rank == self.rank,
    {
        self.rank
    }

    /// The printed form of the card: the suit's symbol, then the rank's.
    pub open spec fn text(self) -> Seq<char> {
        seq![self.suit.symbol(), self.rank.symbol()]
    }

    /// The printed form of the card.
    pub fn to_string(self) -> (text: String)
        ensures
            text@ == self.text(),
    {
        proof {
            reveal_strlit("\u{2663}");
            reveal_strlit("\u{2660}");
            reveal_strlit("\u{2666}");
            reveal_strlit("\u{2665}");
        }
        let mut text = String::new();
        match self.suit {
            Suit::Club => text.append("\u{2663}"),
            Suit::Spade => text.append("\u{2660}"),
            Suit::Diamond => text.append("\u{2666}"),
            Suit::Heart => text.append("\u{2665}"),
        }
        assert(text@ =~= seq![self.suit.symbol()]);
        text.append(crate::rank::symbol_str(self.rank.to_char()));
        assert(text@ =~= self.text());
        text
    }
}

} // verus!
