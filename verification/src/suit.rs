use vstd::prelude::*;

verus! {

/// One of the four suits of a standard deck.
#[derive(Debug, PartialEq, Eq, Copy, Clone, Hash, PartialOrd, Ord, Structural)]
pub enum Suit {
    Spade,
    Diamond,
    Heart,
    Club,
}

/// The colour in which a suit is printed.
#[derive(Debug, PartialEq, Eq, Hash, Structural)]
pub enum SuitColor {
    Black,
    Red,
}

impl Suit {
    /// Position of the suit in declaration order, from 0 to 3.
    pub open spec fn index(self) -> int {
        match self {
            Suit::Spade => 0,
            Suit::Diamond => 1,
            Suit::Heart => 2,
            Suit::Club => 3,
        }
    }

    /// The suit at a position of the declaration order.
    pub open spec fn of_index(i: int) -> Suit {
        if i == 0 {
            Suit::Spade
        } else if i == 1 {
            Suit::Diamond
        } else if i == 2 {
            Suit::Heart
        } else {
            Suit::Club
        }
    }

    /// All four suits, in declaration order.
    pub fn all() -> (suits: [Suit; 4])
        ensures
            forall|i: int| 0 <= i < 4 ==> #[trigger] suits[i] == Suit::of_index(i),
    {
        [Suit::Spade, Suit::Diamond, Suit::Heart, Suit::Club]
    }

    /// Spades and clubs are black, diamonds and hearts are red.
    pub fn color(self) -> (color: SuitColor)
        ensures
            color == (if self == Suit::Club || self == Suit::Spade {
                SuitColor::Black
            } else {
                SuitColor::Red
            }),
    {
        match self {
            Suit::Club | Suit::Spade => SuitColor::Black,
            Suit::Diamond | Suit::Heart => SuitColor::Red,
        }
    }

    /// The one-character symbol of the suit.
    pub fn to_char(self) -> (symbol: char)
        ensures
            symbol == self.symbol(),
    {
        match self {
            Suit::Club => '\u{2663}',
            Suit::Spade => '\u{2660}',
            Suit::Diamond => '\u{2666}',
            Suit::Heart => '\u{2665}',
        }
    }

    pub open spec fn symbol(self) -> char {
        match self {
            Suit::Club => '\u{2663}',
            Suit::Spade => '\u{2660}',
            Suit::Diamond => '\u{2666}',
            Suit::Heart => '\u{2665}',
        }
    }
}

} // verus!
