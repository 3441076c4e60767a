use vstd::prelude::*;
use vstd::string::StringExecFns;

verus! {

/// The rank of a card: ace, the three picture cards, or a number from 2 to 10.
#[derive(Debug, PartialEq, Eq, Copy, Clone, Hash, Structural)]
pub enum CardRank {
    Ace,
    King,
    Queen,
    Jack,
    Number(CardRankNumber),
}

/// The face value of a number card, always between 2 and 10.
#[derive(Debug, PartialEq, Eq, Copy, Clone, Hash, Structural)]
pub struct CardRankNumber {
    value: u8,
}

impl CardRankNumber {
    #[verifier::type_invariant]
    pub closed spec fn in_range(self) -> bool {
        2 <= self.value <= 10
    }

    /// The face value as a mathematical integer.
    pub closed spec fn value(self) -> int {
        self.value as int
    }

    /// A number rank with the given face value.
    pub fn new(value: u8) -> (number: CardRankNumber)
        requires
            2 <= value <= 10,
        ensures
            number.value() == value,
            number.wf(),
    {
        CardRankNumber { value }
    }

    /// Holds of every number rank that executable code can reach.
    pub open spec fn wf(self) -> bool {
        2 <= self.value() <= 10
    }

    /// The face value.
    pub fn get(self) -> (value: u8)
        ensures
            value == self.value(),
            self.wf(),
    {
        proof {
            use_type_invariant(&self);
        }
        self.value
    }
}

impl CardRank {
    /// The canonical integer of the rank: 1 for the ace, 11 to 13 for jack,
    /// queen and king, the face value for a number card.
    pub open spec fn value(self) -> int {
        match self {
            CardRank::Ace => 1,
            CardRank::King => 13,
            CardRank::Queen => 12,
            CardRank::Jack => 11,
            CardRank::Number(n) => n.value(),
        }
    }

    /// A rank is well formed when its number, if it has one, lies between 2
    /// and 10. Every rank built by executable code is.
    pub open spec fn wf(self) -> bool {
        match self {
            CardRank::Number(n) => n.wf(),
            _ => true,
        }
    }

    /// The rank whose canonical integer is `value`, for 1 to 13.
    pub closed spec fn of_value(value: int) -> CardRank {
        if value == 1 {
            CardRank::Ace
        } else if value == 13 {
            CardRank::King
        } else if value == 12 {
            CardRank::Queen
        } else if value == 11 {
            CardRank::Jack
        } else {
            CardRank::Number(CardRankNumber { value: value as u8 })
        }
    }

    /// The rank whose canonical integer is `value`.
    pub fn new(value: u8) -> (rank: CardRank)
        requires
            1 <= value <= 13,
        ensures
            rank == CardRank::of_value(value as int),
            rank.value() == value,
            rank.wf(),
    {
        match value {
            1 => CardRank::Ace,
            13 => CardRank::King,
            12 => CardRank::Queen,
            11 => CardRank::Jack,
            _ => CardRank::Number(CardRankNumber::new(value)),
        }
    }

    /// The rank whose canonical integer is `value`, or nothing if `value` is
    /// not between 1 and 13.
    pub fn try_new(value: u8) -> (rank: Option<CardRank>)
        ensures
            rank is Some <==> 1 <= value <= 13,
            rank matches Some(r) ==> r == CardRank::of_value(value as int) && r.value() == value
                && r.wf(),
    {
        if 1 <= value && value <= 13 {
            Some(CardRank::new(value))
        } else {
            None
        }
    }

    /// The canonical integer of the rank.
    pub fn to_int(self) -> (value: u8)
        ensures
            value == self.value(),
            1 <= value <= 13,
            self.wf(),
    {
        match self {
            CardRank::Ace => 1,
            CardRank::King => 13,
            CardRank::Queen => 12,
            CardRank::Jack => 11,
            CardRank::Number(n) => n.get(),
        }
    }
}

impl CardRank {
    /// All thirteen ranks, from the ace (1) up to the king (13).
    pub fn all() -> (ranks: [CardRank; 13])
        ensures
            forall|i: int| 0 <= i < 13 ==> (#[trigger] ranks[i]).value() == i + 1,
            forall|i: int| 0 <= i < 13 ==> (#[trigger] ranks[i]).wf(),
    {
        [
            Self::new(1),
            Self::new(2),
            Self::new(3),
            Self::new(4),
            Self::new(5),
            Self::new(6),
            Self::new(7),
            Self::new(8),
            Self::new(9),
            Self::new(10),
            Self::new(11),
            Self::new(12),
            Self::new(13),
        ]
    }

    /// The one-character symbol of the rank: a letter for ace, king, queen,
    /// jack and ten, the digit for the numbers 2 to 9.
    pub open spec fn symbol(self) -> char {
        match self {
            CardRank::Ace => 'A',
            CardRank::King => 'K',
            CardRank::Queen => 'Q',
            CardRank::Jack => 'J',
            CardRank::Number(n) => if n.value() == 10 {
                'T'
            } else {
                digit_symbol(n.value())
            },
        }
    }

    /// The one-character symbol of the rank.
    pub fn to_char(self) -> (symbol: char)
        ensures
            symbol == self.symbol(),
    {
        match self {
            CardRank::Ace => 'A',
            CardRank::King => 'K',
            CardRank::Queen => 'Q',
            CardRank::Jack => 'J',
            CardRank::Number(n) => {
                let v: u8 = n.get();
                if v == 10 {
                    'T'
                } else {
                    digit_char(v)
                }
            },
        }
    }

    /// The printed form of the rank: "10" for the ten, the symbol otherwise.
    pub open spec fn text(self) -> Seq<char> {
        if self.value() == 10 {
            seq!['1', '0']
        } else {
            seq![self.symbol()]
        }
    }

    /// The printed form of the rank.
    pub fn to_string(self) -> (text: String)
        ensures
            text@ == self.text(),
    {
        let v: u8 = self.to_int();
        let mut text = String::new();
        if v == 10 {
            text.append("10");
            proof {
                reveal_strlit("10");
                assert(text@ =~= seq!['1', '0']);
            }
        } else {
            text.append(symbol_str(self.to_char()));
            assert(text@ =~= seq![self.symbol()]);
        }
        text
    }

    /// Only the ace is an ace.
    pub fn is_ace(self) -> (ace: bool)
        ensures
            ace == (self == CardRank::Ace),
    {
        match self {
            CardRank::Ace => true,
            _ => false,
        }
    }

    /// King, queen and jack are the picture cards.
    pub fn is_picture_card(self) -> (picture: bool)
        ensures
            picture == (self == CardRank::King || self == CardRank::Queen || self
                == CardRank::Jack),
    {
        match self {
            CardRank::King | CardRank::Queen | CardRank::Jack => true,
            _ => false,
        }
    }
}

/// The character of a decimal digit; `'0'` outside 1 to 9.
pub open spec fn digit_symbol(v: int) -> char {
    if v == 1 {
        '1'
    } else if v == 2 {
        '2'
    } else if v == 3 {
        '3'
    } else if v == 4 {
        '4'
    } else if v == 5 {
        '5'
    } else if v == 6 {
        '6'
    } else if v == 7 {
        '7'
    } else if v == 8 {
        '8'
    } else if v == 9 {
        '9'
    } else {
        '0'
    }
}

/// The character of a decimal digit.
pub fn digit_char(v: u8) -> (c: char)
    ensures
        c == digit_symbol(v as int),
{
    match v {
        1 => '1',
        2 => '2',
        3 => '3',
        4 => '4',
        5 => '5',
        6 => '6',
        7 => '7',
        8 => '8',
        9 => '9',
        _ => '0',
    }
}

/// Whether a character is one of the symbols a rank or a digit prints as.
pub open spec fn is_rank_symbol(c: char) -> bool {
    c == 'A' || c == 'K' || c == 'Q' || c == 'J' || c == 'T' || c == '0' || c == '1' || c == '2'
        || c == '3' || c == '4' || c == '5' || c == '6' || c == '7' || c == '8' || c == '9'
}

/// The one-character string of a rank symbol or digit.
pub fn symbol_str(c: char) -> (s: &'static str)
    requires
        is_rank_symbol(c),
    ensures
        s@ == seq![c],
{
    proof {
        reveal_strlit("A");
        reveal_strlit("K");
        reveal_strlit("Q");
        reveal_strlit("J");
        reveal_strlit("T");
        reveal_strlit("0");
        reveal_strlit("1");
        reveal_strlit("2");
        reveal_strlit("3");
        reveal_strlit("4");
        reveal_strlit("5");
        reveal_strlit("6");
        reveal_strlit("7");
        reveal_strlit("8");
        reveal_strlit("9");
    }
    let s = match c {
        'A' => "A",
        'K' => "K",
        'Q' => "Q",
        'J' => "J",
        'T' => "T",
        '1' => "1",
        '2' => "2",
        '3' => "3",
        '4' => "4",
        '5' => "5",
        '6' => "6",
        '7' => "7",
        '8' => "8",
        '9' => "9",
        _ => "0",
    };
    assert(s@ =~= seq![c]);
    s
}

/// Building a rank from an integer between 1 and 13 and reading its integer
/// back gives the integer, and building a rank from the integer of a
/// well-formed rank gives that rank.
pub proof fn lemma_rank_round_trip(value: int, rank: CardRank)
    ensures
        1 <= value <= 13 ==> CardRank::of_value(value).value() == value && CardRank::of_value(
            value,
        ).wf(),
        rank.wf() ==> 1 <= rank.value() <= 13 && CardRank::of_value(rank.value()) == rank,
{
}

/// No rank stands for an integer outside 1 to 13: the canonical integer of a
/// well-formed rank is never such an integer.
pub proof fn lemma_no_rank_outside_range(value: int, rank: CardRank)
    requires
        value < 1 || value > 13,
        rank.wf(),
    ensures
        rank.value() != value,
{
}

/// Two well-formed ranks with the same canonical integer are the same rank.
pub proof fn lemma_rank_value_injective(a: CardRank, b: CardRank)
    requires
        a.wf(),
        b.wf(),
        a.value() == b.value(),
    ensures
        a == b,
{
}

} // verus!
