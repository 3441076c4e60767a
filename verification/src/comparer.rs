use crate::card::NonJokerCard;
use crate::rank::CardRank;
use crate::suit::Suit;
use std::cmp::Ordering;
use vstd::prelude::*;
use vstd::string::StringExecFns;

verus! {

/// Compares card ranks, suits and cards on a configurable scale.
///
/// Every rank up to and including `highest_rank` (by canonical integer) is
/// lifted above the king, so that with the ace as highest rank the ace beats
/// the king. Each suit has a strength between 1 and 4, and no two suits share
/// one.
#[derive(Debug, Clone)]
pub struct CardComparer {
    highest_rank: CardRank,
    suit_strengths: [u8; 4],
}

/// How two integers compare.
pub open spec fn order_of(a: int, b: int) -> Ordering {
    if a < b {
        Ordering::Less
    } else if a == b {
        Ordering::Equal
    } else {
        Ordering::Greater
    }
}

/// The first ordering unless it is `Equal`, in which case the second.
pub open spec fn order_then(first: Ordering, second: Ordering) -> Ordering {
    if first == Ordering::Equal {
        second
    } else {
        first
    }
}

/// Whether the four suits of a suit order are all different.
pub open spec fn suits_distinct(suit_order: Seq<Suit>) -> bool {
    forall|i: int, j: int|
        0 <= i < j < suit_order.len() ==> #[trigger] suit_order[i] != #[trigger] suit_order[j]
}

/// The message for a suit order that repeats the suit at position `earlier`:
/// the strength already given to that suit, followed by a fixed text.
pub open spec fn duplicate_message(earlier: int) -> Seq<char> {
    seq![crate::rank::digit_symbol(4 - earlier)] + " is duplicated in suit order"@
}

impl CardComparer {
    /// The rank up to which ranks count as higher than the king.
    pub closed spec fn highest_rank(self) -> CardRank {
        self.highest_rank
    }

    /// The strength of a suit, between 1 and 4.
    pub closed spec fn strength(self, suit: Suit) -> int {
        self.suit_strengths[suit.index()] as int
    }

    /// Strengths lie between 1 and 4 and differ from suit to suit.
    pub open spec fn wf(self) -> bool {
        &&& forall|s: Suit| 1 <= #[trigger] self.strength(s) <= 4
        &&& forall|s: Suit, t: Suit| s != t ==> self.strength(s) != self.strength(t)
    }

    /// The key by which a rank is compared: its canonical integer, raised by
    /// 13 if it does not exceed the highest rank.
    pub open spec fn rank_key(self, rank: CardRank) -> int {
        if rank.value() <= self.highest_rank().value() {
            rank.value() + 13
        } else {
            rank.value()
        }
    }

    /// A comparer with the default suit order: spade, heart, diamond, club,
    /// strongest first.
    pub fn new(highest_rank: CardRank) -> (comparer: CardComparer)
        ensures
            comparer.wf(),
            comparer.highest_rank() == highest_rank,
            comparer.strength(Suit::Spade) == 4,
            comparer.strength(Suit::Heart) == 3,
            comparer.strength(Suit::Diamond) == 2,
            comparer.strength(Suit::Club) == 1,
    {
        CardComparer { highest_rank, suit_strengths: [4, 2, 3, 1] }
    }

    /// A comparer with the given suit order, strongest suit first.
    ///
    /// Fails exactly when a suit occurs twice in the order; the message names
    /// the strength that the first repeated suit had already been given.
    pub fn new_with_suit_order(highest_rank: CardRank, suit_order: [Suit; 4]) -> (result: Result<
        CardComparer,
        String,
    >)
        ensures
            result is Ok <==> suits_distinct(suit_order@),
            result matches Ok(comparer) ==> {
                &&& comparer.wf()
                &&& comparer.highest_rank() == highest_rank
                &&& forall|i: int|
                    0 <= i < 4 ==> comparer.strength(#[trigger] suit_order[i]) == 4 - i
            },
            result matches Err(message) ==> exists|i: int, j: int|
                {
                    &&& 0 <= i < j < 4
                    &&& suit_order[i] == suit_order[j]
                    &&& suits_distinct(suit_order@.take(j))
                    &&& message@ == duplicate_message(i)
                },
    {
        let mut strengths: [u8; 4] = [0, 0, 0, 0];
        let mut i: u8 = 0;
        while i < 4
            invariant
                i <= 4,
                suits_distinct(suit_order@.take(i as int)),
                forall|k: int|
                    0 <= k < i ==> strengths[(#[trigger] suit_order[k]).index()] == 4 - k,
                forall|s: Suit|
                    strengths[#[trigger] s.index()] == 0 <==> !suit_order@.take(
                        i as int,
                    ).contains(s),
                forall|s: Suit| 0 <= strengths[#[trigger] s.index()] <= 4,
            decreases 4 - i,
        {
            let suit = suit_order[i as usize];
            let slot = suit_slot(suit);
            let old_value: u8 = strengths[slot];
            if old_value != 0 {
                let mut message = String::new();
                message.append(crate::rank::symbol_str(crate::rank::digit_char(old_value)));
                message.append(" is duplicated in suit order");
                proof {
                    assert(suit_order@.take(i as int).contains(suit));
                    let e = choose|e: int|
                        0 <= e < suit_order@.take(i as int).len() && suit_order@.take(i as int)[e]
                            == suit;
                    assert(suit_order[e] == suit);
                    assert(strengths[suit_order[e].index()] == 4 - e);
                    assert(message@ =~= duplicate_message(e));
                    assert(!suits_distinct(suit_order@)) by {
                        assert(suit_order@[e] == suit_order@[i as int]);
                    }
                }
                return Err(message);
            }
            strengths[slot] = 4 - i;
            proof {
                let before = suit_order@.take(i as int);
                let after = suit_order@.take(i as int + 1);
                assert(after =~= before.push(suit));
                assert forall|s: Suit|
                    strengths[#[trigger] s.index()] == 0 <==> !after.contains(s) by {
                    if s == suit {
                        assert(after[i as int] == suit);
                    } else {
                        assert(s.index() != suit.index());
                        if before.contains(s) {
                            let e = choose|e: int| 0 <= e < before.len() && before[e] == s;
                            assert(after[e] == s);
                        }
                        if after.contains(s) {
                            let e = choose|e: int| 0 <= e < after.len() && after[e] == s;
                            assert(before[e] == s);
                        }
                    }
                }
                assert forall|k: int| 0 <= k < i + 1 implies strengths[(
                #[trigger] suit_order[k]).index()] == 4 - k by {
                    if k < i {
                        assert(before[k] == suit_order[k]);
                        assert(before.contains(suit_order[k]));
                        assert(suit_order[k] != suit);
                        assert(suit_order[k].index() != suit.index());
                    }
                }
                assert(suits_distinct(after)) by {
                    assert forall|a: int, b: int| 0 <= a < b < after.len() implies after[a]
                        != after[b] by {
                        if b == i {
                            assert(before[a] == after[a]);
                            assert(before.contains(after[a]));
                        } else {
                            assert(before[a] == after[a]);
                            assert(before[b] == after[b]);
                        }
                    }
                }
            }
            i += 1;
        }
        let comparer = CardComparer { highest_rank, suit_strengths: strengths };
        proof {
            assert(suit_order@.take(4) =~= suit_order@);
            assert forall|s: Suit| 1 <= #[trigger] comparer.strength(s) <= 4 by {
                lemma_four_distinct_suits_cover(suit_order@, s);
            }
            assert forall|s: Suit, t: Suit| s != t implies comparer.strength(s)
                != comparer.strength(t) by {
                lemma_four_distinct_suits_cover(suit_order@, s);
                lemma_four_distinct_suits_cover(suit_order@, t);
                let a = choose|a: int| 0 <= a < 4 && suit_order@[a] == s;
                let b = choose|b: int| 0 <= b < 4 && suit_order@[b] == t;
                assert(strengths[suit_order[a].index()] == 4 - a);
                assert(strengths[suit_order[b].index()] == 4 - b);
            }
        }
        Ok(comparer)
    }

    /// The key by which a rank is compared.
    pub fn adjust_card_rank_value(&self, target: &CardRank) -> (key: u8)
        ensures
            key == self.rank_key(*target),
            target.wf(),
    {
        let value: u8 = target.to_int();
        let highest: u8 = self.highest_rank.to_int();
        if value <= highest {
            value + 13
        } else {
            value
        }
    }

    /// Compares two ranks by their keys; `Greater` if the former is greater.
    pub fn cmp_card_ranks(&self, a: &CardRank, b: &CardRank) -> (ordering: Ordering)
        ensures
            ordering == order_of(self.rank_key(*a), self.rank_key(*b)),
    {
        let x: u8 = self.adjust_card_rank_value(a);
        let y: u8 = self.adjust_card_rank_value(b);
        if x < y {
            Ordering::Less
        } else if x == y {
            Ordering::Equal
        } else {
            Ordering::Greater
        }
    }

    /// Compares two suits by strength; `Greater` if the former is stronger.
    pub fn cmp_suits(&self, a: &Suit, b: &Suit) -> (ordering: Ordering)
        ensures
            ordering == order_of(self.strength(*a), self.strength(*b)),
    {
        let x: u8 = self.suit_strengths[suit_slot(*a)];
        let y: u8 = self.suit_strengths[suit_slot(*b)];
        if x < y {
            Ordering::Less
        } else if x == y {
            Ordering::Equal
        } else {
            Ordering::Greater
        }
    }

    /// Compares two cards by rank first, then by suit; `Greater` if the
    /// former is greater.
    pub fn cmp_cards(&self, a: &NonJokerCard, b: &NonJokerCard) -> (ordering: Ordering)
        ensures
            ordering == order_then(
                order_of(self.rank_key(a.rank), self.rank_key(b.rank)),
                order_of(self.strength(a.suit), self.strength(b.suit)),
            ),
    {
        let by_rank = self.cmp_card_ranks(&a.rank, &b.rank);
        match by_rank {
            Ordering::Equal => self.cmp_suits(&a.suit, &b.suit),
            _ => by_rank,
        }
    }
}

/// Position of a suit in declaration order.
pub fn suit_slot(suit: Suit) -> (slot: usize)
    ensures
        slot == suit.index(),
{
    match suit {
        Suit::Spade => 0,
        Suit::Diamond => 1,
        Suit::Heart => 2,
        Suit::Club => 3,
    }
}

/// Four different suits are all the suits there are.
pub proof fn lemma_four_distinct_suits_cover(suit_order: Seq<Suit>, suit: Suit)
    requires
        suit_order.len() == 4,
        suits_distinct(suit_order),
    ensures
        exists|a: int| 0 <= a < 4 && suit_order[a] == suit,
{
    let a = suit_order[0];
    let b = suit_order[1];
    let c = suit_order[2];
    let d = suit_order[3];
    assert(a != b && a != c && a != d && b != c && b != d && c != d);
    if a == suit {
    } else if b == suit {
    } else if c == suit {
    } else {
        assert(d == suit);
    }
}

} // verus!
