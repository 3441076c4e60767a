use crate::poker::{
    lemma_key_round_trip, poker_rank_key, rank_for_key, rank_of_key, value_of_key,
};
use crate::rank::CardRank;
use vstd::prelude::*;

verus! {

/// Which straights a set of ranks completes, and which ranks would complete
/// one.
#[derive(Debug, PartialEq, Eq, Clone)]
pub struct RanksOfStraight {
    /// Head ranks of the completed straights, highest first.
    pub ranks_of_head: Vec<CardRank>,
    /// Ranks that are absent and would complete a straight, highest first.
    pub ranks_of_draw: Vec<CardRank>,
}

/// The canonical integer of the rank at position `j` (0 to 4, from the head
/// down) of the straight headed by the rank with poker key `head_key` (5 to
/// 14). The five-high straight ends in the ace.
pub open spec fn run_value(head_key: int, j: int) -> int {
    value_of_key(head_key - j)
}

/// Whether all five ranks of the straight headed by `head_key` are among
/// those that `present` holds of.
pub open spec fn run_complete(present: spec_fn(int) -> bool, head_key: int) -> bool {
    &&& present(run_value(head_key, 0))
    &&& present(run_value(head_key, 1))
    &&& present(run_value(head_key, 2))
    &&& present(run_value(head_key, 3))
    &&& present(run_value(head_key, 4))
}

/// 1 if the rank is absent, 0 if it is present.
pub open spec fn absent(present: spec_fn(int) -> bool, value: int) -> int {
    if present(value) {
        0
    } else {
        1
    }
}

/// How many of the five ranks of the straight headed by `head_key` are absent.
pub open spec fn run_missing(present: spec_fn(int) -> bool, head_key: int) -> int {
    absent(present, run_value(head_key, 0)) + absent(present, run_value(head_key, 1)) + absent(
        present,
        run_value(head_key, 2),
    ) + absent(present, run_value(head_key, 3)) + absent(present, run_value(head_key, 4))
}

/// Whether the rank with canonical integer `value` belongs to the straight
/// headed by `head_key`.
pub open spec fn in_run(head_key: int, value: int) -> bool {
    ||| value == run_value(head_key, 0)
    ||| value == run_value(head_key, 1)
    ||| value == run_value(head_key, 2)
    ||| value == run_value(head_key, 3)
    ||| value == run_value(head_key, 4)
}

/// Whether the rank with canonical integer `value` is the only rank missing
/// from the straight headed by `head_key`.
pub open spec fn run_lacks_only(present: spec_fn(int) -> bool, head_key: int, value: int) -> bool {
    &&& in_run(head_key, value)
    &&& !present(value)
    &&& run_missing(present, head_key) == 1
}

/// Whether one of the straights headed by the keys from `low` up to 14 lacks
/// exactly the rank with canonical integer `value`.
pub open spec fn is_draw_from(present: spec_fn(int) -> bool, value: int, low: int) -> bool
    decreases 15 - low,
{
    if low > 14 {
        false
    } else {
        run_lacks_only(present, low, value) || is_draw_from(present, value, low + 1)
    }
}

/// Whether one more card of the rank with canonical integer `value` would
/// complete a straight that now lacks exactly that rank.
pub open spec fn is_draw_value(present: spec_fn(int) -> bool, value: int) -> bool {
    is_draw_from(present, value, 5)
}

/// The head ranks of the completed straights among the keys from 14 down to
/// `low`, highest first.
pub open spec fn heads_down_to(present: spec_fn(int) -> bool, low: int) -> Seq<CardRank>
    decreases 15 - low,
{
    if low > 14 {
        Seq::empty()
    } else {
        let higher = heads_down_to(present, low + 1);
        if run_complete(present, low) {
            higher.push(rank_of_key(low))
        } else {
            higher
        }
    }
}

/// The draw ranks among the keys from 14 down to `low`, highest first.
pub open spec fn draws_down_to(present: spec_fn(int) -> bool, low: int) -> Seq<CardRank>
    decreases 15 - low,
{
    if low > 14 {
        Seq::empty()
    } else {
        let higher = draws_down_to(present, low + 1);
        if is_draw_value(present, value_of_key(low)) {
            higher.push(rank_of_key(low))
        } else {
            higher
        }
    }
}

/// The head ranks of all completed straights, from the ace-high straight down
/// to the five-high one.
pub open spec fn straight_heads(present: spec_fn(int) -> bool) -> Seq<CardRank> {
    heads_down_to(present, 5)
}

/// All draw ranks, from the ace down to the two.
pub open spec fn straight_draws(present: spec_fn(int) -> bool) -> Seq<CardRank> {
    draws_down_to(present, 2)
}

/// The ranks that a 13-bit mask marks: bit `value - 1` stands for the rank
/// with canonical integer `value`.
pub open spec fn mask_ranks(mask: u16) -> spec_fn(int) -> bool {
    |value: int| 1 <= value <= 13 && mask_holds(mask, value)
}

/// The bit that stands for the rank with canonical integer `value`.
pub open spec fn rank_bit(value: int) -> u16 {
    1u16 << ((value - 1) as u16)
}

/// Whether the bit of the rank with canonical integer `value` is set.
pub open spec fn mask_holds(mask: u16, value: int) -> bool {
    mask & rank_bit(value) != 0
}

/// The mask of the straight headed by the rank with poker key `head_key`.
pub open spec fn window_mask(head_key: int) -> u16 {
    if head_key == 14 {
        0b1111000000001u16
    } else if head_key == 13 {
        0b1111100000000u16
    } else if head_key == 12 {
        0b0111110000000u16
    } else if head_key == 11 {
        0b0011111000000u16
    } else if head_key == 10 {
        0b0001111100000u16
    } else if head_key == 9 {
        0b0000111110000u16
    } else if head_key == 8 {
        0b0000011111000u16
    } else if head_key == 7 {
        0b0000001111100u16
    } else if head_key == 6 {
        0b0000000111110u16
    } else {
        0b0000000011111u16
    }
}

/// The mask of the straight headed by the rank with poker key `head_key`.
pub fn straight_window(head_key: u8) -> (window: u16)
    requires
        5 <= head_key <= 14,
    ensures
        window == window_mask(head_key as int),
{
    match head_key {
        14 => 0b1111000000001u16,
        13 => 0b1111100000000u16,
        12 => 0b0111110000000u16,
        11 => 0b0011111000000u16,
        10 => 0b0001111100000u16,
        9 => 0b0000111110000u16,
        8 => 0b0000011111000u16,
        7 => 0b0000001111100u16,
        6 => 0b0000000111110u16,
        _ => 0b0000000011111u16,
    }
}

/// The bit that stands for the rank with canonical integer `value`.
pub fn bit_of_rank(value: u8) -> (bit: u16)
    requires
        1 <= value <= 13,
    ensures
        bit == rank_bit(value as int),
{
    1u16 << ((value - 1) as u16)
}

/// What masking with five bits tells about a mask: it holds all five exactly
/// when masking changes nothing, and the bits it lacks form a single bit
/// exactly when it lacks one of the five.
proof fn lemma_five_bits(m: u16, s0: u16, s1: u16, s2: u16, s3: u16, s4: u16)
    by (bit_vector)
    requires
        s0 < 16,
        s1 < 16,
        s2 < 16,
        s3 < 16,
        s4 < 16,
        s0 != s1,
        s0 != s2,
        s0 != s3,
        s0 != s4,
        s1 != s2,
        s1 != s3,
        s1 != s4,
        s2 != s3,
        s2 != s4,
        s3 != s4,
    ensures
        ({
            let w = (1u16 << s0) | (1u16 << s1) | (1u16 << s2) | (1u16 << s3) | (1u16 << s4);
            let a0 = m & (1u16 << s0) != 0;
            let a1 = m & (1u16 << s1) != 0;
            let a2 = m & (1u16 << s2) != 0;
            let a3 = m & (1u16 << s3) != 0;
            let a4 = m & (1u16 << s4) != 0;
            let lacked = w ^ (w & m);
            let single = lacked != 0 && lacked & ((lacked - 1) as u16) == 0;
            &&& (w & m == w) == (a0 && a1 && a2 && a3 && a4)
            &&& single == ((!a0 && a1 && a2 && a3 && a4) || (a0 && !a1 && a2 && a3 && a4) || (a0
                && a1 && !a2 && a3 && a4) || (a0 && a1 && a2 && !a3 && a4) || (a0 && a1 && a2
                && a3 && !a4))
            &&& (single && !a0) ==> lacked == 1u16 << s0
            &&& (single && !a1) ==> lacked == 1u16 << s1
            &&& (single && !a2) ==> lacked == 1u16 << s2
            &&& (single && !a3) ==> lacked == 1u16 << s3
            &&& (single && !a4) ==> lacked == 1u16 << s4
        }),
{
}

/// Setting one bit of a mask changes what the mask says of that bit only.
proof fn lemma_set_bit(m: u16, set: u16, asked: u16)
    by (bit_vector)
    requires
        set < 16,
        asked < 16,
    ensures
        ((m | (1u16 << set)) & (1u16 << asked) != 0) == ((m & (1u16 << asked) != 0) || set
            == asked),
        0u16 & (1u16 << asked) == 0,
{
}

/// Marking a rank in a mask changes what the mask says of that rank only,
/// and the empty mask marks no rank.
pub proof fn lemma_mark_rank(mask: u16, value: int, other: int)
    requires
        1 <= value <= 16,
        1 <= other <= 16,
    ensures
        mask_holds(mask | rank_bit(value), other) == (mask_holds(mask, other) || value == other),
        !mask_holds(0u16, other),
{
    lemma_set_bit(mask, (value - 1) as u16, (other - 1) as u16);
}

/// Each straight's mask is made of the bits of its five ranks.
proof fn lemma_window_bits()
    by (bit_vector)
    ensures
        0b1111000000001u16 == (1u16 << 0u16) | (1u16 << 12u16) | (1u16 << 11u16) | (1u16 << 10u16)
            | (1u16 << 9u16),
        0b1111100000000u16 == (1u16 << 12u16) | (1u16 << 11u16) | (1u16 << 10u16) | (1u16 << 9u16)
            | (1u16 << 8u16),
        0b0111110000000u16 == (1u16 << 11u16) | (1u16 << 10u16) | (1u16 << 9u16) | (1u16 << 8u16)
            | (1u16 << 7u16),
        0b0011111000000u16 == (1u16 << 10u16) | (1u16 << 9u16) | (1u16 << 8u16) | (1u16 << 7u16)
            | (1u16 << 6u16),
        0b0001111100000u16 == (1u16 << 9u16) | (1u16 << 8u16) | (1u16 << 7u16) | (1u16 << 6u16)
            | (1u16 << 5u16),
        0b0000111110000u16 == (1u16 << 8u16) | (1u16 << 7u16) | (1u16 << 6u16) | (1u16 << 5u16)
            | (1u16 << 4u16),
        0b0000011111000u16 == (1u16 << 7u16) | (1u16 << 6u16) | (1u16 << 5u16) | (1u16 << 4u16)
            | (1u16 << 3u16),
        0b0000001111100u16 == (1u16 << 6u16) | (1u16 << 5u16) | (1u16 << 4u16) | (1u16 << 3u16)
            | (1u16 << 2u16),
        0b0000000111110u16 == (1u16 << 5u16) | (1u16 << 4u16) | (1u16 << 3u16) | (1u16 << 2u16)
            | (1u16 << 1u16),
        0b0000000011111u16 == (1u16 << 4u16) | (1u16 << 3u16) | (1u16 << 2u16) | (1u16 << 1u16)
            | (1u16 << 0u16),
{
}

/// What comparing a mask with a straight's mask decides.
///
/// The mask holds the whole straight exactly when masking with the
/// straight's mask gives that mask back; otherwise the bits it lacks form one
/// single bit exactly when one rank of the straight is missing, and that bit
/// is then the missing rank's.
pub proof fn lemma_window_decides(mask: u16, head_key: int)
    requires
        5 <= head_key <= 14,
    ensures
        ({
            let window = window_mask(head_key);
            let lacked = window ^ (window & mask);
            let single = lacked != 0 && lacked & ((lacked - 1) as u16) == 0;
            &&& (window & mask == window) == run_complete(mask_ranks(mask), head_key)
            &&& single == (run_missing(mask_ranks(mask), head_key) == 1)
            &&& forall|j: int|
                0 <= j < 5 && single && !mask_holds(mask, #[trigger] run_value(head_key, j))
                    ==> lacked == rank_bit(run_value(head_key, j))
        }),
{
    let s0 = (run_value(head_key, 0) - 1) as u16;
    let s1 = (run_value(head_key, 1) - 1) as u16;
    let s2 = (run_value(head_key, 2) - 1) as u16;
    let s3 = (run_value(head_key, 3) - 1) as u16;
    let s4 = (run_value(head_key, 4) - 1) as u16;
    lemma_window_bits();
    lemma_five_bits(mask, s0, s1, s2, s3, s4);
    let present = mask_ranks(mask);
    assert(present(run_value(head_key, 0)) == mask_holds(mask, run_value(head_key, 0)));
    assert(present(run_value(head_key, 1)) == mask_holds(mask, run_value(head_key, 1)));
    assert(present(run_value(head_key, 2)) == mask_holds(mask, run_value(head_key, 2)));
    assert(present(run_value(head_key, 3)) == mask_holds(mask, run_value(head_key, 3)));
    assert(present(run_value(head_key, 4)) == mask_holds(mask, run_value(head_key, 4)));
    let w = (1u16 << s0) | (1u16 << s1) | (1u16 << s2) | (1u16 << s3) | (1u16 << s4);
    assert(w == window_mask(head_key));
}

/// What holds of the head ranks of the completed straights: each is well
/// formed and heads a straight whose five ranks are present, they come from
/// the highest to the lowest, and no completed straight is left out.
pub proof fn lemma_heads(present: spec_fn(int) -> bool, low: int)
    requires
        5 <= low <= 15,
    ensures
        ({
            let heads = heads_down_to(present, low);
            &&& heads.len() <= 15 - low
            &&& forall|i: int|
                0 <= i < heads.len() ==> {
                    &&& (#[trigger] heads[i]).wf()
                    &&& low <= poker_rank_key(heads[i]) <= 14
                    &&& heads[i] == rank_of_key(poker_rank_key(heads[i]))
                    &&& run_complete(present, poker_rank_key(heads[i]))
                }
            &&& forall|i: int, j: int|
                0 <= i < j < heads.len() ==> poker_rank_key(#[trigger] heads[i]) > poker_rank_key(
                    #[trigger] heads[j],
                )
            &&& forall|key: int|
                low <= key <= 14 && run_complete(present, key) ==> heads.contains(
                    #[trigger] rank_of_key(key),
                )
        }),
    decreases 15 - low,
{
    if low <= 14 {
        lemma_heads(present, low + 1);
        lemma_key_round_trip(low);
        let higher = heads_down_to(present, low + 1);
        let heads = heads_down_to(present, low);
        assert forall|key: int|
            low <= key <= 14 && run_complete(present, key) implies heads.contains(
            #[trigger] rank_of_key(key),
        ) by {
            if key == low {
                assert(heads[heads.len() - 1] == rank_of_key(key));
            } else {
                assert(higher.contains(rank_of_key(key)));
                let i = choose|i: int| 0 <= i < higher.len() && higher[i] == rank_of_key(key);
                assert(heads[i] == rank_of_key(key));
            }
        }
    }
}

/// A straight lacks exactly one of its ranks only if that rank is absent,
/// and then no other rank of the straight is.
proof fn lemma_single_gap(present: spec_fn(int) -> bool, head_key: int, value: int, other: int)
    requires
        5 <= head_key <= 14,
        run_lacks_only(present, head_key, value),
        run_lacks_only(present, head_key, other),
    ensures
        value == other,
{
}

impl RanksOfStraight {
    /// Finds the completed straights and the straight draws of the ranks that
    /// a 13-bit mask marks.
    ///
    /// The heads are those of all straights whose five ranks are marked, from
    /// the ace-high straight down to the five-high one. The draws are the
    /// unmarked ranks that alone are missing from some straight, from the ace
    /// down to the two, each once.
    pub fn calculate(bit_of_cards: u16) -> (ranks: RanksOfStraight)
        ensures
            ranks.ranks_of_head@ == straight_heads(mask_ranks(bit_of_cards)),
            ranks.ranks_of_draw@ == straight_draws(mask_ranks(bit_of_cards)),
    {
        let ghost present = mask_ranks(bit_of_cards);
        let mut ranks_of_head: Vec<CardRank> = Vec::new();
        let mut bits_of_draw: u16 = 0;
        let mut head_key: u8 = 14;
        proof {
            assert forall|v: int| 1 <= v <= 13 implies !mask_holds(0u16, v) by {
                lemma_set_bit(0u16, 0u16, (v - 1) as u16);
            }
        }
        while head_key >= 5
            invariant
                4 <= head_key <= 14,
                present == mask_ranks(bit_of_cards),
                ranks_of_head@ == heads_down_to(present, head_key + 1),
                forall|v: int|
                    1 <= v <= 13 ==> (#[trigger] mask_holds(bits_of_draw, v) == is_draw_from(
                        present,
                        v,
                        head_key + 1,
                    )),
            decreases head_key,
        {
            let target_bit = straight_window(head_key);
            let and = target_bit & bit_of_cards;
            proof {
                lemma_window_decides(bit_of_cards, head_key as int);
            }
            if and == target_bit {
                ranks_of_head.push(rank_for_key(head_key));
                proof {
                    assert forall|v: int| 1 <= v <= 13 implies !run_lacks_only(
                        present,
                        head_key as int,
                        v,
                    ) by {}
                }
            } else {
                let lacked = target_bit ^ and;
                if lacked > 0 && (lacked & (lacked - 1) == 0) {
                    let ghost before = bits_of_draw;
                    bits_of_draw = bits_of_draw | lacked;
                    proof {
                        let gap = choose|j: int|
                            0 <= j < 5 && !mask_holds(
                                bit_of_cards,
                                #[trigger] run_value(head_key as int, j),
                            );
                        let missing = run_value(head_key as int, gap);
                        assert(lacked == rank_bit(missing));
                        assert(run_lacks_only(present, head_key as int, missing));
                        assert forall|v: int| 1 <= v <= 13 implies (#[trigger] mask_holds(
                            bits_of_draw,
                            v,
                        ) == is_draw_from(present, v, head_key as int)) by {
                            lemma_set_bit(before, (missing - 1) as u16, (v - 1) as u16);
                            if run_lacks_only(present, head_key as int, v) {
                                lemma_single_gap(present, head_key as int, v, missing);
                            }
                            assert(run_lacks_only(present, head_key as int, v) == (v == missing));
                            assert(mask_holds(before, v) == is_draw_from(
                                present,
                                v,
                                head_key + 1,
                            ));
                        }
                    }
                } else {
                    proof {
                        assert forall|v: int| 1 <= v <= 13 implies !run_lacks_only(
                            present,
                            head_key as int,
                            v,
                        ) by {}
                    }
                }
            }
            head_key -= 1;
        }
        let mut ranks_of_draw: Vec<CardRank> = Vec::new();
        let mut key: u8 = 14;
        while key >= 2
            invariant
                1 <= key <= 14,
                present == mask_ranks(bit_of_cards),
                ranks_of_draw@ == draws_down_to(present, key + 1),
                forall|v: int|
                    1 <= v <= 13 ==> (#[trigger] mask_holds(bits_of_draw, v) == is_draw_value(
                        present,
                        v,
                    )),
            decreases key,
        {
            let rank = rank_for_key(key);
            let bit = bit_of_rank(rank.to_int());
            if bits_of_draw & bit != 0 {
                assert(mask_holds(bits_of_draw, value_of_key(key as int)));
                ranks_of_draw.push(rank);
            } else {
                assert(!mask_holds(bits_of_draw, value_of_key(key as int)));
            }
            key -= 1;
        }
        RanksOfStraight { ranks_of_head, ranks_of_draw }
    }
}

} // verus!
