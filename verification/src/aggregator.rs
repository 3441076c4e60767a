use crate::hand::StartingHand;
use crate::hand_rank::HandRank;
use crate::outcome::{outcome_count, outcome_total, OutcomeCounts};
use crate::poker::{key_of_rank, poker_rank_key};
use crate::tally::{
    in_slot, is_item, lemma_counts_after, lemma_counts_ignore_order,
    lemma_filter_len_ignores_order, occurrences, ShapeCounts,
};
use crate::text::{decimal, decimal_digits};
use crate::worker::{TrialResult, TrialResultOfHand};
use vstd::prelude::*;
use vstd::string::StringExecFns;

verus! {

/// How many shapes of starting hands there are: 13 pairs, 78 suited and 78
/// unsuited combinations of two ranks.
pub const SHAPES: usize = 169;

/// The most records that an aggregation takes, so that no count, multiplied
/// by a combination factor of at most 3, leaves the range of `usize`.
pub const MAX_RECORDS: usize = usize::MAX / 3;

/// The number of a hand's shape, from 0 to 168.
///
/// With the two ranks numbered from 0 (the two) to 12 (the ace), a pair has
/// 14 times its rank, a suited hand 13 times its higher rank plus its lower
/// rank, and an unsuited hand 13 times its lower rank plus its higher rank.
pub open spec fn shape_index(hand: StartingHand) -> int {
    let high = poker_rank_key(hand.higher().rank) - 2;
    let low = poker_rank_key(hand.lower().rank) - 2;
    if hand.higher().suit == hand.lower().suit {
        13 * high + low
    } else {
        13 * low + high
    }
}

/// Two well-formed ranks with the same symbol are the same rank.
pub proof fn lemma_symbol_injective(a: crate::rank::CardRank, b: crate::rank::CardRank)
    requires
        a.wf(),
        b.wf(),
        a.symbol() == b.symbol(),
    ensures
        a == b,
{
    crate::rank::lemma_rank_value_injective(a, b);
}

/// Hands have the same shape number exactly when they have the same shape:
/// counting by shape number is counting by summary.
pub proof fn lemma_shape_index_follows_shape(a: StartingHand, b: StartingHand)
    requires
        a.wf(),
        b.wf(),
    ensures
        shape_index(a) == shape_index(b) <==> a.shape() == b.shape(),
        0 <= shape_index(a) < SHAPES,
{
    let a_high = poker_rank_key(a.higher().rank);
    let a_low = poker_rank_key(a.lower().rank);
    let b_high = poker_rank_key(b.higher().rank);
    let b_low = poker_rank_key(b.lower().rank);
    assert(a_high >= a_low && b_high >= b_low);
    if a.shape() == b.shape() {
        assert(a.shape()[0] == b.shape()[0]);
        assert(a.shape()[1] == b.shape()[1]);
        assert(a.shape().len() == b.shape().len());
        lemma_symbol_injective(a.higher().rank, b.higher().rank);
        lemma_symbol_injective(a.lower().rank, b.lower().rank);
        if a.shape().len() == 3 {
            assert(a.shape()[2] == b.shape()[2]);
        }
    }
    if shape_index(a) == shape_index(b) {
        if a_high == b_high && a_low == b_low {
            crate::hand_value::lemma_rank_key_injective(a.higher().rank, b.higher().rank);
            crate::hand_value::lemma_rank_key_injective(a.lower().rank, b.lower().rank);
            if a_high == a_low {
                crate::hand_value::lemma_rank_key_injective(a.higher().rank, a.lower().rank);
            } else {
                assert(a.higher().rank != a.lower().rank);
                assert(b.higher().rank != b.lower().rank);
            }
            assert(a.shape() =~= b.shape());
        }
    }
}

/// The number of a hand's shape.
pub fn shape_of(hand: StartingHand) -> (shape: usize)
    ensures
        shape == shape_index(hand),
        shape < SHAPES,
{
    let high: usize = (key_of_rank(hand.higher_card().rank()) - 2) as usize;
    let low: usize = (key_of_rank(hand.lower_card().rank()) - 2) as usize;
    if hand.is_suited() {
        13 * high + low
    } else {
        13 * low + high
    }
}

/// By how much the count of a shape is multiplied to make shapes comparable:
/// 2 for a pair, 3 for a suited hand, 1 otherwise.
pub open spec fn combination_factor(hand: StartingHand) -> int {
    if hand.higher().rank == hand.lower().rank {
        2
    } else if hand.higher().suit == hand.lower().suit {
        3
    } else {
        1
    }
}

/// The heading of a table of showdown categories.
pub open spec fn category_csv_head_text() -> Seq<char> {
    "hand,actual,adjusted,high_card,pair,two_pairs,three_of_a_king,straight,flush,full_house,four_of_a_kind,straight_flush,royal_flush"@
}

/// The slot in which the category is counted.
pub open spec fn by_strength() -> spec_fn(HandRank) -> int {
    |rank: HandRank| rank.strength()
}

/// How often the category was counted.
pub open spec fn category_count(counts: ShapeCounts, rank: HandRank) -> nat {
    counts.counts[rank.strength()]
}

/// How many were counted in all: the sum of the ten counts.
pub open spec fn category_total(counts: ShapeCounts) -> nat {
    category_count(counts, HandRank::HighCard)
        + category_count(counts, HandRank::Pair)
        + category_count(counts, HandRank::TwoPairs)
        + category_count(counts, HandRank::ThreeOfAKind)
        + category_count(counts, HandRank::Straight)
        + category_count(counts, HandRank::Flush)
        + category_count(counts, HandRank::FullHouse)
        + category_count(counts, HandRank::FourOfAKind)
        + category_count(counts, HandRank::StraightFlush)
        + category_count(counts, HandRank::RoyalFlush)
}

/// The text of a row: the shape, the total, the adjusted total and the
/// ten counts in the order of their slots, separated by commas.
pub open spec fn category_row_text(counts: ShapeCounts) -> Seq<char> {
    counts.example.shape() + seq![','] + decimal_digits(category_total(counts)) + seq![',']
        + decimal_digits((category_total(counts) * combination_factor(counts.example)) as nat)
        + seq![','] + decimal_digits(category_count(counts, HandRank::HighCard))
        + seq![','] + decimal_digits(category_count(counts, HandRank::Pair))
        + seq![','] + decimal_digits(category_count(counts, HandRank::TwoPairs))
        + seq![','] + decimal_digits(category_count(counts, HandRank::ThreeOfAKind))
        + seq![','] + decimal_digits(category_count(counts, HandRank::Straight))
        + seq![','] + decimal_digits(category_count(counts, HandRank::Flush))
        + seq![','] + decimal_digits(category_count(counts, HandRank::FullHouse))
        + seq![','] + decimal_digits(category_count(counts, HandRank::FourOfAKind))
        + seq![','] + decimal_digits(category_count(counts, HandRank::StraightFlush))
        + seq![','] + decimal_digits(category_count(counts, HandRank::RoyalFlush))
}

/// The counted showdown categories of the starting hands of one shape.
#[derive(Debug, Clone, Copy)]
pub struct AggregationResult {
    example_hand: StartingHand,
    rank_counts: [usize; 10],
}

impl View for AggregationResult {
    type V = ShapeCounts;

    closed spec fn view(&self) -> ShapeCounts {
        ShapeCounts {
            example: self.example_hand,
            counts: Seq::new(10, |i: int| self.rank_counts[i] as nat),
        }
    }
}

impl AggregationResult {
    /// Counts for the shape of the given hand, all zero.
    pub fn new(example_hand: StartingHand) -> (result: AggregationResult)
        ensures
            result@ == ShapeCounts::fresh(example_hand, 10),
    {
        let result = Self { example_hand, rank_counts: [0, 0, 0, 0, 0, 0, 0, 0, 0, 0] };
        assert(result@.counts =~= ShapeCounts::fresh(example_hand, 10).counts);
        result
    }

    /// The heading of the table: the names of the columns of a row.
    pub fn csv_head() -> (head: String)
        ensures
            head@ == category_csv_head_text(),
    {
        String::from_str(
            "hand,actual,adjusted,high_card,pair,two_pairs,three_of_a_king,straight,flush,full_house,four_of_a_kind,straight_flush,royal_flush",
        )
    }

    /// The shape of the hands counted, such as `AKs`.
    pub fn hand_summary(&self) -> (summary: String)
        ensures
            summary@ == self@.example.shape(),
    {
        self.example_hand.summary()
    }

    /// Counts one more of the category.
    pub fn count_up(&mut self, rank: HandRank)
        requires
            category_count(old(self)@, rank) < usize::MAX,
        ensures
            final(self)@ == old(self)@.counted_up(rank.strength()),
            final(self)@.counts.len() == 10,
    {
        let slot = rank.strength_slot();
        assert(self.rank_counts[slot as int] == self@.counts[slot as int]);
        let count: usize = self.rank_counts[slot];
        self.rank_counts[slot] = count + 1;
        assert(self@.counts =~= old(self)@.counts.update(slot as int, (count + 1) as nat));
    }

    /// How many were counted in all.
    pub fn actual_count(&self) -> (count: usize)
        requires
            category_total(self@) <= usize::MAX,
        ensures
            count == category_total(self@),
    {
        assert(self.rank_counts[0] == self@.counts[0]);
        assert(self.rank_counts[1] == self@.counts[1]);
        assert(self.rank_counts[2] == self@.counts[2]);
        assert(self.rank_counts[3] == self@.counts[3]);
        assert(self.rank_counts[4] == self@.counts[4]);
        assert(self.rank_counts[5] == self@.counts[5]);
        assert(self.rank_counts[6] == self@.counts[6]);
        assert(self.rank_counts[7] == self@.counts[7]);
        assert(self.rank_counts[8] == self@.counts[8]);
        assert(self.rank_counts[9] == self@.counts[9]);
        self.rank_counts[0] + self.rank_counts[1] + self.rank_counts[2] + self.rank_counts[3]
            + self.rank_counts[4] + self.rank_counts[5] + self.rank_counts[6]
            + self.rank_counts[7] + self.rank_counts[8] + self.rank_counts[9]
    }

    /// The total multiplied by the combination factor of the shape.
    pub fn adjusted_count(&self) -> (count: usize)
        requires
            category_total(self@) * 3 <= usize::MAX,
        ensures
            count == category_total(self@) * combination_factor(self@.example),
    {
        let factor: usize = if self.example_hand.is_pair() {
            2
        } else if self.example_hand.is_suited() {
            3
        } else {
            1
        };
        self.actual_count() * factor
    }

    /// How often the category was counted.
    pub fn count_of(&self, rank: HandRank) -> (count: usize)
        ensures
            count == category_count(self@, rank),
            self@.counts.len() == 10,
    {
        self.rank_counts[rank.strength_slot()]
    }

    /// The row of the table for this shape.
    pub fn csv_row(&self) -> (row: String)
        requires
            category_total(self@) * 3 <= usize::MAX,
        ensures
            row@ == category_row_text(self@),
    {
        proof {
            reveal_strlit(",");
        }
        assert(self.rank_counts[0] == self@.counts[0]);
        assert(self.rank_counts[1] == self@.counts[1]);
        assert(self.rank_counts[2] == self@.counts[2]);
        assert(self.rank_counts[3] == self@.counts[3]);
        assert(self.rank_counts[4] == self@.counts[4]);
        assert(self.rank_counts[5] == self@.counts[5]);
        assert(self.rank_counts[6] == self@.counts[6]);
        assert(self.rank_counts[7] == self@.counts[7]);
        assert(self.rank_counts[8] == self@.counts[8]);
        assert(self.rank_counts[9] == self@.counts[9]);
        let mut row = self.example_hand.summary();
        row.append(",");
        row.append(decimal(self.actual_count()).as_str());
        row.append(",");
        row.append(decimal(self.adjusted_count()).as_str());
        row.append(",");
        row.append(decimal(self.rank_counts[0]).as_str());
        row.append(",");
        row.append(decimal(self.rank_counts[1]).as_str());
        row.append(",");
        row.append(decimal(self.rank_counts[2]).as_str());
        row.append(",");
        row.append(decimal(self.rank_counts[3]).as_str());
        row.append(",");
        row.append(decimal(self.rank_counts[4]).as_str());
        row.append(",");
        row.append(decimal(self.rank_counts[5]).as_str());
        row.append(",");
        row.append(decimal(self.rank_counts[6]).as_str());
        row.append(",");
        row.append(decimal(self.rank_counts[7]).as_str());
        row.append(",");
        row.append(decimal(self.rank_counts[8]).as_str());
        row.append(",");
        row.append(decimal(self.rank_counts[9]).as_str());
        assert(row@ =~= category_row_text(self@));
        row
    }
}

/// Counting raises the total by one for each rank counted, and the
/// count of each rank by the number of times it occurs among those
/// counted; the example stays.
pub proof fn lemma_category_counts_after(
    start: ShapeCounts,
    counted: Seq<HandRank>,
    rank: HandRank,
)
    requires
        start.counts.len() == 10,
    ensures
        ({
            let end = start.after(counted, by_strength());
            &&& end.example == start.example
            &&& end.counts.len() == 10
            &&& category_count(end, rank) == category_count(start, rank) + occurrences(
                counted,
                rank,
            )
            &&& category_total(end) == category_total(start) + counted.len()
        }),
    decreases counted.len(),
{
    lemma_counts_after(start, counted, by_strength(), rank.strength());
    assert(in_slot(by_strength(), rank.strength()) =~= is_item(rank));
    if counted.len() > 0 {
        lemma_category_counts_after(start, counted.drop_last(), rank);
    }
}

/// The counts of a row do not depend on the order in which it counts: rows
/// that start alike and count the same things, each as often, in whatever
/// order, end alike, and so do their texts.
pub proof fn lemma_category_counts_ignore_order(
    start: ShapeCounts,
    first: Seq<HandRank>,
    second: Seq<HandRank>,
)
    requires
        first.to_multiset() == second.to_multiset(),
    ensures
        start.after(first, by_strength()) == start.after(second, by_strength()),
        category_row_text(start.after(first, by_strength())) == category_row_text(
            start.after(second, by_strength()),
        ),
{
    lemma_counts_ignore_order(start, first, second, by_strength());
}

/// Holds of the records of the given shape and outcome.
pub open spec fn of_shape_and_outcome(shape: int, result: TrialResult) -> spec_fn(
    TrialResultOfHand,
) -> bool {
    |record: TrialResultOfHand|
        shape_index(record.starting_hand) == shape && record.result == result
}

/// How many of the records have the given shape and outcome.
pub open spec fn tally(records: Seq<TrialResultOfHand>, shape: int, result: TrialResult) -> nat {
    records.filter(of_shape_and_outcome(shape, result)).len()
}

/// The counts do not depend on the order of the records: two sequences of
/// the same records, each as often in the one as in the other, have the same
/// tally for every shape and outcome.
pub proof fn lemma_tally_ignores_order(
    first: Seq<TrialResultOfHand>,
    second: Seq<TrialResultOfHand>,
    shape: int,
    result: TrialResult,
)
    requires
        first.to_multiset() == second.to_multiset(),
    ensures
        tally(first, shape, result) == tally(second, shape, result),
{
    lemma_filter_len_ignores_order(first, second, of_shape_and_outcome(shape, result));
}

/// The table of counted outcomes, one row for each shape of starting hand
/// that occurred.
pub struct Aggregation {
    rows: Vec<Option<OutcomeCounts>>,
    recorded: usize,
}

impl Aggregation {
    /// How many records the table has taken.
    pub closed spec fn recorded(self) -> nat {
        self.recorded as nat
    }

    /// How often the table has counted the outcome for the shape.
    pub closed spec fn count(self, shape: int, result: TrialResult) -> nat {
        match self.rows[shape] {
            Some(row) => outcome_count(row@, result),
            None => 0,
        }
    }

    /// Whether a hand of the shape has occurred.
    pub closed spec fn has_row(self, shape: int) -> bool {
        self.rows[shape] is Some
    }

    /// What the constructor establishes and recording keeps: there is a
    /// place for each shape, a row stands for its own shape, and no row has
    /// counted more than the table has taken, which is at most `MAX_RECORDS`.
    pub closed spec fn wf(self) -> bool {
        &&& self.rows@.len() == SHAPES
        &&& self.recorded <= MAX_RECORDS
        &&& forall|shape: int|
            0 <= shape < SHAPES ==> ((#[trigger] self.rows@[shape]) matches Some(row) ==> {
                &&& shape_index(row@.example) == shape
                &&& row@.counts.len() == 5
                &&& outcome_total(row@) <= self.recorded
            })
    }

    /// An empty table.
    pub fn new() -> (table: Aggregation)
        ensures
            table.wf(),
            table.recorded() == 0,
            forall|shape: int, result: TrialResult|
                0 <= shape < SHAPES ==> table.count(shape, result) == 0,
            forall|shape: int| 0 <= shape < SHAPES ==> !table.has_row(shape),
    {
        let mut rows: Vec<Option<OutcomeCounts>> = Vec::new();
        let mut i: usize = 0;
        while i < SHAPES
            invariant
                i <= SHAPES,
                rows@.len() == i,
                forall|k: int| 0 <= k < i ==> (#[trigger] rows@[k]) is None,
            decreases SHAPES - i,
        {
            rows.push(None);
            i += 1;
        }
        Aggregation { rows, recorded: 0 }
    }

    /// How many records the table has taken.
    pub fn record_count(&self) -> (count: usize)
        ensures
            count == self.recorded(),
    {
        self.recorded
    }

    /// Takes one record: counts its outcome in the row of its hand's shape,
    /// which is made, with that hand as example, if the shape is new.
    pub fn record(&mut self, record: TrialResultOfHand)
        requires
            old(self).wf(),
            old(self).recorded() < MAX_RECORDS,
        ensures
            final(self).wf(),
            final(self).recorded() == old(self).recorded() + 1,
            forall|shape: int, result: TrialResult|
                0 <= shape < SHAPES ==> #[trigger] final(self).count(shape, result) == old(
                    self,
                ).count(shape, result) + (if (of_shape_and_outcome(shape, result))(record) {
                    1int
                } else {
                    0int
                }),
            forall|shape: int|
                0 <= shape < SHAPES ==> (#[trigger] final(self).has_row(shape) <==> old(
                    self,
                ).has_row(shape) || shape == shape_index(record.starting_hand)),
    {
        let starting_hand = record.starting_hand();
        let result = record.result();
        let shape = shape_of(starting_hand);
        let mut row = match self.rows[shape] {
            Some(row) => row,
            None => OutcomeCounts::new(starting_hand),
        };
        let ghost before = row;
        row.count_up(result);
        self.rows[shape] = Some(row);
        self.recorded = self.recorded + 1;
        proof {
            assert forall|other: int, outcome: TrialResult|
                0 <= other < SHAPES implies #[trigger] self.count(other, outcome) == old(
                self,
            ).count(other, outcome) + (if (of_shape_and_outcome(other, outcome))(record) {
                1int
            } else {
                0int
            }) by {
                if other == shape {
                    assert(old(self).count(other, outcome) == outcome_count(before@, outcome));
                    if outcome != result {
                        assert(outcome.index() != result.index());
                    }
                } else {
                    assert(self.rows@[other] == old(self).rows@[other]);
                }
            }
        }
    }

    /// The row of a shape, if a hand of the shape has occurred.
    pub fn row(&self, shape: usize) -> (row: Option<OutcomeCounts>)
        requires
            self.wf(),
            shape < SHAPES,
        ensures
            row is Some <==> self.has_row(shape as int),
            row matches Some(r) ==> {
                &&& shape_index(r@.example) == shape
                &&& r@.counts.len() == 5
                &&& outcome_total(r@) * 3 <= usize::MAX
                &&& forall|result: TrialResult|
                    outcome_count(r@, result) == self.count(shape as int, result)
            },
    {
        self.rows[shape]
    }
}

/// Counts the outcomes of the given records by shape of starting hand.
///
/// Returns `None` if there are more records than a table takes; otherwise
/// a table in which the count for each shape and outcome is the number of
/// records of that shape and outcome, whatever their order.
pub fn aggregate(records: &Vec<TrialResultOfHand>) -> (result: Option<Aggregation>)
    ensures
        result is Some <==> records@.len() <= MAX_RECORDS,
        result matches Some(table) ==> {
            &&& table.wf()
            &&& table.recorded() == records@.len()
            &&& forall|shape: int, outcome: TrialResult|
                0 <= shape < SHAPES ==> #[trigger] table.count(shape, outcome) == tally(
                    records@,
                    shape,
                    outcome,
                )
        },
{
    if records.len() > MAX_RECORDS {
        return None;
    }
    let mut table = Aggregation::new();
    let mut i: usize = 0;
    proof {
        assert(records@.take(0) =~= Seq::empty());
        assert forall|shape: int, outcome: TrialResult| tally(Seq::empty(), shape, outcome)
            == 0 by {
            Seq::<TrialResultOfHand>::empty().lemma_filter_len(
                of_shape_and_outcome(shape, outcome),
            );
        }
    }
    while i < records.len()
        invariant
            i <= records@.len() <= MAX_RECORDS,
            table.wf(),
            table.recorded() == i,
            forall|shape: int, outcome: TrialResult|
                0 <= shape < SHAPES ==> #[trigger] table.count(shape, outcome) == tally(
                    records@.take(i as int),
                    shape,
                    outcome,
                ),
        decreases records@.len() - i,
    {
        let record = records[i];
        let ghost before = table;
        table.record(record);
        proof {
            assert(records@.take(i + 1) =~= records@.take(i as int).push(record));
            assert forall|shape: int, outcome: TrialResult|
                0 <= shape < SHAPES implies #[trigger] table.count(shape, outcome) == tally(
                records@.take(i + 1),
                shape,
                outcome,
            ) by {
                records@.take(i as int).lemma_filter_len_push(
                    of_shape_and_outcome(shape, outcome),
                    record,
                );
                assert(before.count(shape, outcome) == tally(
                    records@.take(i as int),
                    shape,
                    outcome,
                ));
            }
        }
        i += 1;
    }
    assert(records@.take(i as int) =~= records@);
    Some(table)
}

} // verus!
