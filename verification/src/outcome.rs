use crate::aggregator::combination_factor;
use crate::hand::StartingHand;
use crate::tally::{
    in_slot, is_item, lemma_counts_after, lemma_counts_ignore_order, occurrences, ShapeCounts,
};
use crate::text::{decimal, decimal_digits};
use crate::worker::TrialResult;
use vstd::prelude::*;
use vstd::string::StringExecFns;

verus! {

impl TrialResult {
    /// Position of the outcome among the five outcomes, from 0 to 4.
    pub open spec fn index(self) -> int {
        match self {
            TrialResult::PreFlopWin => 0,
            TrialResult::FlopDrop => 1,
            TrialResult::FlopWin => 2,
            TrialResult::ShowDownWin => 3,
            TrialResult::ShowDownLose => 4,
        }
    }

    /// Position of the outcome among the five outcomes.
    pub fn slot(self) -> (slot: usize)
        ensures
            slot == self.index(),
    {
        match self {
            TrialResult::PreFlopWin => 0,
            TrialResult::FlopDrop => 1,
            TrialResult::FlopWin => 2,
            TrialResult::ShowDownWin => 3,
            TrialResult::ShowDownLose => 4,
        }
    }
}

/// The heading of a table of outcomes.
pub open spec fn outcome_csv_head_text() -> Seq<char> {
    "hand,actual,adjusted,pre_flop_win,flop_drop,flop_win,show_down_win,show_down_lose"@
}

/// The slot in which the outcome is counted.
pub open spec fn by_index() -> spec_fn(TrialResult) -> int {
    |result: TrialResult| result.index()
}

/// How often the outcome was counted.
pub open spec fn outcome_count(counts: ShapeCounts, result: TrialResult) -> nat {
    counts.counts[result.index()]
}

/// How many were counted in all: the sum of the five counts.
pub open spec fn outcome_total(counts: ShapeCounts) -> nat {
    outcome_count(counts, TrialResult::PreFlopWin)
        + outcome_count(counts, TrialResult::FlopDrop)
        + outcome_count(counts, TrialResult::FlopWin)
        + outcome_count(counts, TrialResult::ShowDownWin)
        + outcome_count(counts, TrialResult::ShowDownLose)
}

/// The text of a row: the shape, the total, the adjusted total and the
/// five counts in the order of their slots, separated by commas.
pub open spec fn outcome_row_text(counts: ShapeCounts) -> Seq<char> {
    counts.example.shape() + seq![','] + decimal_digits(outcome_total(counts)) + seq![',']
        + decimal_digits((outcome_total(counts) * combination_factor(counts.example)) as nat)
        + seq![','] + decimal_digits(outcome_count(counts, TrialResult::PreFlopWin))
        + seq![','] + decimal_digits(outcome_count(counts, TrialResult::FlopDrop))
        + seq![','] + decimal_digits(outcome_count(counts, TrialResult::FlopWin))
        + seq![','] + decimal_digits(outcome_count(counts, TrialResult::ShowDownWin))
        + seq![','] + decimal_digits(outcome_count(counts, TrialResult::ShowDownLose))
}

/// The counted outcomes of the starting hands of one shape.
#[derive(Debug, Clone, Copy)]
pub struct OutcomeCounts {
    example_hand: StartingHand,
    result_counts: [usize; 5],
}

impl View for OutcomeCounts {
    type V = ShapeCounts;

    closed spec fn view(&self) -> ShapeCounts {
        ShapeCounts {
            example: self.example_hand,
            counts: Seq::new(5, |i: int| self.result_counts[i] as nat),
        }
    }
}

impl OutcomeCounts {
    /// Counts for the shape of the given hand, all zero.
    pub fn new(example_hand: StartingHand) -> (result: OutcomeCounts)
        ensures
            result@ == ShapeCounts::fresh(example_hand, 5),
    {
        let result = Self { example_hand, result_counts: [0, 0, 0, 0, 0] };
        assert(result@.counts =~= ShapeCounts::fresh(example_hand, 5).counts);
        result
    }

    /// The heading of the table: the names of the columns of a row.
    pub fn csv_head() -> (head: String)
        ensures
            head@ == outcome_csv_head_text(),
    {
        String::from_str(
            "hand,actual,adjusted,pre_flop_win,flop_drop,flop_win,show_down_win,show_down_lose",
        )
    }

    /// The shape of the hands counted, such as `AKs`.
    pub fn hand_summary(&self) -> (summary: String)
        ensures
            summary@ == self@.example.shape(),
    {
        self.example_hand.summary()
    }

    /// Counts one more of the outcome.
    pub fn count_up(&mut self, result: TrialResult)
        requires
            outcome_count(old(self)@, result) < usize::MAX,
        ensures
            final(self)@ == old(self)@.counted_up(result.index()),
            final(self)@.counts.len() == 5,
    {
        let slot = result.slot();
        assert(self.result_counts[slot as int] == self@.counts[slot as int]);
        let count: usize = self.result_counts[slot];
        self.result_counts[slot] = count + 1;
        assert(self@.counts =~= old(self)@.counts.update(slot as int, (count + 1) as nat));
    }

    /// How many were counted in all.
    pub fn actual_count(&self) -> (count: usize)
        requires
            outcome_total(self@) <= usize::MAX,
        ensures
            count == outcome_total(self@),
    {
        assert(self.result_counts[0] == self@.counts[0]);
        assert(self.result_counts[1] == self@.counts[1]);
        assert(self.result_counts[2] == self@.counts[2]);
        assert(self.result_counts[3] == self@.counts[3]);
        assert(self.result_counts[4] == self@.counts[4]);
        self.result_counts[0] + self.result_counts[1] + self.result_counts[2]
            + self.result_counts[3] + self.result_counts[4]
    }

    /// The total multiplied by the combination factor of the shape.
    pub fn adjusted_count(&self) -> (count: usize)
        requires
            outcome_total(self@) * 3 <= usize::MAX,
        ensures
            count == outcome_total(self@) * combination_factor(self@.example),
    {
        let factor: usize = if self.example_hand.is_pair() {
            2
        } else if self.example_hand.is_suited() {
            3
        } else {
            1
        };
        self.actual_count() * factor
    }

    /// How often the outcome was counted.
    pub fn count_of(&self, result: TrialResult) -> (count: usize)
        ensures
            count == outcome_count(self@, result),
            self@.counts.len() == 5,
    {
        self.result_counts[result.slot()]
    }

    /// The row of the table for this shape.
    pub fn csv_row(&self) -> (row: String)
        requires
            outcome_total(self@) * 3 <= usize::MAX,
        ensures
            row@ == outcome_row_text(self@),
    {
        proof {
            reveal_strlit(",");
        }
        assert(self.result_counts[0] == self@.counts[0]);
        assert(self.result_counts[1] == self@.counts[1]);
        assert(self.result_counts[2] == self@.counts[2]);
        assert(self.result_counts[3] == self@.counts[3]);
        assert(self.result_counts[4] == self@.counts[4]);
        let mut row = self.example_hand.summary();
        row.append(",");
        row.append(decimal(self.actual_count()).as_str());
        row.append(",");
        row.append(decimal(self.adjusted_count()).as_str());
        row.append(",");
        row.append(decimal(self.result_counts[0]).as_str());
        row.append(",");
        row.append(decimal(self.result_counts[1]).as_str());
        row.append(",");
        row.append(decimal(self.result_counts[2]).as_str());
        row.append(",");
        row.append(decimal(self.result_counts[3]).as_str());
        row.append(",");
        row.append(decimal(self.result_counts[4]).as_str());
        assert(row@ =~= outcome_row_text(self@));
        row
    }
}

/// Counting raises the total by one for each result counted, and the
/// count of each result by the number of times it occurs among those
/// counted; the example stays.
pub proof fn lemma_outcome_counts_after(
    start: ShapeCounts,
    counted: Seq<TrialResult>,
    result: TrialResult,
)
    requires
        start.counts.len() == 5,
    ensures
        ({
            let end = start.after(counted, by_index());
            &&& end.example == start.example
            &&& end.counts.len() == 5
            &&& outcome_count(end, result) == outcome_count(start, result) + occurrences(
                counted,
                result,
            )
            &&& outcome_total(end) == outcome_total(start) + counted.len()
        }),
    decreases counted.len(),
{
    lemma_counts_after(start, counted, by_index(), result.index());
    assert(in_slot(by_index(), result.index()) =~= is_item(result));
    if counted.len() > 0 {
        lemma_outcome_counts_after(start, counted.drop_last(), result);
    }
}

/// The counts of a row do not depend on the order in which it counts: rows
/// that start alike and count the same things, each as often, in whatever
/// order, end alike, and so do their texts.
pub proof fn lemma_outcome_counts_ignore_order(
    start: ShapeCounts,
    first: Seq<TrialResult>,
    second: Seq<TrialResult>,
)
    requires
        first.to_multiset() == second.to_multiset(),
    ensures
        start.after(first, by_index()) == start.after(second, by_index()),
        outcome_row_text(start.after(first, by_index())) == outcome_row_text(
            start.after(second, by_index()),
        ),
{
    lemma_counts_ignore_order(start, first, second, by_index());
}

} // verus!
