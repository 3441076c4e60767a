use crate::hand::StartingHand;
use vstd::prelude::*;

verus! {

/// Holds of the given item and of nothing else.
pub open spec fn is_item<T>(item: T) -> spec_fn(T) -> bool {
    |other: T| other == item
}

/// How often the item occurs among the items.
pub open spec fn occurrences<T>(items: Seq<T>, item: T) -> nat {
    items.filter(is_item(item)).len()
}

/// Holds of the items that are counted in the given slot.
pub open spec fn in_slot<T>(slot_of: spec_fn(T) -> int, slot: int) -> spec_fn(T) -> bool {
    |item: T| slot_of(item) == slot
}

/// Taking one item out lowers by one the number of items that meet a
/// condition if the item meets it, and leaves the number as it is otherwise.
pub proof fn lemma_filter_len_remove<T>(
    items: Seq<T>,
    position: int,
    condition: spec_fn(T) -> bool,
)
    requires
        0 <= position < items.len(),
    ensures
        items.filter(condition).len() == items.remove(position).filter(condition).len() + (
        if condition(items[position]) {
            1int
        } else {
            0int
        }),
{
    let front = items.take(position);
    let back = items.skip(position + 1);
    assert(items =~= front.push(items[position]) + back);
    assert(items.remove(position) =~= front + back);
    Seq::filter_distributes_over_add(front.push(items[position]), back, condition);
    Seq::filter_distributes_over_add(front, back, condition);
    front.lemma_filter_len_push(condition, items[position]);
}

/// How many items meet a condition does not depend on their order: two
/// sequences of the same items, each as often in the one as in the other,
/// hold equally many that meet it.
pub proof fn lemma_filter_len_ignores_order<T>(
    first: Seq<T>,
    second: Seq<T>,
    condition: spec_fn(T) -> bool,
)
    requires
        first.to_multiset() == second.to_multiset(),
    ensures
        first.filter(condition).len() == second.filter(condition).len(),
    decreases first.len(),
{
    first.to_multiset_ensures();
    second.to_multiset_ensures();
    if first.len() == 0 {
        assert(first =~= second);
    } else {
        let item = first[0];
        assert(first.contains(item));
        vstd::seq_lib::to_multiset_contains(first, item);
        vstd::seq_lib::to_multiset_contains(second, item);
        let position = choose|position: int|
            0 <= position < second.len() && second[position] == item;
        vstd::seq_lib::to_multiset_remove(first, 0);
        vstd::seq_lib::to_multiset_remove(second, position);
        lemma_filter_len_ignores_order(first.remove(0), second.remove(position), condition);
        lemma_filter_len_remove(first, 0, condition);
        lemma_filter_len_remove(second, position, condition);
    }
}

/// The counts of one shape of starting hand as mathematical values: a hand
/// that stands for the shape, and one count for each slot.
pub struct ShapeCounts {
    pub example: StartingHand,
    pub counts: Seq<nat>,
}

impl ShapeCounts {
    /// Counts for the shape of the given hand, all zero.
    pub open spec fn fresh(example: StartingHand, slots: nat) -> ShapeCounts {
        ShapeCounts { example, counts: Seq::new(slots, |i: int| 0nat) }
    }

    /// The same counts with one more in the given slot; the same counts if
    /// there is no such slot.
    pub open spec fn counted_up(self, slot: int) -> ShapeCounts {
        if 0 <= slot < self.counts.len() {
            ShapeCounts {
                example: self.example,
                counts: self.counts.update(slot, self.counts[slot] + 1),
            }
        } else {
            self
        }
    }

    /// The counts after each of the items has been counted, one after the
    /// other, in the slot that `slot_of` gives it.
    pub open spec fn after<T>(self, items: Seq<T>, slot_of: spec_fn(T) -> int) -> ShapeCounts
        decreases items.len(),
    {
        if items.len() == 0 {
            self
        } else {
            self.after(items.drop_last(), slot_of).counted_up(slot_of(items.last()))
        }
    }
}

/// Counting items one after the other raises each slot by the number of
/// items counted in it, and changes nothing else.
pub proof fn lemma_counts_after<T>(
    start: ShapeCounts,
    items: Seq<T>,
    slot_of: spec_fn(T) -> int,
    slot: int,
)
    requires
        0 <= slot < start.counts.len(),
    ensures
        start.after(items, slot_of).example == start.example,
        start.after(items, slot_of).counts.len() == start.counts.len(),
        start.after(items, slot_of).counts[slot] == start.counts[slot] + items.filter(
            in_slot(slot_of, slot),
        ).len(),
    decreases items.len(),
{
    if items.len() == 0 {
        items.lemma_filter_len(in_slot(slot_of, slot));
    } else {
        let front = items.drop_last();
        lemma_counts_after(start, front, slot_of, slot);
        assert(items =~= front.push(items.last()));
        front.lemma_filter_len_push(in_slot(slot_of, slot), items.last());
    }
}

/// The counts do not depend on the order in which the items are counted.
pub proof fn lemma_counts_ignore_order<T>(
    start: ShapeCounts,
    first: Seq<T>,
    second: Seq<T>,
    slot_of: spec_fn(T) -> int,
)
    requires
        first.to_multiset() == second.to_multiset(),
    ensures
        start.after(first, slot_of) == start.after(second, slot_of),
{
    let one = start.after(first, slot_of);
    let other = start.after(second, slot_of);
    if start.counts.len() > 0 {
        lemma_counts_after(start, first, slot_of, 0);
        lemma_counts_after(start, second, slot_of, 0);
    } else {
        lemma_counts_keep_length(start, first, slot_of);
        lemma_counts_keep_length(start, second, slot_of);
    }
    assert forall|slot: int| 0 <= slot < one.counts.len() implies one.counts[slot]
        == other.counts[slot] by {
        lemma_counts_after(start, first, slot_of, slot);
        lemma_counts_after(start, second, slot_of, slot);
        lemma_filter_len_ignores_order(first, second, in_slot(slot_of, slot));
    }
    assert(one.counts =~= other.counts);
}

/// Counting keeps the example and the number of slots.
pub proof fn lemma_counts_keep_length<T>(
    start: ShapeCounts,
    items: Seq<T>,
    slot_of: spec_fn(T) -> int,
)
    ensures
        start.after(items, slot_of).example == start.example,
        start.after(items, slot_of).counts.len() == start.counts.len(),
    decreases items.len(),
{
    if items.len() > 0 {
        lemma_counts_keep_length(start, items.drop_last(), slot_of);
    }
}

} // verus!
