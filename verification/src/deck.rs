use rand::seq::SliceRandom;
use vstd::prelude::*;

verus! {

/// A pile of cards; the first card is the one dealt next.
#[derive(Debug, Clone)]
pub struct Deck<T> {
    card_vec: Vec<T>,
}

impl<T> View for Deck<T> {
    type V = Seq<T>;

    closed spec fn view(&self) -> Seq<T> {
        self.card_vec@
    }
}

/// The cards of `cards`, in order, whose mark in `picked` equals `want`.
pub open spec fn marked<T>(cards: Seq<T>, picked: Seq<bool>, want: bool) -> Seq<T>
    decreases cards.len(),
{
    if cards.len() == 0 {
        Seq::empty()
    } else {
        let rest = marked(cards.drop_last(), picked, want);
        if picked[cards.len() - 1] == want {
            rest.push(cards.last())
        } else {
            rest
        }
    }
}

/// Marks beyond the cards' length do not matter.
pub proof fn lemma_marked_ignores_later_marks<T>(
    cards: Seq<T>,
    picked: Seq<bool>,
    mark: bool,
    want: bool,
)
    requires
        cards.len() <= picked.len(),
    ensures
        marked(cards, picked.push(mark), want) == marked(cards, picked, want),
    decreases cards.len(),
{
    if cards.len() > 0 {
        lemma_marked_ignores_later_marks(cards.drop_last(), picked, mark, want);
    }
}

/// Puts the cards of a vector into a random order.
///
/// Calls `rand::thread_rng` and `SliceRandom::shuffle`, which only swaps
/// elements of the slice: afterwards the vector holds the same cards, each as
/// often as before. Nothing is claimed about their order.
#[verifier::external_body]
fn shuffle_cards<T>(cards: &mut Vec<T>)
    ensures
        final(cards)@.to_multiset() == old(cards)@.to_multiset(),
{
    let mut rng = rand::thread_rng();
    cards.shuffle(&mut rng);
}

impl<T> Deck<T> {
    /// A deck of the given cards, the first on top.
    pub fn new(cards: Vec<T>) -> (deck: Deck<T>)
        ensures
            deck@ == cards@,
    {
        Self { card_vec: cards }
    }

    /// All cards in the deck. The first element will be dealt next.
    pub fn cards(&self) -> (cards: &[T])
        ensures
            cards@ == self@,
    {
        self.card_vec.as_slice()
    }

    /// Randomizes the order of the cards; the deck keeps the same cards.
    pub fn shuffle(&mut self)
        ensures
            final(self)@.to_multiset() == old(self)@.to_multiset(),
            final(self)@.len() == old(self)@.len(),
    {
        let ghost before = self.card_vec@;
        shuffle_cards(&mut self.card_vec);
        proof {
            before.to_multiset_ensures();
            self.card_vec@.to_multiset_ensures();
        }
    }

    /// Removes the top card and returns it; `None` if the deck is empty.
    pub fn deal_one(&mut self) -> (card: Option<T>)
        ensures
            old(self)@.len() == 0 ==> card is None && final(self)@ == old(self)@,
            old(self)@.len() > 0 ==> card == Some(old(self)@[0]) && final(self)@ == old(
                self,
            )@.skip(1),
    {
        if self.card_vec.len() == 0 {
            None
        } else {
            let card = self.card_vec.remove(0);
            assert(self.card_vec@ =~= old(self)@.skip(1));
            Some(card)
        }
    }

    /// Removes up to `size` cards from the top and returns them in the order
    /// dealt; fewer only if the deck runs out.
    pub fn deal_many(&mut self, size: usize) -> (dealt: Vec<T>)
        ensures
            dealt@ == old(self)@.take(vstd::math::min(size as int, old(self)@.len() as int)),
            final(self)@ == old(self)@.skip(vstd::math::min(size as int, old(self)@.len() as int)),
    {
        let mut dealt = Vec::new();
        while dealt.len() < size
            invariant
                dealt.len() <= size,
                dealt.len() <= old(self)@.len(),
                dealt@ == old(self)@.take(dealt.len() as int),
                self@ == old(self)@.skip(dealt.len() as int),
            ensures
                dealt@ == old(self)@.take(vstd::math::min(size as int, old(self)@.len() as int)),
                self@ == old(self)@.skip(vstd::math::min(size as int, old(self)@.len() as int)),
            decreases size - dealt.len(),
        {
            let ghost n = dealt.len() as int;
            let card = self.deal_one();
            match card {
                Some(x) => {
                    dealt.push(x);
                    assert(dealt@ =~= old(self)@.take(n + 1));
                    assert(self@ =~= old(self)@.skip(n + 1));
                },
                None => {
                    assert(n == old(self)@.len());
                    break ;
                },
            }
        }
        dealt
    }

    /// Removes every card for which `condition` answers `true` and returns
    /// those cards; both the returned cards and the cards left keep their
    /// order. The condition is asked once for each card, from the top down.
    pub fn search<F: Fn(&T) -> bool>(&mut self, condition: F) -> (found: Vec<T>)
        requires
            forall|card: &T| #[trigger] condition.requires((card,)),
        ensures
            exists|picked: Seq<bool>|
                {
                    &&& picked.len() == old(self)@.len()
                    &&& forall|i: int|
                        0 <= i < picked.len() ==> condition.ensures(
                            (&old(self)@[i],),
                            #[trigger] picked[i],
                        )
                    &&& found@ == marked(old(self)@, picked, true)
                    &&& final(self)@ == marked(old(self)@, picked, false)
                },
    {
        let ghost orig = self.card_vec@;
        let ghost mut picked: Seq<bool> = Seq::empty();
        let mut found: Vec<T> = Vec::new();
        let mut i: usize = 0;
        while i < self.card_vec.len()
            invariant
                orig == old(self)@,
                picked.len() <= orig.len(),
                i == marked(orig.take(picked.len() as int), picked, false).len(),
                self.card_vec@ == marked(orig.take(picked.len() as int), picked, false)
                    + orig.skip(picked.len() as int),
                found@ == marked(orig.take(picked.len() as int), picked, true),
                forall|j: int|
                    0 <= j < picked.len() ==> condition.ensures((&orig[j],), #[trigger] picked[j]),
                forall|card: &T| #[trigger] condition.requires((card,)),
            decreases orig.len() - picked.len(),
        {
            let ghost n = picked.len() as int;
            let ghost before = self.card_vec@;
            assert(self.card_vec@[i as int] == orig.skip(n)[0]);
            assert(n < orig.len());
            let hit = condition(&self.card_vec[i]);
            proof {
                lemma_marked_ignores_later_marks(orig.take(n), picked, hit, true);
                lemma_marked_ignores_later_marks(orig.take(n), picked, hit, false);
                assert(orig.take(n + 1).drop_last() =~= orig.take(n));
                picked = picked.push(hit);
            }
            if hit {
                let removed = self.card_vec.remove(i);
                found.push(removed);
                assert(self.card_vec@ =~= marked(orig.take(n + 1), picked, false) + orig.skip(
                    n + 1,
                ));
            } else {
                i += 1;
                assert(self.card_vec@ =~= marked(orig.take(n + 1), picked, false) + orig.skip(
                    n + 1,
                ));
            }
        }
        proof {
            assert(orig.skip(picked.len() as int).len() == 0);
            assert(orig.take(picked.len() as int) =~= orig);
            assert(self.card_vec@ =~= marked(orig, picked, false));
        }
        found
    }
}

} // verus!
