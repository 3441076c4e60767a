use crate::card::{is_standard_deck, NonJokerCard};
use crate::deck::Deck;
use crate::hand::{lemma_hand_of_cards, Hand, StartingHand};
use crate::phase::Phase;
use crate::suit::Suit;
use vstd::prelude::*;

verus! {

/// The dealer's side of one deal: the deck, and the community cards dealt so
/// far.
pub struct Board {
    deck: Deck<NonJokerCard>,
    flop: Option<[NonJokerCard; 3]>,
    turn: Option<NonJokerCard>,
    river: Option<NonJokerCard>,
}

/// A board as mathematical values.
pub struct BoardCards {
    /// The cards left in the deck, the next to be dealt first.
    pub deck: Seq<NonJokerCard>,
    /// The community cards in the order dealt: none, three, four or five.
    pub community: Seq<NonJokerCard>,
}

/// The phase in which the given number of community cards lie on the board.
pub open spec fn phase_of(community: int) -> Phase {
    if community < 3 {
        Phase::PreFlop
    } else if community == 3 {
        Phase::Flop
    } else if community == 4 {
        Phase::Turn
    } else {
        Phase::River
    }
}

/// How many cards the next deal turns up when `community` cards lie on the
/// board: three for the flop, one each for turn and river, none after that.
pub open spec fn next_deal_size(community: int) -> int {
    if community < 3 {
        3
    } else if community < 5 {
        1
    } else {
        0
    }
}

/// How many cards have to be dealt to reach a phase from a board with
/// `community` cards: none if the phase is reached or passed.
pub open spec fn cards_until(community: int, until: Phase) -> int {
    if until.community_cards() > community {
        until.community_cards() - community
    } else {
        0
    }
}

/// The hands dealt to `players` players from the top of a deck: the first
/// two cards to the first player, the next two to the second, and so on.
pub open spec fn dealt_hands(deck: Seq<NonJokerCard>, players: int) -> Seq<Hand> {
    Seq::new(players as nat, |i: int| Hand::of(deck[2 * i], deck[2 * i + 1]))
}

/// Whether a deck holds the 52 cards of a standard deck, in any order.
pub open spec fn is_shuffled_standard_deck(deck: Seq<NonJokerCard>) -> bool {
    exists|standard: Seq<NonJokerCard>|
        is_standard_deck(standard) && #[trigger] standard.to_multiset() == deck.to_multiset()
}

/// The cards of a standard deck are all different, and so are the cards of
/// a shuffled standard deck, which are 52.
pub proof fn lemma_shuffled_standard_deck_is_distinct(deck: Seq<NonJokerCard>)
    requires
        is_shuffled_standard_deck(deck),
    ensures
        deck.no_duplicates(),
        deck.len() == 52,
{
    let standard = choose|standard: Seq<NonJokerCard>|
        is_standard_deck(standard) && #[trigger] standard.to_multiset() == deck.to_multiset();
    assert forall|i: int, j: int|
        0 <= i < standard.len() && 0 <= j < standard.len() && i != j implies standard[i]
        != standard[j] by {
        assert(crate::card::standard_card_holds(standard[i], i));
        assert(crate::card::standard_card_holds(standard[j], j));
        if i / 13 == j / 13 {
            assert(i % 13 != j % 13);
        } else {
            assert(Suit::of_index(i / 13) != Suit::of_index(j / 13));
        }
    }
    standard.lemma_multiset_has_no_duplicates();
    deck.lemma_multiset_has_no_duplicates_conv();
    standard.to_multiset_ensures();
    deck.to_multiset_ensures();
}

/// What the hands dealt from a deck hold: the hand of player `i` holds the
/// cards at the positions `2 * i` and `2 * i + 1` of the deck.
pub proof fn lemma_dealt_hands_hold_deck_cards(deck: Seq<NonJokerCard>, players: int, i: int)
    requires
        0 <= i < players,
    ensures
        dealt_hands(deck, players).len() == players,
        dealt_hands(deck, players)[i].holds(deck[2 * i], deck[2 * i + 1]),
{
    lemma_hand_of_cards(deck[2 * i], deck[2 * i + 1]);
}

/// Hands dealt from a deck of different cards share no card: the two cards
/// of a hand differ, no two hands hold the same card, and no card left in
/// the deck is held by a hand.
pub proof fn lemma_dealt_hands_share_no_card(
    deck: Seq<NonJokerCard>,
    players: int,
    i: int,
    j: int,
    left: int,
)
    requires
        deck.no_duplicates(),
        0 <= i < j < players,
        2 * players <= left < deck.len(),
    ensures
        ({
            let first = dealt_hands(deck, players)[i];
            let second = dealt_hands(deck, players)[j];
            &&& first.higher() != first.lower()
            &&& second.higher() != second.lower()
            &&& first.higher() != second.higher()
            &&& first.higher() != second.lower()
            &&& first.lower() != second.higher()
            &&& first.lower() != second.lower()
            &&& deck[left] != first.higher()
            &&& deck[left] != first.lower()
            &&& deck[left] != second.higher()
            &&& deck[left] != second.lower()
        }),
{
    lemma_hand_of_cards(deck[2 * i], deck[2 * i + 1]);
    lemma_hand_of_cards(deck[2 * j], deck[2 * j + 1]);
}

impl View for Board {
    type V = BoardCards;

    closed spec fn view(&self) -> BoardCards {
        BoardCards {
            deck: self.deck@,
            community: match self.flop {
                None => Seq::empty(),
                Some(flop) => match self.turn {
                    None => flop@,
                    Some(turn) => match self.river {
                        None => flop@.push(turn),
                        Some(river) => flop@.push(turn).push(river),
                    },
                },
            },
        }
    }
}

impl Board {
    /// What the constructors establish and every method keeps: the turn is
    /// dealt only after the flop, and the river only after the turn.
    pub closed spec fn wf(self) -> bool {
        &&& self.turn is Some ==> self.flop is Some
        &&& self.river is Some ==> self.turn is Some
    }

    /// How many community cards a board can have: none, three, four or five.
    pub open spec fn community_size_ok(self) -> bool {
        self@.community.len() == 0 || 3 <= self@.community.len() <= 5
    }

    /// A board before the flop with a freshly shuffled standard deck.
    pub fn new() -> (board: Board)
        ensures
            board.wf(),
            board@.community.len() == 0,
            board@.deck.len() == 52,
            is_shuffled_standard_deck(board@.deck),
            board@.deck.no_duplicates(),
    {
        let mut deck = Deck::new(NonJokerCard::all());
        let ghost standard = deck@;
        deck.shuffle();
        assert(standard.to_multiset() == deck@.to_multiset());
        proof {
            lemma_shuffled_standard_deck_is_distinct(deck@);
        }
        Self::with_deck(deck)
    }

    /// A board before the flop that deals from the given deck.
    pub fn with_deck(deck: Deck<NonJokerCard>) -> (board: Board)
        ensures
            board.wf(),
            board@ == (BoardCards { deck: deck@, community: Seq::empty() }),
    {
        Self { deck, flop: None, turn: None, river: None }
    }

    /// The three cards of the flop, once dealt.
    pub fn flop(&self) -> (flop: Option<[NonJokerCard; 3]>)
        requires
            self.wf(),
        ensures
            self.community_size_ok(),
            flop is Some <==> self@.community.len() >= 3,
            flop matches Some(cards) ==> cards@ == self@.community.take(3),
    {
        proof {
            if self.flop is Some {
                assert(self.flop->0@ =~= self@.community.take(3));
            }
        }
        self.flop
    }

    /// The turn card, once dealt.
    pub fn turn(&self) -> (turn: Option<NonJokerCard>)
        requires
            self.wf(),
        ensures
            self.community_size_ok(),
            turn is Some <==> self@.community.len() >= 4,
            turn matches Some(card) ==> card == self@.community[3],
    {
        self.turn
    }

    /// The river card, once dealt.
    pub fn river(&self) -> (river: Option<NonJokerCard>)
        requires
            self.wf(),
        ensures
            self.community_size_ok(),
            river is Some <==> self@.community.len() >= 5,
            river matches Some(card) ==> card == self@.community[4],
    {
        self.river
    }

    /// The community cards in the order dealt.
    pub fn cards(&self) -> (cards: Vec<NonJokerCard>)
        requires
            self.wf(),
        ensures
            self.community_size_ok(),
            cards@ == self@.community,
    {
        let mut v: Vec<NonJokerCard> = Vec::new();
        if let Some(cards) = self.flop {
            v.push(cards[0]);
            v.push(cards[1]);
            v.push(cards[2]);
            assert(v@ =~= cards@);
        }
        if let Some(c) = self.turn {
            v.push(c);
        }
        if let Some(c) = self.river {
            v.push(c);
        }
        v
    }

    /// The phase the board is in, by the cards dealt so far.
    pub fn current_phase(&self) -> (phase: Phase)
        requires
            self.wf(),
        ensures
            self.community_size_ok(),
            phase == phase_of(self@.community.len() as int),
            phase.community_cards() == self@.community.len(),
    {
        if self.flop.is_none() {
            Phase::PreFlop
        } else if self.turn.is_none() {
            Phase::Flop
        } else if self.river.is_none() {
            Phase::Turn
        } else {
            Phase::River
        }
    }

    /// Deals two cards to each of the players from the top of the deck, in
    /// turn. The deck must hold enough cards.
    pub fn deal_starting_hands(&mut self, num_of_players: usize) -> (hands: Vec<StartingHand>)
        requires
            old(self).wf(),
            2 * num_of_players <= old(self)@.deck.len(),
        ensures
            final(self).wf(),
            hands@ == dealt_hands(old(self)@.deck, num_of_players as int),
            hands@.len() == num_of_players,
            forall|i: int|
                0 <= i < num_of_players ==> (#[trigger] hands@[i]).holds(
                    old(self)@.deck[2 * i],
                    old(self)@.deck[2 * i + 1],
                ),
            final(self)@.deck == old(self)@.deck.skip(2 * num_of_players),
            final(self)@.community == old(self)@.community,
    {
        let mut v: Vec<StartingHand> = Vec::new();
        while v.len() < num_of_players
            invariant
                v@.len() <= num_of_players,
                self.wf(),
                2 * num_of_players <= old(self)@.deck.len(),
                v@ == dealt_hands(old(self)@.deck, v@.len() as int),
                forall|i: int|
                    0 <= i < v@.len() ==> (#[trigger] v@[i]).holds(
                        old(self)@.deck[2 * i],
                        old(self)@.deck[2 * i + 1],
                    ),
                self@.deck == old(self)@.deck.skip(2 * (v@.len() as int)),
                self@.community == old(self)@.community,
            decreases num_of_players - v@.len(),
        {
            let ghost n = v@.len() as int;
            let first = self.deck.deal_one().unwrap();
            let second = self.deck.deal_one().unwrap();
            let hand = Hand::new(first, second);
            v.push(hand);
            proof {
                assert(self@.deck =~= old(self)@.deck.skip(2 * (n + 1)));
                assert(v@ =~= dealt_hands(old(self)@.deck, n + 1));
            }
        }
        v
    }

    /// Deals the cards of the next phase: three for the flop, one for the
    /// turn, one for the river, none once the river lies. The deck must hold
    /// them.
    pub fn deal_next_card(&mut self)
        requires
            old(self).wf(),
            next_deal_size(old(self)@.community.len() as int) <= old(self)@.deck.len(),
        ensures
            final(self).wf(),
            final(self)@.community == old(self)@.community + old(self)@.deck.take(
                next_deal_size(old(self)@.community.len() as int),
            ),
            final(self)@.deck == old(self)@.deck.skip(
                next_deal_size(old(self)@.community.len() as int),
            ),
    {
        match self.current_phase() {
            Phase::PreFlop => {
                let first = self.deck.deal_one().unwrap();
                let second = self.deck.deal_one().unwrap();
                let third = self.deck.deal_one().unwrap();
                let cards = [first, second, third];
                self.flop = Some(cards);
                self.turn = None;
                self.river = None;
                proof {
                    assert(cards@ =~= old(self)@.deck.take(3));
                    assert(self@.deck =~= old(self)@.deck.skip(3));
                    assert(self@.community =~= old(self)@.community + old(self)@.deck.take(3));
                }
            },
            Phase::Flop => {
                let card = self.deck.deal_one().unwrap();
                self.turn = Some(card);
                proof {
                    assert(self@.community =~= old(self)@.community + old(self)@.deck.take(1));
                }
            },
            Phase::Turn => {
                let card = self.deck.deal_one().unwrap();
                self.river = Some(card);
                proof {
                    assert(self@.community =~= old(self)@.community + old(self)@.deck.take(1));
                }
            },
            Phase::River => {
                proof {
                    assert(self@.community =~= old(self)@.community + old(self)@.deck.take(0));
                    assert(self@.deck =~= old(self)@.deck.skip(0));
                }
            },
        }
    }

    /// Deals until the board is in the given phase; nothing if it is there
    /// already or past it. The deck must hold the cards this takes.
    pub fn deal_cards_until(&mut self, until: Phase)
        requires
            old(self).wf(),
            cards_until(old(self)@.community.len() as int, until) <= old(self)@.deck.len(),
        ensures
            final(self).wf(),
            final(self)@.community == old(self)@.community + old(self)@.deck.take(
                cards_until(old(self)@.community.len() as int, until),
            ),
            final(self)@.deck == old(self)@.deck.skip(
                cards_until(old(self)@.community.len() as int, until),
            ),
    {
        let ghost start = old(self)@.community.len() as int;
        let ghost wanted = cards_until(start, until);
        proof {
            assert(old(self)@.community + old(self)@.deck.take(0) =~= old(self)@.community);
            assert(old(self)@.deck.skip(0) =~= old(self)@.deck);
        }
        while self.current_phase().position() < until.position()
            invariant
                start == old(self)@.community.len(),
                wanted == cards_until(start, until),
                wanted <= old(self)@.deck.len(),
                self.wf(),
                self.community_size_ok(),
                start <= self@.community.len(),
                self@.community.len() - start <= wanted,
                self@.community == old(self)@.community + old(self)@.deck.take(
                    self@.community.len() - start,
                ),
                self@.deck == old(self)@.deck.skip(self@.community.len() - start),
            decreases 5 - self@.community.len(),
        {
            let ghost done = self@.community.len() - start;
            let ghost size = next_deal_size(self@.community.len() as int);
            self.deal_next_card();
            proof {
                assert(old(self)@.deck.skip(done).take(size) =~= old(self)@.deck.subrange(
                    done,
                    done + size,
                ));
                assert(self@.community =~= old(self)@.community + old(self)@.deck.take(
                    done + size,
                ));
                assert(self@.deck =~= old(self)@.deck.skip(done + size));
            }
        }
    }
}

} // verus!
