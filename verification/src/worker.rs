use crate::board::{dealt_hands, is_shuffled_standard_deck, Board};
use crate::card::NonJokerCard;
use crate::flop_hand::is_playable_on_flop;
use crate::hand::StartingHand;
use crate::hand_rank::best_five;
use crate::hand_value::{
    beats, lemma_beats_is_strict_order, lemma_value_order_connected, value_of, wins_over,
    HandValue,
};
use crate::phase::Phase;
use crate::starting_hand::{hand_points, TARGET_VALUE};
use crate::total_hand::{arranged, TotalHand};
use vstd::prelude::*;

verus! {

/// How a trial ended for one starting hand.
#[derive(Debug, Copy, Clone, Eq, Hash, PartialEq, Structural)]
pub enum TrialResult {
    /// The only hand that was played before the flop.
    PreFlopWin,
    /// Given up on the flop while other hands played on.
    FlopDrop,
    /// The only hand left after the flop.
    FlopWin,
    /// The best hand at the showdown.
    ShowDownWin,
    /// Beaten at the showdown.
    ShowDownLose,
}

/// The outcome of one trial for one starting hand.
#[derive(Debug, Copy, Clone)]
pub struct TrialResultOfHand {
    pub starting_hand: StartingHand,
    pub result: TrialResult,
}

impl TrialResultOfHand {
    /// The record of a hand and its outcome.
    pub fn new(starting_hand: StartingHand, result: TrialResult) -> (record: TrialResultOfHand)
        ensures
            record == (TrialResultOfHand { starting_hand, result }),
    {
        TrialResultOfHand { starting_hand, result }
    }

    /// The starting hand of the record.
    pub fn starting_hand(self) -> (hand: StartingHand)
        ensures
            hand == self.starting_hand,
    {
        self.starting_hand
    }

    /// The outcome of the record.
    pub fn result(self) -> (result: TrialResult)
        ensures
            result == self.result,
    {
        self.result
    }
}

/// Holds of the hands worth playing before the flop.
pub open spec fn plays_before_flop() -> spec_fn(StartingHand) -> bool {
    |hand: StartingHand| hand_points(hand) >= TARGET_VALUE
}

/// Holds of the hands worth playing on after the flop.
pub open spec fn plays_on(flop: Seq<NonJokerCard>) -> spec_fn(StartingHand) -> bool {
    |hand: StartingHand| is_playable_on_flop(hand, flop)
}

/// Holds of the hands not worth playing on after the flop.
pub open spec fn folds_on(flop: Seq<NonJokerCard>) -> spec_fn(StartingHand) -> bool {
    |hand: StartingHand| !is_playable_on_flop(hand, flop)
}

/// One record with the given outcome for each hand, in the order of the hands.
pub open spec fn records_of(hands: Seq<StartingHand>, result: TrialResult) -> Seq<
    TrialResultOfHand,
> {
    hands.map_values(|hand: StartingHand| TrialResultOfHand { starting_hand: hand, result })
}

/// The hands that play on after the flop: those worth it, or all of them if
/// none is.
pub open spec fn flop_survivors(hands: Seq<StartingHand>, flop: Seq<NonJokerCard>) -> Seq<
    StartingHand,
> {
    if hands.filter(plays_on(flop)).len() == 0 {
        hands
    } else {
        hands.filter(plays_on(flop))
    }
}

/// The records of the hands given up on the flop: one for each hand not
/// worth playing on, unless no hand is worth it.
pub open spec fn flop_drops(hands: Seq<StartingHand>, flop: Seq<NonJokerCard>) -> Seq<
    TrialResultOfHand,
> {
    if hands.filter(plays_on(flop)).len() == 0 {
        Seq::empty()
    } else {
        records_of(hands.filter(folds_on(flop)), TrialResult::FlopDrop)
    }
}

/// What a hand is worth at the showdown: the value of the best five cards
/// among its two hole cards and the community cards.
pub open spec fn show_down_value(hand: StartingHand, community: Seq<NonJokerCard>) -> HandValue {
    let best = best_five(arranged(seq![hand.higher(), hand.lower()] + community))->0;
    value_of(best.rank, best.cards)
}

/// Position, among the first `count` hands, of the first hand that no other
/// of them beats.
pub open spec fn show_down_leader(
    hands: Seq<StartingHand>,
    community: Seq<NonJokerCard>,
    count: int,
) -> int
    decreases count,
{
    if count <= 1 {
        0
    } else {
        let before = show_down_leader(hands, community, count - 1);
        if beats(
            show_down_value(hands[count - 1], community),
            show_down_value(hands[before], community),
        ) {
            count - 1
        } else {
            before
        }
    }
}

/// The records of a showdown: a win for the leader, then a loss for every
/// other hand in the order of the hands. Of hands of equal value the first
/// wins.
pub open spec fn show_down_records(
    hands: Seq<StartingHand>,
    community: Seq<NonJokerCard>,
) -> Seq<TrialResultOfHand> {
    let leader = show_down_leader(hands, community, hands.len() as int);
    seq![
        TrialResultOfHand { starting_hand: hands[leader], result: TrialResult::ShowDownWin },
    ] + records_of(hands.remove(leader), TrialResult::ShowDownLose)
}

/// The leader of a showdown is one of the hands; no hand beats it, and it
/// beats every hand before it.
pub proof fn lemma_leader_is_first_best(
    hands: Seq<StartingHand>,
    community: Seq<NonJokerCard>,
    count: int,
)
    requires
        1 <= count <= hands.len(),
    ensures
        ({
            let leader = show_down_leader(hands, community, count);
            &&& 0 <= leader < count
            &&& forall|i: int|
                0 <= i < count ==> !beats(
                    show_down_value(#[trigger] hands[i], community),
                    show_down_value(hands[leader], community),
                )
            &&& forall|i: int|
                0 <= i < leader ==> beats(
                    show_down_value(hands[leader], community),
                    show_down_value(#[trigger] hands[i], community),
                )
        }),
    decreases count,
{
    if count > 1 {
        lemma_leader_is_first_best(hands, community, count - 1);
        let before = show_down_leader(hands, community, count - 1);
        let leader = show_down_leader(hands, community, count);
        let last = show_down_value(hands[count - 1], community);
        let best = show_down_value(hands[before], community);
        assert forall|i: int| 0 <= i < count implies !beats(
            show_down_value(#[trigger] hands[i], community),
            show_down_value(hands[leader], community),
        ) by {
            lemma_beats_is_strict_order(
                show_down_value(hands[i], community),
                best,
                show_down_value(hands[leader], community),
            );
            lemma_beats_is_strict_order(last, best, last);
            lemma_beats_is_strict_order(
                show_down_value(hands[i], community),
                show_down_value(hands[i], community),
                best,
            );
        }
        assert forall|i: int| 0 <= i < leader implies beats(
            show_down_value(hands[leader], community),
            show_down_value(#[trigger] hands[i], community),
        ) by {
            if leader == count - 1 {
                if i < before {
                    lemma_beats_is_strict_order(
                        last,
                        best,
                        show_down_value(hands[i], community),
                    );
                } else if i > before {
                    lemma_value_order_connected(last, best, show_down_value(hands[i], community));
                }
            }
        }
    }
}

/// The records of one trial dealt from the given deck to the given number of
/// players.
///
/// Each player gets two cards from the top of the deck. If at most one hand
/// is worth playing before the flop, that hand wins before the flop and the
/// trial ends. Otherwise the flop is dealt, the hands not worth playing on
/// drop out, and a single hand left wins on the flop; several hands left go
/// to the showdown over all five community cards.
pub open spec fn trial_records(deck: Seq<NonJokerCard>, players: int) -> Seq<TrialResultOfHand> {
    let played = dealt_hands(deck, players).filter(plays_before_flop());
    let rest = deck.skip(2 * players);
    let left = flop_survivors(played, rest.take(3));
    if played.len() <= 1 {
        records_of(played, TrialResult::PreFlopWin)
    } else if left.len() <= 1 {
        flop_drops(played, rest.take(3)) + records_of(left, TrialResult::FlopWin)
    } else {
        flop_drops(played, rest.take(3)) + show_down_records(left, rest.take(5))
    }
}

/// The records of a run of trials, one trial for each deck, in order.
pub open spec fn worker_records(decks: Seq<Seq<NonJokerCard>>, players: int) -> Seq<
    TrialResultOfHand,
>
    decreases decks.len(),
{
    if decks.len() == 0 {
        Seq::empty()
    } else {
        worker_records(decks.drop_last(), players) + trial_records(decks.last(), players)
    }
}

/// One record with the given outcome for each hand.
fn records_for(hands: &Vec<StartingHand>, result: TrialResult) -> (records: Vec<TrialResultOfHand>)
    ensures
        records@ == records_of(hands@, result),
{
    let mut records: Vec<TrialResultOfHand> = Vec::new();
    let mut i: usize = 0;
    while i < hands.len()
        invariant
            i <= hands@.len(),
            records@.len() == i,
            forall|k: int|
                0 <= k < i ==> #[trigger] records@[k] == (TrialResultOfHand {
                    starting_hand: hands@[k],
                    result,
                }),
        decreases hands@.len() - i,
    {
        records.push(TrialResultOfHand::new(hands[i], result));
        i += 1;
    }
    assert(records@ =~= records_of(hands@, result));
    records
}

/// The hands worth playing before the flop, in order.
pub fn pre_flop_check(hands: &Vec<StartingHand>) -> (played: Vec<StartingHand>)
    ensures
        played@ == hands@.filter(plays_before_flop()),
{
    let mut played: Vec<StartingHand> = Vec::new();
    let mut i: usize = 0;
    proof {
        assert(hands@.take(0) =~= Seq::empty());
        Seq::<StartingHand>::empty().lemma_filter_len(plays_before_flop());
    }
    while i < hands.len()
        invariant
            i <= hands@.len(),
            played@ == hands@.take(i as int).filter(plays_before_flop()),
        decreases hands@.len() - i,
    {
        let hand = hands[i];
        proof {
            assert(hands@.take(i + 1) =~= hands@.take(i as int).push(hand));
            hands@.take(i as int).lemma_filter_push(hand, plays_before_flop());
        }
        if crate::starting_hand::evaluate_hand(hand) {
            played.push(hand);
        }
        i += 1;
    }
    assert(hands@.take(i as int) =~= hands@);
    played
}

/// Decides on the flop who plays on: the hands worth it, or all hands if
/// none is. Returns the hands that play on and a drop record for every other
/// hand. The board must show its flop.
pub fn flop_check(starting_hands: Vec<StartingHand>, board: &Board) -> (result: (
    Vec<StartingHand>,
    Vec<TrialResultOfHand>,
))
    requires
        board.wf(),
        board@.community.len() >= 3,
    ensures
        result.0@ == flop_survivors(starting_hands@, board@.community.take(3)),
        result.1@ == flop_drops(starting_hands@, board@.community.take(3)),
{
    let flop = board.flop().unwrap();
    let ghost shown = board@.community.take(3);
    let mut winners: Vec<StartingHand> = Vec::new();
    let mut losers: Vec<StartingHand> = Vec::new();
    let mut i: usize = 0;
    proof {
        assert(starting_hands@.take(0) =~= Seq::empty());
        Seq::<StartingHand>::empty().lemma_filter_len(plays_on(shown));
        Seq::<StartingHand>::empty().lemma_filter_len(folds_on(shown));
    }
    while i < starting_hands.len()
        invariant
            i <= starting_hands@.len(),
            flop@ == shown,
            winners@ == starting_hands@.take(i as int).filter(plays_on(shown)),
            losers@ == starting_hands@.take(i as int).filter(folds_on(shown)),
        decreases starting_hands@.len() - i,
    {
        let hand = starting_hands[i];
        proof {
            assert(starting_hands@.take(i + 1) =~= starting_hands@.take(i as int).push(hand));
            starting_hands@.take(i as int).lemma_filter_push(hand, plays_on(shown));
            starting_hands@.take(i as int).lemma_filter_push(hand, folds_on(shown));
        }
        if crate::flop_hand::evaluate_hand(hand, flop) {
            winners.push(hand);
        } else {
            losers.push(hand);
        }
        i += 1;
    }
    assert(starting_hands@.take(i as int) =~= starting_hands@);
    if winners.len() == 0 {
        (starting_hands, Vec::new())
    } else {
        let dropped = records_for(&losers, TrialResult::FlopDrop);
        (winners, dropped)
    }
}

/// Decides the showdown: the hand of the highest value wins, the first such
/// hand if several share it, and every other hand loses. There must be a
/// hand, and the board must show its flop at least.
pub fn show_down_check(starting_hands: Vec<StartingHand>, board: &Board) -> (records: Vec<
    TrialResultOfHand,
>)
    requires
        starting_hands@.len() >= 1,
        board.wf(),
        board@.community.len() >= 3,
    ensures
        records@ == show_down_records(starting_hands@, board@.community),
{
    let ghost community = board@.community;
    let first_total = TotalHand::new_from_starting_hand_and_board(starting_hands[0], board);
    let mut best_value = first_total.find_best_five_hand().unwrap().value();
    let mut leader: usize = 0;
    let mut i: usize = 1;
    while i < starting_hands.len()
        invariant
            1 <= i <= starting_hands@.len(),
            board.wf(),
            community == board@.community,
            community.len() >= 3,
            leader == show_down_leader(starting_hands@, community, i as int),
            0 <= leader < i,
            best_value == show_down_value(starting_hands@[leader as int], community),
        decreases starting_hands@.len() - i,
    {
        let total = TotalHand::new_from_starting_hand_and_board(starting_hands[i], board);
        let value = total.find_best_five_hand().unwrap().value();
        if wins_over(&value, &best_value) {
            best_value = value;
            leader = i;
        }
        i += 1;
    }
    let mut records: Vec<TrialResultOfHand> = Vec::new();
    records.push(TrialResultOfHand::new(starting_hands[leader], TrialResult::ShowDownWin));
    let ghost losers = starting_hands@.remove(leader as int);
    let mut k: usize = 0;
    while k < starting_hands.len()
        invariant
            k <= starting_hands@.len(),
            leader < starting_hands@.len(),
            losers == starting_hands@.remove(leader as int),
            records@.len() == 1 + (if k <= leader {
                k as int
            } else {
                k - 1
            }),
            records@[0] == (TrialResultOfHand {
                starting_hand: starting_hands@[leader as int],
                result: TrialResult::ShowDownWin,
            }),
            forall|j: int|
                1 <= j < records@.len() ==> #[trigger] records@[j] == (TrialResultOfHand {
                    starting_hand: losers[j - 1],
                    result: TrialResult::ShowDownLose,
                }),
        decreases starting_hands@.len() - k,
    {
        if k != leader {
            records.push(TrialResultOfHand::new(starting_hands[k], TrialResult::ShowDownLose));
        }
        k += 1;
    }
    assert(records@ =~= show_down_records(starting_hands@, community));
    records
}

/// Plays one trial on the given board, which must be before the flop with
/// enough cards in its deck for the players and the five community cards.
pub fn play_trial(board: Board, num_of_players: usize) -> (records: Vec<TrialResultOfHand>)
    requires
        board.wf(),
        board@.community.len() == 0,
        2 * num_of_players + 5 <= board@.deck.len(),
    ensures
        records@ == trial_records(board@.deck, num_of_players as int),
{
    let ghost deck = board@.deck;
    let ghost rest = deck.skip(2 * num_of_players);
    let mut board = board;
    let dealt = board.deal_starting_hands(num_of_players);
    let hands = pre_flop_check(&dealt);
    if hands.len() <= 1 {
        return records_for(&hands, TrialResult::PreFlopWin);
    }
    board.deal_cards_until(Phase::Flop);
    assert(board@.community =~= rest.take(3));
    assert(board@.community.take(3) =~= rest.take(3));
    let (hands, mut records) = flop_check(hands, &board);
    if hands.len() <= 1 {
        let mut wins = records_for(&hands, TrialResult::FlopWin);
        records.append(&mut wins);
        return records;
    }
    board.deal_cards_until(Phase::River);
    assert(board@.community =~= rest.take(5)) by {
        assert(rest.skip(3).take(2) =~= rest.subrange(3, 5));
    }
    let mut show_down = show_down_check(hands, &board);
    records.append(&mut show_down);
    records
}

/// Plays one trial with a freshly shuffled standard deck. The players and
/// the five community cards must fit into the deck's 52 cards.
pub fn do_trial(num_of_players: usize) -> (records: Vec<TrialResultOfHand>)
    requires
        2 * num_of_players + 5 <= 52,
    ensures
        exists|deck: Seq<NonJokerCard>|
            is_shuffled_standard_deck(deck) && #[trigger] trial_records(
                deck,
                num_of_players as int,
            ) == records@,
{
    let board = Board::new();
    play_trial(board, num_of_players)
}

/// Plays the given number of trials, each with a freshly shuffled standard
/// deck, and returns the records of all of them in order.
pub fn run_worker(number_of_players: usize, trial_count: usize) -> (records: Vec<
    TrialResultOfHand,
>)
    requires
        2 * number_of_players + 5 <= 52,
    ensures
        exists|decks: Seq<Seq<NonJokerCard>>|
            {
                &&& decks.len() == trial_count
                &&& forall|i: int|
                    0 <= i < decks.len() ==> is_shuffled_standard_deck(#[trigger] decks[i])
                &&& #[trigger] worker_records(decks, number_of_players as int) == records@
            },
{
    let mut records: Vec<TrialResultOfHand> = Vec::new();
    let ghost mut decks: Seq<Seq<NonJokerCard>> = Seq::empty();
    let mut done: usize = 0;
    while done < trial_count
        invariant
            done <= trial_count,
            2 * number_of_players + 5 <= 52,
            decks.len() == done,
            forall|i: int| 0 <= i < decks.len() ==> is_shuffled_standard_deck(#[trigger] decks[i]),
            records@ == worker_records(decks, number_of_players as int),
        decreases trial_count - done,
    {
        let mut trial = do_trial(number_of_players);
        proof {
            let deck = choose|deck: Seq<NonJokerCard>|
                is_shuffled_standard_deck(deck) && #[trigger] trial_records(
                    deck,
                    number_of_players as int,
                ) == trial@;
            let before = decks;
            decks = decks.push(deck);
            assert(decks.drop_last() =~= before);
        }
        records.append(&mut trial);
        done += 1;
    }
    records
}

} // verus!
