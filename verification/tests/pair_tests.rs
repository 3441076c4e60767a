#![allow(unused_imports)]
use std::cmp::Ordering;
use std::collections::HashSet;
use texas_holdem::board::Board;
use texas_holdem::card::{Card, NonJokerCard};
use texas_holdem::comparer::CardComparer;
use texas_holdem::deck::Deck;
use texas_holdem::hand::Hand;
use texas_holdem::hand_rank::HandRank;
use texas_holdem::hand_value::HandValue;
use texas_holdem::phase::Phase;
use texas_holdem::rank::{CardRank, CardRankNumber};
use texas_holdem::suit::{Suit, SuitColor};
use texas_holdem::total_hand::TotalHand;
use texas_holdem::hand_rank::pair;


#[test]
fn returns_none_when_is_paired_but_only_4_cards_are_given() {
    let given_cards = [
        NonJokerCard::new(Suit::Heart, CardRank::new(10)),
        NonJokerCard::new(Suit::Heart, CardRank::new(2)),
        NonJokerCard::new(Suit::Spade, CardRank::new(10)),
        NonJokerCard::new(Suit::Heart, CardRank::new(9)),
    ];
    let hand = TotalHand::new(&given_cards);
    let result = pair::try_to_build_from_total_hand(&hand);
    if let Some(_) = result {
        panic!("Result is expected to be None");
    }
}

#[test]
fn pair_returns_none_when_5_cards_are_given_but_no_pair() {
    let given_cards = [
        NonJokerCard::new(Suit::Heart, CardRank::new(10)),
        NonJokerCard::new(Suit::Heart, CardRank::new(2)),
        NonJokerCard::new(Suit::Heart, CardRank::new(4)),
        NonJokerCard::new(Suit::Heart, CardRank::new(9)),
        NonJokerCard::new(Suit::Spade, CardRank::new(7)),
    ];
    let hand = TotalHand::new(&given_cards);
    let result = pair::try_to_build_from_total_hand(&hand);
    if let Some(_) = result {
        panic!("Result is expected to be None");
    }
}

#[test]
fn returns_some_when_5_cards_are_given_and_is_paired() {
    let given_cards = [
        NonJokerCard::new(Suit::Heart, CardRank::new(10)),
        NonJokerCard::new(Suit::Heart, CardRank::new(2)),
        NonJokerCard::new(Suit::Heart, CardRank::new(4)),
        NonJokerCard::new(Suit::Club, CardRank::new(10)),
        NonJokerCard::new(Suit::Spade, CardRank::new(7)),
    ];
    let hand = TotalHand::new(&given_cards);
    let result = pair::try_to_build_from_total_hand(&hand);
    if let None = result {
        panic!("Result is expected not to be None");
    }
}

#[test]
fn rank_of_pair_comes_first_in_result_value_and_other_ranks_are_sorted() {
    let given_cards = [
        NonJokerCard::new(Suit::Heart, CardRank::new(10)),
        NonJokerCard::new(Suit::Heart, CardRank::new(2)),
        NonJokerCard::new(Suit::Heart, CardRank::new(4)),
        NonJokerCard::new(Suit::Heart, CardRank::new(9)),
        NonJokerCard::new(Suit::Spade, CardRank::new(7)),
        NonJokerCard::new(Suit::Spade, CardRank::new(2)),
    ];
    let hand = TotalHand::new(&given_cards);
    let result = pair::try_to_build_from_total_hand(&hand);
    let result_ranks = result.unwrap().value().card_ranks;
    let expected_ranks = [
        CardRank::new(2),
        CardRank::new(2),
        CardRank::new(10),
        CardRank::new(9),
        CardRank::new(7),
    ];
    assert_eq!(expected_ranks, result_ranks)
}

#[test]
fn hand_rank_of_result_is_pair() {
    let given_cards = [
        NonJokerCard::new(Suit::Heart, CardRank::new(10)),
        NonJokerCard::new(Suit::Heart, CardRank::new(2)),
        NonJokerCard::new(Suit::Heart, CardRank::new(4)),
        NonJokerCard::new(Suit::Heart, CardRank::new(9)),
        NonJokerCard::new(Suit::Spade, CardRank::new(7)),
        NonJokerCard::new(Suit::Spade, CardRank::new(2)),
    ];
    let hand = TotalHand::new(&given_cards);
    let result = pair::try_to_build_from_total_hand(&hand);
    assert_eq!(HandRank::Pair, result.unwrap().value().hand_rank)
}
