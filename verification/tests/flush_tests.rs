#![allow(unused_imports)]
use std::cmp::Ordering;
use std::collections::HashSet;
use texas_holdem::board::Board;
use texas_holdem::card::{Card, NonJokerCard};
use texas_holdem::comparer::CardComparer;
use texas_holdem::deck::Deck;
use texas_holdem::hand::Hand;
use texas_holdem::hand_rank::HandRank;
use texas_holdem::hand_value::HandValue;
use texas_holdem::phase::Phase;
use texas_holdem::rank::{CardRank, CardRankNumber};
use texas_holdem::suit::{Suit, SuitColor};
use texas_holdem::total_hand::TotalHand;
use texas_holdem::hand_rank::flush;


#[test]
fn returns_none_when_only_4_same_suit_cards_exist() {
    let given_cards = [
        NonJokerCard::new(Suit::Heart, CardRank::new(10)),
        NonJokerCard::new(Suit::Heart, CardRank::new(7)),
        NonJokerCard::new(Suit::Heart, CardRank::new(12)),
        NonJokerCard::new(Suit::Heart, CardRank::new(3)),
        NonJokerCard::new(Suit::Diamond, CardRank::new(5)),
    ];
    let hand = TotalHand::new(&given_cards);
    let result = flush::try_to_build_from_total_hand(&hand);
    if let Some(_) = result {
        panic!("Result is expected to be None");
    }
}

#[test]
fn returns_some_when_5_same_suit_cards_exist() {
    let given_cards = [
        NonJokerCard::new(Suit::Heart, CardRank::new(10)),
        NonJokerCard::new(Suit::Heart, CardRank::new(7)),
        NonJokerCard::new(Suit::Heart, CardRank::new(12)),
        NonJokerCard::new(Suit::Heart, CardRank::new(3)),
        NonJokerCard::new(Suit::Heart, CardRank::new(5)),
    ];
    let hand = TotalHand::new(&given_cards);
    let result = flush::try_to_build_from_total_hand(&hand);
    if let None = result {
        panic!("Result is expected not to be None");
    }
}

#[test]
fn returns_some_when_6_same_suit_cards_exist() {
    let given_cards = [
        NonJokerCard::new(Suit::Heart, CardRank::new(10)),
        NonJokerCard::new(Suit::Heart, CardRank::new(7)),
        NonJokerCard::new(Suit::Heart, CardRank::new(12)),
        NonJokerCard::new(Suit::Heart, CardRank::new(3)),
        NonJokerCard::new(Suit::Heart, CardRank::new(5)),
        NonJokerCard::new(Suit::Heart, CardRank::new(1)),
    ];
    let hand = TotalHand::new(&given_cards);
    let result = flush::try_to_build_from_total_hand(&hand);
    if let None = result {
        panic!("Result is expected not to be None");
    }
}

#[test]
fn returns_some_when_extra_card_of_another_suit_exists() {
    let given_cards = [
        NonJokerCard::new(Suit::Heart, CardRank::new(10)),
        NonJokerCard::new(Suit::Heart, CardRank::new(7)),
        NonJokerCard::new(Suit::Heart, CardRank::new(12)),
        NonJokerCard::new(Suit::Heart, CardRank::new(3)),
        NonJokerCard::new(Suit::Heart, CardRank::new(5)),
        NonJokerCard::new(Suit::Spade, CardRank::new(1)),
    ];
    let hand = TotalHand::new(&given_cards);
    let result = flush::try_to_build_from_total_hand(&hand);
    if let None = result {
        panic!("Result is expected not to be None");
    }
}

#[test]
fn result_includes_higher_ranks_of_suit_of_flush() {
    let given_cards = [
        NonJokerCard::new(Suit::Heart, CardRank::new(10)),
        NonJokerCard::new(Suit::Heart, CardRank::new(7)),
        NonJokerCard::new(Suit::Heart, CardRank::new(12)),
        NonJokerCard::new(Suit::Heart, CardRank::new(3)),
        NonJokerCard::new(Suit::Heart, CardRank::new(5)),
        NonJokerCard::new(Suit::Spade, CardRank::new(13)),
        NonJokerCard::new(Suit::Heart, CardRank::new(6)),
    ];
    let hand = TotalHand::new(&given_cards);
    let result = flush::try_to_build_from_total_hand(&hand);
    let result_ranks = result.unwrap().value().card_ranks;
    let expected_ranks = [
        CardRank::new(12),
        CardRank::new(10),
        CardRank::new(7),
        CardRank::new(6),
        CardRank::new(5),
    ];
    assert_eq!(expected_ranks, result_ranks)
}

#[test]
fn hand_rank_of_result_is_flush() {
    let given_cards = [
        NonJokerCard::new(Suit::Heart, CardRank::new(10)),
        NonJokerCard::new(Suit::Heart, CardRank::new(2)),
        NonJokerCard::new(Suit::Heart, CardRank::new(9)),
        NonJokerCard::new(Suit::Heart, CardRank::new(7)),
        NonJokerCard::new(Suit::Heart, CardRank::new(3)),
    ];
    let hand = TotalHand::new(&given_cards);
    let result = flush::try_to_build_from_total_hand(&hand);
    assert_eq!(HandRank::Flush, result.unwrap().value().hand_rank)
}
