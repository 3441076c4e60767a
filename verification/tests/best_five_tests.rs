#![allow(unused_imports)]
use std::cmp::Ordering;
use std::collections::HashSet;
use texas_holdem::board::Board;
use texas_holdem::card::{Card, NonJokerCard};
use texas_holdem::comparer::CardComparer;
use texas_holdem::deck::Deck;
use texas_holdem::hand::Hand;
use texas_holdem::hand_rank::HandRank;
use texas_holdem::hand_value::HandValue;
use texas_holdem::phase::Phase;
use texas_holdem::rank::{CardRank, CardRankNumber};
use texas_holdem::suit::{Suit, SuitColor};
use texas_holdem::total_hand::TotalHand;


#[test]
fn can_find_royal_flush() {
    let given_cards = [
        NonJokerCard::new(Suit::Heart, CardRank::new(1)),
        NonJokerCard::new(Suit::Heart, CardRank::new(13)),
        NonJokerCard::new(Suit::Heart, CardRank::new(12)),
        NonJokerCard::new(Suit::Heart, CardRank::new(11)),
        NonJokerCard::new(Suit::Heart, CardRank::new(10)),
    ];
    let hand = TotalHand::new(&given_cards);
    let result = hand.find_best_five_hand();
    assert_ne!(None, result);
    assert_eq!(HandRank::RoyalFlush, result.unwrap().hand_rank())
}

#[test]
fn can_find_straight_flush() {
    let given_cards = [
        NonJokerCard::new(Suit::Heart, CardRank::new(13)),
        NonJokerCard::new(Suit::Heart, CardRank::new(12)),
        NonJokerCard::new(Suit::Heart, CardRank::new(11)),
        NonJokerCard::new(Suit::Heart, CardRank::new(10)),
        NonJokerCard::new(Suit::Heart, CardRank::new(9)),
    ];
    let hand = TotalHand::new(&given_cards);
    let result = hand.find_best_five_hand();
    assert_ne!(None, result);
    assert_eq!(HandRank::StraightFlush, result.unwrap().hand_rank())
}

#[test]
fn can_find_four_of_a_kind() {
    let given_cards = [
        NonJokerCard::new(Suit::Heart, CardRank::new(13)),
        NonJokerCard::new(Suit::Spade, CardRank::new(13)),
        NonJokerCard::new(Suit::Club, CardRank::new(13)),
        NonJokerCard::new(Suit::Diamond, CardRank::new(13)),
        NonJokerCard::new(Suit::Heart, CardRank::new(9)),
    ];
    let hand = TotalHand::new(&given_cards);
    let result = hand.find_best_five_hand();
    assert_ne!(None, result);
    assert_eq!(HandRank::FourOfAKind, result.unwrap().hand_rank())
}

#[test]
fn can_find_full_house() {
    let given_cards = [
        NonJokerCard::new(Suit::Heart, CardRank::new(13)),
        NonJokerCard::new(Suit::Spade, CardRank::new(13)),
        NonJokerCard::new(Suit::Club, CardRank::new(13)),
        NonJokerCard::new(Suit::Heart, CardRank::new(9)),
        NonJokerCard::new(Suit::Diamond, CardRank::new(9)),
    ];
    let hand = TotalHand::new(&given_cards);
    let result = hand.find_best_five_hand();
    assert_ne!(None, result);
    assert_eq!(HandRank::FullHouse, result.unwrap().hand_rank())
}

#[test]
fn can_find_flush() {
    let given_cards = [
        NonJokerCard::new(Suit::Heart, CardRank::new(1)),
        NonJokerCard::new(Suit::Heart, CardRank::new(12)),
        NonJokerCard::new(Suit::Heart, CardRank::new(10)),
        NonJokerCard::new(Suit::Heart, CardRank::new(8)),
        NonJokerCard::new(Suit::Heart, CardRank::new(6)),
    ];
    let hand = TotalHand::new(&given_cards);
    let result = hand.find_best_five_hand();
    assert_ne!(None, result);
    assert_eq!(HandRank::Flush, result.unwrap().hand_rank())
}

#[test]
fn can_find_straight() {
    let given_cards = [
        NonJokerCard::new(Suit::Heart, CardRank::new(13)),
        NonJokerCard::new(Suit::Spade, CardRank::new(12)),
        NonJokerCard::new(Suit::Diamond, CardRank::new(11)),
        NonJokerCard::new(Suit::Club, CardRank::new(10)),
        NonJokerCard::new(Suit::Heart, CardRank::new(9)),
    ];
    let hand = TotalHand::new(&given_cards);
    let result = hand.find_best_five_hand();
    assert_ne!(None, result);
    assert_eq!(HandRank::Straight, result.unwrap().hand_rank())
}

#[test]
fn can_find_three_of_a_kind() {
    let given_cards = [
        NonJokerCard::new(Suit::Heart, CardRank::new(13)),
        NonJokerCard::new(Suit::Spade, CardRank::new(13)),
        NonJokerCard::new(Suit::Club, CardRank::new(13)),
        NonJokerCard::new(Suit::Diamond, CardRank::new(1)),
        NonJokerCard::new(Suit::Heart, CardRank::new(9)),
    ];
    let hand = TotalHand::new(&given_cards);
    let result = hand.find_best_five_hand();
    assert_ne!(None, result);
    assert_eq!(HandRank::ThreeOfAKind, result.unwrap().hand_rank())
}

#[test]
fn can_find_two_pairs() {
    let given_cards = [
        NonJokerCard::new(Suit::Heart, CardRank::new(13)),
        NonJokerCard::new(Suit::Spade, CardRank::new(13)),
        NonJokerCard::new(Suit::Heart, CardRank::new(9)),
        NonJokerCard::new(Suit::Diamond, CardRank::new(9)),
        NonJokerCard::new(Suit::Club, CardRank::new(1)),
    ];
    let hand = TotalHand::new(&given_cards);
    let result = hand.find_best_five_hand();
    assert_ne!(None, result);
    assert_eq!(HandRank::TwoPairs, result.unwrap().hand_rank())
}

#[test]
fn can_find_pair() {
    let given_cards = [
        NonJokerCard::new(Suit::Heart, CardRank::new(13)),
        NonJokerCard::new(Suit::Spade, CardRank::new(13)),
        NonJokerCard::new(Suit::Diamond, CardRank::new(1)),
        NonJokerCard::new(Suit::Heart, CardRank::new(9)),
        NonJokerCard::new(Suit::Club, CardRank::new(2)),
    ];
    let hand = TotalHand::new(&given_cards);
    let result = hand.find_best_five_hand();
    assert_ne!(None, result);
    assert_eq!(HandRank::Pair, result.unwrap().hand_rank())
}

#[test]
fn can_find_high_card() {
    let given_cards = [
        NonJokerCard::new(Suit::Heart, CardRank::new(13)),
        NonJokerCard::new(Suit::Spade, CardRank::new(11)),
        NonJokerCard::new(Suit::Diamond, CardRank::new(1)),
        NonJokerCard::new(Suit::Heart, CardRank::new(9)),
        NonJokerCard::new(Suit::Club, CardRank::new(2)),
    ];
    let hand = TotalHand::new(&given_cards);
    let result = hand.find_best_five_hand();
    assert_ne!(None, result);
    assert_eq!(HandRank::HighCard, result.unwrap().hand_rank())
}

#[test]
fn returns_none_when_4_or_less_cards() {
    let given_cards = [
        NonJokerCard::new(Suit::Heart, CardRank::new(13)),
        NonJokerCard::new(Suit::Spade, CardRank::new(11)),
        NonJokerCard::new(Suit::Diamond, CardRank::new(1)),
        NonJokerCard::new(Suit::Heart, CardRank::new(9)),
    ];
    let hand = TotalHand::new(&given_cards);
    let result = hand.find_best_five_hand();
    assert_eq!(None, result);
}
