#![allow(unused_imports)]
use std::cmp::Ordering;
use std::collections::HashSet;
use texas_holdem::board::Board;
use texas_holdem::card::{Card, NonJokerCard};
use texas_holdem::comparer::CardComparer;
use texas_holdem::deck::Deck;
use texas_holdem::hand::Hand;
use texas_holdem::hand_rank::HandRank;
use texas_holdem::hand_value::HandValue;
use texas_holdem::phase::Phase;
use texas_holdem::rank::{CardRank, CardRankNumber};
use texas_holdem::suit::{Suit, SuitColor};
use texas_holdem::total_hand::TotalHand;


#[test]
fn all_non_joker_cards_are_52_cards() {
    assert_eq!(52, NonJokerCard::all().len());
}

#[test]
fn all_non_joker_cards_are_all_different() {
    let cards = NonJokerCard::all();
    let card_count = cards.len();
    let unique_set : HashSet<NonJokerCard> = cards.into_iter().collect();
    assert_eq!(card_count, unique_set.len());
}

#[test]
fn all_cards_with_one_joker_are_53_cards() {
    assert_eq!(53, Card::all_cards_with_one_joker().len());
}

#[test]
fn all_cards_with_one_joker_are_all_different() {
    let cards = Card::all_cards_with_one_joker();
    let card_count = cards.len();
    let unique_set : HashSet<Card> = cards.into_iter().collect();
    assert_eq!(card_count, unique_set.len());
}

#[test]
fn all_cards_with_two_jokers_are_54_cards() {
    assert_eq!(54, Card::all_cards_with_two_jokers().len());
}

#[test]
fn all_cards_with_two_jokers_have_two_joker_cards() {
    let joker_count = Card::all_cards_with_two_jokers().into_iter()
                         .filter(|c| *c == Card::Joker).count();
    assert_eq!(2, joker_count);
}
