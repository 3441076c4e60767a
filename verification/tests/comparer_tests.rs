#![allow(unused_imports)]
use std::cmp::Ordering;
use std::collections::HashSet;
use texas_holdem::board::Board;
use texas_holdem::card::{Card, NonJokerCard};
use texas_holdem::comparer::CardComparer;
use texas_holdem::deck::Deck;
use texas_holdem::hand::Hand;
use texas_holdem::hand_rank::HandRank;
use texas_holdem::hand_value::HandValue;
use texas_holdem::phase::Phase;
use texas_holdem::rank::{CardRank, CardRankNumber};
use texas_holdem::suit::{Suit, SuitColor};
use texas_holdem::total_hand::TotalHand;


fn get_all_ranks() -> Vec<CardRank> {
    vec![
        CardRank::King,
        CardRank::Queen,
        CardRank::Jack,
        CardRank::new(10),
        CardRank::new(9),
        CardRank::new(8),
        CardRank::new(7),
        CardRank::new(6),
        CardRank::new(5),
        CardRank::new(4),
        CardRank::new(3),
        CardRank::new(2),
        CardRank::Ace,
    ]
}

#[test]
fn test_rank_order_when_king_is_highest() {
    let comparer = CardComparer::new(CardRank::King);
    let mut ranks = get_all_ranks();
    let expected = vec![
        CardRank::Ace,
        CardRank::new(2),
        CardRank::new(3),
        CardRank::new(4),
        CardRank::new(5),
        CardRank::new(6),
        CardRank::new(7),
        CardRank::new(8),
        CardRank::new(9),
        CardRank::new(10),
        CardRank::Jack,
        CardRank::Queen,
        CardRank::King,
    ];
    ranks.sort_by(|a, b| comparer.cmp_card_ranks(a, b) );
    assert_eq!(expected, ranks);
}

#[test]
fn test_rank_order_when_ace_is_highest() {
    let comparer = CardComparer::new(CardRank::Ace);
    let mut ranks = get_all_ranks();
    let expected = vec![
        CardRank::new(2),
        CardRank::new(3),
        CardRank::new(4),
        CardRank::new(5),
        CardRank::new(6),
        CardRank::new(7),
        CardRank::new(8),
        CardRank::new(9),
        CardRank::new(10),
        CardRank::Jack,
        CardRank::Queen,
        CardRank::King,
        CardRank::Ace,
    ];
    ranks.sort_by(|a, b| comparer.cmp_card_ranks(a, b) );
    assert_eq!(expected, ranks);
}

#[test]
fn test_rank_order_when_2_is_highest() {
    let comparer = CardComparer::new(CardRank::new(2));
    let mut ranks = get_all_ranks();
    let expected = vec![
        CardRank::new(3),
        CardRank::new(4),
        CardRank::new(5),
        CardRank::new(6),
        CardRank::new(7),
        CardRank::new(8),
        CardRank::new(9),
        CardRank::new(10),
        CardRank::Jack,
        CardRank::Queen,
        CardRank::King,
        CardRank::Ace,
        CardRank::new(2),
    ];
    ranks.sort_by(|a, b| comparer.cmp_card_ranks(a, b) );
    assert_eq!(expected, ranks);
}

#[test]
fn it_can_compare_suits_in_customized_order_1() {
    let suits_order = [
        Suit::Heart,
        Suit::Club,
        Suit::Spade,
        Suit::Diamond,
    ];
    let comparer = CardComparer::new_with_suit_order(CardRank::King, suits_order).expect("constructor error");
    let mut target = vec![
        Suit::Spade,
        Suit::Diamond,
        Suit::Heart,
        Suit::Club,
    ];
    target.sort_by(|a, b| comparer.cmp_suits(a, b).reverse()); // must reverse because given order is descending
    let expected: Vec<Suit> = suits_order.iter().map(|s| *s).collect();
    assert_eq!(expected, target);
}

#[test]
fn it_can_compare_suits_in_customized_order_2() {
    // in another order
    let suits_order = [
        Suit::Spade,
        Suit::Club,
        Suit::Heart,
        Suit::Diamond,
    ];
    let comparer = CardComparer::new_with_suit_order(CardRank::King, suits_order).expect("constructor error");
    let mut target = vec![
        Suit::Spade,
        Suit::Diamond,
        Suit::Heart,
        Suit::Club,
    ];
    target.sort_by(|a, b| comparer.cmp_suits(a, b).reverse()); // must reverse because given order is descending
    let expected: Vec<Suit> = suits_order.iter().map(|s| *s).collect();
    assert_eq!(expected, target);
}

#[test]
fn duplicate_suits_order_causes_error() {
    // in another order
    let suits_order = [
        Suit::Spade,
        Suit::Spade,
        Suit::Heart,
        Suit::Diamond,
    ];
    let result = CardComparer::new_with_suit_order(CardRank::King, suits_order);
    if let Ok(_) = result {
        panic!("Error is expected but not occurred")
    }
}

#[test]
fn cards_are_compared_by_rank_at_first() {
    let suits_order = [
        Suit::Heart,
        Suit::Club,
        Suit::Spade,
        Suit::Diamond,
    ];
    let comparer = CardComparer::new_with_suit_order(CardRank::Ace, suits_order).expect("constructor error");
    let a = NonJokerCard::new(Suit::Club, CardRank::Ace);
    let b = NonJokerCard::new(Suit::Heart, CardRank::King);
    assert_eq!(Ordering::Greater, comparer.cmp_cards(&a, &b))
}

#[test]
fn same_rank_cards_are_compared_by_suit() {
    let suits_order = [
        Suit::Heart,
        Suit::Club,
        Suit::Spade,
        Suit::Diamond,
    ];
    let comparer = CardComparer::new_with_suit_order(CardRank::Ace, suits_order).expect("constructor error");
    let a = NonJokerCard::new(Suit::Club, CardRank::Ace);
    let b = NonJokerCard::new(Suit::Heart, CardRank::Ace);
    assert_eq!(Ordering::Less, comparer.cmp_cards(&a, &b))
}

#[test]
fn same_cards_are_equal() {
    let suits_order = [
        Suit::Heart,
        Suit::Club,
        Suit::Spade,
        Suit::Diamond,
    ];
    let comparer = CardComparer::new_with_suit_order(CardRank::Ace, suits_order).expect("constructor error");
    let a = NonJokerCard::new(Suit::Heart, CardRank::Ace);
    let b = NonJokerCard::new(Suit::Heart, CardRank::Ace);
    assert_eq!(Ordering::Equal, comparer.cmp_cards(&a, &b))
}
