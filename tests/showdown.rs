use holdem::combinations::generate_combinations;
use holdem::deck::{Card, CardCollection, CardSuit, CardValue};
use holdem::hand::{FlushHand, Hand, PairHand, StraightHand};
use holdem::ranking::rank_hands;
use holdem::showdown::{assign_hand_rankings, get_best_hand};

use CardSuit::{Club as C, Diamond as D, Heart as H, Spade as S};

fn seven(cards: [(u8, CardSuit); 7]) -> CardCollection {
    CardCollection(
        cards.iter().map(|&(v, suit)| Card { suit, value: CardValue::new(v) }).collect(),
    )
}

fn v(n: u8) -> CardValue {
    CardValue::new(n)
}

fn royal_player() -> CardCollection {
    seven([(10, H), (11, H), (12, H), (13, H), (14, H), (2, C), (3, D)])
}

fn pair_player() -> CardCollection {
    seven([(2, S), (2, D), (5, C), (7, H), (9, D), (11, S), (13, D)])
}

fn king_flush_hearts() -> CardCollection {
    seven([(13, H), (9, H), (7, H), (4, H), (2, H), (3, C), (5, D)])
}

fn king_flush_spades() -> CardCollection {
    seven([(13, S), (8, S), (6, S), (3, S), (2, S), (4, D), (9, C)])
}

#[test]
fn twenty_one_combinations() {
    let cards = royal_player();
    let combos = generate_combinations(&cards, CardCollection(vec![]), 0);
    assert_eq!(combos.len(), 21);
    for (i, a) in combos.iter().enumerate() {
        assert_eq!(a.0.len(), 5);
        for b in combos.iter().skip(i + 1) {
            assert_ne!(a.0, b.0);
        }
    }
    let from_six = generate_combinations(
        &CardCollection(cards.0[..6].to_vec()),
        CardCollection(vec![]),
        0,
    );
    assert_eq!(from_six.len(), 6);
}

#[test]
fn best_hand_finds_royal_flush() {
    assert_eq!(get_best_hand(royal_player()), Hand::RoyaleFlush);
}

#[test]
fn best_hand_finds_pair() {
    assert_eq!(
        get_best_hand(pair_player()),
        Hand::Pair(PairHand {
            value: v(2),
            first_kicker: v(13),
            second_kicker: v(11),
            third_kicker: v(9),
        })
    );
}

#[test]
fn best_hand_prefers_flush_over_straight() {
    // The hearts make a flush; 7 8 9 10 J, across suits, make a straight.
    let cards = seven([(2, H), (4, H), (7, H), (9, H), (11, H), (8, S), (10, D)]);
    assert_eq!(get_best_hand(cards), Hand::Flush(FlushHand { high_card: v(11) }));
}

#[test]
fn best_hand_takes_the_highest_straight() {
    let cards = seven([(4, H), (5, S), (6, D), (7, C), (8, H), (9, S), (2, D)]);
    assert_eq!(get_best_hand(cards), Hand::Straight(StraightHand { high_card: v(9) }));
}

#[test]
fn no_players_no_rankings() {
    assert_eq!(assign_hand_rankings(vec![]), Vec::<u8>::new());
}

#[test]
fn royal_flush_beats_pair() {
    assert_eq!(assign_hand_rankings(vec![royal_player(), pair_player()]), vec![1, 2]);
    assert_eq!(assign_hand_rankings(vec![pair_player(), royal_player()]), vec![2, 1]);
}

#[test]
fn king_flushes_tie() {
    assert_eq!(assign_hand_rankings(vec![king_flush_hearts(), king_flush_spades()]), vec![1, 1]);
}

#[test]
fn identical_hands_share_a_rank() {
    let ranks = assign_hand_rankings(vec![pair_player(), king_flush_hearts(), pair_player()]);
    assert_eq!(ranks, vec![2, 1, 2]);
}

#[test]
fn ranks_skip_past_tied_groups() {
    let ranks = assign_hand_rankings(vec![
        pair_player(),
        king_flush_hearts(),
        king_flush_spades(),
        royal_player(),
    ]);
    assert_eq!(ranks, vec![4, 2, 2, 1]);
}

#[test]
fn single_player_ranks_first() {
    assert_eq!(assign_hand_rankings(vec![pair_player()]), vec![1]);
}

#[test]
fn rank_hands_orders_within_a_category() {
    let pair = |p: u8, k1: u8, k2: u8, k3: u8| {
        Hand::Pair(PairHand {
            value: v(p),
            first_kicker: v(k1),
            second_kicker: v(k2),
            third_kicker: v(k3),
        })
    };
    let hands = vec![
        pair(9, 14, 8, 3),
        pair(9, 14, 8, 4),
        pair(10, 2, 3, 4),
        pair(9, 14, 8, 3),
        Hand::RoyaleFlush,
    ];
    assert_eq!(rank_hands(&hands), vec![4, 3, 2, 4, 1]);
    assert_eq!(rank_hands(&vec![]), Vec::<u8>::new());
    assert_eq!(rank_hands(&vec![Hand::RoyaleFlush, Hand::RoyaleFlush]), vec![1, 1]);
}
