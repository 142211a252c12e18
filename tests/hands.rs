use holdem::deck::{Card, CardCollection, CardSuit, CardValue};
use holdem::hand::{
    classify, FlushHand, FourOfAKindHand, FullHouseHand, Hand, HighCardHand, PairHand, SetHand,
    StraightFlushHand, StraightHand, TwoPairHand,
};

use CardSuit::{Club as C, Diamond as D, Heart as H, Spade as S};

fn five(cards: [(u8, CardSuit); 5]) -> CardCollection {
    CardCollection(
        cards.iter().map(|&(v, suit)| Card { suit, value: CardValue::new(v) }).collect(),
    )
}

fn v(n: u8) -> CardValue {
    CardValue::new(n)
}

#[test]
fn royal_flush() {
    let hand = five([(10, H), (11, H), (12, H), (13, H), (14, H)]);
    assert_eq!(classify(&hand), Hand::RoyaleFlush);
    let shuffled = five([(14, S), (12, S), (10, S), (13, S), (11, S)]);
    assert_eq!(classify(&shuffled), Hand::RoyaleFlush);
}

#[test]
fn full_house_of_twos() {
    let hand = five([(2, S), (2, H), (2, D), (5, C), (5, H)]);
    assert_eq!(classify(&hand), Hand::FullHouse(FullHouseHand { three_value: v(2) }));
}

#[test]
fn straight_flush() {
    let hand = five([(9, C), (5, C), (7, C), (8, C), (6, C)]);
    assert_eq!(classify(&hand), Hand::StraightFlush(StraightFlushHand { high_card: v(9) }));
}

#[test]
fn four_of_a_kind() {
    let hand = five([(7, C), (7, D), (14, S), (7, H), (7, S)]);
    assert_eq!(classify(&hand), Hand::FourOfAKind(FourOfAKindHand { value: v(7) }));
}

#[test]
fn flush_by_highest_card() {
    let hand = five([(2, D), (9, D), (13, D), (4, D), (7, D)]);
    assert_eq!(classify(&hand), Hand::Flush(FlushHand { high_card: v(13) }));
}

#[test]
fn straight_by_highest_card() {
    let hand = five([(10, D), (11, C), (12, H), (13, S), (14, D)]);
    assert_eq!(classify(&hand), Hand::Straight(StraightHand { high_card: v(14) }));
    let low = five([(2, D), (3, C), (4, H), (5, S), (6, D)]);
    assert_eq!(classify(&low), Hand::Straight(StraightHand { high_card: v(6) }));
}

#[test]
fn ace_low_run_is_no_straight() {
    let hand = five([(14, D), (2, C), (3, H), (4, S), (5, D)]);
    assert_eq!(
        classify(&hand),
        Hand::HighCard(HighCardHand {
            first_kicker: v(14),
            second_kicker: v(5),
            third_kicker: v(4),
            fourth_kicker: v(3),
            fifth_kicker: v(2),
        })
    );
}

#[test]
fn three_of_a_kind() {
    let hand = five([(12, D), (3, C), (12, H), (9, S), (12, C)]);
    assert_eq!(classify(&hand), Hand::ThreeOfAKind(SetHand { value: v(12) }));
}

#[test]
fn two_pair_with_kicker() {
    let hand = five([(4, D), (11, C), (4, H), (8, S), (11, S)]);
    assert_eq!(
        classify(&hand),
        Hand::TwoPair(TwoPairHand { first_value: v(11), second_value: v(4), kicker: v(8) })
    );
}

#[test]
fn pair_with_kickers_descending() {
    let hand = five([(6, D), (13, C), (2, H), (6, S), (9, S)]);
    assert_eq!(
        classify(&hand),
        Hand::Pair(PairHand {
            value: v(6),
            first_kicker: v(13),
            second_kicker: v(9),
            third_kicker: v(2),
        })
    );
}

#[test]
fn high_card_descending() {
    let hand = five([(3, D), (13, C), (8, H), (11, S), (6, S)]);
    assert_eq!(
        classify(&hand),
        Hand::HighCard(HighCardHand {
            first_kicker: v(13),
            second_kicker: v(11),
            third_kicker: v(8),
            fourth_kicker: v(6),
            fifth_kicker: v(3),
        })
    );
}

#[test]
fn classify_is_repeatable() {
    let hands = [
        five([(10, H), (11, H), (12, H), (13, H), (14, H)]),
        five([(2, S), (2, H), (2, D), (5, C), (5, H)]),
        five([(6, D), (13, C), (2, H), (6, S), (9, S)]),
        five([(3, D), (13, C), (8, H), (11, S), (6, S)]),
    ];
    for hand in hands.iter() {
        let first = classify(hand);
        let second = classify(hand);
        assert_eq!(first, second);
    }
}

#[test]
fn hand_names() {
    assert_eq!(Hand::RoyaleFlush.name(), "Royale Flush");
    assert_eq!(Hand::FullHouse(FullHouseHand { three_value: v(2) }).name(), "Full House");
    assert_eq!(Hand::ThreeOfAKind(SetHand { value: v(2) }).name(), "Set");
    let high = classify(&five([(3, D), (13, C), (8, H), (11, S), (6, S)]));
    assert_eq!(high.name(), "High Card");
}
