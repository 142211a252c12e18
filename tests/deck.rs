use holdem::deck::{Card, CardCollection, CardSuit, CardValue, Deck};

fn card(v: u8, suit: CardSuit) -> Card {
    Card { suit, value: CardValue::new(v) }
}

fn all_cards(deck: &mut Deck) -> Vec<Card> {
    deck.pop_cards(52).expect("a full deck deals 52 cards").0
}

#[test]
fn card_value_new_keeps_the_number() {
    for v in 2u8..=14 {
        assert_eq!(CardValue::new(v).value(), v);
    }
    assert_eq!(CardValue::new(11), CardValue::Jack);
    assert_eq!(CardValue::new(14), CardValue::Ace);
    assert_eq!(CardValue::Two.value(), 2);
}

#[test]
fn labels_and_symbols() {
    assert_eq!(CardValue::Ten.label(), "10");
    assert_eq!(CardValue::Seven.label(), "7");
    assert_eq!(CardValue::Jack.label(), "J");
    assert_eq!(CardValue::Ace.label(), "A");
    assert_eq!(CardSuit::Heart.symbol(), "\u{2665}");
    assert_eq!(CardSuit::Club.symbol(), "\u{2663}");
}

#[test]
fn concat_keeps_both_in_order() {
    let a = CardCollection(vec![card(2, CardSuit::Heart), card(3, CardSuit::Spade)]);
    let b = CardCollection(vec![card(14, CardSuit::Club)]);
    let c = CardCollection::concat(a, b);
    assert_eq!(
        c.0,
        vec![card(2, CardSuit::Heart), card(3, CardSuit::Spade), card(14, CardSuit::Club)]
    );
}

#[test]
fn new_deck_holds_each_card_once() {
    let mut deck = Deck::new();
    let cards = all_cards(&mut deck);
    assert_eq!(cards.len(), 52);
    for i in 0..cards.len() {
        for j in (i + 1)..cards.len() {
            assert_ne!(cards[i], cards[j]);
        }
    }
    assert_eq!(cards[0], card(2, CardSuit::Heart));
    assert_eq!(cards[12], card(14, CardSuit::Heart));
    assert_eq!(cards[13], card(2, CardSuit::Diamond));
    assert_eq!(cards[51], card(14, CardSuit::Club));
}

#[test]
fn pop_cards_deals_in_order() {
    let mut deck = Deck::new();
    let first = deck.pop_cards(2).unwrap();
    assert_eq!(first.0, vec![card(2, CardSuit::Heart), card(3, CardSuit::Heart)]);
    let next = deck.pop_cards(1).unwrap();
    assert_eq!(next.0, vec![card(4, CardSuit::Heart)]);
    let none = deck.pop_cards(0).unwrap();
    assert!(none.0.is_empty());
}

#[test]
fn pop_cards_fails_when_too_few_remain() {
    let mut deck = Deck::new();
    assert_eq!(deck.pop_cards(50).unwrap().0.len(), 50);
    assert!(deck.pop_cards(3).is_none());
    let last = deck.pop_cards(2).unwrap();
    assert_eq!(last.0, vec![card(13, CardSuit::Club), card(14, CardSuit::Club)]);
    assert!(deck.pop_cards(1).is_none());
}

#[test]
fn pop_cards_more_than_a_deck() {
    let mut deck = Deck::new();
    assert!(deck.pop_cards(53).is_none());
    assert!(deck.pop_cards(255).is_none());
    assert_eq!(deck.pop_cards(52).unwrap().0.len(), 52);
}

#[test]
fn shuffle_keeps_the_cards_and_deals_from_the_top() {
    let fresh = all_cards(&mut Deck::new());
    let mut deck = Deck::new();
    deck.pop_cards(10).unwrap();
    let mut changed = false;
    for _ in 0..5 {
        deck.shuffle();
        let cards = all_cards(&mut deck);
        let mut a = cards.clone();
        a.sort_by_key(|c| (c.suit as u8, c.value.value()));
        let mut b = fresh.clone();
        b.sort_by_key(|c| (c.suit as u8, c.value.value()));
        assert_eq!(a, b);
        if cards != fresh {
            changed = true;
        }
    }
    assert!(changed);
}
