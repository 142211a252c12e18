use rand::seq::SliceRandom;
use vstd::prelude::*;

verus! {

/// The four suits. Suits are told apart, never ordered.
#[derive(Clone, Copy, PartialEq, Eq, Debug, Structural)]
pub enum CardSuit {
    Heart,
    Diamond,
    Spade,
    Club,
}

impl CardSuit {
    /// The suit's symbol: a heart, diamond, spade or club sign.
    pub fn symbol(&self) -> (r: &'static str)
        ensures
            r@ == suit_symbol(*self),
    {
        match *self {
            CardSuit::Heart => "\u{2665}",
            CardSuit::Diamond => "\u{2666}",
            CardSuit::Spade => "\u{2660}",
            CardSuit::Club => "\u{2663}",
        }
    }
}

/// The sign printed for a suit.
pub open spec fn suit_symbol(s: CardSuit) -> Seq<char> {
    match s {
        CardSuit::Heart => "\u{2665}"@,
        CardSuit::Diamond => "\u{2666}"@,
        CardSuit::Spade => "\u{2660}"@,
        CardSuit::Club => "\u{2663}"@,
    }
}

/// A card's rank, from two up to the ace, which is always high.
#[derive(Clone, Copy, PartialEq, Eq, Debug, Structural)]
pub enum CardValue {
    Two,
    Three,
    Four,
    Five,
    Six,
    Seven,
    Eight,
    Nine,
    Ten,
    Jack,
    Queen,
    King,
    Ace,
}

/// The rank whose numeric value is `val` (2 up to 14).
pub open spec fn value_of(val: int) -> CardValue {
    if val <= 2 {
        CardValue::Two
    } else if val == 3 {
        CardValue::Three
    } else if val == 4 {
        CardValue::Four
    } else if val == 5 {
        CardValue::Five
    } else if val == 6 {
        CardValue::Six
    } else if val == 7 {
        CardValue::Seven
    } else if val == 8 {
        CardValue::Eight
    } else if val == 9 {
        CardValue::Nine
    } else if val == 10 {
        CardValue::Ten
    } else if val == 11 {
        CardValue::Jack
    } else if val == 12 {
        CardValue::Queen
    } else if val == 13 {
        CardValue::King
    } else {
        CardValue::Ace
    }
}

impl CardValue {
    /// The numeric value of the rank: 2 to 10, then 11 for the jack up to 14 for the ace.
    pub open spec fn spec_value(&self) -> u8 {
        match *self {
            CardValue::Two => 2,
            CardValue::Three => 3,
            CardValue::Four => 4,
            CardValue::Five => 5,
            CardValue::Six => 6,
            CardValue::Seven => 7,
            CardValue::Eight => 8,
            CardValue::Nine => 9,
            CardValue::Ten => 10,
            CardValue::Jack => 11,
            CardValue::Queen => 12,
            CardValue::King => 13,
            CardValue::Ace => 14,
        }
    }

    /// The rank with numeric value `val`; values outside 2..=14 name no rank.
    pub fn new(val: u8) -> (r: CardValue)
        requires
            2 <= val <= 14,
        ensures
            r == value_of(val as int),
            r.spec_value() == val,
    {
        match val {
            2 => CardValue::Two,
            3 => CardValue::Three,
            4 => CardValue::Four,
            5 => CardValue::Five,
            6 => CardValue::Six,
            7 => CardValue::Seven,
            8 => CardValue::Eight,
            9 => CardValue::Nine,
            10 => CardValue::Ten,
            11 => CardValue::Jack,
            12 => CardValue::Queen,
            13 => CardValue::King,
            _ => CardValue::Ace,
        }
    }

    #[verifier::when_used_as_spec(spec_value)]
    pub fn value(&self) -> (r: u8)
        ensures
            r == self.spec_value(),
            2 <= r <= 14,
    {
        match *self {
            CardValue::Two => 2,
            CardValue::Three => 3,
            CardValue::Four => 4,
            CardValue::Five => 5,
            CardValue::Six => 6,
            CardValue::Seven => 7,
            CardValue::Eight => 8,
            CardValue::Nine => 9,
            CardValue::Ten => 10,
            CardValue::Jack => 11,
            CardValue::Queen => 12,
            CardValue::King => 13,
            CardValue::Ace => 14,
        }
    }
}

/// The label printed for a rank: its number up to ten, then J, Q, K and A.
pub open spec fn value_label(v: CardValue) -> Seq<char> {
    match v {
        CardValue::Two => "2"@,
        CardValue::Three => "3"@,
        CardValue::Four => "4"@,
        CardValue::Five => "5"@,
        CardValue::Six => "6"@,
        CardValue::Seven => "7"@,
        CardValue::Eight => "8"@,
        CardValue::Nine => "9"@,
        CardValue::Ten => "10"@,
        CardValue::Jack => "J"@,
        CardValue::Queen => "Q"@,
        CardValue::King => "K"@,
        CardValue::Ace => "A"@,
    }
}

impl CardValue {
    /// The rank's label: its number up to ten, then J, Q, K and A.
    pub fn label(&self) -> (r: &'static str)
        ensures
            r@ == value_label(*self),
    {
        match *self {
            CardValue::Two => "2",
            CardValue::Three => "3",
            CardValue::Four => "4",
            CardValue::Five => "5",
            CardValue::Six => "6",
            CardValue::Seven => "7",
            CardValue::Eight => "8",
            CardValue::Nine => "9",
            CardValue::Ten => "10",
            CardValue::Jack => "J",
            CardValue::Queen => "Q",
            CardValue::King => "K",
            CardValue::Ace => "A",
        }
    }
}

/// Two ranks with the same numeric value are the same rank.
pub proof fn lemma_value_injective(a: CardValue, b: CardValue)
    requires
        a.spec_value() == b.spec_value(),
    ensures
        a == b,
{
    assert(value_of(a.spec_value() as int) == a);
    assert(value_of(b.spec_value() as int) == b);
}

/// A playing card: a rank and a suit.
#[derive(Clone, Copy, PartialEq, Eq, Debug, Structural)]
pub struct Card {
    pub suit: CardSuit,
    pub value: CardValue,
}

impl Card {
    /// The card's rank as a number, 2 to 14.
    pub open spec fn rank(self) -> int {
        self.value.spec_value() as int
    }
}

/// An ordered run of cards: a player's hand, the board, or a five-card combination.
#[derive(Clone)]
pub struct CardCollection(pub Vec<Card>);

impl View for CardCollection {
    type V = Seq<Card>;

    open spec fn view(&self) -> Seq<Card> {
        self.0@
    }
}

impl CardCollection {
    /// The cards of `this` followed by those of `other`.
    pub fn concat(this: CardCollection, other: CardCollection) -> (r: CardCollection)
        ensures
            r@ == this@ + other@,
    {
        let mut cards = this.0;
        let mut rest = other.0;
        cards.append(&mut rest);
        CardCollection(cards)
    }
}

/// The suit at position `i` of a fresh deck's suit order.
pub open spec fn suit_at(i: int) -> CardSuit {
    if i == 0 {
        CardSuit::Heart
    } else if i == 1 {
        CardSuit::Diamond
    } else if i == 2 {
        CardSuit::Spade
    } else {
        CardSuit::Club
    }
}

/// The 52 cards of a fresh deck: the hearts from two to ace, then the diamonds,
/// the spades and the clubs.
pub open spec fn standard_deck() -> Seq<Card> {
    Seq::new(52, |i: int| Card { suit: suit_at(i / 13), value: value_of(i % 13 + 2) })
}

fn suit_from_index(i: u8) -> (r: CardSuit)
    requires
        i < 4,
    ensures
        r == suit_at(i as int),
{
    match i {
        0 => CardSuit::Heart,
        1 => CardSuit::Diamond,
        2 => CardSuit::Spade,
        _ => CardSuit::Club,
    }
}

/// A deck: the 52 cards in some order, and how many of them have been dealt.
pub struct Deck {
    cards: Vec<Card>,
    current_card: usize,
}

/// Relies on rand's `SliceRandom::shuffle` with `thread_rng`: it reorders the
/// slice by swapping elements, so the same cards remain, in an order left to chance.
#[verifier::external_body]
fn shuffle_cards(cards: &mut Vec<Card>)
    ensures
        final(cards)@.len() == old(cards)@.len(),
        final(cards)@.to_multiset() == old(cards)@.to_multiset(),
{
    cards.shuffle(&mut rand::thread_rng());
}

impl Deck {
    /// The cards of the deck, in dealing order.
    pub closed spec fn cards(&self) -> Seq<Card> {
        self.cards@
    }

    /// How many cards have been dealt.
    pub closed spec fn dealt(&self) -> nat {
        self.current_card as nat
    }

    /// The deck holds the 52 cards of a fresh deck, each once, and no more have
    /// been dealt than it holds.
    pub open spec fn wf(&self) -> bool {
        &&& self.cards().to_multiset() == standard_deck().to_multiset()
        &&& self.cards().len() == 52
        &&& self.dealt() <= 52
    }

    /// The cards of the deck, in dealing order, dealt ones included.
    pub fn card_list(&self) -> (r: &Vec<Card>)
        ensures
            r@ == self.cards(),
    {
        &self.cards
    }

    /// Creates a new deck of cards, in the order of `standard_deck`, none dealt.
    pub fn new() -> (r: Deck)
        ensures
            r.wf(),
            r.cards() == standard_deck(),
            r.dealt() == 0,
    {
        let mut cards: Vec<Card> = Vec::with_capacity(52);
        let mut i: u8 = 0;
        while i < 52
            invariant
                i <= 52,
                cards@ == standard_deck().take(i as int),
            decreases 52 - i,
        {
            let card = Card { suit: suit_from_index(i / 13), value: CardValue::new(i % 13 + 2) };
            cards.push(card);
            i = i + 1;
            assert(cards@ =~= standard_deck().take(i as int));
        }
        assert(cards@ =~= standard_deck());
        Deck { cards, current_card: 0 }
    }

    /// Deals the next `num` cards. When fewer than `num` remain, nothing is dealt
    /// and the result is `None`.
    pub fn pop_cards(&mut self, num: u8) -> (r: Option<CardCollection>)
        requires
            old(self).wf(),
        ensures
            final(self).wf(),
            final(self).cards() == old(self).cards(),
            old(self).dealt() + num <= 52 ==> {
                &&& r is Some
                &&& r->0@ == old(self).cards().subrange(
                    old(self).dealt() as int,
                    old(self).dealt() + num,
                )
                &&& final(self).dealt() == old(self).dealt() + num
            },
            old(self).dealt() + num > 52 ==> r is None && final(self).dealt() == old(self).dealt(),
    {
        if num as usize > self.cards.len() - self.current_card {
            return None;
        }
        let start = self.current_card;
        let end = start + num as usize;
        let mut cards: Vec<Card> = Vec::new();
        let mut i: usize = start;
        while i < end
            invariant
                start <= i <= end,
                end <= self.cards@.len(),
                cards@ == self.cards@.subrange(start as int, i as int),
            decreases end - i,
        {
            cards.push(self.cards[i]);
            i = i + 1;
            assert(cards@ =~= self.cards@.subrange(start as int, i as int));
        }
        self.current_card = end;
        Some(CardCollection(cards))
    }

    /// Puts every card back and shuffles the deck: the same 52 cards, in an order
    /// left to chance, none dealt.
    pub fn shuffle(&mut self)
        requires
            old(self).wf(),
        ensures
            final(self).wf(),
            final(self).cards().to_multiset() == old(self).cards().to_multiset(),
            final(self).dealt() == 0,
    {
        self.current_card = 0;
        shuffle_cards(&mut self.cards);
    }
}

} // verus!
