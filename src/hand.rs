use crate::deck::{value_of, Card, CardCollection, CardValue};
use vstd::prelude::*;

verus! {

/// A straight flush, known by its highest card.
#[derive(Clone, Copy, PartialEq, Eq, Debug, Structural)]
pub struct StraightFlushHand {
    pub high_card: CardValue,
}

/// Four cards of one rank.
#[derive(Clone, Copy, PartialEq, Eq, Debug, Structural)]
pub struct FourOfAKindHand {
    pub value: CardValue,
}

/// Three cards of one rank and two of another, known by the rank of the three.
#[derive(Clone, Copy, PartialEq, Eq, Debug, Structural)]
pub struct FullHouseHand {
    pub three_value: CardValue,
}

/// Five cards of one suit, known by the highest of them.
#[derive(Clone, Copy, PartialEq, Eq, Debug, Structural)]
pub struct FlushHand {
    pub high_card: CardValue,
}

/// Five consecutive ranks, known by the highest.
#[derive(Clone, Copy, PartialEq, Eq, Debug, Structural)]
pub struct StraightHand {
    pub high_card: CardValue,
}

/// Three cards of one rank (three of a kind).
#[derive(Clone, Copy, PartialEq, Eq, Debug, Structural)]
pub struct SetHand {
    pub value: CardValue,
}

/// Two pairs and a kicker; `first_value` is the higher pair.
#[derive(Clone, Copy, PartialEq, Eq, Debug, Structural)]
pub struct TwoPairHand {
    pub first_value: CardValue,
    pub second_value: CardValue,
    pub kicker: CardValue,
}

/// One pair and three kickers, the kickers from highest to lowest.
#[derive(Clone, Copy, PartialEq, Eq, Debug, Structural)]
pub struct PairHand {
    pub value: CardValue,
    pub first_kicker: CardValue,
    pub second_kicker: CardValue,
    pub third_kicker: CardValue,
}

/// Five unmatched ranks, from highest to lowest.
#[derive(Clone, Copy, PartialEq, Eq, Debug, Structural)]
pub struct HighCardHand {
    pub first_kicker: CardValue,
    pub second_kicker: CardValue,
    pub third_kicker: CardValue,
    pub fourth_kicker: CardValue,
    pub fifth_kicker: CardValue,
}

/// The category of a five-card hand, with the ranks that break ties within it.
#[derive(Clone, Copy, PartialEq, Eq, Debug, Structural)]
pub enum Hand {
    HighCard(HighCardHand),
    Pair(PairHand),
    TwoPair(TwoPairHand),
    ThreeOfAKind(SetHand),
    Straight(StraightHand),
    Flush(FlushHand),
    FullHouse(FullHouseHand),
    FourOfAKind(FourOfAKindHand),
    StraightFlush(StraightFlushHand),
    RoyaleFlush,
}

/// The name of a hand's category.
pub open spec fn hand_name(h: Hand) -> Seq<char> {
    match h {
        Hand::RoyaleFlush => "Royale Flush"@,
        Hand::StraightFlush(_) => "Straight Flush"@,
        Hand::FourOfAKind(_) => "Four of a Kind"@,
        Hand::FullHouse(_) => "Full House"@,
        Hand::Flush(_) => "Flush"@,
        Hand::Straight(_) => "Straight"@,
        Hand::ThreeOfAKind(_) => "Set"@,
        Hand::TwoPair(_) => "Two Pair"@,
        Hand::Pair(_) => "Pair"@,
        Hand::HighCard(_) => "High Card"@,
    }
}

impl Hand {
    /// The name of the hand's category, as shown to players.
    pub fn name(&self) -> (r: &'static str)
        ensures
            r@ == hand_name(*self),
    {
        match *self {
            Hand::RoyaleFlush => "Royale Flush",
            Hand::StraightFlush(_) => "Straight Flush",
            Hand::FourOfAKind(_) => "Four of a Kind",
            Hand::FullHouse(_) => "Full House",
            Hand::Flush(_) => "Flush",
            Hand::Straight(_) => "Straight",
            Hand::ThreeOfAKind(_) => "Set",
            Hand::TwoPair(_) => "Two Pair",
            Hand::Pair(_) => "Pair",
            Hand::HighCard(_) => "High Card",
        }
    }
}

// ---------------------------------------------------------------------------
// What a five-card hand is, stated over the ranks and suits of its cards.
// ---------------------------------------------------------------------------

/// How many cards of `s` have rank `r`.
pub open spec fn rank_count(s: Seq<Card>, r: int) -> nat
    decreases s.len(),
{
    if s.len() == 0 {
        0
    } else {
        rank_count(s.drop_last(), r) + if s.last().rank() == r {
            1nat
        } else {
            0nat
        }
    }
}

/// The highest rank below `below` held by between `lo` and `hi` cards of `s`,
/// or 0 when no rank is.
pub open spec fn top_rank(s: Seq<Card>, lo: nat, hi: nat, below: int) -> int
    decreases below,
{
    if below <= 2 {
        0
    } else if lo <= rank_count(s, below - 1) <= hi {
        below - 1
    } else {
        top_rank(s, lo, hi, below - 1)
    }
}

/// The highest rank in `s`, or 0 for no cards.
pub open spec fn max_rank(s: Seq<Card>) -> int
    decreases s.len(),
{
    if s.len() == 0 {
        0
    } else if max_rank(s.drop_last()) >= s.last().rank() {
        max_rank(s.drop_last())
    } else {
        s.last().rank()
    }
}

/// All cards of `s` share one suit.
pub open spec fn same_suit(s: Seq<Card>) -> bool {
    forall|i: int| 0 <= i < s.len() ==> #[trigger] s[i].suit == s[0].suit
}

/// The five ranks ending at the highest rank of `s` are each held once.
pub open spec fn is_straight(s: Seq<Card>) -> bool {
    let h = max_rank(s);
    &&& rank_count(s, h) == 1
    &&& rank_count(s, h - 1) == 1
    &&& rank_count(s, h - 2) == 1
    &&& rank_count(s, h - 3) == 1
    &&& rank_count(s, h - 4) == 1
}

/// The highest rank held four times or more, or 0.
pub open spec fn quad_rank(s: Seq<Card>) -> int {
    top_rank(s, 4, 5, 15)
}

/// The highest rank held exactly three times, or 0.
pub open spec fn trip_rank(s: Seq<Card>) -> int {
    top_rank(s, 3, 3, 15)
}

/// The highest rank held exactly twice, or 0.
pub open spec fn high_pair(s: Seq<Card>) -> int {
    top_rank(s, 2, 2, 15)
}

/// The second highest rank held exactly twice, or 0.
pub open spec fn low_pair(s: Seq<Card>) -> int {
    top_rank(s, 2, 2, high_pair(s))
}

/// The highest rank below `below` held by exactly one card, or 0.
pub open spec fn single_below(s: Seq<Card>, below: int) -> int {
    top_rank(s, 1, 1, below)
}

/// The category of the five cards `s`: the strongest pattern they form, checked
/// from the royal flush down to the high card.
pub open spec fn classification(s: Seq<Card>) -> Hand {
    let high = max_rank(s);
    let k1 = single_below(s, 15);
    let k2 = single_below(s, k1);
    let k3 = single_below(s, k2);
    let k4 = single_below(s, k3);
    let k5 = single_below(s, k4);
    if same_suit(s) && is_straight(s) && high == 14 {
        Hand::RoyaleFlush
    } else if same_suit(s) && is_straight(s) {
        Hand::StraightFlush(StraightFlushHand { high_card: value_of(high) })
    } else if quad_rank(s) != 0 {
        Hand::FourOfAKind(FourOfAKindHand { value: value_of(quad_rank(s)) })
    } else if trip_rank(s) != 0 && high_pair(s) != 0 {
        Hand::FullHouse(FullHouseHand { three_value: value_of(trip_rank(s)) })
    } else if same_suit(s) {
        Hand::Flush(FlushHand { high_card: value_of(high) })
    } else if is_straight(s) {
        Hand::Straight(StraightHand { high_card: value_of(high) })
    } else if trip_rank(s) != 0 {
        Hand::ThreeOfAKind(SetHand { value: value_of(trip_rank(s)) })
    } else if low_pair(s) != 0 {
        Hand::TwoPair(
            TwoPairHand {
                first_value: value_of(high_pair(s)),
                second_value: value_of(low_pair(s)),
                kicker: value_of(k1),
            },
        )
    } else if high_pair(s) != 0 {
        Hand::Pair(
            PairHand {
                value: value_of(high_pair(s)),
                first_kicker: value_of(k1),
                second_kicker: value_of(k2),
                third_kicker: value_of(k3),
            },
        )
    } else {
        Hand::HighCard(
            HighCardHand {
                first_kicker: value_of(k1),
                second_kicker: value_of(k2),
                third_kicker: value_of(k3),
                fourth_kicker: value_of(k4),
                fifth_kicker: value_of(k5),
            },
        )
    }
}

// ---------------------------------------------------------------------------
// Counting lemmas behind the classifier.
// ---------------------------------------------------------------------------

/// How many ranks in `2..below` are held by between `lo` and `hi` cards of `s`.
pub open spec fn class_count(s: Seq<Card>, lo: nat, hi: nat, below: int) -> nat
    decreases below,
{
    if below <= 2 {
        0
    } else {
        class_count(s, lo, hi, below - 1) + if lo <= rank_count(s, below - 1) <= hi {
            1nat
        } else {
            0nat
        }
    }
}

/// The number of cards of `s` whose rank lies in `2..below`.
pub open spec fn weight(s: Seq<Card>, below: int) -> nat
    decreases below,
{
    if below <= 2 {
        0
    } else {
        weight(s, below - 1) + rank_count(s, below - 1)
    }
}

proof fn lemma_rank_count_bound(s: Seq<Card>, r: int)
    ensures
        rank_count(s, r) <= s.len(),
        r < 2 || r > 14 ==> rank_count(s, r) == 0,
    decreases s.len(),
{
    if s.len() > 0 {
        lemma_rank_count_bound(s.drop_last(), r);
    }
}

proof fn lemma_top_rank(s: Seq<Card>, lo: nat, hi: nat, below: int)
    ensures
        top_rank(s, lo, hi, below) == 0 ==> class_count(s, lo, hi, below) == 0,
        top_rank(s, lo, hi, below) != 0 ==> {
            let t = top_rank(s, lo, hi, below);
            &&& 2 <= t < below
            &&& lo <= rank_count(s, t) <= hi
            &&& class_count(s, lo, hi, below) == class_count(s, lo, hi, t) + 1
        },
    decreases below,
{
    if below > 2 {
        lemma_top_rank(s, lo, hi, below - 1);
    }
}

proof fn lemma_weight_drop_last(s: Seq<Card>, below: int)
    requires
        s.len() > 0,
    ensures
        weight(s, below) == weight(s.drop_last(), below) + if 2 <= s.last().rank() < below {
            1nat
        } else {
            0nat
        },
    decreases below,
{
    if below > 2 {
        lemma_weight_drop_last(s, below - 1);
    }
}

proof fn lemma_weight_empty(s: Seq<Card>, below: int)
    requires
        s.len() == 0,
    ensures
        weight(s, below) == 0,
    decreases below,
{
    if below > 2 {
        lemma_weight_empty(s, below - 1);
    }
}

proof fn lemma_weight_total(s: Seq<Card>)
    ensures
        weight(s, 15) == s.len(),
    decreases s.len(),
{
    if s.len() == 0 {
        lemma_weight_empty(s, 15);
    } else {
        lemma_weight_total(s.drop_last());
        lemma_weight_drop_last(s, 15);
    }
}

proof fn lemma_weight_by_class(s: Seq<Card>, below: int)
    requires
        s.len() <= 5,
    ensures
        weight(s, below) == class_count(s, 1, 1, below) + 2 * class_count(s, 2, 2, below) + 3
            * class_count(s, 3, 3, below) + 4 * class_count(s, 4, 4, below) + 5 * class_count(
            s,
            5,
            5,
            below,
        ),
        class_count(s, 4, 5, below) == class_count(s, 4, 4, below) + class_count(s, 5, 5, below),
    decreases below,
{
    if below > 2 {
        lemma_weight_by_class(s, below - 1);
        lemma_rank_count_bound(s, below - 1);
    }
}

/// The counts of the different multiplicities in a five-card hand add up to five cards.
proof fn lemma_five_cards(s: Seq<Card>)
    requires
        s.len() == 5,
    ensures
        class_count(s, 1, 1, 15) + 2 * class_count(s, 2, 2, 15) + 3 * class_count(s, 3, 3, 15)
            + 4 * class_count(s, 4, 4, 15) + 5 * class_count(s, 5, 5, 15) == 5,
        class_count(s, 4, 5, 15) == class_count(s, 4, 4, 15) + class_count(s, 5, 5, 15),
{
    lemma_weight_total(s);
    lemma_weight_by_class(s, 15);
}

// ---------------------------------------------------------------------------
// The rank tally and the searches over it.
// ---------------------------------------------------------------------------

/// `t` gives, for each rank up to 14, how many cards of `s` hold it.
pub open spec fn is_tally(s: Seq<Card>, t: Seq<u8>) -> bool {
    &&& t.len() == 15
    &&& forall|r: int| 0 <= r < 15 ==> #[trigger] t[r] as int == rank_count(s, r)
}

/// Counts, once, how many cards hold each rank.
fn tally_ranks(cards: &Vec<Card>) -> (t: Vec<u8>)
    requires
        cards@.len() <= 5,
    ensures
        is_tally(cards@, t@),
{
    let mut t: Vec<u8> = Vec::new();
    let mut r: usize = 0;
    while r < 15
        invariant
            r <= 15,
            t@.len() == r,
            forall|q: int| 0 <= q < r ==> #[trigger] t@[q] == 0,
        decreases 15 - r,
    {
        t.push(0);
        r = r + 1;
    }
    let mut i: usize = 0;
    while i < cards.len()
        invariant
            i <= cards@.len() <= 5,
            t@.len() == 15,
            forall|q: int| 0 <= q < 15 ==> #[trigger] t@[q] as int == rank_count(cards@.take(i as int), q),
        decreases cards@.len() - i,
    {
        let ghost before = cards@.take(i as int);
        let v = cards[i].value.value() as usize;
        proof {
            lemma_rank_count_bound(before, v as int);
        }
        t.set(v, t[v] + 1);
        i = i + 1;
        assert(cards@.take(i as int).drop_last() =~= before);
    }
    assert(cards@.take(cards@.len() as int) =~= cards@);
    t
}

/// The highest rank below `below` whose count lies between `lo` and `hi`, or 0.
fn highest_with_count(tally: &Vec<u8>, lo: u8, hi: u8, below: u8, Ghost(s): Ghost<Seq<Card>>) -> (r: u8)
    requires
        is_tally(s, tally@),
        below <= 15,
    ensures
        r == top_rank(s, lo as nat, hi as nat, below as int),
        r < 15,
{
    let mut b: u8 = below;
    while b > 2
        invariant
            b <= below <= 15,
            is_tally(s, tally@),
            top_rank(s, lo as nat, hi as nat, below as int) == top_rank(s, lo as nat, hi as nat, b as int),
        decreases b,
    {
        let c = tally[(b - 1) as usize];
        if lo <= c && c <= hi {
            return b - 1;
        }
        b = b - 1;
    }
    0
}

/// The highest rank among the cards.
fn highest_rank(cards: &Vec<Card>) -> (r: u8)
    requires
        cards@.len() > 0,
    ensures
        r == max_rank(cards@),
        2 <= r <= 14,
{
    let mut m: u8 = 0;
    let mut i: usize = 0;
    while i < cards.len()
        invariant
            i <= cards@.len(),
            m == max_rank(cards@.take(i as int)),
            i > 0 ==> 2 <= m <= 14,
            i == 0 ==> m == 0,
        decreases cards@.len() - i,
    {
        let v = cards[i].value.value();
        if v > m {
            m = v;
        }
        i = i + 1;
        assert(cards@.take(i as int).drop_last() =~= cards@.take(i as int - 1));
    }
    assert(cards@.take(cards@.len() as int) =~= cards@);
    m
}

/// Whether all cards share the suit of the first.
fn is_flush(cards: &Vec<Card>) -> (r: bool)
    requires
        cards@.len() > 0,
    ensures
        r == same_suit(cards@),
{
    let mut i: usize = 0;
    while i < cards.len()
        invariant
            0 < cards@.len(),
            i <= cards@.len(),
            forall|j: int| 0 <= j < i ==> #[trigger] cards@[j].suit == cards@[0].suit,
        decreases cards@.len() - i,
    {
        if cards[i].suit != cards[0].suit {
            return false;
        }
        i = i + 1;
    }
    true
}

/// Whether the five ranks ending at `high` are each held once.
fn is_run(tally: &Vec<u8>, high: u8, Ghost(s): Ghost<Seq<Card>>) -> (r: bool)
    requires
        is_tally(s, tally@),
        2 <= high <= 14,
        high == max_rank(s),
    ensures
        r == is_straight(s),
{
    if high < 6 {
        proof {
            lemma_rank_count_bound(s, high - 4);
        }
        return false;
    }
    tally[high as usize] == 1 && tally[(high - 1) as usize] == 1 && tally[(high - 2) as usize]
        == 1 && tally[(high - 3) as usize] == 1 && tally[(high - 4) as usize] == 1
}

// ---------------------------------------------------------------------------
// One check per category, each over the same tally.
// ---------------------------------------------------------------------------

/// Some royal flush when the cards form one.
fn get_royale_flush(cards: &Vec<Card>, tally: &Vec<u8>) -> (r: Option<Hand>)
    requires
        cards@.len() == 5,
        is_tally(cards@, tally@),
    ensures
        r == if same_suit(cards@) && is_straight(cards@) && max_rank(cards@) == 14 {
            Some(Hand::RoyaleFlush)
        } else {
            None
        },
{
    if !is_flush(cards) {
        return None;
    }
    let high = highest_rank(cards);
    if high == 14 && is_run(tally, high, Ghost(cards@)) {
        Some(Hand::RoyaleFlush)
    } else {
        None
    }
}

/// Some straight flush when the cards form one.
fn get_straight_flush(cards: &Vec<Card>, tally: &Vec<u8>) -> (r: Option<Hand>)
    requires
        cards@.len() == 5,
        is_tally(cards@, tally@),
    ensures
        r == if same_suit(cards@) && is_straight(cards@) {
            Some(Hand::StraightFlush(StraightFlushHand { high_card: value_of(max_rank(cards@)) }))
        } else {
            None
        },
{
    if !is_flush(cards) {
        return None;
    }
    let high = highest_rank(cards);
    if is_run(tally, high, Ghost(cards@)) {
        Some(Hand::StraightFlush(StraightFlushHand { high_card: CardValue::new(high) }))
    } else {
        None
    }
}

/// Some four of a kind when a rank is held four times or more.
fn get_four_of_a_kind(cards: &Vec<Card>, tally: &Vec<u8>) -> (r: Option<Hand>)
    requires
        cards@.len() == 5,
        is_tally(cards@, tally@),
    ensures
        r == if quad_rank(cards@) != 0 {
            Some(Hand::FourOfAKind(FourOfAKindHand { value: value_of(quad_rank(cards@)) }))
        } else {
            None
        },
{
    let quad = highest_with_count(tally, 4, 5, 15, Ghost(cards@));
    proof {
        lemma_top_rank(cards@, 4, 5, 15);
    }
    if quad != 0 {
        Some(Hand::FourOfAKind(FourOfAKindHand { value: CardValue::new(quad) }))
    } else {
        None
    }
}

/// Some full house when one rank is held three times and another twice.
fn get_full_house(cards: &Vec<Card>, tally: &Vec<u8>) -> (r: Option<Hand>)
    requires
        cards@.len() == 5,
        is_tally(cards@, tally@),
    ensures
        r == if trip_rank(cards@) != 0 && high_pair(cards@) != 0 {
            Some(Hand::FullHouse(FullHouseHand { three_value: value_of(trip_rank(cards@)) }))
        } else {
            None
        },
{
    let three = highest_with_count(tally, 3, 3, 15, Ghost(cards@));
    let two = highest_with_count(tally, 2, 2, 15, Ghost(cards@));
    proof {
        lemma_top_rank(cards@, 3, 3, 15);
    }
    if three != 0 && two != 0 {
        Some(Hand::FullHouse(FullHouseHand { three_value: CardValue::new(three) }))
    } else {
        None
    }
}

/// Some flush when all cards share a suit.
fn get_flush(cards: &Vec<Card>) -> (r: Option<Hand>)
    requires
        cards@.len() == 5,
    ensures
        r == if same_suit(cards@) {
            Some(Hand::Flush(FlushHand { high_card: value_of(max_rank(cards@)) }))
        } else {
            None
        },
{
    if !is_flush(cards) {
        return None;
    }
    let high = highest_rank(cards);
    Some(Hand::Flush(FlushHand { high_card: CardValue::new(high) }))
}

/// Some straight when the ranks are five in a row.
fn get_straight(cards: &Vec<Card>, tally: &Vec<u8>) -> (r: Option<Hand>)
    requires
        cards@.len() == 5,
        is_tally(cards@, tally@),
    ensures
        r == if is_straight(cards@) {
            Some(Hand::Straight(StraightHand { high_card: value_of(max_rank(cards@)) }))
        } else {
            None
        },
{
    let high = highest_rank(cards);
    if is_run(tally, high, Ghost(cards@)) {
        Some(Hand::Straight(StraightHand { high_card: CardValue::new(high) }))
    } else {
        None
    }
}

/// Some three of a kind when a rank is held exactly three times.
fn get_set(cards: &Vec<Card>, tally: &Vec<u8>) -> (r: Option<Hand>)
    requires
        cards@.len() == 5,
        is_tally(cards@, tally@),
    ensures
        r == if trip_rank(cards@) != 0 {
            Some(Hand::ThreeOfAKind(SetHand { value: value_of(trip_rank(cards@)) }))
        } else {
            None
        },
{
    let three = highest_with_count(tally, 3, 3, 15, Ghost(cards@));
    proof {
        lemma_top_rank(cards@, 3, 3, 15);
    }
    if three != 0 {
        Some(Hand::ThreeOfAKind(SetHand { value: CardValue::new(three) }))
    } else {
        None
    }
}

/// Some two pair when two ranks are each held exactly twice.
fn get_two_pair(cards: &Vec<Card>, tally: &Vec<u8>) -> (r: Option<Hand>)
    requires
        cards@.len() == 5,
        is_tally(cards@, tally@),
    ensures
        r == if low_pair(cards@) != 0 {
            Some(
                Hand::TwoPair(
                    TwoPairHand {
                        first_value: value_of(high_pair(cards@)),
                        second_value: value_of(low_pair(cards@)),
                        kicker: value_of(single_below(cards@, 15)),
                    },
                ),
            )
        } else {
            None
        },
{
    let ghost s = cards@;
    let first = highest_with_count(tally, 2, 2, 15, Ghost(s));
    let second = highest_with_count(tally, 2, 2, first, Ghost(s));
    if second == 0 {
        return None;
    }
    let kicker = highest_with_count(tally, 1, 1, 15, Ghost(s));
    proof {
        lemma_top_rank(s, 2, 2, 15);
        lemma_top_rank(s, 2, 2, first as int);
        lemma_top_rank(s, 1, 1, 15);
        lemma_five_cards(s);
    }
    Some(
        Hand::TwoPair(
            TwoPairHand {
                first_value: CardValue::new(first),
                second_value: CardValue::new(second),
                kicker: CardValue::new(kicker),
            },
        ),
    )
}

/// Some pair when exactly one rank is held twice and none more often.
fn get_pair(cards: &Vec<Card>, tally: &Vec<u8>) -> (r: Option<Hand>)
    requires
        cards@.len() == 5,
        is_tally(cards@, tally@),
    ensures
        r == if high_pair(cards@) != 0 && low_pair(cards@) == 0 && trip_rank(cards@) == 0
            && quad_rank(cards@) == 0 {
            Some(
                Hand::Pair(
                    PairHand {
                        value: value_of(high_pair(cards@)),
                        first_kicker: value_of(single_below(cards@, 15)),
                        second_kicker: value_of(single_below(cards@, single_below(cards@, 15))),
                        third_kicker: value_of(
                            single_below(cards@, single_below(cards@, single_below(cards@, 15))),
                        ),
                    },
                ),
            )
        } else {
            None
        },
{
    let ghost s = cards@;
    let pair = highest_with_count(tally, 2, 2, 15, Ghost(s));
    let other_pair = highest_with_count(tally, 2, 2, pair, Ghost(s));
    let three = highest_with_count(tally, 3, 3, 15, Ghost(s));
    let four = highest_with_count(tally, 4, 5, 15, Ghost(s));
    if pair == 0 || other_pair != 0 || three != 0 || four != 0 {
        return None;
    }
    let k1 = highest_with_count(tally, 1, 1, 15, Ghost(s));
    proof {
        lemma_top_rank(s, 2, 2, 15);
        lemma_top_rank(s, 2, 2, pair as int);
        lemma_top_rank(s, 3, 3, 15);
        lemma_top_rank(s, 4, 5, 15);
        lemma_top_rank(s, 1, 1, 15);
        lemma_five_cards(s);
    }
    let k2 = highest_with_count(tally, 1, 1, k1, Ghost(s));
    proof {
        lemma_top_rank(s, 1, 1, k1 as int);
    }
    let k3 = highest_with_count(tally, 1, 1, k2, Ghost(s));
    proof {
        lemma_top_rank(s, 1, 1, k2 as int);
    }
    Some(
        Hand::Pair(
            PairHand {
                value: CardValue::new(pair),
                first_kicker: CardValue::new(k1),
                second_kicker: CardValue::new(k2),
                third_kicker: CardValue::new(k3),
            },
        ),
    )
}

/// The five ranks from highest to lowest, for a hand without any matched ranks.
fn get_high_card(cards: &Vec<Card>, tally: &Vec<u8>) -> (r: Hand)
    requires
        cards@.len() == 5,
        is_tally(cards@, tally@),
        quad_rank(cards@) == 0,
        trip_rank(cards@) == 0,
        high_pair(cards@) == 0,
    ensures
        r == ({
            let s = cards@;
            let k1 = single_below(s, 15);
            let k2 = single_below(s, k1);
            let k3 = single_below(s, k2);
            let k4 = single_below(s, k3);
            Hand::HighCard(
                HighCardHand {
                    first_kicker: value_of(k1),
                    second_kicker: value_of(k2),
                    third_kicker: value_of(k3),
                    fourth_kicker: value_of(k4),
                    fifth_kicker: value_of(single_below(s, k4)),
                },
            )
        }),
{
    let ghost s = cards@;
    proof {
        lemma_top_rank(s, 2, 2, 15);
        lemma_top_rank(s, 3, 3, 15);
        lemma_top_rank(s, 4, 5, 15);
        lemma_five_cards(s);
    }
    let k1 = highest_with_count(tally, 1, 1, 15, Ghost(s));
    proof {
        lemma_top_rank(s, 1, 1, 15);
    }
    let k2 = highest_with_count(tally, 1, 1, k1, Ghost(s));
    proof {
        lemma_top_rank(s, 1, 1, k1 as int);
    }
    let k3 = highest_with_count(tally, 1, 1, k2, Ghost(s));
    proof {
        lemma_top_rank(s, 1, 1, k2 as int);
    }
    let k4 = highest_with_count(tally, 1, 1, k3, Ghost(s));
    proof {
        lemma_top_rank(s, 1, 1, k3 as int);
    }
    let k5 = highest_with_count(tally, 1, 1, k4, Ghost(s));
    proof {
        lemma_top_rank(s, 1, 1, k4 as int);
    }
    Hand::HighCard(
        HighCardHand {
            first_kicker: CardValue::new(k1),
            second_kicker: CardValue::new(k2),
            third_kicker: CardValue::new(k3),
            fourth_kicker: CardValue::new(k4),
            fifth_kicker: CardValue::new(k5),
        },
    )
}

/// The category of five cards, with its tie-break ranks: the first pattern that
/// matches, from the royal flush down to the high card.
pub fn classify(hand: &CardCollection) -> (r: Hand)
    requires
        hand@.len() == 5,
    ensures
        r == classification(hand@),
{
    let cards = &hand.0;
    let tally = tally_ranks(cards);
    if let Some(h) = get_royale_flush(cards, &tally) {
        return h;
    }
    if let Some(h) = get_straight_flush(cards, &tally) {
        return h;
    }
    if let Some(h) = get_four_of_a_kind(cards, &tally) {
        return h;
    }
    if let Some(h) = get_full_house(cards, &tally) {
        return h;
    }
    if let Some(h) = get_flush(cards) {
        return h;
    }
    if let Some(h) = get_straight(cards, &tally) {
        return h;
    }
    if let Some(h) = get_set(cards, &tally) {
        return h;
    }
    if let Some(h) = get_two_pair(cards, &tally) {
        return h;
    }
    if let Some(h) = get_pair(cards, &tally) {
        return h;
    }
    get_high_card(cards, &tally)
}

} // verus!
