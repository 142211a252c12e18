use crate::deck::lemma_value_injective;
use crate::hand::Hand;
use vstd::prelude::*;

verus! {

// ---------------------------------------------------------------------------
// The strength order on hands.
// ---------------------------------------------------------------------------

/// The strength of a hand's category: 10 for a royal flush down to 1 for a high card.
pub open spec fn category(h: Hand) -> int {
    match h {
        Hand::RoyaleFlush => 10,
        Hand::StraightFlush(_) => 9,
        Hand::FourOfAKind(_) => 8,
        Hand::FullHouse(_) => 7,
        Hand::Flush(_) => 6,
        Hand::Straight(_) => 5,
        Hand::ThreeOfAKind(_) => 4,
        Hand::TwoPair(_) => 3,
        Hand::Pair(_) => 2,
        Hand::HighCard(_) => 1,
    }
}

/// The ranks that break a tie between two hands of one category, most significant
/// first, with zeros where the category has fewer.
pub open spec fn tie_ranks(h: Hand) -> (int, int, int, int, int) {
    match h {
        Hand::RoyaleFlush => (0, 0, 0, 0, 0),
        Hand::StraightFlush(x) => (x.high_card.spec_value() as int, 0, 0, 0, 0),
        Hand::FourOfAKind(x) => (x.value.spec_value() as int, 0, 0, 0, 0),
        Hand::FullHouse(x) => (x.three_value.spec_value() as int, 0, 0, 0, 0),
        Hand::Flush(x) => (x.high_card.spec_value() as int, 0, 0, 0, 0),
        Hand::Straight(x) => (x.high_card.spec_value() as int, 0, 0, 0, 0),
        Hand::ThreeOfAKind(x) => (x.value.spec_value() as int, 0, 0, 0, 0),
        Hand::TwoPair(x) => (
            x.first_value.spec_value() as int,
            x.second_value.spec_value() as int,
            x.kicker.spec_value() as int,
            0,
            0,
        ),
        Hand::Pair(x) => (
            x.value.spec_value() as int,
            x.first_kicker.spec_value() as int,
            x.second_kicker.spec_value() as int,
            x.third_kicker.spec_value() as int,
            0,
        ),
        Hand::HighCard(x) => (
            x.first_kicker.spec_value() as int,
            x.second_kicker.spec_value() as int,
            x.third_kicker.spec_value() as int,
            x.fourth_kicker.spec_value() as int,
            x.fifth_kicker.spec_value() as int,
        ),
    }
}

/// `a` comes after `b` in lexicographic order.
pub open spec fn lex_greater(a: (int, int, int, int, int), b: (int, int, int, int, int)) -> bool {
    a.0 > b.0 || (a.0 == b.0 && (a.1 > b.1 || (a.1 == b.1 && (a.2 > b.2 || (a.2 == b.2 && (a.3
        > b.3 || (a.3 == b.3 && a.4 > b.4)))))))
}

/// Hand `a` is strictly stronger than hand `b`: a stronger category, or the same
/// category and greater tie-break ranks. Suits never enter.
pub open spec fn beats(a: Hand, b: Hand) -> bool {
    category(a) > category(b) || (category(a) == category(b) && lex_greater(
        tie_ranks(a),
        tie_ranks(b),
    ))
}

/// How many hands of `s` are strictly stronger than `h`.
pub open spec fn count_beating(s: Seq<Hand>, h: Hand) -> nat
    decreases s.len(),
{
    if s.len() == 0 {
        0
    } else {
        count_beating(s.drop_last(), h) + if beats(s.last(), h) {
            1nat
        } else {
            0nat
        }
    }
}

/// The rank of each hand of `hs`: one more than the number of strictly stronger
/// hands. Equal hands share a rank, and rank 1 is the strongest.
pub open spec fn rankings_of(hs: Seq<Hand>) -> Seq<int> {
    Seq::new(hs.len(), |i: int| 1 + count_beating(hs, hs[i]) as int)
}

/// Two different hands are never of equal strength.
pub proof fn lemma_beats_total(a: Hand, b: Hand)
    ensures
        a == b || beats(a, b) || beats(b, a),
{
    if !beats(a, b) && !beats(b, a) {
        match (a, b) {
            (Hand::StraightFlush(x), Hand::StraightFlush(y)) => {
                lemma_value_injective(x.high_card, y.high_card);
            },
            (Hand::FourOfAKind(x), Hand::FourOfAKind(y)) => {
                lemma_value_injective(x.value, y.value);
            },
            (Hand::FullHouse(x), Hand::FullHouse(y)) => {
                lemma_value_injective(x.three_value, y.three_value);
            },
            (Hand::Flush(x), Hand::Flush(y)) => {
                lemma_value_injective(x.high_card, y.high_card);
            },
            (Hand::Straight(x), Hand::Straight(y)) => {
                lemma_value_injective(x.high_card, y.high_card);
            },
            (Hand::ThreeOfAKind(x), Hand::ThreeOfAKind(y)) => {
                lemma_value_injective(x.value, y.value);
            },
            (Hand::TwoPair(x), Hand::TwoPair(y)) => {
                lemma_value_injective(x.first_value, y.first_value);
                lemma_value_injective(x.second_value, y.second_value);
                lemma_value_injective(x.kicker, y.kicker);
            },
            (Hand::Pair(x), Hand::Pair(y)) => {
                lemma_value_injective(x.value, y.value);
                lemma_value_injective(x.first_kicker, y.first_kicker);
                lemma_value_injective(x.second_kicker, y.second_kicker);
                lemma_value_injective(x.third_kicker, y.third_kicker);
            },
            (Hand::HighCard(x), Hand::HighCard(y)) => {
                lemma_value_injective(x.first_kicker, y.first_kicker);
                lemma_value_injective(x.second_kicker, y.second_kicker);
                lemma_value_injective(x.third_kicker, y.third_kicker);
                lemma_value_injective(x.fourth_kicker, y.fourth_kicker);
                lemma_value_injective(x.fifth_kicker, y.fifth_kicker);
            },
            _ => {},
        }
    }
}

proof fn lemma_count_beating_bound(s: Seq<Hand>, h: Hand)
    ensures
        count_beating(s, h) <= s.len(),
        s.contains(h) ==> count_beating(s, h) < s.len(),
    decreases s.len(),
{
    if s.len() > 0 {
        lemma_count_beating_bound(s.drop_last(), h);
        if s.contains(h) && s.last() != h {
            let k = choose|k: int| 0 <= k < s.len() && s[k] == h;
            assert(s.drop_last()[k] == h);
        }
    }
}

// ---------------------------------------------------------------------------
// Ranking, category by category.
// ---------------------------------------------------------------------------

/// The hands of `s` whose category is `c`, in their order.
pub open spec fn select_category(s: Seq<Hand>, c: int) -> Seq<Hand>
    decreases s.len(),
{
    if s.len() == 0 {
        s
    } else if category(s.last()) == c {
        select_category(s.drop_last(), c).push(s.last())
    } else {
        select_category(s.drop_last(), c)
    }
}

/// How many hands of `s` have a category stronger than `c`.
pub open spec fn count_above(s: Seq<Hand>, c: int) -> nat
    decreases s.len(),
{
    if s.len() == 0 {
        0
    } else {
        count_above(s.drop_last(), c) + if category(s.last()) > c {
            1nat
        } else {
            0nat
        }
    }
}

proof fn lemma_count_above_step(s: Seq<Hand>, c: int)
    ensures
        count_above(s, c - 1) == count_above(s, c) + select_category(s, c).len(),
        count_above(s, c) <= s.len(),
    decreases s.len(),
{
    if s.len() > 0 {
        lemma_count_above_step(s.drop_last(), c);
    }
}

/// Those stronger than a hand of category `c` are the hands of stronger categories
/// and the stronger ones of its own.
proof fn lemma_count_beating_split(s: Seq<Hand>, c: int, h: Hand)
    requires
        category(h) == c,
    ensures
        count_beating(s, h) == count_beating(select_category(s, c), h) + count_above(s, c),
    decreases s.len(),
{
    if s.len() > 0 {
        lemma_count_beating_split(s.drop_last(), c, h);
        if category(s.last()) == c {
            assert(select_category(s, c).drop_last() =~= select_category(s.drop_last(), c));
        }
    }
}

proof fn lemma_select_category_all(s: Seq<Hand>, c: int)
    ensures
        forall|g: int|
            0 <= g < select_category(s, c).len() ==> #[trigger] category(
                select_category(s, c)[g],
            ) == c,
    decreases s.len(),
{
    if s.len() > 0 {
        lemma_select_category_all(s.drop_last(), c);
        let prev = select_category(s.drop_last(), c);
        if category(s.last()) == c {
            assert forall|g: int| 0 <= g < prev.len() + 1 implies #[trigger] category(
                prev.push(s.last())[g],
            ) == c by {
                if g < prev.len() {
                    assert(prev.push(s.last())[g] == prev[g]);
                }
            }
        }
    }
}

/// The category of a hand, as a number from 10 (royal flush) down to 1 (high card).
fn category_of(h: &Hand) -> (r: u8)
    ensures
        r == category(*h),
{
    match h {
        Hand::RoyaleFlush => 10,
        Hand::StraightFlush(_) => 9,
        Hand::FourOfAKind(_) => 8,
        Hand::FullHouse(_) => 7,
        Hand::Flush(_) => 6,
        Hand::Straight(_) => 5,
        Hand::ThreeOfAKind(_) => 4,
        Hand::TwoPair(_) => 3,
        Hand::Pair(_) => 2,
        Hand::HighCard(_) => 1,
    }
}

/// The tie-break ranks of a hand, as `tie_ranks` gives them.
fn tie_key(h: &Hand) -> (r: (u8, u8, u8, u8, u8))
    ensures
        (r.0 as int, r.1 as int, r.2 as int, r.3 as int, r.4 as int) == tie_ranks(*h),
{
    match h {
        Hand::RoyaleFlush => (0, 0, 0, 0, 0),
        Hand::StraightFlush(x) => (x.high_card.value(), 0, 0, 0, 0),
        Hand::FourOfAKind(x) => (x.value.value(), 0, 0, 0, 0),
        Hand::FullHouse(x) => (x.three_value.value(), 0, 0, 0, 0),
        Hand::Flush(x) => (x.high_card.value(), 0, 0, 0, 0),
        Hand::Straight(x) => (x.high_card.value(), 0, 0, 0, 0),
        Hand::ThreeOfAKind(x) => (x.value.value(), 0, 0, 0, 0),
        Hand::TwoPair(x) => (x.first_value.value(), x.second_value.value(), x.kicker.value(), 0, 0),
        Hand::Pair(x) => (
            x.value.value(),
            x.first_kicker.value(),
            x.second_kicker.value(),
            x.third_kicker.value(),
            0,
        ),
        Hand::HighCard(x) => (
            x.first_kicker.value(),
            x.second_kicker.value(),
            x.third_kicker.value(),
            x.fourth_kicker.value(),
            x.fifth_kicker.value(),
        ),
    }
}

/// Whether `a` wins the tie-break against `b`, two hands of one category.
fn wins_tie_break(a: &Hand, b: &Hand) -> (r: bool)
    requires
        category(*a) == category(*b),
    ensures
        r == beats(*a, *b),
{
    let x = tie_key(a);
    let y = tie_key(b);
    x.0 > y.0 || (x.0 == y.0 && (x.1 > y.1 || (x.1 == y.1 && (x.2 > y.2 || (x.2 == y.2 && (x.3
        > y.3 || (x.3 == y.3 && x.4 > y.4)))))))
}

/// Ranks hands of one category among themselves by their tie-break ranks: each gets
/// one more than the number that beat it.
fn tie_breaker(hands: &Vec<Hand>) -> (r: Vec<u8>)
    requires
        hands@.len() <= 255,
        forall|i: int| 0 <= i < hands@.len() ==> #[trigger] category(hands@[i]) == category(hands@[0]),
    ensures
        r@.len() == hands@.len(),
        forall|i: int| 0 <= i < hands@.len() ==> r@[i] as int == #[trigger] rankings_of(hands@)[i],
{
    let n = hands.len();
    let mut r: Vec<u8> = Vec::new();
    let mut i: usize = 0;
    while i < n
        invariant
            n == hands@.len() <= 255,
            i <= n,
            r@.len() == i,
            forall|i: int| 0 <= i < hands@.len() ==> #[trigger] category(hands@[i]) == category(hands@[0]),
            forall|k: int| 0 <= k < i ==> r@[k] as int == #[trigger] rankings_of(hands@)[k],
        decreases n - i,
    {
        let mut count: usize = 0;
        let mut j: usize = 0;
        while j < n
            invariant
                n == hands@.len() <= 255,
                i < n,
                j <= n,
                count == count_beating(hands@.take(j as int), hands@[i as int]),
                count <= j,
                forall|i: int| 0 <= i < hands@.len() ==> #[trigger] category(hands@[i]) == category(hands@[0]),
            decreases n - j,
        {
            let ghost before = hands@.take(j as int);
            if wins_tie_break(&hands[j], &hands[i]) {
                count = count + 1;
            }
            j = j + 1;
            assert(hands@.take(j as int).drop_last() =~= before);
        }
        proof {
            assert(hands@.take(n as int) =~= hands@);
            lemma_count_beating_bound(hands@, hands@[i as int]);
            assert(hands@.contains(hands@[i as int]));
        }
        r.push((count + 1) as u8);
        i = i + 1;
    }
    r
}

/// Ranks hands of any categories: category by category from the strongest, each
/// category's hands ranked among themselves and placed after all hands of
/// stronger categories. Equal hands share a rank, and the rank after a group of
/// tied hands skips by the size of the group.
pub fn rank_hands(hands: &Vec<Hand>) -> (r: Vec<u8>)
    requires
        hands@.len() <= 255,
    ensures
        r@.len() == hands@.len(),
        forall|i: int| 0 <= i < hands@.len() ==> r@[i] as int == #[trigger] rankings_of(hands@)[i],
{
    let ghost hs = hands@;
    let n = hands.len();
    let mut rankings: Vec<u8> = Vec::new();
    while rankings.len() < n
        invariant
            rankings@.len() <= n,
        decreases n - rankings@.len(),
    {
        rankings.push(0);
    }
    let mut counter: usize = 1;
    let mut cat: u8 = 10;
    proof {
        assert forall|k: int| 0 <= k < n implies category(#[trigger] hs[k]) <= 10 by {}
        assert(count_above(hs, 10) == 0) by {
            lemma_count_above_zero(hs, 10);
        }
    }
    while cat > 0
        invariant
            hs == hands@,
            n == hs.len() <= 255,
            cat <= 10,
            rankings@.len() == n,
            counter == 1 + count_above(hs, cat as int),
            forall|k: int|
                0 <= k < n && category(hs[k]) > cat ==> rankings@[k] as int
                    == #[trigger] rankings_of(hs)[k],
        decreases cat,
    {
        let mut group: Vec<Hand> = Vec::new();
        let mut idx: Vec<usize> = Vec::new();
        let mut i: usize = 0;
        while i < n
            invariant
                hs == hands@,
                n == hs.len(),
                i <= n,
                group@ == select_category(hs.take(i as int), cat as int),
                idx@.len() == group@.len(),
                forall|g: int|
                    0 <= g < idx@.len() ==> idx@[g] < i && hs[#[trigger] idx@[g] as int]
                        == group@[g],
                forall|g1: int, g2: int|
                    0 <= g1 < g2 < idx@.len() ==> #[trigger] idx@[g1] < #[trigger] idx@[g2],
                forall|k: int|
                    0 <= k < i && category(#[trigger] hs[k]) == cat ==> exists|g: int|
                        0 <= g < idx@.len() && idx@[g] == k,
            decreases n - i,
        {
            let ghost before = hs.take(i as int);
            let ghost old_idx = idx@;
            if category_of(&hands[i]) == cat {
                group.push(hands[i]);
                idx.push(i);
                proof {
                    assert forall|k: int|
                        0 <= k < i + 1 && category(#[trigger] hs[k]) == cat implies exists|g: int|
                        0 <= g < idx@.len() && idx@[g] == k by {
                        if k == i {
                            assert(idx@[old_idx.len() as int] == k);
                        } else {
                            let g = choose|g: int| 0 <= g < old_idx.len() && old_idx[g] == k;
                            assert(idx@[g] == k);
                        }
                    }
                }
            }
            i = i + 1;
            assert(hs.take(i as int).drop_last() =~= before);
        }
        assert(hs.take(n as int) =~= hs);
        proof {
            lemma_count_above_step(hs, cat as int);
            lemma_count_above_step(hs, cat as int - 1);
            lemma_select_category_all(hs, cat as int);
        }
        if group.len() > 0 {
            proof {
                assert(category(group@[0]) == cat);
            }
            let local = tie_breaker(&group);
            let ghost pre = rankings@;
            let mut g: usize = 0;
            while g < group.len()
                invariant
                    hs == hands@,
                    n == hs.len() <= 255,
                    1 <= cat <= 10,
                    group@ == select_category(hs, cat as int),
                    idx@.len() == group@.len(),
                    local@.len() == group@.len(),
                    forall|g: int|
                        0 <= g < local@.len() ==> local@[g] as int == #[trigger] rankings_of(
                            group@,
                        )[g],
                    forall|g: int|
                        0 <= g < idx@.len() ==> idx@[g] < n && hs[#[trigger] idx@[g] as int]
                            == group@[g],
                    forall|g1: int, g2: int|
                        0 <= g1 < g2 < idx@.len() ==> #[trigger] idx@[g1] < #[trigger] idx@[g2],
                    forall|g: int|
                        0 <= g < group@.len() ==> #[trigger] category(group@[g]) == cat,
                    counter == 1 + count_above(hs, cat as int),
                    g <= group@.len(),
                    rankings@.len() == n,
                    pre.len() == n,
                    count_above(hs, cat as int - 1) <= n,
                    count_above(hs, cat as int - 1) == count_above(hs, cat as int) + group@.len(),
                    forall|k: int|
                        0 <= k < n && !(exists|g2: int| 0 <= g2 < g && idx@[g2] == k)
                            ==> #[trigger] rankings@[k] == pre[k],
                    forall|g2: int|
                        0 <= g2 < g ==> rankings@[#[trigger] idx@[g2] as int] as int
                            == rankings_of(hs)[idx@[g2] as int],
                decreases group@.len() - g,
            {
                let ghost k = idx@[g as int] as int;
                let ghost h = hs[k];
                proof {
                    lemma_count_beating_split(hs, cat as int, h);
                    lemma_count_beating_bound(hs, h);
                    assert(hs.contains(h));
                    assert(group@[g as int] == h);
                    assert(local@[g as int] as int == rankings_of(group@)[g as int]);
                    assert(rankings_of(group@)[g as int] == 1 + count_beating(group@, h));
                    assert(0 <= k < n);
                    assert(rankings_of(hs)[k] == 1 + count_beating(hs, h));
                }
                let value = local[g] as usize + counter - 1;
                assert(value == rankings_of(hs)[k]);
                rankings.set(idx[g], value as u8);
                proof {
                    assert forall|g2: int| 0 <= g2 < g + 1 implies rankings@[#[trigger] idx@[g2] as int] as int
                        == rankings_of(hs)[idx@[g2] as int] by {
                        if g2 < g {
                            assert(idx@[g2] < idx@[g as int]);
                        }
                    }
                }
                g = g + 1;
            }
            counter = counter + group.len();
        }
        cat = cat - 1;
    }
    proof {
        assert forall|k: int| 0 <= k < n implies category(#[trigger] hs[k]) >= 1 by {}
    }
    rankings
}

proof fn lemma_count_above_zero(s: Seq<Hand>, c: int)
    requires
        c >= 10,
    ensures
        count_above(s, c) == 0,
    decreases s.len(),
{
    if s.len() > 0 {
        lemma_count_above_zero(s.drop_last(), c);
    }
}

} // verus!
