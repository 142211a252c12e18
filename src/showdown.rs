use crate::combinations::{choose_k, generate_combinations, lemma_choose_k_len, lemma_seven_choose_five};
use crate::deck::{Card, CardCollection};
use crate::hand::{classification, classify, Hand};
use crate::ranking::{beats, count_beating, lemma_beats_total, rank_hands, rankings_of};
use vstd::prelude::*;

verus! {

/// The five-card combinations of a player's cards.
pub open spec fn combinations(cards: Seq<Card>) -> Seq<Seq<Card>> {
    choose_k(cards, 5)
}

/// The category of each five-card combination of `cards`.
pub open spec fn classifications(cards: Seq<Card>) -> Seq<Hand> {
    combinations(cards).map_values(|c: Seq<Card>| classification(c))
}

/// `h` is the category of some combination of `cards`, and no combination is
/// stronger.
pub open spec fn is_best_of(cards: Seq<Card>, h: Hand) -> bool {
    &&& classifications(cards).contains(h)
    &&& forall|i: int|
        0 <= i < classifications(cards).len() ==> !beats(#[trigger] classifications(cards)[i], h)
}

/// The best hand that `cards` make.
pub open spec fn best_hand(cards: Seq<Card>) -> Hand {
    choose|h: Hand| is_best_of(cards, h)
}

/// The cards of each collection.
pub open spec fn card_views(hands: Seq<CardCollection>) -> Seq<Seq<Card>> {
    hands.map_values(|c: CardCollection| c@)
}

/// The rank of each player's best hand among all players' best hands.
pub open spec fn player_rankings(hands: Seq<Seq<Card>>) -> Seq<int> {
    rankings_of(hands.map_values(|c: Seq<Card>| best_hand(c)))
}

// ---------------------------------------------------------------------------
// Facts about the strength order over a list of hands.
// ---------------------------------------------------------------------------

proof fn lemma_count_beating_zero(s: Seq<Hand>, h: Hand)
    ensures
        count_beating(s, h) == 0 <==> forall|j: int| 0 <= j < s.len() ==> !beats(#[trigger] s[j], h),
    decreases s.len(),
{
    if s.len() > 0 {
        lemma_count_beating_zero(s.drop_last(), h);
        if count_beating(s, h) == 0 {
            assert forall|j: int| 0 <= j < s.len() implies !beats(#[trigger] s[j], h) by {
                if j < s.len() - 1 {
                    assert(s[j] == s.drop_last()[j]);
                }
            }
        } else if forall|j: int| 0 <= j < s.len() ==> !beats(#[trigger] s[j], h) {
            assert forall|j: int| 0 <= j < s.len() - 1 implies !beats(#[trigger] s.drop_last()[j], h) by {
                assert(s[j] == s.drop_last()[j]);
            }
            assert(!beats(s[s.len() - 1], h));
        }
    }
}

/// Some hand of a non-empty list is beaten by none of the list.
proof fn lemma_exists_strongest(s: Seq<Hand>) -> (m: int)
    requires
        s.len() > 0,
    ensures
        0 <= m < s.len(),
        forall|j: int| 0 <= j < s.len() ==> !beats(#[trigger] s[j], s[m]),
    decreases s.len(),
{
    if s.len() == 1 {
        0
    } else {
        let t = s.drop_last();
        let m0 = lemma_exists_strongest(t);
        assert forall|j: int| 0 <= j < t.len() implies #[trigger] s[j] == t[j] by {}
        if beats(s.last(), s[m0]) {
            (s.len() - 1) as int
        } else {
            m0
        }
    }
}

/// Whatever beats `b` beats `a` too, when `a` is `b` or weaker.
proof fn lemma_count_beating_weak(s: Seq<Hand>, a: Hand, b: Hand)
    requires
        a == b || beats(b, a),
    ensures
        count_beating(s, b) <= count_beating(s, a),
    decreases s.len(),
{
    if s.len() > 0 {
        lemma_count_beating_weak(s.drop_last(), a, b);
    }
}

/// A hand of the list that beats `a` adds one to those beating `a`.
proof fn lemma_count_beating_strict(s: Seq<Hand>, a: Hand, b: Hand)
    requires
        beats(b, a),
        s.contains(b),
    ensures
        count_beating(s, b) < count_beating(s, a),
    decreases s.len(),
{
    if s.last() == b {
        lemma_count_beating_weak(s.drop_last(), a, b);
    } else {
        let k = choose|k: int| 0 <= k < s.len() && s[k] == b;
        assert(s.drop_last()[k] == b);
        lemma_count_beating_strict(s.drop_last(), a, b);
    }
}

/// How many entries of `r` are below `v`.
pub open spec fn count_below(r: Seq<int>, v: int) -> nat
    decreases r.len(),
{
    if r.len() == 0 {
        0
    } else {
        count_below(r.drop_last(), v) + if r.last() < v {
            1nat
        } else {
            0nat
        }
    }
}

proof fn lemma_count_below_matches(r: Seq<int>, v: int, s: Seq<Hand>, h: Hand)
    requires
        r.len() == s.len(),
        forall|j: int| 0 <= j < r.len() ==> (#[trigger] r[j] < v) == beats(s[j], h),
    ensures
        count_below(r, v) == count_beating(s, h),
    decreases r.len(),
{
    if r.len() > 0 {
        let (r1, s1) = (r.drop_last(), s.drop_last());
        assert forall|j: int| 0 <= j < r1.len() implies (#[trigger] r1[j] < v) == beats(s1[j], h) by {
            assert(r1[j] == r[j] && s1[j] == s[j]);
        }
        lemma_count_below_matches(r1, v, s1, h);
        assert(r.last() == r[r.len() - 1]);
    }
}

// ---------------------------------------------------------------------------
// Laws of the ranking.
// ---------------------------------------------------------------------------

/// A non-empty list of hands has a hand of rank 1.
pub proof fn lemma_rank_one_present(hs: Seq<Hand>)
    requires
        hs.len() > 0,
    ensures
        exists|i: int| 0 <= i < hs.len() && #[trigger] rankings_of(hs)[i] == 1,
{
    let m = lemma_exists_strongest(hs);
    lemma_count_beating_zero(hs, hs[m]);
    assert(rankings_of(hs)[m] == 1);
}

/// The ranking is dense in the sense of shared places: every rank is one more
/// than the number of hands with a smaller rank, so after a group of tied hands
/// the next rank is larger by exactly the size of the group.
pub proof fn lemma_rank_counts_better(hs: Seq<Hand>, i: int)
    requires
        0 <= i < hs.len(),
    ensures
        rankings_of(hs)[i] == 1 + count_below(rankings_of(hs), rankings_of(hs)[i]),
{
    let r = rankings_of(hs);
    assert forall|j: int| 0 <= j < r.len() implies (#[trigger] r[j] < r[i]) == beats(hs[j], hs[i]) by {
        assert(hs.contains(hs[j]));
        if beats(hs[j], hs[i]) {
            lemma_count_beating_strict(hs, hs[i], hs[j]);
        } else {
            lemma_beats_total(hs[j], hs[i]);
            lemma_count_beating_weak(hs, hs[j], hs[i]);
        }
    }
    lemma_count_below_matches(r, r[i], hs, hs[i]);
}

/// Players holding the same seven cards get the same rank.
pub proof fn lemma_identical_hands_tie(hands: Seq<Seq<Card>>, i: int, j: int)
    requires
        0 <= i < hands.len(),
        0 <= j < hands.len(),
        hands[i] == hands[j],
    ensures
        player_rankings(hands)[i] == player_rankings(hands)[j],
{
    let best = hands.map_values(|c: Seq<Card>| best_hand(c));
    assert(best[i] == best[j]);
}

/// Among players, some player ranks first when there is any, and every player's
/// rank is one more than the number of players ranked before them.
pub proof fn lemma_player_rankings_dense(hands: Seq<Seq<Card>>, i: int)
    requires
        0 <= i < hands.len(),
    ensures
        exists|j: int| 0 <= j < hands.len() && #[trigger] player_rankings(hands)[j] == 1,
        player_rankings(hands)[i] == 1 + count_below(
            player_rankings(hands),
            player_rankings(hands)[i],
        ),
{
    let best = hands.map_values(|c: Seq<Card>| best_hand(c));
    assert(player_rankings(hands) == rankings_of(best));
    lemma_rank_one_present(best);
    let j = choose|j: int| 0 <= j < best.len() && #[trigger] rankings_of(best)[j] == 1;
    assert(player_rankings(hands)[j] == 1);
    lemma_rank_counts_better(best, i);
}

/// At most one hand is the best of a set of cards.
proof fn lemma_best_unique(cards: Seq<Card>, a: Hand, b: Hand)
    requires
        is_best_of(cards, a),
        is_best_of(cards, b),
    ensures
        a == b,
{
    let cs = classifications(cards);
    let i = choose|i: int| 0 <= i < cs.len() && cs[i] == a;
    let j = choose|j: int| 0 <= j < cs.len() && cs[j] == b;
    assert(!beats(cs[i], b));
    assert(!beats(cs[j], a));
    lemma_beats_total(a, b);
}

// ---------------------------------------------------------------------------
// The entry points.
// ---------------------------------------------------------------------------

/// Given the seven cards of a player (the five community cards and the player's
/// two), returns the best hand that five of them make: the classification of
/// the combinations that the ranking puts first.
pub fn get_best_hand(cards: CardCollection) -> (r: Hand)
    requires
        cards@.len() == 7,
    ensures
        combinations(cards@).len() == 21,
        is_best_of(cards@, r),
        r == best_hand(cards@),
{
    let ghost picks = combinations(cards@);
    let combos = generate_combinations(&cards, CardCollection(Vec::new()), 0);
    proof {
        assert(cards@.subrange(0, 7) =~= cards@);
        lemma_seven_choose_five(cards@);
        lemma_choose_k_len(cards@, 5);
        assert forall|i: int| 0 <= i < combos@.len() implies (#[trigger] combos@[i])@ == picks[i] by {
            assert(Seq::<Card>::empty() + picks[i] =~= picks[i]);
        }
    }
    let mut hand_names: Vec<Hand> = Vec::new();
    let mut i: usize = 0;
    while i < combos.len()
        invariant
            picks == combinations(cards@),
            combos@.len() == picks.len() == 21,
            forall|i: int| 0 <= i < combos@.len() ==> (#[trigger] combos@[i])@ == picks[i],
            forall|i: int| 0 <= i < picks.len() ==> (#[trigger] picks[i]).len() == 5,
            i <= combos@.len(),
            hand_names@ == classifications(cards@).take(i as int),
        decreases combos@.len() - i,
    {
        let h = classify(&combos[i]);
        assert(h == classifications(cards@)[i as int]);
        hand_names.push(h);
        i = i + 1;
        assert(hand_names@ =~= classifications(cards@).take(i as int));
    }
    let ghost hs = classifications(cards@);
    assert(hand_names@ =~= hs);
    let rankings = rank_hands(&hand_names);
    let mut i: usize = 0;
    while i < rankings.len()
        invariant
            picks == combinations(cards@),
            picks.len() == 21,
            hs == classifications(cards@),
            hand_names@ == hs,
            rankings@.len() == hs.len() == 21,
            forall|k: int| 0 <= k < hs.len() ==> rankings@[k] as int == #[trigger] rankings_of(hs)[k],
            i <= rankings@.len(),
            forall|k: int| 0 <= k < i ==> #[trigger] rankings_of(hs)[k] != 1,
        decreases rankings@.len() - i,
    {
        if rankings[i] == 1 {
            let best = hand_names[i];
            proof {
                assert(rankings_of(hs)[i as int] == 1);
                lemma_count_beating_zero(hs, best);
                assert(hs.contains(best));
                assert(is_best_of(cards@, best));
                lemma_best_unique(cards@, best, best_hand(cards@));
            }
            return best;
        }
        i = i + 1;
    }
    proof {
        lemma_rank_one_present(hs);
    }
    hand_names[0]
}

/// Given the seven cards of each player, returns each player's rank: one more
/// than the number of players whose best hand is strictly stronger.
pub fn assign_hand_rankings(hands: Vec<CardCollection>) -> (r: Vec<u8>)
    requires
        hands@.len() <= 255,
        forall|i: int| 0 <= i < hands@.len() ==> (#[trigger] hands@[i])@.len() == 7,
    ensures
        r@.len() == hands@.len(),
        forall|i: int|
            0 <= i < hands@.len() ==> r@[i] as int == #[trigger] player_rankings(card_views(hands@))[i],
{
    let ghost views = card_views(hands@);
    let ghost best = views.map_values(|c: Seq<Card>| best_hand(c));
    let mut best_hands: Vec<Hand> = Vec::new();
    let mut rest = hands;
    let mut taken: Vec<CardCollection> = Vec::new();
    let mut i: usize = 0;
    let n = rest.len();
    while i < n
        invariant
            n == views.len() == best.len(),
            i <= n,
            best_hands@ == best.take(i as int),
            forall|k: int| 0 <= k < n ==> (#[trigger] views[k]).len() == 7,
            forall|k: int| 0 <= k < n ==> #[trigger] best[k] == best_hand(views[k]),
            rest@.len() == n,
            forall|k: int| 0 <= k < n ==> (#[trigger] rest@[k])@ == views[k],
        decreases n - i,
    {
        let cards = CardCollection(copy_collection(&rest[i]));
        let h = get_best_hand(cards);
        best_hands.push(h);
        i = i + 1;
        assert(best_hands@ =~= best.take(i as int));
    }
    assert(best_hands@ =~= best);
    rank_hands(&best_hands)
}

fn copy_collection(c: &CardCollection) -> (r: Vec<Card>)
    ensures
        r@ == c@,
{
    let mut r: Vec<Card> = Vec::new();
    let mut i: usize = 0;
    while i < c.0.len()
        invariant
            i <= c@.len(),
            r@ == c@.take(i as int),
        decreases c@.len() - i,
    {
        r.push(c.0[i]);
        i = i + 1;
        assert(r@ =~= c@.take(i as int));
    }
    assert(c@.take(c@.len() as int) =~= c@);
    r
}

} // verus!
