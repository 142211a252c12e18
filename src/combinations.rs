use crate::deck::{Card, CardCollection};
use vstd::prelude::*;

verus! {

/// The ways to pick `k` cards out of `s`, each keeping the cards' order: first
/// those that take the first card, then those that leave it.
pub open spec fn choose_k(s: Seq<Card>, k: nat) -> Seq<Seq<Card>>
    decreases s.len(),
{
    if k == 0 {
        seq![Seq::empty()]
    } else if s.len() == 0 {
        Seq::empty()
    } else {
        choose_k(s.drop_first(), (k - 1) as nat).map_values(|c: Seq<Card>| seq![s[0]] + c)
            + choose_k(s.drop_first(), k)
    }
}

/// The number of ways to pick `k` things out of `n`.
pub open spec fn binomial(n: nat, k: nat) -> nat
    decreases n,
{
    if k == 0 {
        1
    } else if n == 0 {
        0
    } else {
        binomial((n - 1) as nat, (k - 1) as nat) + binomial((n - 1) as nat, k)
    }
}

/// Each pick holds `k` cards, and there are `binomial(|s|, k)` of them.
pub proof fn lemma_choose_k_len(s: Seq<Card>, k: nat)
    ensures
        choose_k(s, k).len() == binomial(s.len(), k),
        forall|i: int| 0 <= i < choose_k(s, k).len() ==> (#[trigger] choose_k(s, k)[i]).len() == k,
    decreases s.len(),
{
    if k > 0 && s.len() > 0 {
        let t = s.drop_first();
        lemma_choose_k_len(t, (k - 1) as nat);
        lemma_choose_k_len(t, k);
        let with = choose_k(t, (k - 1) as nat).map_values(|c: Seq<Card>| seq![s[0]] + c);
        let without = choose_k(t, k);
        assert forall|i: int| 0 <= i < choose_k(s, k).len() implies (#[trigger] choose_k(
            s,
            k,
        )[i]).len() == k by {
            if i < with.len() {
                assert(choose_k(s, k)[i] == with[i]);
            } else {
                assert(choose_k(s, k)[i] == without[i - with.len()]);
            }
        }
    }
}

/// Seven cards have twenty-one five-card combinations.
pub proof fn lemma_seven_choose_five(s: Seq<Card>)
    requires
        s.len() == 7,
    ensures
        choose_k(s, 5).len() == 21,
{
    lemma_choose_k_len(s, 5);
    reveal_with_fuel(binomial, 8);
}

fn copy_cards(v: &Vec<Card>) -> (r: Vec<Card>)
    ensures
        r@ == v@,
{
    let mut r: Vec<Card> = Vec::new();
    let mut i: usize = 0;
    while i < v.len()
        invariant
            i <= v@.len(),
            r@ == v@.take(i as int),
        decreases v@.len() - i,
    {
        r.push(v[i]);
        i = i + 1;
        assert(r@ =~= v@.take(i as int));
    }
    assert(v@.take(v@.len() as int) =~= v@);
    r
}

/// The five-card combinations of `cards[index..]`, each following `cur_combo`:
/// every card from `index` on is either added to the combination or skipped,
/// until it holds five cards.
pub fn generate_combinations(cards: &CardCollection, cur_combo: CardCollection, index: usize) -> (r:
    Vec<CardCollection>)
    requires
        index <= cards@.len(),
        cur_combo@.len() <= 5,
    ensures
        ({
            let picks = choose_k(cards@.subrange(index as int, cards@.len() as int), (5 - cur_combo@.len()) as nat);
            &&& r@.len() == picks.len()
            &&& forall|i: int| 0 <= i < r@.len() ==> (#[trigger] r@[i])@ == cur_combo@ + picks[i]
        }),
    decreases cards@.len() - index,
{
    let ghost rest = cards@.subrange(index as int, cards@.len() as int);
    if cur_combo.0.len() == 5 {
        let mut r: Vec<CardCollection> = Vec::new();
        r.push(cur_combo);
        proof {
            assert(r@[0]@ =~= r@[0]@ + Seq::<Card>::empty());
        }
        return r;
    }
    if index == cards.0.len() {
        return Vec::new();
    }
    let ghost k = (5 - cur_combo@.len()) as nat;
    let mut with = copy_cards(&cur_combo.0);
    with.push(cards.0[index]);
    let mut added = generate_combinations(cards, CardCollection(with), index + 1);
    let ghost added_view = added@;
    let mut skipped = generate_combinations(cards, cur_combo, index + 1);
    let ghost skipped_view = skipped@;
    added.append(&mut skipped);
    proof {
        let t = cards@.subrange(index as int + 1, cards@.len() as int);
        assert(rest.drop_first() =~= t);
        let with_first = choose_k(t, (k - 1) as nat).map_values(|c: Seq<Card>| seq![rest[0]] + c);
        assert(choose_k(rest, k) == with_first + choose_k(t, k));
        assert forall|i: int| 0 <= i < added@.len() implies (#[trigger] added@[i])@ == cur_combo@
            + choose_k(rest, k)[i] by {
            if i < added_view.len() {
                assert(added@[i] == added_view[i]);
                assert(cur_combo@.push(cards@[index as int]) + choose_k(t, (k - 1) as nat)[i]
                    =~= cur_combo@ + (seq![rest[0]] + choose_k(t, (k - 1) as nat)[i]));
            } else {
                assert(added@[i] == skipped_view[i - added_view.len()]);
            }
        }
    }
    added
}

} // verus!
