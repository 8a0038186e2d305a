//! Unordered combinations of cards, and their count.
use vstd::prelude::*;
use itertools::Itertools;
use crate::cards::Card;

verus! {

/// The binomial coefficient, by Pascal's rule.
pub open spec fn choose_count(n: nat, k: nat) -> nat
    decreases n, k,
{
    if k == 0 {
        1
    } else if n == 0 {
        0
    } else {
        choose_count((n - 1) as nat, (k - 1) as nat) + choose_count((n - 1) as nat, k)
    }
}

/// All `k`-element combinations of the cards, in lexicographic order by
/// position: first every combination that keeps the first card, then every
/// combination drawn from the rest.
pub open spec fn combos_of(s: Seq<Card>, k: nat) -> Seq<Seq<Card>>
    decreases s.len(),
{
    if k == 0 {
        seq![Seq::<Card>::empty()]
    } else if s.len() < k {
        Seq::<Seq<Card>>::empty()
    } else {
        combos_of(s.drop_first(), (k - 1) as nat).map_values(|c: Seq<Card>| seq![s[0]] + c)
            + combos_of(s.drop_first(), k)
    }
}

proof fn lemma_choose_count_zero(n: nat, k: nat)
    requires
        k > n,
    ensures
        choose_count(n, k) == 0,
    decreases n,
{
    if n > 0 {
        lemma_choose_count_zero((n - 1) as nat, (k - 1) as nat);
        lemma_choose_count_zero((n - 1) as nat, k);
    }
}

/// Law: there are exactly `C(n, k)` combinations of `k` cards out of `n`.
pub proof fn lemma_combos_len(s: Seq<Card>, k: nat)
    ensures
        combos_of(s, k).len() == choose_count(s.len(), k),
    decreases s.len(),
{
    if k == 0 {
    } else if s.len() < k {
        lemma_choose_count_zero(s.len(), k);
    } else {
        lemma_combos_len(s.drop_first(), (k - 1) as nat);
        lemma_combos_len(s.drop_first(), k);
    }
}

/// Law: every combination has exactly `k` cards, drawn from the source
/// without repetition when the source itself has none.
pub proof fn lemma_combos_items(s: Seq<Card>, k: nat)
    ensures
        forall|i: int|
            0 <= i < combos_of(s, k).len() ==> (#[trigger] combos_of(s, k)[i]).len() == k,
        forall|i: int, j: int|
            0 <= i < combos_of(s, k).len() && 0 <= j < k ==> s.contains(
                #[trigger] combos_of(s, k)[i][j],
            ),
        s.no_duplicates() ==> forall|i: int|
            0 <= i < combos_of(s, k).len() ==> (#[trigger] combos_of(s, k)[i]).no_duplicates(),
    decreases s.len(),
{
    if k == 0 {
    } else if s.len() < k {
    } else {
        let rest = s.drop_first();
        lemma_combos_items(rest, (k - 1) as nat);
        lemma_combos_items(rest, k);
        let firsts = combos_of(rest, (k - 1) as nat).map_values(|c: Seq<Card>| seq![s[0]] + c);
        let all = combos_of(s, k);
        assert(all == firsts + combos_of(rest, k));
        assert(forall|x: Card| rest.contains(x) ==> s.contains(x)) by {
            assert forall|x: Card| rest.contains(x) implies s.contains(x) by {
                let j = choose|j: int| 0 <= j < rest.len() && rest[j] == x;
                assert(s[j + 1] == x);
            }
        }
        assert forall|i: int| 0 <= i < all.len() implies (#[trigger] all[i]).len() == k by {
            if i < firsts.len() {
                assert(all[i] == seq![s[0]] + combos_of(rest, (k - 1) as nat)[i]);
            } else {
                assert(all[i] == combos_of(rest, k)[i - firsts.len()]);
            }
        }
        assert forall|i: int, j: int|
            0 <= i < all.len() && 0 <= j < k implies s.contains(#[trigger] all[i][j]) by {
            if i < firsts.len() {
                let c = combos_of(rest, (k - 1) as nat)[i];
                assert(all[i] == seq![s[0]] + c);
                if j == 0 {
                    assert(all[i][0] == s[0]);
                    assert(s.contains(s[0]));
                } else {
                    assert(all[i][j] == c[j - 1]);
                    assert(rest.contains(c[j - 1]));
                }
            } else {
                let c = combos_of(rest, k)[i - firsts.len()];
                assert(all[i] == c);
                assert(rest.contains(c[j]));
            }
        }
        if s.no_duplicates() {
            assert(rest.no_duplicates()) by {
                assert(forall|a: int, b: int|
                    0 <= a < b < rest.len() ==> rest[a] == s[a + 1] && rest[b] == s[b + 1]);
            }
            assert forall|i: int| 0 <= i < all.len() implies (
            #[trigger] all[i]).no_duplicates() by {
                if i < firsts.len() {
                    let c = combos_of(rest, (k - 1) as nat)[i];
                    assert(all[i] == seq![s[0]] + c);
                    assert(!rest.contains(s[0])) by {
                        assert(forall|a: int| 0 <= a < rest.len() ==> rest[a] == s[a + 1]);
                    }
                    assert forall|a: int, b: int|
                        0 <= a < b < all[i].len() implies all[i][a] != all[i][b] by {
                        if a == 0 {
                            assert(all[i][b] == c[b - 1]);
                            assert(rest.contains(c[b - 1]));
                        } else {
                            assert(all[i][a] == c[a - 1] && all[i][b] == c[b - 1]);
                        }
                    }
                } else {
                    assert(all[i] == combos_of(rest, k)[i - firsts.len()]);
                }
            }
        }
    }
}

/// Relies on itertools' `Itertools::combinations`: it yields every
/// `k`-element combination of the input exactly once, as the input's
/// elements cloned, in lexicographic order by input position.
#[verifier::external_body]
pub(crate) fn combinations_of(cards: &Vec<Card>, k: usize) -> (r: Vec<Vec<Card>>)
    ensures
        r@.len() == combos_of(cards@, k as nat).len(),
        forall|i: int| 0 <= i < r@.len() ==> (#[trigger] r@[i])@ == combos_of(cards@, k as nat)[i],
{
    cards.iter().cloned().combinations(k).collect()
}


proof fn lemma_choose_count_one(n: nat)
    ensures
        choose_count(n, 1) == n,
    decreases n,
{
    if n > 0 {
        lemma_choose_count_one((n - 1) as nat);
        assert(choose_count((n - 1) as nat, 0) == 1);
        assert(choose_count(n, 1) == choose_count((n - 1) as nat, 0) + choose_count(
            (n - 1) as nat,
            1,
        ));
    }
}

proof fn lemma_choose_count_two(n: nat)
    ensures
        2 * choose_count(n, 2) == n * (n - 1),
    decreases n,
{
    if n > 0 {
        let m: nat = (n - 1) as nat;
        lemma_choose_count_two(m);
        lemma_choose_count_one(m);
        assert(choose_count(n, 2) == choose_count(m, 1) + choose_count(m, 2));
        assert(2 * choose_count(n, 2) == 2 * m + m * (m - 1));
        assert(2 * m + m * (m - 1) == n * (n - 1)) by (nonlinear_arith)
            requires
                m == n - 1,
        ;
    } else {
        assert(choose_count(n, 2) == 0);
    }
}

proof fn lemma_choose_count_three(n: nat)
    ensures
        6 * choose_count(n, 3) == n * (n - 1) * (n - 2),
    decreases n,
{
    if n > 0 {
        let m: nat = (n - 1) as nat;
        lemma_choose_count_three(m);
        lemma_choose_count_two(m);
        assert(choose_count(n, 3) == choose_count(m, 2) + choose_count(m, 3));
        assert(6 * choose_count(n, 3) == 3 * (2 * choose_count(m, 2)) + 6 * choose_count(m, 3));
        assert(6 * choose_count(n, 3) == 3 * (m * (m - 1)) + m * (m - 1) * (m - 2));
        assert(3 * (m * (m - 1)) + m * (m - 1) * (m - 2) == n * (n - 1) * (n - 2))
            by (nonlinear_arith)
            requires
                m == n - 1,
        ;
    } else {
        assert(choose_count(n, 3) == 0);
    }
}

/// Law: there are 15 ways to discard two cards out of six.
pub proof fn lemma_choose_6_2()
    ensures
        choose_count(6, 2) == 15,
{
    lemma_choose_count_two(6);
}

/// Law: there are 15,180 ways to draw three cards out of forty-six.
pub proof fn lemma_choose_46_3()
    ensures
        choose_count(46, 3) == 15180,
{
    lemma_choose_count_three(46);
}

} // verus!
