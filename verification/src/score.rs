//! The scoring engine: fifteens, pairs, runs, flush and nobs, combined
//! additively into a single hand score.
//!
//! Positional convention: the fifth card of a five-card hand is the cut
//! card; flush and nobs depend on it.
use vstd::prelude::*;
use vstd::relations::{sorted_by, total_ordering};
use vstd::seq_lib::lemma_sorted_unique;
use crate::cards::{card_value, rank_order, Card, Hand, Rank};

verus! {

/// 1 when a subset summing to `sum` scores a fifteen, else 0.
pub open spec fn hit(sum: int, picked: nat) -> int {
    if sum == 15 && picked >= 2 {
        1
    } else {
        0
    }
}

/// Counts the ways to finish picking a fifteen: each remaining value may be
/// taken or left, starting from a partial sum over `picked` cards already taken.
pub open spec fn fifteens_from(vals: Seq<int>, sum: int, picked: nat) -> int
    decreases vals.len(),
{
    if vals.len() == 0 {
        hit(sum, picked)
    } else {
        fifteens_from(vals.drop_first(), sum + vals[0], picked + 1) + fifteens_from(
            vals.drop_first(),
            sum,
            picked,
        )
    }
}

/// The number of subsets of two or more of the values that sum to fifteen.
pub open spec fn fifteen_count(vals: Seq<int>) -> int {
    fifteens_from(vals, 0, 0)
}

/// The point values of a hand's cards, in hand order.
pub open spec fn values_of(cards: Seq<Card>) -> Seq<int> {
    cards.map_values(|c: Card| card_value(c))
}

proof fn lemma_fifteens_1(v1: int, sum: int, picked: nat)
    ensures
        fifteens_from(seq![v1], sum, picked) == hit(sum + v1, picked + 1) + hit(sum, picked),
{
    reveal_with_fuel(fifteens_from, 2);
    assert(seq![v1].drop_first() =~= Seq::<int>::empty());
}

proof fn lemma_fifteens_2(v1: int, v2: int, sum: int, picked: nat)
    ensures
        fifteens_from(seq![v1, v2], sum, picked) == hit(sum + v1 + v2, picked + 2) + hit(
            sum + v1,
            picked + 1,
        ) + hit(sum + v2, picked + 1) + hit(sum, picked),
{
    assert(seq![v1, v2].drop_first() =~= seq![v2]);
    lemma_fifteens_1(v2, sum + v1, picked + 1);
    lemma_fifteens_1(v2, sum, picked);
}

proof fn lemma_fifteens_3(v1: int, v2: int, v3: int, sum: int, picked: nat)
    ensures
        fifteens_from(seq![v1, v2, v3], sum, picked) == hit(sum + v1 + v2 + v3, picked + 3) + hit(
            sum + v1 + v2,
            picked + 2,
        ) + hit(sum + v1 + v3, picked + 2) + hit(sum + v2 + v3, picked + 2) + hit(
            sum + v1,
            picked + 1,
        ) + hit(sum + v2, picked + 1) + hit(sum + v3, picked + 1) + hit(sum, picked),
{
    assert(seq![v1, v2, v3].drop_first() =~= seq![v2, v3]);
    lemma_fifteens_2(v2, v3, sum + v1, picked + 1);
    lemma_fifteens_2(v2, v3, sum, picked);
}

proof fn lemma_fifteens_4(v1: int, v2: int, v3: int, v4: int, sum: int, picked: nat)
    ensures
        fifteens_from(seq![v1, v2, v3, v4], sum, picked) == hit(
            sum + v1 + v2 + v3 + v4,
            picked + 4,
        ) + hit(sum + v1 + v2 + v3, picked + 3) + hit(sum + v1 + v2 + v4, picked + 3) + hit(
            sum + v1 + v3 + v4,
            picked + 3,
        ) + hit(sum + v2 + v3 + v4, picked + 3) + hit(sum + v1 + v2, picked + 2) + hit(
            sum + v1 + v3,
            picked + 2,
        ) + hit(sum + v1 + v4, picked + 2) + hit(sum + v2 + v3, picked + 2) + hit(
            sum + v2 + v4,
            picked + 2,
        ) + hit(sum + v3 + v4, picked + 2) + hit(sum + v1, picked + 1) + hit(sum + v2, picked + 1)
            + hit(sum + v3, picked + 1) + hit(sum + v4, picked + 1) + hit(sum, picked),
{
    assert(seq![v1, v2, v3, v4].drop_first() =~= seq![v2, v3, v4]);
    lemma_fifteens_3(v2, v3, v4, sum + v1, picked + 1);
    lemma_fifteens_3(v2, v3, v4, sum, picked);
}

/// 1 when the values of a candidate subset sum to fifteen, else 0.
pub open spec fn ind(sum: int) -> int {
    if sum == 15 {
        1
    } else {
        0
    }
}

/// Drops the subsets too small to score: a fifteen needs at least two cards.
#[verifier::rlimit(100)]
proof fn lemma_hit_ind(a: int, b: int, c: int, d: int, e: int)
    ensures
        hit(a + b + c + d + e, 5) + hit(a + b + c + d, 4) + hit(a + b + c + e, 4) + hit(
            a + b + d + e,
            4,
        ) + hit(a + c + d + e, 4) + hit(a + b + c, 3) + hit(a + b + d, 3) + hit(a + b + e, 3) + hit(
            a + c + d,
            3,
        ) + hit(a + c + e, 3) + hit(a + d + e, 3) + hit(a + b, 2) + hit(a + c, 2) + hit(a + d, 2)
            + hit(a + e, 2) + hit(a, 1) + hit(b + c + d + e, 4) + hit(b + c + d, 3) + hit(
            b + c + e,
            3,
        ) + hit(b + d + e, 3) + hit(c + d + e, 3) + hit(b + c, 2) + hit(b + d, 2) + hit(b + e, 2)
            + hit(c + d, 2) + hit(c + e, 2) + hit(d + e, 2) + hit(b, 1) + hit(c, 1) + hit(d, 1)
            + hit(e, 1) + hit(0, 0) == ind(a + b) + ind(a + c) + ind(a + d) + ind(a + e) + ind(
            b + c,
        ) + ind(b + d) + ind(b + e) + ind(c + d) + ind(c + e) + ind(d + e) + ind(a + b + c) + ind(
            a + b + d,
        ) + ind(a + b + e) + ind(a + c + d) + ind(a + c + e) + ind(a + d + e) + ind(b + c + d)
            + ind(b + c + e) + ind(b + d + e) + ind(c + d + e) + ind(a + b + c + d) + ind(
            a + b + c + e,
        ) + ind(a + b + d + e) + ind(a + c + d + e) + ind(b + c + d + e) + ind(a + b + c + d + e),
{
    assert(hit(a + b, 2) == ind(a + b));
    assert(hit(a + c, 2) == ind(a + c));
    assert(hit(a + d, 2) == ind(a + d));
    assert(hit(a + e, 2) == ind(a + e));
    assert(hit(b + c, 2) == ind(b + c));
    assert(hit(b + d, 2) == ind(b + d));
    assert(hit(b + e, 2) == ind(b + e));
    assert(hit(c + d, 2) == ind(c + d));
    assert(hit(c + e, 2) == ind(c + e));
    assert(hit(d + e, 2) == ind(d + e));
    assert(hit(a + b + c, 3) == ind(a + b + c));
    assert(hit(a + b + d, 3) == ind(a + b + d));
    assert(hit(a + b + e, 3) == ind(a + b + e));
    assert(hit(a + c + d, 3) == ind(a + c + d));
    assert(hit(a + c + e, 3) == ind(a + c + e));
    assert(hit(a + d + e, 3) == ind(a + d + e));
    assert(hit(b + c + d, 3) == ind(b + c + d));
    assert(hit(b + c + e, 3) == ind(b + c + e));
    assert(hit(b + d + e, 3) == ind(b + d + e));
    assert(hit(c + d + e, 3) == ind(c + d + e));
    assert(hit(a + b + c + d, 4) == ind(a + b + c + d));
    assert(hit(a + b + c + e, 4) == ind(a + b + c + e));
    assert(hit(a + b + d + e, 4) == ind(a + b + d + e));
    assert(hit(a + c + d + e, 4) == ind(a + c + d + e));
    assert(hit(b + c + d + e, 4) == ind(b + c + d + e));
    assert(hit(a + b + c + d + e, 5) == ind(a + b + c + d + e));
    assert(hit(a, 1) == 0);
    assert(hit(b, 1) == 0);
    assert(hit(c, 1) == 0);
    assert(hit(d, 1) == 0);
    assert(hit(e, 1) == 0);
    assert(hit(0, 0) == 0);
}

/// Expands the fifteen count over five values into its 26 subset sums:
/// C(5,2)+C(5,3)+C(5,4)+C(5,5) = 10+10+5+1 candidate subsets.
#[verifier::rlimit(100)]
proof fn lemma_fifteens_5(a: int, b: int, c: int, d: int, e: int)
    ensures
        fifteen_count(seq![a, b, c, d, e]) == ind(a + b) + ind(a + c) + ind(a + d) + ind(a + e)
            + ind(b + c) + ind(b + d) + ind(b + e) + ind(c + d) + ind(c + e) + ind(d + e) + ind(
            a + b + c,
        ) + ind(a + b + d) + ind(a + b + e) + ind(a + c + d) + ind(a + c + e) + ind(a + d + e)
            + ind(b + c + d) + ind(b + c + e) + ind(b + d + e) + ind(c + d + e) + ind(a + b + c + d)
            + ind(a + b + c + e) + ind(a + b + d + e) + ind(a + c + d + e) + ind(b + c + d + e)
            + ind(a + b + c + d + e),
{
    assert(seq![a, b, c, d, e].drop_first() =~= seq![b, c, d, e]);
    assert(fifteen_count(seq![a, b, c, d, e]) == fifteens_from(seq![b, c, d, e], a, 1)
        + fifteens_from(seq![b, c, d, e], 0, 0));
    assert(fifteens_from(seq![b, c, d, e], a, 1) == hit(a + b + c + d + e, 5) + hit(
        a + b + c + d,
        4,
    ) + hit(a + b + c + e, 4) + hit(a + b + d + e, 4) + hit(a + c + d + e, 4) + hit(a + b + c, 3)
        + hit(a + b + d, 3) + hit(a + b + e, 3) + hit(a + c + d, 3) + hit(a + c + e, 3) + hit(
        a + d + e,
        3,
    ) + hit(a + b, 2) + hit(a + c, 2) + hit(a + d, 2) + hit(a + e, 2) + hit(a, 1)) by {
        lemma_fifteens_4(b, c, d, e, a, 1);
    }
    assert(fifteens_from(seq![b, c, d, e], 0, 0) == hit(b + c + d + e, 4) + hit(b + c + d, 3) + hit(
        b + c + e,
        3,
    ) + hit(b + d + e, 3) + hit(c + d + e, 3) + hit(b + c, 2) + hit(b + d, 2) + hit(b + e, 2) + hit(
        c + d,
        2,
    ) + hit(c + e, 2) + hit(d + e, 2) + hit(b, 1) + hit(c, 1) + hit(d, 1) + hit(e, 1) + hit(0, 0))
        by {
        lemma_fifteens_4(b, c, d, e, 0, 0);
    }
    lemma_hit_ind(a, b, c, d, e);
}

/// 1 when the given subset sum is exactly fifteen, else 0.
fn fifteen_ind(sum: i32) -> (r: i32)
    ensures
        r == ind(sum as int),
{
    if sum == 15 {
        1
    } else {
        0
    }
}

/// Counts the 26 candidate subsets of five values that sum to fifteen.
#[verifier::rlimit(100)]
fn count_fifteens(a: i32, b: i32, c: i32, d: i32, e: i32) -> (r: i32)
    requires
        1 <= a <= 10,
        1 <= b <= 10,
        1 <= c <= 10,
        1 <= d <= 10,
        1 <= e <= 10,
    ensures
        r == ind(a + b) + ind(a + c) + ind(a + d) + ind(a + e) + ind(b + c) + ind(b + d) + ind(
            b + e,
        ) + ind(c + d) + ind(c + e) + ind(d + e) + ind(a + b + c) + ind(a + b + d) + ind(a + b + e)
            + ind(a + c + d) + ind(a + c + e) + ind(a + d + e) + ind(b + c + d) + ind(b + c + e)
            + ind(b + d + e) + ind(c + d + e) + ind(a + b + c + d) + ind(a + b + c + e) + ind(
            a + b + d + e,
        ) + ind(a + c + d + e) + ind(b + c + d + e) + ind(a + b + c + d + e),
        0 <= r <= 26,
{
    let mut num_15s: i32 = 0;
    // five cards - C(5,5)=1
    num_15s += fifteen_ind(a + b + c + d + e);
    // four cards - C(5,4)=5
    num_15s += fifteen_ind(a + b + c + d);
    num_15s += fifteen_ind(a + b + c + e);
    num_15s += fifteen_ind(a + b + d + e);
    num_15s += fifteen_ind(a + c + d + e);
    num_15s += fifteen_ind(b + c + d + e);
    proof {
        assert(num_15s == ind(a + b + c + d + e) + ind(a + b + c + d) + ind(a + b + c + e) + ind(
            a + b + d + e,
        ) + ind(a + c + d + e) + ind(b + c + d + e));
    }
    // three cards - C(5,3)=10
    num_15s += fifteen_ind(a + b + c);
    num_15s += fifteen_ind(a + b + d);
    num_15s += fifteen_ind(a + b + e);
    num_15s += fifteen_ind(a + c + d);
    num_15s += fifteen_ind(a + c + e);
    num_15s += fifteen_ind(a + d + e);
    num_15s += fifteen_ind(b + c + d);
    num_15s += fifteen_ind(b + c + e);
    num_15s += fifteen_ind(b + d + e);
    num_15s += fifteen_ind(c + d + e);
    proof {
        assert(num_15s == ind(a + b + c + d + e) + ind(a + b + c + d) + ind(a + b + c + e) + ind(
            a + b + d + e,
        ) + ind(a + c + d + e) + ind(b + c + d + e) + ind(a + b + c) + ind(a + b + d) + ind(
            a + b + e,
        ) + ind(a + c + d) + ind(a + c + e) + ind(a + d + e) + ind(b + c + d) + ind(b + c + e)
            + ind(b + d + e) + ind(c + d + e));
    }
    // two cards - C(5,2)=10
    num_15s += fifteen_ind(a + b);
    num_15s += fifteen_ind(a + c);
    num_15s += fifteen_ind(a + d);
    num_15s += fifteen_ind(a + e);
    num_15s += fifteen_ind(b + c);
    num_15s += fifteen_ind(b + d);
    num_15s += fifteen_ind(b + e);
    num_15s += fifteen_ind(c + d);
    num_15s += fifteen_ind(c + e);
    num_15s += fifteen_ind(d + e);

    num_15s
}

/// Two points for every subset of the five cards whose values sum to fifteen.
pub fn score_fifteens(hand: &Hand) -> (r: i32)
    requires
        hand@.len() == 5,
    ensures
        r == 2 * fifteen_count(values_of(hand@)),
        0 <= r <= 52,
{
    let a = hand.value(0);
    let b = hand.value(1);
    let c = hand.value(2);
    let d = hand.value(3);
    let e = hand.value(4);
    let num_15s = count_fifteens(a, b, c, d, e);
    proof {
        assert(values_of(hand@) =~= seq![
            card_value(hand@[0]),
            card_value(hand@[1]),
            card_value(hand@[2]),
            card_value(hand@[3]),
            card_value(hand@[4]),
        ]);
        lemma_fifteens_5(
            card_value(hand@[0]),
            card_value(hand@[1]),
            card_value(hand@[2]),
            card_value(hand@[3]),
            card_value(hand@[4]),
        );
    }
    2 * num_15s
}

/// The number of cards of the given rank among the cards.
pub open spec fn rank_matches(cards: Seq<Card>, r: Rank) -> int
    decreases cards.len(),
{
    if cards.len() == 0 {
        0
    } else {
        rank_matches(cards.drop_last(), r) + if cards.last().rank == r {
            1int
        } else {
            0int
        }
    }
}

/// The number of unordered pairs of cards that share a rank.
pub open spec fn pair_count(cards: Seq<Card>) -> int
    decreases cards.len(),
{
    if cards.len() == 0 {
        0
    } else {
        pair_count(cards.drop_last()) + rank_matches(cards.drop_last(), cards.last().rank)
    }
}

proof fn lemma_rank_matches_bound(cards: Seq<Card>, r: Rank)
    ensures
        0 <= rank_matches(cards, r) <= cards.len(),
    decreases cards.len(),
{
    if cards.len() > 0 {
        lemma_rank_matches_bound(cards.drop_last(), r);
    }
}

proof fn lemma_pair_count_bound(cards: Seq<Card>)
    ensures
        0 <= pair_count(cards) <= cards.len() * cards.len(),
    decreases cards.len(),
{
    if cards.len() > 0 {
        lemma_pair_count_bound(cards.drop_last());
        lemma_rank_matches_bound(cards.drop_last(), cards.last().rank);
        assert((cards.len() - 1) * (cards.len() - 1) + (cards.len() - 1) <= cards.len()
            * cards.len()) by (nonlinear_arith);
    }
}

/// Two points for every unordered pair of cards sharing a rank.
pub fn score_pairs(hand: &Hand) -> (r: i32)
    requires
        hand@.len() == 5,
    ensures
        r == 2 * pair_count(hand@),
        0 <= r <= 50,
{
    let n = hand.num_cards();
    let mut num_pairs: i32 = 0;
    let mut j: usize = 0;
    while j < n
        invariant
            n == hand@.len() == 5,
            j <= n,
            num_pairs == pair_count(hand@.take(j as int)),
            0 <= num_pairs <= 25,
        decreases n - j,
    {
        let b = hand.cards[j];
        let mut matches: i32 = 0;
        let mut i: usize = 0;
        while i < j
            invariant
                n == hand@.len() == 5,
                i <= j < n,
                b == hand@[j as int],
                matches == rank_matches(hand@.take(i as int), b.rank),
                0 <= matches <= i,
            decreases j - i,
        {
            proof {
                assert(hand@.take(i + 1).drop_last() =~= hand@.take(i as int));
                assert(hand@.take(i + 1).last() == hand@[i as int]);
            }
            if hand.cards[i].rank == b.rank {
                matches += 1;
            }
            i += 1;
        }
        proof {
            assert(hand@.take(j + 1).drop_last() =~= hand@.take(j as int));
            assert(hand@.take(j + 1).last() == hand@[j as int]);
            lemma_pair_count_bound(hand@.take(j + 1));
            let jj: int = j + 1;
            assert(jj * jj <= 25) by (nonlinear_arith)
                requires
                    0 <= jj <= 5,
            ;
        }
        num_pairs += matches;
        j += 1;
    }
    proof {
        assert(hand@.take(n as int) =~= hand@);
        lemma_pair_count_bound(hand@);
    }
    2 * num_pairs
}


/// The comparison that orders rank ordinals ascending.
pub open spec fn le_ord() -> spec_fn(u8, u8) -> bool {
    |x: u8, y: u8| x <= y
}

/// The rank ordinals of a hand's cards, in hand order.
pub open spec fn orders_of(cards: Seq<Card>) -> Seq<u8> {
    cards.map_values(|c: Card| rank_order(c.rank) as u8)
}

/// The run score read off the four gaps between adjacent sorted ordinals.
///
/// The cases stand in descending score order and the first match wins, so
/// higher-value interpretations (longer runs, double and triple runs) take
/// priority and overlapping runs are never counted twice.  A gap that a case
/// does not mention is a wildcard.
pub open spec fn run_pattern_score(g1: int, g2: int, g3: int, g4: int) -> int {
    if g1 == 0 && g2 == 1 && g3 == 1 && g4 == 0 {
        12  // double pair in a run of three
    } else if g1 == 1 && g2 == 1 && g3 == 0 && g4 == 0 {
        9  // triple run of three
    } else if g1 == 1 && g2 == 0 && g3 == 0 && g4 == 1 {
        9
    } else if g1 == 0 && g2 == 0 && g3 == 1 && g4 == 1 {
        9
    } else if g1 == 1 && g2 == 1 && g3 == 1 && g4 == 0 {
        8  // double run of four
    } else if g1 == 1 && g2 == 1 && g3 == 0 && g4 == 1 {
        8
    } else if g1 == 1 && g2 == 0 && g3 == 1 && g4 == 1 {
        8
    } else if g1 == 0 && g2 == 1 && g3 == 1 && g4 == 1 {
        8
    } else if g2 == 1 && g3 == 1 && g4 == 0 {
        6  // double run of three
    } else if g2 == 1 && g3 == 0 && g4 == 1 {
        6
    } else if g2 == 0 && g3 == 1 && g4 == 1 {
        6
    } else if g1 == 1 && g2 == 1 && g3 == 0 {
        6
    } else if g1 == 1 && g2 == 0 && g3 == 1 {
        6
    } else if g1 == 0 && g2 == 1 && g3 == 1 {
        6
    } else if g1 == 1 && g2 == 1 && g3 == 1 && g4 == 1 {
        5  // run of five
    } else if g2 == 1 && g3 == 1 && g4 == 1 {
        4  // run of four
    } else if g1 == 1 && g2 == 1 && g3 == 1 {
        4
    } else if g3 == 1 && g4 == 1 {
        3  // run of three
    } else if g2 == 1 && g3 == 1 {
        3
    } else if g1 == 1 && g2 == 1 {
        3
    } else {
        0
    }
}

/// The run score of a five-card hand: sort the ordinals ascending and read
/// the scoring case off the four adjacent gaps.
pub open spec fn runs_score(cards: Seq<Card>) -> int {
    let s = orders_of(cards).sort_by(le_ord());
    run_pattern_score(s[1] - s[0], s[2] - s[1], s[3] - s[2], s[4] - s[3])
}

proof fn lemma_insert_multiset(s: Seq<u8>, i: int, x: u8)
    requires
        0 <= i <= s.len(),
    ensures
        s.insert(i, x).to_multiset() == s.to_multiset().insert(x),
{
    broadcast use vstd::seq_lib::group_to_multiset_ensures;
    broadcast use vstd::multiset::group_multiset_axioms;

    let t = s.insert(i, x);
    s.insert_ensures(i, x);
    assert(t.remove(i) =~= s);
    assert(t.remove(i).to_multiset() =~= t.to_multiset().remove(t[i]));
    assert(t.contains(x)) by {
        assert(t[i] == x);
    }
    assert(t.to_multiset().count(x) > 0);
    assert(t.to_multiset() =~= t.to_multiset().remove(x).insert(x));
}

/// Sorts rank ordinals ascending by insertion into a fresh vector.
fn sort_orders(v: &Vec<u8>) -> (r: Vec<u8>)
    ensures
        r@ == v@.sort_by(le_ord()),
{
    broadcast use vstd::seq_lib::group_to_multiset_ensures;

    let ghost leq = le_ord();
    proof {
        assert(total_ordering(leq));
    }
    let n = v.len();
    let mut out: Vec<u8> = Vec::new();
    let mut i: usize = 0;
    while i < n
        invariant
            n == v@.len(),
            i <= n,
            sorted_by(out@, le_ord()),
            out@.to_multiset() == v@.take(i as int).to_multiset(),
            out@.len() == i,
        decreases n - i,
    {
        let x = v[i];
        let m = out.len();
        let mut p: usize = 0;
        while p < m && out[p] <= x
            invariant
                m == out@.len(),
                p <= m,
                forall|q: int| 0 <= q < p ==> out@[q] <= x,
            decreases m - p,
        {
            p += 1;
        }
        proof {
            lemma_insert_multiset(out@, p as int, x);
            assert(v@.take(i + 1) =~= v@.take(i as int).push(v@[i as int]));
            let newseq = out@.insert(p as int, x);
            out@.insert_ensures(p as int, x);
            assert forall|a: int, b: int| 0 <= a < b < newseq.len() implies le_ord()(
                newseq[a],
                newseq[b],
            ) by {
                assert(sorted_by(out@, le_ord()));
                if a < p && b < p {
                    assert(le_ord()(out@[a], out@[b]));
                } else if b == p {
                    assert(newseq[a] == out@[a] && out@[a] <= x);
                } else if a == p {
                    assert(b <= out@.len());
                    assert(p < m);
                    assert(out@[p as int] > x);
                    assert(p <= b - 1 < out@.len());
                    if p < b - 1 {
                        assert(le_ord()(out@[p as int], out@[b - 1]));
                    }
                    assert(newseq[b] == out@[b - 1]);
                } else if a < p {
                    assert(newseq[a] == out@[a] && newseq[b] == out@[b - 1] && le_ord()(
                        out@[a],
                        out@[b - 1],
                    ));
                } else {
                    assert(newseq[a] == out@[a - 1] && newseq[b] == out@[b - 1] && le_ord()(
                        out@[a - 1],
                        out@[b - 1],
                    ));
                }
            }
        }
        let ghost pre = out@;
        out.insert(p, x);
        proof {
            assert(out@ == pre.insert(p as int, x));
            assert(out@.to_multiset() == pre.to_multiset().insert(x));
            assert(v@.take(i + 1).to_multiset() == v@.take(i as int).to_multiset().insert(
                v@[i as int],
            )) by {
                assert(v@.take(i + 1) =~= v@.take(i as int).push(v@[i as int]));
                vstd::seq_lib::to_multiset_build(v@.take(i as int), v@[i as int]);
            }
        }
        i += 1;
    }
    proof {
        assert(v@.take(n as int) =~= v@);
        v@.lemma_sort_by_ensures(leq);
        lemma_sorted_unique(out@, v@.sort_by(leq), leq);
    }
    out
}


/// The run score of a five-card hand, by priority-ordered gap matching.
pub fn score_runs(hand: &Hand) -> (r: i32)
    requires
        hand@.len() == 5,
    ensures
        r == runs_score(hand@),
        0 <= r <= 12,
{
    broadcast use vstd::seq_lib::group_to_multiset_ensures;

    let mut orders: Vec<u8> = Vec::new();
    let mut i: usize = 0;
    while i < 5
        invariant
            hand@.len() == 5,
            i <= 5,
            orders@ == orders_of(hand@.take(i as int)),
        decreases 5 - i,
    {
        proof {
            assert(orders_of(hand@.take(i + 1)) =~= orders_of(hand@.take(i as int)).push(
                rank_order(hand@[i as int].rank) as u8,
            ));
        }
        orders.push(hand.cards[i].rank.order());
        i += 1;
    }
    proof {
        assert(hand@.take(5) =~= hand@);
    }
    let sorted = sort_orders(&orders);
    proof {
        orders_of(hand@).lemma_sort_by_ensures(le_ord());
        assert(orders_of(hand@).len() == 5);
        assert(sorted@.to_multiset() == orders_of(hand@).to_multiset());
        assert(sorted@.to_multiset().len() == sorted@.len());
        assert(orders_of(hand@).to_multiset().len() == orders_of(hand@).len());
        assert(sorted@.len() == 5);
    }
    let g1 = sorted[1] as i32 - sorted[0] as i32;
    let g2 = sorted[2] as i32 - sorted[1] as i32;
    let g3 = sorted[3] as i32 - sorted[2] as i32;
    let g4 = sorted[4] as i32 - sorted[3] as i32;
    if g1 == 0 && g2 == 1 && g3 == 1 && g4 == 0 {
        12
    } else if g1 == 1 && g2 == 1 && g3 == 0 && g4 == 0 {
        9
    } else if g1 == 1 && g2 == 0 && g3 == 0 && g4 == 1 {
        9
    } else if g1 == 0 && g2 == 0 && g3 == 1 && g4 == 1 {
        9
    } else if g1 == 1 && g2 == 1 && g3 == 1 && g4 == 0 {
        8
    } else if g1 == 1 && g2 == 1 && g3 == 0 && g4 == 1 {
        8
    } else if g1 == 1 && g2 == 0 && g3 == 1 && g4 == 1 {
        8
    } else if g1 == 0 && g2 == 1 && g3 == 1 && g4 == 1 {
        8
    } else if g2 == 1 && g3 == 1 && g4 == 0 {
        6
    } else if g2 == 1 && g3 == 0 && g4 == 1 {
        6
    } else if g2 == 0 && g3 == 1 && g4 == 1 {
        6
    } else if g1 == 1 && g2 == 1 && g3 == 0 {
        6
    } else if g1 == 1 && g2 == 0 && g3 == 1 {
        6
    } else if g1 == 0 && g2 == 1 && g3 == 1 {
        6
    } else if g1 == 1 && g2 == 1 && g3 == 1 && g4 == 1 {
        5
    } else if g2 == 1 && g3 == 1 && g4 == 1 {
        4
    } else if g1 == 1 && g2 == 1 && g3 == 1 {
        4
    } else if g3 == 1 && g4 == 1 {
        3
    } else if g2 == 1 && g3 == 1 {
        3
    } else if g1 == 1 && g2 == 1 {
        3
    } else {
        0
    }
}

/// Whether the first four cards share a suit, and how the cut card and the
/// crib rule weigh in: five matching suits score 5, four score 4 except in
/// the crib, anything else scores 0.
pub open spec fn flush_score(cards: Seq<Card>, is_crib: bool) -> int {
    if cards[0].suit == cards[1].suit && cards[0].suit == cards[2].suit && cards[0].suit
        == cards[3].suit {
        if cards[0].suit == cards[4].suit {
            5
        } else if is_crib {
            0
        } else {
            4
        }
    } else {
        0
    }
}

/// The flush score; the fifth card is the cut.
pub fn score_flush(hand: &Hand, is_crib: bool) -> (r: i32)
    requires
        hand@.len() == 5,
    ensures
        r == flush_score(hand@, is_crib),
        0 <= r <= 5,
{
    let suit = hand.cards[0].suit;
    if suit != hand.cards[1].suit || suit != hand.cards[2].suit || suit != hand.cards[3].suit {
        return 0;
    }
    // First 4 are the same suit, check the cut card
    if suit == hand.cards[4].suit {
        return 5;
    }
    // In the crib, a flush counts only if all five cards are the same suit
    if is_crib {
        return 0;
    }
    4
}

/// One point for holding the Jack of the same suit as the cut card.
pub open spec fn nobs_score(cards: Seq<Card>) -> int {
    if exists|i: int|
        0 <= i < 4 && cards[i].rank == Rank::Jack && cards[i].suit == cards[4].suit {
        1
    } else {
        0
    }
}

/// The nobs score; the fifth card is the cut.
pub fn score_nobs(hand: &Hand) -> (r: i32)
    requires
        hand@.len() == 5,
    ensures
        r == nobs_score(hand@),
        0 <= r <= 1,
{
    let cut_suit = hand.cards[4].suit;
    let mut i: usize = 0;
    while i < 4
        invariant
            hand@.len() == 5,
            i <= 4,
            cut_suit == hand@[4].suit,
            forall|j: int|
                0 <= j < i ==> !(hand@[j].rank == Rank::Jack && hand@[j].suit == hand@[4].suit),
        decreases 4 - i,
    {
        if hand.cards[i].rank == Rank::Jack && hand.cards[i].suit == cut_suit {
            proof {
                assert(hand@[i as int].rank == Rank::Jack && hand@[i as int].suit == hand@[4].suit);
            }
            return 1;
        }
        i += 1;
    }
    0
}

/// The full score of a five-card hand: the sum of the five contributions.
pub open spec fn hand_score(cards: Seq<Card>, is_crib: bool) -> int {
    2 * fifteen_count(values_of(cards)) + 2 * pair_count(cards) + runs_score(cards) + flush_score(
        cards,
        is_crib,
    ) + nobs_score(cards)
}

/// Scores a five-card hand; the fifth card must be the cut card.
pub fn score_hand(hand: &Hand, is_crib: bool) -> (r: i32)
    requires
        hand@.len() == 5,
    ensures
        r == hand_score(hand@, is_crib),
        0 <= r <= 120,
{
    score_fifteens(hand) + score_pairs(hand) + score_runs(hand) + score_flush(hand, is_crib)
        + score_nobs(hand)
}

proof fn lemma_fifteens_from_nonneg(vals: Seq<int>, sum: int, picked: nat)
    ensures
        fifteens_from(vals, sum, picked) >= 0,
    decreases vals.len(),
{
    if vals.len() > 0 {
        lemma_fifteens_from_nonneg(vals.drop_first(), sum + vals[0], picked + 1);
        lemma_fifteens_from_nonneg(vals.drop_first(), sum, picked);
    }
}

/// Law: every five-card hand scores at least zero points, and the sum of the
/// five contributions never exceeds the coarse bound that their individual
/// maxima allow.
pub proof fn lemma_hand_score_bounds(cards: Seq<Card>, is_crib: bool)
    requires
        cards.len() == 5,
    ensures
        0 <= hand_score(cards, is_crib) <= 120,
{
    lemma_fifteens_from_nonneg(values_of(cards), 0, 0);
    lemma_pair_count_bound(cards);
    lemma_fifteens_5(
        values_of(cards)[0],
        values_of(cards)[1],
        values_of(cards)[2],
        values_of(cards)[3],
        values_of(cards)[4],
    );
    assert(values_of(cards) =~= seq![
        values_of(cards)[0],
        values_of(cards)[1],
        values_of(cards)[2],
        values_of(cards)[3],
        values_of(cards)[4],
    ]);
}

} // verus!
