//! Score histograms and the summary statistics drawn from them.
use vstd::prelude::*;

verus! {

/// The lowest score a histogram covers: a scoreless hand against a
/// 29-point opposing crib.
pub const MIN_SCORE: i32 = -29;

/// The highest score a histogram covers: a 29-point hand plus a 24-point
/// own crib.
pub const MAX_SCORE: i32 = 29 + 24;

/// The number of histogram buckets.
pub const NUM_SCORES: usize = 83;

/// A histogram of scores: bucket `i` counts occurrences of score
/// `MIN_SCORE + i`.
pub struct Tally {
    pub scores: Vec<i32>,
}

impl View for Tally {
    type V = Seq<int>;

    open spec fn view(&self) -> Seq<int> {
        self.scores@.map_values(|c: i32| c as int)
    }
}

impl Tally {
    /// A histogram is well formed when it has one bucket per score and no
    /// negative count.
    pub open spec fn wf(&self) -> bool {
        &&& self@.len() == NUM_SCORES
        &&& forall|i: int| 0 <= i < self@.len() ==> 0 <= #[trigger] self@[i]
    }

    /// An empty histogram.
    pub fn new() -> (t: Tally)
        ensures
            t.wf(),
            t@ =~= Seq::new(NUM_SCORES as nat, |i: int| 0int),
    {
        let mut scores: Vec<i32> = Vec::new();
        let mut i: usize = 0;
        while i < NUM_SCORES
            invariant
                i <= NUM_SCORES,
                scores@.len() == i,
                forall|j: int| 0 <= j < i ==> scores@[j] == 0i32,
            decreases NUM_SCORES - i,
        {
            scores.push(0);
            i += 1;
        }
        let t = Tally { scores };
        proof {
            assert(t@ =~= Seq::new(NUM_SCORES as nat, |j: int| 0int));
        }
        t
    }

    /// Counts one more occurrence of the given score.
    pub fn increment(&mut self, score: i32)
        requires
            old(self).wf(),
            MIN_SCORE <= score <= MAX_SCORE,
            old(self)@[score - MIN_SCORE] < i32::MAX,
        ensures
            final(self).wf(),
            final(self)@ =~= old(self)@.update(score - MIN_SCORE, old(self)@[score - MIN_SCORE] + 1),
    {
        let i: usize = (score - MIN_SCORE) as usize;
        let c = self.scores[i];
        proof {
            assert(self@[i as int] == self.scores@[i as int] as int);
        }
        self.scores.set(i, c + 1);
        proof {
            assert(self@ =~= old(self)@.update(i as int, old(self)@[i as int] + 1));
        }
    }
}

/// The sum of the scores a histogram records: each bucket's score, weighted
/// by its count.  `base` is the score of bucket 0.
pub open spec fn weighted_sum(t: Seq<int>, base: int) -> int
    decreases t.len(),
{
    if t.len() == 0 {
        0
    } else {
        weighted_sum(t.drop_last(), base) + (base + t.len() - 1) * t.last()
    }
}

/// The sum of the squared scores a histogram records.
pub open spec fn weighted_square_sum(t: Seq<int>, base: int) -> int
    decreases t.len(),
{
    if t.len() == 0 {
        0
    } else {
        weighted_square_sum(t.drop_last(), base) + (base + t.len() - 1) * (base + t.len() - 1)
            * t.last()
    }
}

/// Whether any bucket is occupied.
pub open spec fn has_nonzero(t: Seq<int>) -> bool {
    exists|i: int| 0 <= i < t.len() && t[i] != 0
}

/// The exact summary of a score histogram: the observed extremes and the
/// integer aggregates from which mean and standard deviation follow.
///
/// For a histogram of `samples` scores, the mean is
/// `score_sum / samples` and the population variance is
/// `square_sum / samples - (score_sum / samples)^2`.
pub struct Statistics {
    pub min: i32,
    pub max: i32,
    pub score_sum: i64,
    pub square_sum: i64,
    pub samples: i32,
}

impl Statistics {
    /// What `make` promises of a summary of histogram `t` over `n` samples:
    /// exact aggregates, and extremes that bracket exactly the occupied
    /// buckets (both zero when the histogram is empty).
    pub open spec fn describes(self, t: Seq<int>, n: int) -> bool {
        &&& self.samples == n
        &&& self.score_sum == weighted_sum(t, MIN_SCORE as int)
        &&& self.square_sum == weighted_square_sum(t, MIN_SCORE as int)
        &&& has_nonzero(t) ==> {
            &&& 0 <= self.min - MIN_SCORE < t.len()
            &&& t[self.min - MIN_SCORE] != 0
            &&& forall|j: int| 0 <= j < self.min - MIN_SCORE ==> t[j] == 0
            &&& 0 <= self.max - MIN_SCORE < t.len()
            &&& t[self.max - MIN_SCORE] != 0
            &&& forall|j: int| self.max - MIN_SCORE < j < t.len() ==> t[j] == 0
        }
        &&& !has_nonzero(t) ==> self.min == 0 && self.max == 0
    }

    /// Reduces a histogram to its summary statistics.
    pub fn make(tally: Tally, num_hands: i32) -> (r: Statistics)
        requires
            tally.wf(),
        ensures
            r.describes(tally@, num_hands as int),
    {
        let mut min: i32 = 0;
        let mut max: i32 = 0;
        let mut found: bool = false;
        let mut i: usize = 0;
        while i < NUM_SCORES
            invariant
                tally.wf(),
                i <= NUM_SCORES,
                found == exists|j: int| 0 <= j < i && tally@[j] != 0,
                found ==> {
                    &&& 0 <= min - MIN_SCORE < i
                    &&& tally@[min - MIN_SCORE] != 0
                    &&& forall|j: int| 0 <= j < min - MIN_SCORE ==> tally@[j] == 0
                    &&& 0 <= max - MIN_SCORE < i
                    &&& tally@[max - MIN_SCORE] != 0
                    &&& forall|j: int| max - MIN_SCORE < j < i ==> tally@[j] == 0
                },
                !found ==> min == 0 && max == 0,
            decreases NUM_SCORES - i,
        {
            proof {
                assert(tally@[i as int] == tally.scores@[i as int] as int);
            }
            if tally.scores[i] != 0 {
                if !found {
                    min = i as i32 + MIN_SCORE;
                }
                max = i as i32 + MIN_SCORE;
                found = true;
            }
            i += 1;
        }

        let mut score_sum: i64 = 0;
        let mut square_sum: i64 = 0;
        let mut k: usize = 0;
        while k < NUM_SCORES
            invariant
                tally.wf(),
                k <= NUM_SCORES,
                score_sum == weighted_sum(tally@.take(k as int), MIN_SCORE as int),
                square_sum == weighted_square_sum(tally@.take(k as int), MIN_SCORE as int),
                -(k as int) * 113816633291i64 <= score_sum <= (k as int) * 113816633291i64,
                0 <= square_sum <= (k as int) * 6032281564423i64,
            decreases NUM_SCORES - k,
        {
            let score: i64 = (MIN_SCORE + k as i32) as i64;
            let count: i64 = tally.scores[k] as i64;
            proof {
                let t1 = tally@.take(k + 1);
                assert(t1.drop_last() =~= tally@.take(k as int));
                assert(t1.last() == tally@[k as int]);
                assert(tally@[k as int] == tally.scores@[k as int] as int);
                assert(-113816633291i64 <= score * count <= 113816633291i64) by (nonlinear_arith)
                    requires
                        -29 <= score <= 53,
                        0 <= count <= 2147483647i64,
                ;
                assert(0 <= score * score <= 2809) by (nonlinear_arith)
                    requires
                        -29 <= score <= 53,
                ;
                assert(0 <= (score * score) * count <= 6032281564423i64) by (nonlinear_arith)
                    requires
                        0 <= score * score <= 2809,
                        0 <= count <= 2147483647i64,
                ;
            }
            score_sum += score * count;
            let sq: i64 = score * score;
            square_sum += sq * count;
            k += 1;
        }
        proof {
            assert(tally@.take(NUM_SCORES as int) =~= tally@);
        }
        Statistics { min, max, score_sum, square_sum, samples: num_hands }
    }
}


/// The sum of a list of scores.
pub open spec fn sum_of(scores: Seq<int>) -> int
    decreases scores.len(),
{
    if scores.len() == 0 {
        0
    } else {
        sum_of(scores.drop_last()) + scores.last()
    }
}

/// The sum of the squares of a list of scores.
pub open spec fn square_sum_of(scores: Seq<int>) -> int
    decreases scores.len(),
{
    if scores.len() == 0 {
        0
    } else {
        square_sum_of(scores.drop_last()) + scores.last() * scores.last()
    }
}

/// The number of occurrences of a value in a list of scores.
pub open spec fn count_of(scores: Seq<int>, v: int) -> int
    decreases scores.len(),
{
    if scores.len() == 0 {
        0
    } else {
        count_of(scores.drop_last(), v) + if scores.last() == v {
            1int
        } else {
            0int
        }
    }
}

/// The histogram that records a list of scores, bucket by bucket.
pub open spec fn hist_of(scores: Seq<int>) -> Seq<int>
    decreases scores.len(),
{
    if scores.len() == 0 {
        Seq::new(NUM_SCORES as nat, |i: int| 0int)
    } else {
        let prev = hist_of(scores.drop_last());
        prev.update(scores.last() - MIN_SCORE, prev[scores.last() - MIN_SCORE] + 1)
    }
}

proof fn lemma_weighted_sum_update(t: Seq<int>, j: int, base: int)
    requires
        0 <= j < t.len(),
    ensures
        weighted_sum(t.update(j, t[j] + 1), base) == weighted_sum(t, base) + base + j,
    decreases t.len(),
{
    let t2 = t.update(j, t[j] + 1);
    if j == t.len() - 1 {
        assert(t2.drop_last() =~= t.drop_last());
        assert(t2.last() == t.last() + 1);
        assert((base + t.len() - 1) * (t.last() + 1) == (base + t.len() - 1) * t.last() + (base
            + t.len() - 1)) by (nonlinear_arith);
    } else {
        assert(t2.drop_last() =~= t.drop_last().update(j, t.drop_last()[j] + 1));
        assert(t2.last() == t.last());
        lemma_weighted_sum_update(t.drop_last(), j, base);
    }
}

proof fn lemma_weighted_square_sum_update(t: Seq<int>, j: int, base: int)
    requires
        0 <= j < t.len(),
    ensures
        weighted_square_sum(t.update(j, t[j] + 1), base) == weighted_square_sum(t, base) + (base
            + j) * (base + j),
    decreases t.len(),
{
    let t2 = t.update(j, t[j] + 1);
    if j == t.len() - 1 {
        assert(t2.drop_last() =~= t.drop_last());
        assert(t2.last() == t.last() + 1);
        assert((base + t.len() - 1) * (base + t.len() - 1) * (t.last() + 1) == (base + t.len() - 1)
            * (base + t.len() - 1) * t.last() + (base + t.len() - 1) * (base + t.len() - 1))
            by (nonlinear_arith);
    } else {
        assert(t2.drop_last() =~= t.drop_last().update(j, t.drop_last()[j] + 1));
        assert(t2.last() == t.last());
        lemma_weighted_square_sum_update(t.drop_last(), j, base);
    }
}

proof fn lemma_sums_zeros(n: nat, base: int)
    ensures
        weighted_sum(Seq::new(n, |i: int| 0int), base) == 0,
        weighted_square_sum(Seq::new(n, |i: int| 0int), base) == 0,
    decreases n,
{
    let t = Seq::new(n, |i: int| 0int);
    if n > 0 {
        assert(t.drop_last() =~= Seq::new((n - 1) as nat, |i: int| 0int));
        assert(t.last() == 0);
        lemma_sums_zeros((n - 1) as nat, base);
    }
}

/// Law: every value occurs at most as often as the list is long.
pub proof fn lemma_count_of_bound(scores: Seq<int>, v: int)
    ensures
        0 <= count_of(scores, v) <= scores.len(),
    decreases scores.len(),
{
    if scores.len() > 0 {
        lemma_count_of_bound(scores.drop_last(), v);
    }
}

/// Law: the histogram of a list of in-range scores records the list
/// exactly.  Each bucket holds the number of occurrences of its score, and
/// the weighted sums over the buckets equal the sums computed directly from
/// the list, so the mean and the population standard deviation derived from
/// the histogram agree with those of the raw scores.
pub proof fn lemma_hist_of_sums(scores: Seq<int>)
    requires
        forall|i: int| 0 <= i < scores.len() ==> MIN_SCORE <= #[trigger] scores[i] <= MAX_SCORE,
    ensures
        hist_of(scores).len() == NUM_SCORES,
        weighted_sum(hist_of(scores), MIN_SCORE as int) == sum_of(scores),
        weighted_square_sum(hist_of(scores), MIN_SCORE as int) == square_sum_of(scores),
        forall|b: int|
            0 <= b < NUM_SCORES ==> #[trigger] hist_of(scores)[b] == count_of(
                scores,
                MIN_SCORE + b,
            ),
    decreases scores.len(),
{
    if scores.len() == 0 {
        lemma_sums_zeros(NUM_SCORES as nat, MIN_SCORE as int);
    } else {
        let rest = scores.drop_last();
        assert(forall|i: int| 0 <= i < rest.len() ==> #[trigger] rest[i] == scores[i]);
        lemma_hist_of_sums(rest);
        let prev = hist_of(rest);
        let v = scores.last();
        assert(MIN_SCORE <= v <= MAX_SCORE);
        let j = v - MIN_SCORE;
        lemma_weighted_sum_update(prev, j, MIN_SCORE as int);
        lemma_weighted_square_sum_update(prev, j, MIN_SCORE as int);
        assert forall|b: int| 0 <= b < NUM_SCORES implies #[trigger] hist_of(scores)[b]
            == count_of(scores, MIN_SCORE + b) by {
            if b == j {
                assert(hist_of(scores)[b] == prev[b] + 1);
            } else {
                assert(hist_of(scores)[b] == prev[b]);
            }
        }
    }
}

} // verus!
