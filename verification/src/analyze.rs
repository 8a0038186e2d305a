//! Exhaustive discard analysis: every two-card discard of a six-card hand,
//! scored over every three-card draw from the residual deck.
use vstd::prelude::*;
use crate::cards::{Card, Hand};
use crate::combos::{
    combinations_of, combos_of, lemma_choose_46_3, lemma_choose_6_2, lemma_combos_items,
    lemma_combos_len,
};
use crate::deck::{deck_of, lemma_deck_len, lemma_filter_agree, lemma_filter_excl_len, make_deck};
use crate::score::{hand_score, score_hand};
use crate::tally::{
    count_of, hist_of, lemma_count_of_bound, lemma_hist_of_sums, Statistics, Tally, MAX_SCORE,
    MIN_SCORE,
};

verus! {

/// The four cards kept after a discard: the hand with the discard left out.
pub open spec fn keep_of(hand: Seq<Card>, discard: Seq<Card>) -> Seq<Card> {
    hand.filter(|c: Card| !discard.contains(c))
}

/// The five-card hand held after a draw: the kept cards plus the cut card,
/// which is the last card of the draw, by enumeration position.
pub open spec fn hold_of(keep: Seq<Card>, draw: Seq<Card>) -> Seq<Card> {
    keep.push(draw[2])
}

/// The five-card crib: the discard, the two other drawn cards, the cut last.
pub open spec fn crib_of(discard: Seq<Card>, draw: Seq<Card>) -> Seq<Card> {
    discard + draw
}

/// The combined score of one draw when the crib is the player's own.
pub open spec fn mine_score_of(hand: Seq<Card>, discard: Seq<Card>, draw: Seq<Card>) -> int {
    hand_score(hold_of(keep_of(hand, discard), draw), false) + hand_score(
        crib_of(discard, draw),
        true,
    )
}

/// The net score of one draw when the crib belongs to the opponent.
pub open spec fn theirs_score_of(hand: Seq<Card>, discard: Seq<Card>, draw: Seq<Card>) -> int {
    hand_score(hold_of(keep_of(hand, discard), draw), false) - hand_score(
        crib_of(discard, draw),
        true,
    )
}

/// The own-crib scores of every draw, in draw order.
pub open spec fn mine_scores(hand: Seq<Card>, discard: Seq<Card>) -> Seq<int> {
    combos_of(deck_of(hand), 3).map_values(|d: Seq<Card>| mine_score_of(hand, discard, d))
}

/// The opposing-crib scores of every draw, in draw order.
pub open spec fn theirs_scores(hand: Seq<Card>, discard: Seq<Card>) -> Seq<int> {
    combos_of(deck_of(hand), 3).map_values(|d: Seq<Card>| theirs_score_of(hand, discard, d))
}

/// Whether every combined score of every discard and draw fits the
/// histogram's score range.
pub open spec fn all_scores_in_range(hand: Seq<Card>) -> bool {
    &&& forall|i: int, j: int|
        0 <= i < combos_of(hand, 2).len() && 0 <= j < combos_of(deck_of(hand), 3).len()
            ==> MIN_SCORE <= #[trigger] mine_scores(hand, combos_of(hand, 2)[i])[j] <= MAX_SCORE
    &&& forall|i: int, j: int|
        0 <= i < combos_of(hand, 2).len() && 0 <= j < combos_of(deck_of(hand), 3).len()
            ==> MIN_SCORE <= #[trigger] theirs_scores(hand, combos_of(hand, 2)[i])[j] <= MAX_SCORE
}

/// The outcome of one discard choice: the discarded pair and the score
/// distributions with the crib owned by the player and by the opponent.
pub struct DiscardAnalysis {
    pub discard: Hand,
    pub if_mine: Statistics,
    pub if_theirs: Statistics,
}

/// Law: a duplicate-free six-card hand has exactly 15 discard choices, and
/// each leaves a 46-card deck offering exactly 15,180 three-card draws.
pub proof fn lemma_enumeration_counts(hand: Seq<Card>)
    requires
        hand.len() == 6,
        hand.no_duplicates(),
    ensures
        combos_of(hand, 2).len() == 15,
        deck_of(hand).len() == 46,
        combos_of(deck_of(hand), 3).len() == 15180,
{
    lemma_deck_len(hand);
    lemma_combos_len(hand, 2);
    lemma_combos_len(deck_of(hand), 3);
    lemma_choose_6_2();
    lemma_choose_46_3();
}

/// Whether the cards hold the wanted card.
fn vec_has(v: &Vec<Card>, wanted: &Card) -> (r: bool)
    ensures
        r == v@.contains(*wanted),
{
    let n = v.len();
    let mut i: usize = 0;
    while i < n
        invariant
            n == v@.len(),
            i <= n,
            forall|j: int| 0 <= j < i ==> v@[j] != *wanted,
        decreases n - i,
    {
        if v[i] == *wanted {
            return true;
        }
        i += 1;
    }
    false
}

/// Evaluates every two-card discard of a six-card hand against every
/// three-card draw from the residual deck, tallying the scores with the
/// crib owned by either side.  Yields `None` only if some draw's combined
/// score were to fall outside the histogram range.
#[verifier::rlimit(100)]
pub fn analyze_hand(hand: &Hand) -> (r: Option<Vec<DiscardAnalysis>>)
    requires
        hand@.len() == 6,
        hand@.no_duplicates(),
    ensures
        match r {
            Some(results) => {
                &&& all_scores_in_range(hand@)
                &&& results@.len() == 15
                &&& forall|i: int|
                    0 <= i < 15 ==> (#[trigger] results@[i]).discard@ == combos_of(hand@, 2)[i]
                &&& forall|i: int|
                    0 <= i < 15 ==> (#[trigger] results@[i]).if_mine.describes(
                        hist_of(mine_scores(hand@, combos_of(hand@, 2)[i])),
                        15180,
                    )
                &&& forall|i: int|
                    0 <= i < 15 ==> (#[trigger] results@[i]).if_theirs.describes(
                        hist_of(theirs_scores(hand@, combos_of(hand@, 2)[i])),
                        15180,
                    )
            },
            None => !all_scores_in_range(hand@),
        },
{
    proof {
        lemma_enumeration_counts(hand@);
        lemma_combos_items(hand@, 2);
        lemma_combos_items(deck_of(hand@), 3);
    }
    let discards: Vec<Vec<Card>> = combinations_of(&hand.cards, 2);
    let deck = make_deck(hand);
    let mut results: Vec<DiscardAnalysis> = Vec::new();
    let mut di: usize = 0;
    while di < 15
        invariant
            hand@.len() == 6,
            hand@.no_duplicates(),
            combos_of(hand@, 2).len() == 15,
            deck_of(hand@).len() == 46,
            combos_of(deck_of(hand@), 3).len() == 15180,
            forall|i: int|
                0 <= i < combos_of(hand@, 2).len() ==> (#[trigger] combos_of(hand@, 2)[i]).len()
                    == 2,
            forall|i: int, j: int|
                0 <= i < combos_of(hand@, 2).len() && 0 <= j < 2 ==> hand@.contains(
                    #[trigger] combos_of(hand@, 2)[i][j],
                ),
            forall|i: int|
                0 <= i < combos_of(hand@, 2).len() ==> (#[trigger] combos_of(
                    hand@,
                    2,
                )[i]).no_duplicates(),
            forall|i: int|
                0 <= i < combos_of(deck_of(hand@), 3).len() ==> (#[trigger] combos_of(
                    deck_of(hand@),
                    3,
                )[i]).len() == 3,
            discards@.len() == 15,
            forall|i: int| 0 <= i < 15 ==> (#[trigger] discards@[i])@ == combos_of(hand@, 2)[i],
            deck@ == deck_of(hand@),
            di <= 15,
            results@.len() == di,
            forall|i: int|
                0 <= i < di ==> (#[trigger] results@[i]).discard@ == combos_of(hand@, 2)[i],
            forall|i: int|
                0 <= i < di ==> (#[trigger] results@[i]).if_mine.describes(
                    hist_of(mine_scores(hand@, combos_of(hand@, 2)[i])),
                    15180,
                ),
            forall|i: int|
                0 <= i < di ==> (#[trigger] results@[i]).if_theirs.describes(
                    hist_of(theirs_scores(hand@, combos_of(hand@, 2)[i])),
                    15180,
                ),
            forall|i: int, j: int|
                0 <= i < di && 0 <= j < 15180 ==> MIN_SCORE <= #[trigger] mine_scores(
                    hand@,
                    combos_of(hand@, 2)[i],
                )[j] <= MAX_SCORE,
            forall|i: int, j: int|
                0 <= i < di && 0 <= j < 15180 ==> MIN_SCORE <= #[trigger] theirs_scores(
                    hand@,
                    combos_of(hand@, 2)[i],
                )[j] <= MAX_SCORE,
        decreases 15 - di,
    {
        let ghost dseq = combos_of(hand@, 2)[di as int];
        let mut keep_vec: Vec<Card> = Vec::new();
        let mut ki: usize = 0;
        proof {
            reveal(Seq::filter);
            assert(hand@.take(0) =~= Seq::<Card>::empty());
        }
        while ki < 6
            invariant
                hand@.len() == 6,
                ki <= 6,
                discards@.len() == 15,
                di < 15,
                dseq == combos_of(hand@, 2)[di as int],
                (#[trigger] discards@[di as int])@ == dseq,
                keep_vec@ == hand@.take(ki as int).filter(|c: Card| !dseq.contains(c)),
            decreases 6 - ki,
        {
            proof {
                reveal(Seq::filter);
                assert(hand@.take(ki + 1).drop_last() =~= hand@.take(ki as int));
                assert(hand@.take(ki + 1).last() == hand@[ki as int]);
            }
            let c = hand.cards[ki];
            if !vec_has(&discards[di], &c) {
                keep_vec.push(c);
            }
            ki += 1;
        }
        proof {
            assert(hand@.take(6) =~= hand@);
            assert(keep_vec@ == keep_of(hand@, dseq));
            // the discard's two cards are distinct cards of the hand
            let dset = dseq.to_set();
            dseq.unique_seq_to_set();
            broadcast use vstd::seq_lib::seq_to_set_is_finite;

            assert(forall|c: Card| dset.contains(c) ==> hand@.contains(c));
            lemma_filter_excl_len(hand@, dset);
            lemma_filter_agree(
                hand@,
                |c: Card| !dseq.contains(c),
                |c: Card| !dset.contains(c),
            );
            assert(keep_vec@.len() == 4);
        }
        let mut mine_tally = Tally::new();
        let mut theirs_tally = Tally::new();
        let draws: Vec<Vec<Card>> = combinations_of(&deck.cards, 3);
        let ghost mine_sc = mine_scores(hand@, dseq);
        let ghost theirs_sc = theirs_scores(hand@, dseq);
        proof {
            assert(draws@.len() == 15180);
            assert(mine_sc.len() == 15180 && theirs_sc.len() == 15180);
            assert(mine_tally@ =~= hist_of(mine_sc.take(0)));
            assert(theirs_tally@ =~= hist_of(theirs_sc.take(0)));
        }
        let mut j: usize = 0;
        while j < 15180
            invariant
                j <= 15180,
                draws@.len() == 15180,
                deck@ == deck_of(hand@),
                combos_of(deck_of(hand@), 3).len() == 15180,
                combos_of(hand@, 2).len() == 15,
                di < 15,
                discards@.len() == 15,
                discards@[di as int]@ == dseq,
                dseq == combos_of(hand@, 2)[di as int],
                dseq.len() == 2,
                keep_vec@ == keep_of(hand@, dseq),
                keep_vec@.len() == 4,
                forall|i: int|
                    0 <= i < 15180 ==> (#[trigger] draws@[i])@ == combos_of(deck_of(hand@), 3)[i],
                forall|i: int|
                    0 <= i < combos_of(deck_of(hand@), 3).len() ==> (#[trigger] combos_of(
                        deck_of(hand@),
                        3,
                    )[i]).len() == 3,
                mine_sc == mine_scores(hand@, dseq),
                theirs_sc == theirs_scores(hand@, dseq),
                mine_tally.wf(),
                theirs_tally.wf(),
                mine_tally@ == hist_of(mine_sc.take(j as int)),
                theirs_tally@ == hist_of(theirs_sc.take(j as int)),
                forall|jj: int|
                    0 <= jj < j ==> MIN_SCORE <= #[trigger] mine_sc[jj] <= MAX_SCORE,
                forall|jj: int|
                    0 <= jj < j ==> MIN_SCORE <= #[trigger] theirs_sc[jj] <= MAX_SCORE,
            decreases 15180 - j,
        {
            let draw: &Vec<Card> = &draws[j];
            proof {
                assert(draw@ == combos_of(deck_of(hand@), 3)[j as int]);
                assert(draw@.len() == 3);
                assert(discards@[di as int]@ == dseq);
                assert(discards@[di as int]@.len() == 2);
            }
            let mut hold_vec: Vec<Card> = Vec::new();
            let mut hi: usize = 0;
            while hi < 4
                invariant
                    hi <= 4,
                    keep_vec@.len() == 4,
                    hold_vec@ == keep_vec@.take(hi as int),
                decreases 4 - hi,
            {
                proof {
                    assert(keep_vec@.take(hi + 1) =~= keep_vec@.take(hi as int).push(
                        keep_vec@[hi as int],
                    ));
                }
                hold_vec.push(keep_vec[hi]);
                hi += 1;
            }
            hold_vec.push(draw[2]);
            let mut crib_vec: Vec<Card> = Vec::new();
            crib_vec.push(discards[di][0]);
            crib_vec.push(discards[di][1]);
            crib_vec.push(draw[0]);
            crib_vec.push(draw[1]);
            crib_vec.push(draw[2]);
            proof {
                assert(keep_vec@.take(4) =~= keep_vec@);
                assert(hold_vec@ =~= hold_of(keep_vec@, draw@));
                assert(crib_vec@ =~= crib_of(dseq, draw@));
            }
            let hold = Hand::from_vec(hold_vec);
            let crib = Hand::from_vec(crib_vec);
            let hold_score = score_hand(&hold, false);
            let crib_score = score_hand(&crib, true);
            let mine = hold_score + crib_score;
            let theirs = hold_score - crib_score;
            proof {
                assert(mine_sc[j as int] == mine_score_of(hand@, dseq, draw@));
                assert(theirs_sc[j as int] == theirs_score_of(hand@, dseq, draw@));
                assert(mine == mine_sc[j as int] && theirs == theirs_sc[j as int]);
            }
            if mine < MIN_SCORE || mine > MAX_SCORE || theirs < MIN_SCORE || theirs > MAX_SCORE {
                proof {
                    assert(!all_scores_in_range(hand@)) by {
                        if all_scores_in_range(hand@) {
                            assert(MIN_SCORE <= mine_scores(hand@, combos_of(hand@, 2)[
                            di as int])[j as int] <= MAX_SCORE && MIN_SCORE <= theirs_scores(
                                hand@,
                                combos_of(hand@, 2)[di as int],
                            )[j as int] <= MAX_SCORE);
                        }
                    }
                }
                return None;
            }
            proof {
                let pre_m = mine_sc.take(j as int);
                let pre_t = theirs_sc.take(j as int);
                lemma_hist_of_sums(pre_m);
                lemma_hist_of_sums(pre_t);
                lemma_count_of_bound(pre_m, mine as int);
                lemma_count_of_bound(pre_t, theirs as int);
                assert(mine_tally@[mine - MIN_SCORE] == count_of(pre_m, mine as int) < i32::MAX);
                assert(theirs_tally@[theirs - MIN_SCORE] == count_of(pre_t, theirs as int)
                    < i32::MAX);
            }
            mine_tally.increment(mine);
            theirs_tally.increment(theirs);
            proof {
                assert(mine_sc.take(j + 1).drop_last() =~= mine_sc.take(j as int));
                assert(mine_sc.take(j + 1).last() == mine_sc[j as int]);
                assert(mine_tally@ =~= hist_of(mine_sc.take(j + 1)));
                assert(theirs_sc.take(j + 1).drop_last() =~= theirs_sc.take(j as int));
                assert(theirs_sc.take(j + 1).last() == theirs_sc[j as int]);
                assert(theirs_tally@ =~= hist_of(theirs_sc.take(j + 1)));
            }
            j += 1;
        }
        proof {
            assert(mine_sc.take(15180) =~= mine_sc);
            assert(theirs_sc.take(15180) =~= theirs_sc);
        }
        let if_mine = Statistics::make(mine_tally, 15180);
        let if_theirs = Statistics::make(theirs_tally, 15180);
        let mut dvec: Vec<Card> = Vec::new();
        dvec.push(discards[di][0]);
        dvec.push(discards[di][1]);
        proof {
            assert(dvec@ =~= dseq);
        }
        let discard = Hand::from_vec(dvec);
        results.push(DiscardAnalysis { discard, if_mine, if_theirs });
        proof {
            assert forall|i: int, jx: int| 0 <= i < di + 1 && 0 <= jx < 15180 implies MIN_SCORE
                <= #[trigger] mine_scores(hand@, combos_of(hand@, 2)[i])[jx] <= MAX_SCORE by {
                if i == di {
                    assert(combos_of(hand@, 2)[i] == dseq);
                    assert(mine_scores(hand@, combos_of(hand@, 2)[i]) == mine_sc);
                    assert(MIN_SCORE <= mine_sc[jx] <= MAX_SCORE);
                }
            }
            assert forall|i: int, jx: int| 0 <= i < di + 1 && 0 <= jx < 15180 implies MIN_SCORE
                <= #[trigger] theirs_scores(hand@, combos_of(hand@, 2)[i])[jx] <= MAX_SCORE by {
                if i == di {
                    assert(combos_of(hand@, 2)[i] == dseq);
                    assert(theirs_scores(hand@, combos_of(hand@, 2)[i]) == theirs_sc);
                    assert(MIN_SCORE <= theirs_sc[jx] <= MAX_SCORE);
                }
            }
        }
        di += 1;
    }
    proof {
        assert(all_scores_in_range(hand@));
    }
    Some(results)
}

} // verus!
