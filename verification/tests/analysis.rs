use cribbage::analyze::analyze_hand;
use cribbage::cards::Hand;
use cribbage::deck::make_deck;
use cribbage::tally::Statistics;
use cribbage::tally::Tally;

fn hand(text: &str) -> Hand {
    Hand::make(text).expect("well-formed hand text")
}

#[test]
fn deck_excludes_the_hand() {
    let h = hand("AH 2H 3H 4H 5H 6H");
    let deck = make_deck(&h);
    assert_eq!(deck.num_cards(), 46);
    for i in 0..h.num_cards() {
        assert!(!deck.has(&h.cards[i]));
    }
}

#[test]
fn deck_with_no_exclusions_is_full() {
    let deck = make_deck(&Hand::new());
    assert_eq!(deck.num_cards(), 52);
    // canonical order: suit-major, rank-minor, starting from the ace of hearts
    assert_eq!(deck.cards[0].to_text(), "AH");
    assert_eq!(deck.cards[12].to_text(), "KH");
    assert_eq!(deck.cards[13].to_text(), "AC");
    assert_eq!(deck.cards[51].to_text(), "KS");
}

#[test]
fn tally_statistics_exact_values() {
    let mut t = Tally::new();
    t.increment(1);
    t.increment(2);
    t.increment(2);
    t.increment(5);
    let s = Statistics::make(t, 4);
    assert_eq!(s.samples, 4);
    assert_eq!(s.min, 1);
    assert_eq!(s.max, 5);
    assert_eq!(s.score_sum, 1 + 2 + 2 + 5);
    assert_eq!(s.square_sum, 1 + 4 + 4 + 25);
}

#[test]
fn tally_statistics_negative_scores() {
    let mut t = Tally::new();
    t.increment(-29);
    t.increment(53);
    let s = Statistics::make(t, 2);
    assert_eq!(s.min, -29);
    assert_eq!(s.max, 53);
    assert_eq!(s.score_sum, 24);
    assert_eq!(s.square_sum, 29 * 29 + 53 * 53);
}

#[test]
fn empty_tally_statistics() {
    let t = Tally::new();
    let s = Statistics::make(t, 0);
    assert_eq!(s.min, 0);
    assert_eq!(s.max, 0);
    assert_eq!(s.score_sum, 0);
    assert_eq!(s.square_sum, 0);
}

#[test]
fn statistics_match_direct_computation() {
    // mean and population standard deviation recomputed from the raw list
    let scores: [i32; 6] = [3, 3, 7, 10, 0, 1];
    let mut t = Tally::new();
    for s in scores.iter() {
        t.increment(*s);
    }
    let st = Statistics::make(t, scores.len() as i32);
    let n = scores.len() as f64;
    let mean: f64 = scores.iter().map(|s| *s as f64).sum::<f64>() / n;
    let var: f64 = scores.iter().map(|s| (*s as f64 - mean) * (*s as f64 - mean)).sum::<f64>() / n;
    let lib_mean = st.score_sum as f64 / st.samples as f64;
    let lib_var = st.square_sum as f64 / st.samples as f64 - lib_mean * lib_mean;
    assert!((mean - lib_mean).abs() < 1e-9);
    assert!((var - lib_var).abs() < 1e-9);
    assert_eq!(st.min, 0);
    assert_eq!(st.max, 10);
}

#[test]
fn discard_enumeration_is_complete() {
    let h = hand("5H 5C 5S JD 4D 6H");
    let results = analyze_hand(&h).expect("scores stay in the histogram range");
    assert_eq!(results.len(), 15);
    for res in results.iter() {
        assert_eq!(res.discard.num_cards(), 2);
        assert_eq!(res.if_mine.samples, 15180);
        assert_eq!(res.if_theirs.samples, 15180);
        // every hold score is nonnegative, so the own-crib total is too
        assert!(res.if_mine.min >= 0);
        assert!(res.if_mine.max <= 53);
        assert!(res.if_theirs.min >= -29);
        assert!(res.if_theirs.max <= 53);
        assert!(res.if_mine.min <= res.if_mine.max);
        // the mine distribution dominates the theirs distribution draw by
        // draw, so the total over all draws is at least as large
        assert!(res.if_mine.score_sum >= res.if_theirs.score_sum);
    }
    // the fifteen discards are pairwise different
    for i in 0..15 {
        for j in (i + 1)..15 {
            assert_ne!(
                results[i].discard.to_text(),
                results[j].discard.to_text()
            );
        }
    }
}

#[test]
fn first_discard_matches_brute_force() {
    // Recompute the first discard's distributions directly: every i<j<k
    // triple of deck positions is one draw, the highest position is the cut.
    let h = hand("6C 4D 6D 4S 5D JH");
    let results = analyze_hand(&h).expect("scores stay in the histogram range");
    // the first discard pair keeps input order: cards 0 and 1 of the hand
    assert_eq!(results[0].discard.to_text(), "6C 4D");

    let deck = make_deck(&h);
    let n = deck.num_cards();
    let mut keep: Vec<cribbage::cards::Card> = Vec::new();
    for i in 0..h.num_cards() {
        if !results[0].discard.has(&h.cards[i]) {
            keep.push(h.cards[i]);
        }
    }
    assert_eq!(keep.len(), 4);

    let mut count: i64 = 0;
    let mut mine_sum: i64 = 0;
    let mut mine_min: i32 = i32::MAX;
    let mut mine_max: i32 = i32::MIN;
    let mut theirs_sum: i64 = 0;
    for i in 0..n {
        for j in (i + 1)..n {
            for k in (j + 1)..n {
                let cut = deck.cards[k];
                let hold = Hand::from_vec(vec![keep[0], keep[1], keep[2], keep[3], cut]);
                let crib = Hand::from_vec(vec![
                    results[0].discard.cards[0],
                    results[0].discard.cards[1],
                    deck.cards[i],
                    deck.cards[j],
                    cut,
                ]);
                let hold_score = cribbage::score::score_hand(&hold, false);
                let crib_score = cribbage::score::score_hand(&crib, true);
                let mine = hold_score + crib_score;
                let theirs = hold_score - crib_score;
                count += 1;
                mine_sum += mine as i64;
                theirs_sum += theirs as i64;
                mine_min = mine_min.min(mine);
                mine_max = mine_max.max(mine);
            }
        }
    }
    assert_eq!(count, 15180);
    assert_eq!(results[0].if_mine.score_sum, mine_sum);
    assert_eq!(results[0].if_theirs.score_sum, theirs_sum);
    assert_eq!(results[0].if_mine.min, mine_min);
    assert_eq!(results[0].if_mine.max, mine_max);
}
