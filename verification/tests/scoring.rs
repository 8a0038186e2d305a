use cribbage::cards::Hand;
use cribbage::cards::Rank;
use cribbage::cards::Suit;
use cribbage::score::score_fifteens;
use cribbage::score::score_flush;
use cribbage::score::score_hand;
use cribbage::score::score_nobs;
use cribbage::score::score_pairs;
use cribbage::score::score_runs;

fn hand(text: &str) -> Hand {
    Hand::make(text).expect("well-formed hand text")
}

#[test]
fn parse_and_format_round_trip() {
    assert_eq!("5H 5C 5S JD 5D", hand("5H 5C 5S JD 5D").to_text());
    assert_eq!("5H 5C 5S JD 5D", hand("5h5c5sjd5d").to_text());
    assert_eq!("AH AS JH AC AD", hand("ah-as-jh-ac-ad").to_text());
}

#[test]
fn parse_rejects_malformed_text() {
    assert!(Hand::make("5X").is_none());
    assert!(Hand::make("55H").is_none());
    assert!(Hand::make("H").is_none());
    assert!(Hand::make("5H,6H").is_none());
}

#[test]
fn parse_char_codes() {
    assert_eq!(Rank::from_char('A'), Some(Rank::Ace));
    assert_eq!(Rank::from_char('t'), Some(Rank::Ten));
    assert_eq!(Rank::from_char('K'), Some(Rank::King));
    assert_eq!(Rank::from_char('X'), None);
    assert_eq!(Suit::from_char('h'), Some(Suit::Heart));
    assert_eq!(Suit::from_char('S'), Some(Suit::Spade));
    assert_eq!(Suit::from_char('Z'), None);
}

#[test]
fn card_values() {
    let h = hand("AH 5H TH JH KH");
    assert_eq!(h.value(0), 1);
    assert_eq!(h.value(1), 5);
    assert_eq!(h.value(2), 10);
    assert_eq!(h.value(3), 10);
    assert_eq!(h.value(4), 10);
}

#[test]
fn fifteens() {
    assert_eq!(4, score_fifteens(&hand("AH 2H 3H JH QH")));
    assert_eq!(8, score_fifteens(&hand("5H 2H 3H JH QH")));
    assert_eq!(16, score_fifteens(&hand("5H 5S 5C 5D TH")));
    assert_eq!(8, score_fifteens(&hand("6C 6D 4D 4S 5D")));
}

#[test]
fn pairs() {
    assert_eq!(12, score_pairs(&hand("5H 5S 5C 5D TH")));
    assert_eq!(8, score_pairs(&hand("TS 5S 5C 5D TH")));
    assert_eq!(4, score_pairs(&hand("6C 6D 4D 4S 5D")));
    assert_eq!(0, score_pairs(&hand("AH 2H 3H JH QH")));
}

#[test]
fn runs() {
    assert_eq!(9, score_runs(&hand("AH 2H 3H 3D 3C")));
    assert_eq!(9, score_runs(&hand("KH KD KC JH QH")));
    assert_eq!(9, score_runs(&hand("AH 2H 2D 2C 3H")));
    assert_eq!(9, score_runs(&hand("AH AD AC 2H 3H")));
    assert_eq!(8, score_runs(&hand("AH 2H 3H 4H 4D")));
    assert_eq!(8, score_runs(&hand("AH 2H 3H 3D 4H")));
    assert_eq!(8, score_runs(&hand("AH 2H 2C 3H 4H")));
    assert_eq!(8, score_runs(&hand("AS AH 2H 3H 4H")));
    assert_eq!(6, score_runs(&hand("JH AH 2H 3D 3H")));
    assert_eq!(6, score_runs(&hand("JH AH 2S 2H 3H")));
    assert_eq!(6, score_runs(&hand("JH AH AS 2H 3H")));
    assert_eq!(6, score_runs(&hand("AH 2H 3S 3H JH")));
    assert_eq!(6, score_runs(&hand("AH 2H 2S 3H JH")));
    assert_eq!(6, score_runs(&hand("AH AS 2H 3H JH")));
    assert_eq!(5, score_runs(&hand("AH 2H 3H 4H 5H")));
    assert_eq!(4, score_runs(&hand("JH AH 2H 3H 4H")));
    assert_eq!(4, score_runs(&hand("AH 2H 3H 4H JH")));
    assert_eq!(3, score_runs(&hand("JH QH AH 2H 3H")));
    assert_eq!(3, score_runs(&hand("JH AH 2H 3H TH")));
    assert_eq!(3, score_runs(&hand("AH 2H 3H JH TH")));
    assert_eq!(0, score_runs(&hand("AH 8H 3H JH TH")));
    assert_eq!(12, score_runs(&hand("6C 6D 4D 4S 5D")));
}

#[test]
fn flush() {
    assert_eq!(5, score_flush(&hand("5H 6H 7H 8H 9H"), false));
    assert_eq!(4, score_flush(&hand("5H 6H 7H 8H 9D"), false));
    assert_eq!(0, score_flush(&hand("5H 6H 7H 8H 9D"), true));
    assert_eq!(0, score_flush(&hand("5H 6H 7H 8D 9D"), false));
    assert_eq!(5, score_flush(&hand("5H 6H 7H 8H 9H"), true));
}

#[test]
fn nobs() {
    assert_eq!(1, score_nobs(&hand("JH 2C 3C 4C 5H")));
    assert_eq!(0, score_nobs(&hand("JH 2C 3C 4C 5C")));
}

#[test]
fn composite_hands() {
    assert_eq!(12, score_hand(&hand("AH AS JH AC AD"), false));
    assert_eq!(13, score_hand(&hand("AH AS JD AC AD"), false));
    assert_eq!(5, score_hand(&hand("AH 3H 7H TH JH"), false));
    assert_eq!(5, score_hand(&hand("AH 3H 7H TH JH"), true));
    assert_eq!(4, score_hand(&hand("AH 3H 7H TH JS"), false));
    assert_eq!(0, score_hand(&hand("AH 3H 7S TH JH"), false));
    assert_eq!(0, score_hand(&hand("AH 3H 7H TH JS"), true));
    assert_eq!(4 + 3, score_hand(&hand("AH 2S 3C 5D JH"), false));
    assert_eq!(12 + 6 + 2, score_hand(&hand("7H 7S 7C 8D 8H"), false));
    assert_eq!(15, score_hand(&hand("AH 2H 3H 3S 3D"), false));
    assert_eq!(15, score_hand(&hand("3H AH 3S 2H 3D"), false));
    assert_eq!(24, score_hand(&hand("6C 4D 6D 4S 5D"), false));
}

#[test]
fn highest_hand_needs_the_cut_last() {
    assert_eq!(29, score_hand(&hand("5H 5C 5S JD 5D"), false));
    assert_eq!(28, score_hand(&hand("5H 5C 5S 5D JD"), false));
}

#[test]
fn scoring_is_deterministic() {
    let h = hand("6C 4D 6D 4S 5D");
    assert_eq!(score_hand(&h, false), score_hand(&h, false));
    assert_eq!(score_hand(&h, true), score_hand(&h, true));
}

#[test]
fn hand_membership_and_growth() {
    let mut h = Hand::new();
    assert_eq!(h.num_cards(), 0);
    let five = hand("5H");
    let card = five.cards[0];
    assert!(!h.has(&card));
    h.push_back(card);
    assert!(h.has(&card));
    assert_eq!(h.num_cards(), 1);
    assert_eq!(h.to_text(), "5H");
}
