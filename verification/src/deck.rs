//! The 52-card universe and residual decks.
use vstd::prelude::*;
use vstd::arithmetic::div_mod::lemma_fundamental_div_mod;
use crate::cards::{Card, Hand, Rank, Suit};

verus! {

/// The rank at a given offset of the deck's fixed rank order.
pub open spec fn rank_of_index(i: int) -> Rank {
    if i == 0 {
        Rank::Ace
    } else if i == 1 {
        Rank::Two
    } else if i == 2 {
        Rank::Three
    } else if i == 3 {
        Rank::Four
    } else if i == 4 {
        Rank::Five
    } else if i == 5 {
        Rank::Six
    } else if i == 6 {
        Rank::Seven
    } else if i == 7 {
        Rank::Eight
    } else if i == 8 {
        Rank::Nine
    } else if i == 9 {
        Rank::Ten
    } else if i == 10 {
        Rank::Jack
    } else if i == 11 {
        Rank::Queen
    } else {
        Rank::King
    }
}

/// The suit at a given offset of the deck's fixed suit order.
pub open spec fn suit_of_index(i: int) -> Suit {
    if i == 0 {
        Suit::Heart
    } else if i == 1 {
        Suit::Club
    } else if i == 2 {
        Suit::Diamond
    } else {
        Suit::Spade
    }
}

/// The card at a given position of the full deck: suit-major, rank-minor.
pub open spec fn card_of_index(i: int) -> Card {
    Card { rank: rank_of_index(i % 13), suit: suit_of_index(i / 13) }
}

/// The 52-card universe in its fixed canonical order.
pub open spec fn universe() -> Seq<Card> {
    Seq::new(52, |i: int| card_of_index(i))
}

/// The residual deck: the universe with the excluded cards left out, in
/// universe order.
pub open spec fn deck_of(exclude: Seq<Card>) -> Seq<Card> {
    universe().filter(|c: Card| !exclude.contains(c))
}

/// The rank at a given offset of the deck's fixed rank order.
fn rank_from_index(i: usize) -> (r: Rank)
    requires
        i < 13,
    ensures
        r == rank_of_index(i as int),
{
    match i {
        0 => Rank::Ace,
        1 => Rank::Two,
        2 => Rank::Three,
        3 => Rank::Four,
        4 => Rank::Five,
        5 => Rank::Six,
        6 => Rank::Seven,
        7 => Rank::Eight,
        8 => Rank::Nine,
        9 => Rank::Ten,
        10 => Rank::Jack,
        11 => Rank::Queen,
        _ => Rank::King,
    }
}

/// The suit at a given offset of the deck's fixed suit order.
fn suit_from_index(i: usize) -> (r: Suit)
    requires
        i < 4,
    ensures
        r == suit_of_index(i as int),
{
    match i {
        0 => Suit::Heart,
        1 => Suit::Club,
        2 => Suit::Diamond,
        _ => Suit::Spade,
    }
}

/// Builds the full deck in canonical order, leaving out every card present
/// in `exclude`.
pub fn make_deck(exclude: &Hand) -> (deck: Hand)
    ensures
        deck@ == deck_of(exclude@),
{
    let mut cards: Vec<Card> = Vec::new();
    let mut si: usize = 0;
    proof {
        reveal(Seq::filter);
        assert(universe().take(0) =~= Seq::<Card>::empty());
    }
    while si < 4
        invariant
            si <= 4,
            cards@ == universe().take(13 * si as int).filter(
                |c: Card| !exclude@.contains(c),
            ),
        decreases 4 - si,
    {
        let mut ri: usize = 0;
        while ri < 13
            invariant
                si < 4,
                ri <= 13,
                cards@ == universe().take(13 * si as int + ri as int).filter(
                    |c: Card| !exclude@.contains(c),
                ),
            decreases 13 - ri,
        {
            let idx: usize = 13 * si + ri;
            let card = Card { rank: rank_from_index(ri), suit: suit_from_index(si) };
            proof {
                lemma_fundamental_div_mod(idx as int, 13);
                assert(idx as int % 13 == ri as int && idx as int / 13 == si as int) by {
                    vstd::arithmetic::div_mod::lemma_fundamental_div_mod_converse(
                        idx as int,
                        13,
                        si as int,
                        ri as int,
                    );
                }
                assert(card == card_of_index(idx as int));
                assert(universe()[idx as int] == card_of_index(idx as int));
                reveal(Seq::filter);
                let taken = universe().take(idx as int);
                let taken1 = universe().take(idx as int + 1);
                assert(taken1.drop_last() =~= taken);
                assert(taken1.last() == card);
            }
            if !exclude.has(&card) {
                cards.push(card);
            }
            ri += 1;
        }
        si += 1;
    }
    proof {
        assert(universe().take(52) =~= universe());
    }
    Hand::from_vec(cards)
}


/// The offset of a suit in the deck's fixed suit order.
pub open spec fn suit_index(s: Suit) -> int {
    match s {
        Suit::Heart => 0,
        Suit::Club => 1,
        Suit::Diamond => 2,
        Suit::Spade => 3,
    }
}

pub(crate) proof fn lemma_filter_agree(s: Seq<Card>, p1: spec_fn(Card) -> bool, p2: spec_fn(Card) -> bool)
    requires
        forall|i: int| 0 <= i < s.len() ==> p1(s[i]) == p2(s[i]),
    ensures
        s.filter(p1) == s.filter(p2),
    decreases s.len(),
{
    reveal(Seq::filter);
    if s.len() > 0 {
        assert(forall|i: int| 0 <= i < s.len() - 1 ==> s.drop_last()[i] == s[i]);
        lemma_filter_agree(s.drop_last(), p1, p2);
        assert(p1(s.last()) == p2(s.last()));
    }
}

pub(crate) proof fn lemma_filter_excl_len(u: Seq<Card>, ex: Set<Card>)
    requires
        u.no_duplicates(),
        ex.finite(),
        forall|c: Card| ex.contains(c) ==> u.contains(c),
    ensures
        u.filter(|c: Card| !ex.contains(c)).len() == u.len() - ex.len(),
    decreases u.len(),
{
    broadcast use vstd::set::group_set_axioms;

    reveal(Seq::filter);
    let p = |c: Card| !ex.contains(c);
    if u.len() == 0 {
        assert(ex =~= Set::<Card>::empty());
    } else {
        let v = u.drop_last();
        let x = u.last();
        assert(forall|i: int| 0 <= i < v.len() ==> v[i] == u[i]);
        assert(!v.contains(x)) by {
            assert(forall|i: int| 0 <= i < v.len() ==> #[trigger] u[i] != u[u.len() - 1]);
        }
        assert(forall|c: Card| u.contains(c) && c != x ==> v.contains(c)) by {
            assert forall|c: Card| u.contains(c) && c != x implies v.contains(c) by {
                let i = choose|i: int| 0 <= i < u.len() && u[i] == c;
                assert(i < u.len() - 1);
                assert(v[i] == c);
            }
        }
        if ex.contains(x) {
            let ex2 = ex.remove(x);
            assert(ex2.len() == ex.len() - 1);
            lemma_filter_excl_len(v, ex2);
            let p2 = |c: Card| !ex2.contains(c);
            assert(forall|i: int| 0 <= i < v.len() ==> p(v[i]) == p2(v[i]));
            lemma_filter_agree(v, p, p2);
            assert(u.filter(p) == v.filter(p));
        } else {
            lemma_filter_excl_len(v, ex);
            assert(u.filter(p) == v.filter(p).push(x));
        }
    }
}

proof fn lemma_universe_no_duplicates()
    ensures
        universe().no_duplicates(),
{
    assert forall|i: int, j: int| 0 <= i < j < 52 implies universe()[i] != universe()[j] by {
        lemma_fundamental_div_mod(i, 13);
        lemma_fundamental_div_mod(j, 13);
        assert(0 <= i / 13 <= 3 && 0 <= j / 13 <= 3);
        if i / 13 == j / 13 {
            assert(i % 13 != j % 13);
            assert(rank_of_index(i % 13) != rank_of_index(j % 13));
        } else {
            assert(suit_of_index(i / 13) != suit_of_index(j / 13));
        }
    }
}

proof fn lemma_universe_complete(c: Card)
    ensures
        universe().contains(c),
{
    let k = 13 * suit_index(c.suit) + crate::cards::rank_order(c.rank) - 1;
    assert(0 <= k < 52);
    assert(k % 13 == crate::cards::rank_order(c.rank) - 1 && k / 13 == suit_index(c.suit)) by {
        vstd::arithmetic::div_mod::lemma_fundamental_div_mod_converse(
            k,
            13,
            suit_index(c.suit),
            crate::cards::rank_order(c.rank) - 1,
        );
    }
    assert(universe()[k] == c);
}

/// Law: excluding a duplicate-free hand leaves the other `52 - n` cards, so
/// a six-card hand leaves a 46-card deck.
pub proof fn lemma_deck_len(exclude: Seq<Card>)
    requires
        exclude.no_duplicates(),
    ensures
        deck_of(exclude).len() == 52 - exclude.len(),
{
    broadcast use vstd::seq_lib::seq_to_set_is_finite;
    broadcast use vstd::set::group_set_axioms;

    let ex = exclude.to_set();
    lemma_universe_no_duplicates();
    assert(forall|c: Card| ex.contains(c) ==> universe().contains(c)) by {
        assert forall|c: Card| ex.contains(c) implies universe().contains(c) by {
            lemma_universe_complete(c);
        }
    }
    exclude.unique_seq_to_set();
    lemma_filter_excl_len(universe(), ex);
    let p = |c: Card| !exclude.contains(c);
    let p2 = |c: Card| !ex.contains(c);
    assert(forall|i: int| 0 <= i < universe().len() ==> p(universe()[i]) == p2(universe()[i]));
    lemma_filter_agree(universe(), p, p2);
}

} // verus!
