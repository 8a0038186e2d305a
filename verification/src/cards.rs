//! Card model: ranks, suits, cards and hands.
use vstd::prelude::*;
use vstd::string::StrSliceExecFns;
use vstd::string::StringExecFns;

verus! {

/// The thirteen card ranks; Ace is always low.
#[derive(Clone, Copy, PartialEq, Eq, Structural, Debug)]
pub enum Rank {
    Ace,
    Two,
    Three,
    Four,
    Five,
    Six,
    Seven,
    Eight,
    Nine,
    Ten,
    Jack,
    Queen,
    King,
}

/// The four suits; unordered, used only for equality.
#[derive(Clone, Copy, PartialEq, Eq, Structural, Debug)]
pub enum Suit {
    Heart,
    Club,
    Diamond,
    Spade,
}

/// An immutable rank/suit pair with structural equality.
#[derive(Clone, Copy, PartialEq, Eq, Structural, Debug)]
pub struct Card {
    pub rank: Rank,
    pub suit: Suit,
}

/// The ordinal of a rank: Ace is 1, Two is 2, ..., King is 13.
pub open spec fn rank_order(r: Rank) -> int {
    match r {
        Rank::Ace => 1,
        Rank::Two => 2,
        Rank::Three => 3,
        Rank::Four => 4,
        Rank::Five => 5,
        Rank::Six => 6,
        Rank::Seven => 7,
        Rank::Eight => 8,
        Rank::Nine => 9,
        Rank::Ten => 10,
        Rank::Jack => 11,
        Rank::Queen => 12,
        Rank::King => 13,
    }
}

/// The point value of a card for fifteens: `min(10, ordinal)`.
pub open spec fn card_value(c: Card) -> int {
    if rank_order(c.rank) > 10 {
        10
    } else {
        rank_order(c.rank)
    }
}

pub open spec fn spec_rank_of_char(c: char) -> Option<Rank> {
    if c == 'A' || c == 'a' {
        Some(Rank::Ace)
    } else if c == '2' {
        Some(Rank::Two)
    } else if c == '3' {
        Some(Rank::Three)
    } else if c == '4' {
        Some(Rank::Four)
    } else if c == '5' {
        Some(Rank::Five)
    } else if c == '6' {
        Some(Rank::Six)
    } else if c == '7' {
        Some(Rank::Seven)
    } else if c == '8' {
        Some(Rank::Eight)
    } else if c == '9' {
        Some(Rank::Nine)
    } else if c == 'T' || c == 't' {
        Some(Rank::Ten)
    } else if c == 'J' || c == 'j' {
        Some(Rank::Jack)
    } else if c == 'Q' || c == 'q' {
        Some(Rank::Queen)
    } else if c == 'K' || c == 'k' {
        Some(Rank::King)
    } else {
        None
    }
}

pub open spec fn spec_suit_of_char(c: char) -> Option<Suit> {
    if c == 'H' || c == 'h' {
        Some(Suit::Heart)
    } else if c == 'C' || c == 'c' {
        Some(Suit::Club)
    } else if c == 'D' || c == 'd' {
        Some(Suit::Diamond)
    } else if c == 'S' || c == 's' {
        Some(Suit::Spade)
    } else {
        None
    }
}

impl Rank {
    /// The rank's ordinal as a machine integer.
    pub fn order(self) -> (r: u8)
        ensures
            r == rank_order(self),
    {
        match self {
            Rank::Ace => 1,
            Rank::Two => 2,
            Rank::Three => 3,
            Rank::Four => 4,
            Rank::Five => 5,
            Rank::Six => 6,
            Rank::Seven => 7,
            Rank::Eight => 8,
            Rank::Nine => 9,
            Rank::Ten => 10,
            Rank::Jack => 11,
            Rank::Queen => 12,
            Rank::King => 13,
        }
    }

    /// Reads a rank code, case-insensitively.
    pub fn from_char(c: char) -> (r: Option<Rank>)
        ensures
            r == spec_rank_of_char(c),
    {
        match c {
            'A' | 'a' => Some(Rank::Ace),
            '2' => Some(Rank::Two),
            '3' => Some(Rank::Three),
            '4' => Some(Rank::Four),
            '5' => Some(Rank::Five),
            '6' => Some(Rank::Six),
            '7' => Some(Rank::Seven),
            '8' => Some(Rank::Eight),
            '9' => Some(Rank::Nine),
            'T' | 't' => Some(Rank::Ten),
            'J' | 'j' => Some(Rank::Jack),
            'Q' | 'q' => Some(Rank::Queen),
            'K' | 'k' => Some(Rank::King),
            _ => None,
        }
    }
}

impl Suit {
    /// Reads a suit code, case-insensitively.
    pub fn from_char(c: char) -> (r: Option<Suit>)
        ensures
            r == spec_suit_of_char(c),
    {
        match c {
            'H' | 'h' => Some(Suit::Heart),
            'C' | 'c' => Some(Suit::Club),
            'D' | 'd' => Some(Suit::Diamond),
            'S' | 's' => Some(Suit::Spade),
            _ => None,
        }
    }
}

/// An ordered sequence of cards; order is insertion order.
pub struct Hand {
    pub cards: Vec<Card>,
}

impl View for Hand {
    type V = Seq<Card>;

    open spec fn view(&self) -> Seq<Card> {
        self.cards@
    }
}

impl Hand {
    /// An empty hand.
    pub fn new() -> (h: Hand)
        ensures
            h@ == Seq::<Card>::empty(),
    {
        Hand { cards: Vec::new() }
    }

    /// A hand holding exactly the given cards, in the given order.
    pub fn from_vec(cards: Vec<Card>) -> (h: Hand)
        ensures
            h@ == cards@,
    {
        Hand { cards }
    }

    pub fn num_cards(&self) -> (n: usize)
        ensures
            n == self@.len(),
    {
        self.cards.len()
    }

    /// The point value of the card at position `i`.
    pub fn value(&self, i: usize) -> (v: i32)
        requires
            i < self@.len(),
        ensures
            v == card_value(self@[i as int]),
            1 <= v <= 10,
    {
        let order = self.cards[i].rank.order();
        if order > 10 {
            10
        } else {
            order as i32
        }
    }

    /// Whether the hand holds the given card.
    pub fn has(&self, wanted: &Card) -> (r: bool)
        ensures
            r == self@.contains(*wanted),
    {
        let n = self.cards.len();
        let mut i: usize = 0;
        while i < n
            invariant
                n == self@.len(),
                i <= n,
                forall|j: int| 0 <= j < i ==> self@[j] != *wanted,
            decreases n - i,
        {
            if self.cards[i] == *wanted {
                return true;
            }
            i += 1;
        }
        false
    }

    /// Appends a card; the card must not already be present.
    pub fn push_back(&mut self, card: Card)
        requires
            !old(self)@.contains(card),
        ensures
            final(self)@ == old(self)@.push(card),
    {
        self.cards.push(card);
    }
}


/// The canonical (uppercase) code of a rank.
pub open spec fn rank_char(r: Rank) -> char {
    match r {
        Rank::Ace => 'A',
        Rank::Two => '2',
        Rank::Three => '3',
        Rank::Four => '4',
        Rank::Five => '5',
        Rank::Six => '6',
        Rank::Seven => '7',
        Rank::Eight => '8',
        Rank::Nine => '9',
        Rank::Ten => 'T',
        Rank::Jack => 'J',
        Rank::Queen => 'Q',
        Rank::King => 'K',
    }
}

/// The canonical (uppercase) code of a suit.
pub open spec fn suit_char(s: Suit) -> char {
    match s {
        Suit::Heart => 'H',
        Suit::Club => 'C',
        Suit::Diamond => 'D',
        Suit::Spade => 'S',
    }
}

/// The canonical two-character text of a card.
pub open spec fn card_text(c: Card) -> Seq<char> {
    seq![rank_char(c.rank), suit_char(c.suit)]
}

/// The canonical text of a hand: card codes joined by single spaces.
pub open spec fn hand_text(cards: Seq<Card>) -> Seq<char>
    decreases cards.len(),
{
    if cards.len() == 0 {
        Seq::empty()
    } else if cards.len() == 1 {
        card_text(cards[0])
    } else {
        card_text(cards[0]) + seq![' '] + hand_text(cards.drop_first())
    }
}

/// Parses hand text one character at a time, carrying a pending rank code
/// that the next suit code completes into a card.  Yields `None` on a suit
/// with no pending rank, two rank codes in a row, or a stray character;
/// spaces and hyphens separate; a trailing pending rank is dropped.
pub open spec fn parse_from(s: Seq<char>, pending: Option<Rank>, acc: Seq<Card>) -> Option<
    Seq<Card>,
>
    decreases s.len(),
{
    if s.len() == 0 {
        Some(acc)
    } else {
        let c = s[0];
        match spec_suit_of_char(c) {
            Option::Some(st) => match pending {
                Option::None => Option::None,
                Option::Some(r) => parse_from(
                    s.drop_first(),
                    Option::None,
                    acc.push(Card { rank: r, suit: st }),
                ),
            },
            Option::None => match spec_rank_of_char(c) {
                Option::Some(rk) => if pending is Some {
                    Option::None
                } else {
                    parse_from(s.drop_first(), Option::Some(rk), acc)
                },
                Option::None => if c == ' ' || c == '-' {
                    parse_from(s.drop_first(), pending, acc)
                } else {
                    Option::None
                },
            },
        }
    }
}

/// The cards that a piece of hand text denotes, if it is well formed.
pub open spec fn spec_parse(s: Seq<char>) -> Option<Seq<Card>> {
    parse_from(s, Option::None, Seq::empty())
}

impl Hand {
    /// Parses hand text; `None` on malformed text.
    pub fn make(text: &str) -> (r: Option<Hand>)
        ensures
            match r {
                Some(h) => spec_parse(text@) == Some(h@),
                None => spec_parse(text@) is None,
            },
    {
        let n = text.unicode_len();
        let mut hand = Hand::new();
        let mut pending: Option<Rank> = None;
        let mut i: usize = 0;
        proof {
            assert(text@.skip(0) =~= text@);
        }
        while i < n
            invariant
                n == text@.len(),
                i <= n,
                parse_from(text@.skip(i as int), pending, hand@) == spec_parse(text@),
            decreases n - i,
        {
            let c = text.get_char(i);
            proof {
                assert(text@.skip(i as int).drop_first() =~= text@.skip(i + 1));
                assert(text@.skip(i as int)[0] == text@[i as int]);
            }
            if let Some(st) = Suit::from_char(c) {
                match pending {
                    None => {
                        return None;
                    },
                    Some(rk) => {
                        hand.cards.push(Card { rank: rk, suit: st });
                    },
                }
                pending = None;
            } else if let Some(rk) = Rank::from_char(c) {
                if pending.is_some() {
                    return None;
                }
                pending = Some(rk);
            } else if c != ' ' && c != '-' {
                return None;
            }
            i += 1;
        }
        proof {
            assert(text@.skip(n as int) =~= Seq::<char>::empty());
        }
        Some(hand)
    }
}

/// The canonical code of a rank, as a one-character string.
fn rank_str(r: Rank) -> (s: &'static str)
    ensures
        s@ =~= seq![rank_char(r)],
{
    proof {
        reveal_strlit("A");
        reveal_strlit("2");
        reveal_strlit("3");
        reveal_strlit("4");
        reveal_strlit("5");
        reveal_strlit("6");
        reveal_strlit("7");
        reveal_strlit("8");
        reveal_strlit("9");
        reveal_strlit("T");
        reveal_strlit("J");
        reveal_strlit("Q");
        reveal_strlit("K");
    }
    match r {
        Rank::Ace => "A",
        Rank::Two => "2",
        Rank::Three => "3",
        Rank::Four => "4",
        Rank::Five => "5",
        Rank::Six => "6",
        Rank::Seven => "7",
        Rank::Eight => "8",
        Rank::Nine => "9",
        Rank::Ten => "T",
        Rank::Jack => "J",
        Rank::Queen => "Q",
        Rank::King => "K",
    }
}

/// The canonical code of a suit, as a one-character string.
fn suit_str(s: Suit) -> (r: &'static str)
    ensures
        r@ =~= seq![suit_char(s)],
{
    proof {
        reveal_strlit("H");
        reveal_strlit("C");
        reveal_strlit("D");
        reveal_strlit("S");
    }
    match s {
        Suit::Heart => "H",
        Suit::Club => "C",
        Suit::Diamond => "D",
        Suit::Spade => "S",
    }
}

impl Card {
    /// The card's canonical two-character text.
    pub fn to_text(&self) -> (t: String)
        ensures
            t@ == card_text(*self),
    {
        let mut t = String::new();
        t.append(rank_str(self.rank));
        t.append(suit_str(self.suit));
        proof {
            assert(t@ =~= card_text(*self));
        }
        t
    }
}

proof fn lemma_hand_text_push(s: Seq<Card>, c: Card)
    ensures
        hand_text(s.push(c)) == if s.len() == 0 {
            card_text(c)
        } else {
            hand_text(s) + seq![' '] + card_text(c)
        },
    decreases s.len(),
{
    if s.len() == 0 {
        assert(s.push(c)[0] == c);
        assert(hand_text(s.push(c)) == card_text(c));
    } else {
        assert(s.push(c).drop_first() =~= s.drop_first().push(c));
        assert(s.push(c)[0] == s[0]);
        lemma_hand_text_push(s.drop_first(), c);
        if s.len() == 1 {
            assert(hand_text(s.push(c)) =~= hand_text(s) + seq![' '] + card_text(c));
        } else {
            assert(hand_text(s.push(c)) == card_text(s[0]) + seq![' '] + (hand_text(s.drop_first())
                + seq![' '] + card_text(c)));
            assert(hand_text(s.push(c)) =~= hand_text(s) + seq![' '] + card_text(c));
        }
    }
}

impl Hand {
    /// The hand's canonical text: card codes joined by spaces, hand order.
    pub fn to_text(&self) -> (t: String)
        ensures
            t@ == hand_text(self@),
    {
        proof {
            reveal_strlit(" ");
        }
        let mut t = String::new();
        let n = self.cards.len();
        let mut i: usize = 0;
        while i < n
            invariant
                n == self@.len(),
                i <= n,
                t@ == hand_text(self@.take(i as int)),
            decreases n - i,
        {
            proof {
                reveal_strlit(" ");
                assert(self@.take(i + 1) =~= self@.take(i as int).push(self@[i as int]));
                lemma_hand_text_push(self@.take(i as int), self@[i as int]);
            }
            if i > 0 {
                t.append(" ");
            }
            let ct = self.cards[i].to_text();
            t.append(ct.as_str());
            i += 1;
        }
        proof {
            assert(self@.take(n as int) =~= self@);
        }
        t
    }
}

proof fn lemma_rank_char_codes(r: Rank)
    ensures
        spec_rank_of_char(rank_char(r)) == Some(r),
        spec_suit_of_char(rank_char(r)) is None,
{
}

proof fn lemma_suit_char_codes(s: Suit)
    ensures
        spec_suit_of_char(suit_char(s)) == Some(s),
{
}

proof fn lemma_parse_hand_text(cards: Seq<Card>, acc: Seq<Card>)
    ensures
        parse_from(hand_text(cards), Option::None, acc) == Some(acc + cards),
    decreases cards.len(),
{
    if cards.len() == 0 {
        assert(acc + cards =~= acc);
    } else {
        let c0 = cards[0];
        let s = hand_text(cards);
        let rest: Seq<char> = if cards.len() == 1 {
            Seq::empty()
        } else {
            seq![' '] + hand_text(cards.drop_first())
        };
        assert(s =~= seq![rank_char(c0.rank), suit_char(c0.suit)] + rest);
        lemma_rank_char_codes(c0.rank);
        lemma_suit_char_codes(c0.suit);
        assert(s[0] == rank_char(c0.rank));
        assert(s.drop_first() =~= seq![suit_char(c0.suit)] + rest);
        assert(parse_from(s, Option::None, acc) == parse_from(
            s.drop_first(),
            Option::Some(c0.rank),
            acc,
        ));
        assert(s.drop_first()[0] == suit_char(c0.suit));
        assert(s.drop_first().drop_first() =~= rest);
        assert(Card { rank: c0.rank, suit: c0.suit } == c0);
        assert(parse_from(s.drop_first(), Option::Some(c0.rank), acc) == parse_from(
            rest,
            Option::None,
            acc.push(c0),
        ));
        if cards.len() == 1 {
            assert(parse_from(rest, Option::None, acc.push(c0)) == Some(acc.push(c0)));
            assert(acc + cards =~= acc.push(c0));
        } else {
            assert(rest[0] == ' ');
            assert(spec_suit_of_char(' ') is None && spec_rank_of_char(' ') is None);
            assert(rest.drop_first() =~= hand_text(cards.drop_first()));
            lemma_parse_hand_text(cards.drop_first(), acc.push(c0));
            assert(acc + cards =~= acc.push(c0) + cards.drop_first());
        }
    }
}

/// Law: parsing the canonical text of any hand yields exactly that hand,
/// so parsing and formatting round-trip on canonical text.
pub proof fn lemma_round_trip(cards: Seq<Card>)
    ensures
        spec_parse(hand_text(cards)) == Some(cards),
{
    lemma_parse_hand_text(cards, Seq::empty());
    assert(Seq::<Card>::empty() + cards =~= cards);
}

} // verus!
