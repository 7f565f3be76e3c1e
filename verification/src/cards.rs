//! Card value types: suits, ranks, cards and the 52-card deck.

use rand::seq::SliceRandom;
use vstd::prelude::*;

verus! {

/// Number of distinct playing cards in the deck.
pub const NUM_BASIC_CARDS: usize = 52;

/// Colour of a suit.
#[derive(Debug, Clone, Copy, PartialEq, Eq, Structural)]
pub enum Color {
    Black,
    Red,
}

/// One of the four French suits.
#[derive(Debug, Clone, Copy, PartialEq, Eq, Structural, Hash)]
pub enum Suit {
    Clubs,
    Diamonds,
    Hearts,
    Spades,
}

/// Canonical ordinal of a suit: clubs 0, diamonds 1, hearts 2, spades 3.
pub open spec fn suit_ord(s: Suit) -> int {
    match s {
        Suit::Clubs => 0,
        Suit::Diamonds => 1,
        Suit::Hearts => 2,
        Suit::Spades => 3,
    }
}

/// The suit with the given canonical ordinal.
pub open spec fn suit_from_ord(i: int) -> Suit {
    if i == 0 {
        Suit::Clubs
    } else if i == 1 {
        Suit::Diamonds
    } else if i == 2 {
        Suit::Hearts
    } else {
        Suit::Spades
    }
}

impl Suit {
    /// All four suits in canonical order.
    pub fn iterator() -> (r: Vec<Suit>)
        ensures
            r@.len() == 4,
            forall|i: int| 0 <= i < 4 ==> r@[i] == suit_from_ord(i),
    {
        let mut v: Vec<Suit> = Vec::new();
        v.push(Suit::Clubs);
        v.push(Suit::Diamonds);
        v.push(Suit::Hearts);
        v.push(Suit::Spades);
        v
    }

    /// Diamonds and hearts are red; clubs and spades are black.
    pub fn color(&self) -> (r: Color)
        ensures
            r == Color::Red <==> (*self == Suit::Diamonds || *self == Suit::Hearts),
    {
        match *self {
            Suit::Diamonds | Suit::Hearts => Color::Red,
            _ => Color::Black,
        }
    }

    /// Canonical ordinal of the suit.
    pub fn ord(&self) -> (r: u8)
        ensures
            r == suit_ord(*self),
    {
        match *self {
            Suit::Clubs => 0,
            Suit::Diamonds => 1,
            Suit::Hearts => 2,
            Suit::Spades => 3,
        }
    }
}

/// Rank of a card, two low, ace high.
#[derive(Debug, Clone, Copy, PartialEq, Eq, Structural, Hash)]
pub enum Rank {
    Two,
    Three,
    Four,
    Five,
    Six,
    Seven,
    Eight,
    Nine,
    Ten,
    Jack,
    Queen,
    King,
    Ace,
}

/// Ordinal of a rank with ace high: two 0 up to ace 12.
pub open spec fn rank_ord(r: Rank) -> int {
    match r {
        Rank::Two => 0,
        Rank::Three => 1,
        Rank::Four => 2,
        Rank::Five => 3,
        Rank::Six => 4,
        Rank::Seven => 5,
        Rank::Eight => 6,
        Rank::Nine => 7,
        Rank::Ten => 8,
        Rank::Jack => 9,
        Rank::Queen => 10,
        Rank::King => 11,
        Rank::Ace => 12,
    }
}

/// The rank with the given ace-high ordinal.
pub open spec fn rank_from_ord(i: int) -> Rank {
    if i == 0 {
        Rank::Two
    } else if i == 1 {
        Rank::Three
    } else if i == 2 {
        Rank::Four
    } else if i == 3 {
        Rank::Five
    } else if i == 4 {
        Rank::Six
    } else if i == 5 {
        Rank::Seven
    } else if i == 6 {
        Rank::Eight
    } else if i == 7 {
        Rank::Nine
    } else if i == 8 {
        Rank::Ten
    } else if i == 9 {
        Rank::Jack
    } else if i == 10 {
        Rank::Queen
    } else if i == 11 {
        Rank::King
    } else {
        Rank::Ace
    }
}

impl Rank {
    /// All thirteen ranks, two first, ace last.
    pub fn iterator() -> (r: Vec<Rank>)
        ensures
            r@.len() == 13,
            forall|i: int| 0 <= i < 13 ==> r@[i] == rank_from_ord(i),
    {
        let mut v: Vec<Rank> = Vec::new();
        v.push(Rank::Two);
        v.push(Rank::Three);
        v.push(Rank::Four);
        v.push(Rank::Five);
        v.push(Rank::Six);
        v.push(Rank::Seven);
        v.push(Rank::Eight);
        v.push(Rank::Nine);
        v.push(Rank::Ten);
        v.push(Rank::Jack);
        v.push(Rank::Queen);
        v.push(Rank::King);
        v.push(Rank::Ace);
        v
    }

    /// Numerical value of the rank, ace high.
    pub fn ord_ace_high(&self) -> (r: u8)
        ensures
            r == rank_ord(*self),
    {
        match *self {
            Rank::Two => 0,
            Rank::Three => 1,
            Rank::Four => 2,
            Rank::Five => 3,
            Rank::Six => 4,
            Rank::Seven => 5,
            Rank::Eight => 6,
            Rank::Nine => 7,
            Rank::Ten => 8,
            Rank::Jack => 9,
            Rank::Queen => 10,
            Rank::King => 11,
            Rank::Ace => 12,
        }
    }

    /// Numerical value of the rank, with the ace counted low as 1.
    pub fn ord_ace_low(&self) -> (r: u8)
        ensures
            *self == Rank::Ace ==> r == 1,
            *self != Rank::Ace ==> r == rank_ord(*self),
    {
        match *self {
            Rank::Ace => 1,
            x => x.ord_ace_high(),
        }
    }
}

/// Normal non-joker playing card.
#[derive(Debug, Clone, Copy, PartialEq, Eq, Structural, Hash)]
pub struct BasicCard {
    pub rank: Rank,
    pub suit: Suit,
}

/// The card at position `i` of the canonical 52-card enumeration:
/// ranks ascending, the four suits cycling within each rank.
pub open spec fn card_at(i: int) -> BasicCard {
    BasicCard { rank: rank_from_ord(i / 4), suit: suit_from_ord(i % 4) }
}

/// The canonical enumeration of all 52 cards.
pub open spec fn full_deck() -> Seq<BasicCard> {
    Seq::new(52, |i: int| card_at(i))
}

/// Canonical position of a card in the full enumeration.
pub open spec fn card_pos(c: BasicCard) -> int {
    4 * rank_ord(c.rank) + suit_ord(c.suit)
}

/// `card_at` and `card_pos` invert each other, so the 52 cards of
/// `full_deck()` are distinct and every card occurs in it.
pub proof fn lemma_full_deck_complete()
    ensures
        forall|c: BasicCard| 0 <= #[trigger] card_pos(c) < 52 && card_at(card_pos(c)) == c,
        forall|i: int| 0 <= i < 52 ==> #[trigger] card_pos(card_at(i)) == i,
        full_deck().no_duplicates(),
        forall|c: BasicCard| full_deck().contains(c),
{
    assert forall|c: BasicCard| 0 <= #[trigger] card_pos(c) < 52 && card_at(card_pos(c)) == c by {
        let p = card_pos(c);
        assert(p / 4 == rank_ord(c.rank) && p % 4 == suit_ord(c.suit)) by (nonlinear_arith)
            requires p == 4 * rank_ord(c.rank) + suit_ord(c.suit),
                0 <= rank_ord(c.rank) < 13,
                0 <= suit_ord(c.suit) < 4;
    }
    assert forall|i: int| 0 <= i < 52 implies #[trigger] card_pos(card_at(i)) == i by {
        assert(4 * (i / 4) + i % 4 == i) by (nonlinear_arith)
            requires 0 <= i < 52;
        assert(0 <= i / 4 < 13 && 0 <= i % 4 < 4) by (nonlinear_arith)
            requires 0 <= i < 52;
    }
    assert forall|c: BasicCard| full_deck().contains(c) by {
        assert(full_deck()[card_pos(c)] == c);
    }
}

impl BasicCard {
    /// Canonical position of the card in the full enumeration.
    pub fn pos(&self) -> (r: usize)
        ensures
            r == card_pos(*self),
            r < 52,
    {
        proof {
            lemma_full_deck_complete();
        }
        4 * (self.rank.ord_ace_high() as usize) + self.suit.ord() as usize
    }

    /// All 52 possible cards, in the canonical enumeration order.
    pub fn all() -> (r: Vec<BasicCard>)
        ensures
            r@ == full_deck(),
    {
        let ranks = Rank::iterator();
        let suits = Suit::iterator();
        let mut cards: Vec<BasicCard> = Vec::new();
        let mut ri: usize = 0;
        while ri < 13
            invariant
                ranks@.len() == 13,
                forall|i: int| 0 <= i < 13 ==> ranks@[i] == rank_from_ord(i),
                suits@.len() == 4,
                forall|i: int| 0 <= i < 4 ==> suits@[i] == suit_from_ord(i),
                ri <= 13,
                cards@.len() == 4 * ri,
                forall|k: int| 0 <= k < cards@.len() ==> cards@[k] == card_at(k),
            decreases 13 - ri,
        {
            let mut si: usize = 0;
            while si < 4
                invariant
                    ranks@.len() == 13,
                    forall|i: int| 0 <= i < 13 ==> ranks@[i] == rank_from_ord(i),
                    suits@.len() == 4,
                    forall|i: int| 0 <= i < 4 ==> suits@[i] == suit_from_ord(i),
                    ri < 13,
                    si <= 4,
                    cards@.len() == 4 * ri + si,
                    forall|k: int| 0 <= k < cards@.len() ==> cards@[k] == card_at(k),
                decreases 4 - si,
            {
                let c = BasicCard { rank: ranks[ri], suit: suits[si] };
                proof {
                    let k = cards@.len() as int;
                    assert(k / 4 == ri && k % 4 == si) by (nonlinear_arith)
                        requires k == 4 * ri + si, 0 <= ri < 13, 0 <= si < 4;
                }
                cards.push(c);
                si = si + 1;
            }
            ri = ri + 1;
        }
        proof {
            assert(cards@ =~= full_deck());
        }
        cards
    }
}

/// Why a string failed to parse as a suit, rank or card.
#[derive(Debug, Clone, Copy, PartialEq, Eq, Structural)]
pub enum CardParseError {
    BadSuit,
    BadRank,
}

/// The suit a symbol denotes, if any.
pub open spec fn suit_of_char(c: char) -> Option<Suit> {
    if c == '\u{2663}' {
        Some(Suit::Clubs)
    } else if c == '\u{2666}' {
        Some(Suit::Diamonds)
    } else if c == '\u{2665}' {
        Some(Suit::Hearts)
    } else if c == '\u{2660}' {
        Some(Suit::Spades)
    } else {
        None
    }
}

/// The rank a character denotes, if any: digits, `T`, `J`, `Q`, `K`,
/// `A`.
pub open spec fn rank_of_char(c: char) -> Option<Rank> {
    if c == '2' {
        Some(Rank::Two)
    } else if c == '3' {
        Some(Rank::Three)
    } else if c == '4' {
        Some(Rank::Four)
    } else if c == '5' {
        Some(Rank::Five)
    } else if c == '6' {
        Some(Rank::Six)
    } else if c == '7' {
        Some(Rank::Seven)
    } else if c == '8' {
        Some(Rank::Eight)
    } else if c == '9' {
        Some(Rank::Nine)
    } else if c == 'T' {
        Some(Rank::Ten)
    } else if c == 'J' {
        Some(Rank::Jack)
    } else if c == 'Q' {
        Some(Rank::Queen)
    } else if c == 'K' {
        Some(Rank::King)
    } else if c == 'A' {
        Some(Rank::Ace)
    } else {
        None
    }
}

impl Suit {
    /// Parse a suit symbol.
    pub fn from_char(c: char) -> (r: Result<Suit, CardParseError>)
        ensures
            match suit_of_char(c) {
                Some(s) => r == Ok::<Suit, CardParseError>(s),
                None => r == Err::<Suit, CardParseError>(CardParseError::BadSuit),
            },
    {
        match c {
            '\u{2663}' => Ok(Suit::Clubs),
            '\u{2666}' => Ok(Suit::Diamonds),
            '\u{2665}' => Ok(Suit::Hearts),
            '\u{2660}' => Ok(Suit::Spades),
            _ => Err(CardParseError::BadSuit),
        }
    }
}

impl Rank {
    /// Parse a rank character.
    pub fn from_char(c: char) -> (r: Result<Rank, CardParseError>)
        ensures
            match rank_of_char(c) {
                Some(rk) => r == Ok::<Rank, CardParseError>(rk),
                None => r == Err::<Rank, CardParseError>(CardParseError::BadRank),
            },
    {
        match c {
            '2' => Ok(Rank::Two),
            '3' => Ok(Rank::Three),
            '4' => Ok(Rank::Four),
            '5' => Ok(Rank::Five),
            '6' => Ok(Rank::Six),
            '7' => Ok(Rank::Seven),
            '8' => Ok(Rank::Eight),
            '9' => Ok(Rank::Nine),
            'T' => Ok(Rank::Ten),
            'J' => Ok(Rank::Jack),
            'Q' => Ok(Rank::Queen),
            'K' => Ok(Rank::King),
            'A' => Ok(Rank::Ace),
            _ => Err(CardParseError::BadRank),
        }
    }
}

impl BasicCard {
    /// Parse a card written as a rank character followed by a suit
    /// symbol, such as the five of spades as `5` then the spade sign.
    /// A bad or missing rank is reported first, then a bad, missing
    /// or trailing suit.
    pub fn from_str(s: &str) -> (r: Result<BasicCard, CardParseError>)
        ensures
            match r {
                Ok(c) => {
                    &&& s@.len() == 2
                    &&& rank_of_char(s@[0]) == Some(c.rank)
                    &&& suit_of_char(s@[1]) == Some(c.suit)
                },
                Err(e) => {
                    if s@.len() == 0 || (s@.len() >= 1 && rank_of_char(s@[0]) is None) {
                        e == CardParseError::BadRank
                    } else {
                        e == CardParseError::BadSuit
                    }
                },
            },
    {
        broadcast use vstd::string::axiom_spec_iter, vstd::string::next_postcondition;

        let mut it = s.chars();
        let rank = match it.next() {
            Some(c) => match Rank::from_char(c) {
                Ok(rk) => rk,
                Err(e) => {
                    return Err(e);
                },
            },
            None => {
                return Err(CardParseError::BadRank);
            },
        };
        let suit = match it.next() {
            Some(c) => match Suit::from_char(c) {
                Ok(su) => su,
                Err(e) => {
                    return Err(e);
                },
            },
            None => {
                return Err(CardParseError::BadSuit);
            },
        };
        match it.next() {
            Some(_) => Err(CardParseError::BadSuit),
            None => Ok(BasicCard { rank, suit }),
        }
    }
}

/// A card that may also be one of the two jokers.
#[derive(Debug, Clone, PartialEq, Eq, Structural)]
pub enum Card {
    Basic(BasicCard),
    BigJoker,
    SmallJoker,
}

/// Deck of 52 basic (non-joker) cards, drawn from the top (the end).
#[derive(Debug)]
pub struct BasicDeck {
    cards: Vec<BasicCard>,
}

impl View for BasicDeck {
    type V = Seq<BasicCard>;

    closed spec fn view(&self) -> Seq<BasicCard> {
        self.cards@
    }
}

/// Relies on `rand::seq::SliceRandom::shuffle` with `rand::thread_rng`:
/// it permutes the slice in place, so the new contents are a
/// rearrangement of the old, whatever order the generator picked.
#[verifier::external_body]
fn shuffle_cards(cards: &mut Vec<BasicCard>)
    ensures
        final(cards)@.to_multiset() == old(cards)@.to_multiset(),
{
    let mut rng = rand::rng();
    cards.shuffle(&mut rng);
}

impl Default for BasicDeck {
    /// A full 52-card deck in canonical order.
    fn default() -> (r: Self)
        ensures
            r@ == full_deck(),
    {
        BasicDeck { cards: BasicCard::all() }
    }
}

impl BasicDeck {
    /// A full 52-card deck in canonical order.
    pub fn new() -> (r: BasicDeck)
        ensures
            r@ == full_deck(),
    {
        Self::default()
    }

    /// A deck holding exactly the given cards, drawn from the end.
    pub fn from_cards(cards: Vec<BasicCard>) -> (r: BasicDeck)
        ensures
            r@ == cards@,
    {
        BasicDeck { cards }
    }

    /// Shuffle the remaining cards in the deck: the same cards, in
    /// an order chosen by the thread-local random generator.
    pub fn shuffle(&mut self)
        ensures
            final(self)@.to_multiset() == old(self)@.to_multiset(),
            final(self)@.len() == old(self)@.len(),
    {
        proof {
            self.cards@.to_multiset_ensures();
        }
        shuffle_cards(&mut self.cards);
        proof {
            self.cards@.to_multiset_ensures();
        }
    }

    /// How many cards are left in the deck.
    pub fn num_cards_left(&self) -> (r: usize)
        ensures
            r == self@.len(),
    {
        self.cards.len()
    }

    /// Remove and return the top card, if there is one.
    pub fn draw(&mut self) -> (r: Option<BasicCard>)
        ensures
            old(self)@.len() == 0 ==> r is None && final(self)@ == old(self)@,
            old(self)@.len() > 0 ==> {
                &&& r == Some(old(self)@.last())
                &&& final(self)@ == old(self)@.drop_last()
            },
    {
        self.cards.pop()
    }

    /// Remove and return the top `n` cards, or `None` (and leave the
    /// deck unchanged) if fewer than `n` remain.
    pub fn draw_n(&mut self, n: usize) -> (r: Option<Vec<BasicCard>>)
        ensures
            old(self)@.len() < n ==> r is None && final(self)@ == old(self)@,
            old(self)@.len() >= n ==> {
                &&& r is Some
                &&& r->Some_0@ == old(self)@.subrange(old(self)@.len() - n, old(self)@.len() as int)
                &&& final(self)@ == old(self)@.subrange(0, old(self)@.len() - n)
            },
    {
        let m = self.cards.len();
        if m >= n {
            Some(self.cards.split_off(m - n))
        } else {
            None
        }
    }
}

} // verus!
