use card_engine::cards::{BasicCard, BasicDeck, CardParseError, Color, Rank, Suit};

use std::collections::HashSet;

#[test]
fn all_cards_are_52_distinct() {
    let cards = BasicCard::all();
    assert_eq!(cards.len(), 52);
    let set: HashSet<BasicCard> = cards.iter().cloned().collect();
    assert_eq!(set.len(), 52);
}

#[test]
fn card_positions_are_distinct_and_in_range() {
    let cards = BasicCard::all();
    let mut seen = [false; 52];
    for c in &cards {
        let p = c.pos();
        assert!(p < 52);
        assert!(!seen[p]);
        seen[p] = true;
    }
}

#[test]
fn suit_ordinals_and_colors() {
    assert_eq!(Suit::Clubs.ord(), 0);
    assert_eq!(Suit::Diamonds.ord(), 1);
    assert_eq!(Suit::Hearts.ord(), 2);
    assert_eq!(Suit::Spades.ord(), 3);
    assert_eq!(Suit::Clubs.color(), Color::Black);
    assert_eq!(Suit::Diamonds.color(), Color::Red);
    assert_eq!(Suit::Hearts.color(), Color::Red);
    assert_eq!(Suit::Spades.color(), Color::Black);
    assert_eq!(Suit::iterator().len(), 4);
}

#[test]
fn rank_ordinals_ace_high_and_low() {
    assert_eq!(Rank::Two.ord_ace_high(), 0);
    assert_eq!(Rank::King.ord_ace_high(), 11);
    assert_eq!(Rank::Ace.ord_ace_high(), 12);
    assert_eq!(Rank::Ace.ord_ace_low(), 1);
    assert_eq!(Rank::Two.ord_ace_low(), 0);
    assert_eq!(Rank::King.ord_ace_low(), 11);
    assert_eq!(Rank::iterator().len(), 13);
}

#[test]
fn parse_cards() {
    assert_eq!(
        BasicCard::from_str("2\u{2666}"),
        Ok(BasicCard { rank: Rank::Two, suit: Suit::Diamonds })
    );
    assert_eq!(
        BasicCard::from_str("A\u{2660}"),
        Ok(BasicCard { rank: Rank::Ace, suit: Suit::Spades })
    );
    assert_eq!(
        BasicCard::from_str("T\u{2665}"),
        Ok(BasicCard { rank: Rank::Ten, suit: Suit::Hearts })
    );
    assert_eq!(BasicCard::from_str(""), Err(CardParseError::BadRank));
    assert_eq!(BasicCard::from_str("X\u{2666}"), Err(CardParseError::BadRank));
    assert_eq!(BasicCard::from_str("2X"), Err(CardParseError::BadSuit));
    assert_eq!(BasicCard::from_str("2"), Err(CardParseError::BadSuit));
    assert_eq!(
        BasicCard::from_str("2\u{2666}\u{2666}"),
        Err(CardParseError::BadSuit)
    );
    assert_eq!(Suit::from_char('\u{2663}'), Ok(Suit::Clubs));
    assert_eq!(Suit::from_char('q'), Err(CardParseError::BadSuit));
    assert_eq!(Rank::from_char('Q'), Ok(Rank::Queen));
    assert_eq!(Rank::from_char('1'), Err(CardParseError::BadRank));
}

#[test]
fn deck_draws_from_the_top() {
    let mut deck = BasicDeck::new();
    assert_eq!(deck.num_cards_left(), 52);
    let top = deck.draw().unwrap();
    assert_eq!(deck.num_cards_left(), 51);
    let all = BasicCard::all();
    assert_eq!(top, all[51]);
    let thirteen = deck.draw_n(13).unwrap();
    assert_eq!(thirteen.len(), 13);
    assert_eq!(deck.num_cards_left(), 38);
    assert!(deck.draw_n(39).is_none());
    assert_eq!(deck.num_cards_left(), 38);
}

#[test]
fn shuffle_keeps_the_same_cards() {
    let mut deck = BasicDeck::new();
    deck.shuffle();
    let mut cards = Vec::new();
    while let Some(c) = deck.draw() {
        cards.push(c);
    }
    assert_eq!(cards.len(), 52);
    let set: HashSet<BasicCard> = cards.into_iter().collect();
    assert_eq!(set.len(), 52);
}
