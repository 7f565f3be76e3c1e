use card_engine::cards::{BasicCard, Rank, Suit};
use card_engine::hand_belief::{CardState, HandBelief};

fn card(rank: Rank, suit: Suit) -> BasicCard {
    BasicCard { rank, suit }
}

#[test]
fn fresh_belief_is_all_void() {
    let b = HandBelief::new();
    for c in BasicCard::all() {
        assert_eq!(b.card_state(c), CardState::Void);
    }
    assert_eq!(b.num_cards(), 0);
}

#[test]
fn thirteen_unknown_draws_make_every_card_possible() {
    let mut b = HandBelief::new();
    b.clear();
    b.random_cards_drawn(13);
    for c in BasicCard::all() {
        assert_eq!(b.card_state(c), CardState::Prob);
    }
    assert_eq!(b.num_cards(), 13);
}

#[test]
fn empty_suit_voids_its_possible_cards() {
    let mut b = HandBelief::new();
    b.clear();
    b.random_cards_drawn(13);
    b.empty_suit(Suit::Clubs);
    for c in BasicCard::all() {
        if c.suit == Suit::Clubs {
            assert_eq!(b.card_state(c), CardState::Void);
        } else {
            assert_eq!(b.card_state(c), CardState::Prob);
        }
    }
    assert_eq!(b.num_cards(), 13);
    // A later unknown draw makes the voided suit possible again.
    b.random_cards_drawn(1);
    assert_eq!(b.card_state(card(Rank::Two, Suit::Clubs)), CardState::Prob);
    assert_eq!(b.num_cards(), 14);
}

#[test]
fn drawn_seen_and_played_cards_are_pinned() {
    let mut b = HandBelief::new();
    b.random_cards_drawn(13);
    let c1 = card(Rank::Queen, Suit::Hearts);
    let c2 = card(Rank::Two, Suit::Diamonds);
    let c3 = card(Rank::Nine, Suit::Spades);
    b.card_drawn(&c1);
    assert_eq!(b.card_state(c1), CardState::Owns);
    assert_eq!(b.num_cards(), 14);
    b.card_played(&c2);
    assert_eq!(b.card_state(c2), CardState::Played);
    assert_eq!(b.num_cards(), 13);
    b.card_seen(&c3);
    assert_eq!(b.card_state(c3), CardState::Played);
    assert_eq!(b.num_cards(), 13);
    // Unrelated cards are untouched.
    assert_eq!(b.card_state(card(Rank::Ace, Suit::Clubs)), CardState::Prob);
    // A void suit does not disturb a card the opponent certainly holds.
    b.card_drawn(&card(Rank::Three, Suit::Clubs));
    b.empty_suit(Suit::Clubs);
    assert_eq!(b.card_state(card(Rank::Three, Suit::Clubs)), CardState::Owns);
    assert_eq!(b.card_state(card(Rank::Four, Suit::Clubs)), CardState::Void);
}
