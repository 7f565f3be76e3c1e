use card_engine::cards::{BasicCard, Rank, Suit};
use card_engine::engine::{GameEvent, Round};
use card_engine::hand_belief::CardState;
use card_engine::player::{card_index, PlayerState};

fn card(rank: Rank, suit: Suit) -> BasicCard {
    BasicCard { rank, suit }
}

fn observers_agree(a: &PlayerState, b: &PlayerState) {
    assert_eq!(a.player_id, b.player_id);
    assert_eq!(a.trump, b.trump);
    assert_eq!(a.hand, b.hand);
    assert_eq!(a.active, b.active);
    assert_eq!(a.revealed, b.revealed);
    assert_eq!(a.leading_card, b.leading_card);
    assert_eq!(a.played_cards, b.played_cards);
    assert_eq!(a.score, b.score);
    assert_eq!(a.suit_order, b.suit_order);
    assert_eq!(a.oppo.num_cards(), b.oppo.num_cards());
    for c in BasicCard::all() {
        assert_eq!(a.oppo.card_state(c), b.oppo.card_state(c));
    }
}

#[test]
fn start_event_sets_up_the_view() {
    let mut ps = PlayerState::new(0);
    let mut hand = Vec::new();
    for r in [Rank::Two, Rank::Five, Rank::Nine].iter() {
        hand.push(card(*r, Suit::Hearts));
    }
    for r in [Rank::Three, Rank::Jack].iter() {
        hand.push(card(*r, Suit::Clubs));
    }
    let revealed = card(Rank::Ace, Suit::Diamonds);
    ps.on_event(&GameEvent::Start(card_engine::engine::StartRoundEvent {
        hand: hand.clone(),
        revealed,
        trump: Suit::Spades,
        starting_player: 1,
    }));
    assert_eq!(ps.hand, hand);
    assert_eq!(ps.trump, Suit::Spades);
    assert_eq!(ps.active, 1);
    assert_eq!(ps.revealed, Some(revealed));
    assert_eq!(ps.leading_card, None);
    assert_eq!(ps.score, [0, 0]);
    // Trump first, then by held count descending, then by ordinal.
    assert_eq!(
        ps.suit_order,
        [Suit::Spades, Suit::Hearts, Suit::Clubs, Suit::Diamonds]
    );
    // The opponent cannot hold our cards or the revealed card.
    assert_eq!(ps.oppo.num_cards(), 13);
    for c in BasicCard::all() {
        let expected = if hand.contains(&c) || c == revealed {
            CardState::Played
        } else {
            CardState::Prob
        };
        assert_eq!(ps.oppo.card_state(c), expected);
    }
}

#[test]
fn opponent_shown_void_when_not_following() {
    let mut ps = PlayerState::new(0);
    let hand = vec![card(Rank::Two, Suit::Hearts)];
    ps.on_event(&GameEvent::Start(card_engine::engine::StartRoundEvent {
        hand,
        revealed: card(Rank::Ace, Suit::Diamonds),
        trump: Suit::Diamonds,
        starting_player: 0,
    }));
    // We lead a spade; the opponent answers with a club: no spades.
    ps.on_event(&GameEvent::Action(card_engine::engine::Action {
        player: 0,
        card: card(Rank::Five, Suit::Spades),
    }));
    assert_eq!(ps.leading_card, Some(card(Rank::Five, Suit::Spades)));
    assert_eq!(ps.active, 1);
    ps.on_event(&GameEvent::Action(card_engine::engine::Action {
        player: 1,
        card: card(Rank::Nine, Suit::Clubs),
    }));
    assert_eq!(ps.oppo.card_state(card(Rank::Nine, Suit::Clubs)), CardState::Played);
    for r in Rank::iterator() {
        let c = card(r, Suit::Spades);
        assert!(
            ps.oppo.card_state(c) == CardState::Void || ps.oppo.card_state(c) == CardState::Played
        );
    }
}

#[test]
fn card_index_follows_the_suit_order() {
    let suit_order = [Suit::Spades, Suit::Hearts, Suit::Clubs, Suit::Diamonds];
    assert_eq!(card_index(&card(Rank::Two, Suit::Spades), &suit_order), 0);
    assert_eq!(card_index(&card(Rank::King, Suit::Hearts), &suit_order), 11 + 13);
    assert_eq!(card_index(&card(Rank::Ace, Suit::Diamonds), &suit_order), 12 + 39);
}

#[test]
fn replaying_the_stream_rebuilds_the_same_view() {
    let mut round = Round::new((0, 1));
    let start_events = round.start_round(Some(0));
    let mut incremental = [PlayerState::new(0), PlayerState::new(1)];
    let mut logs: [Vec<GameEvent>; 2] = [Vec::new(), Vec::new()];
    for p in 0..2 {
        for ev in &start_events[p] {
            incremental[p].on_event(ev);
            logs[p].push(ev.clone());
        }
    }
    while !round.is_game_over() {
        let actions = round.possible_actions();
        let events = round.play_action(actions[0]).unwrap();
        for p in 0..2 {
            for ev in &events[p] {
                incremental[p].on_event(ev);
                logs[p].push(ev.clone());
            }
        }
    }
    for p in 0..2 {
        let mut rebuilt = PlayerState::new(p);
        for ev in &logs[p] {
            rebuilt.on_event(ev);
        }
        observers_agree(&rebuilt, &incremental[p]);
        // At the end of a round the opponent holds nothing.
        assert_eq!(incremental[p].oppo.num_cards(), 0);
        assert!(incremental[p].hand.is_empty());
    }
    assert_eq!(incremental[0].score[0] + incremental[0].score[1], 13);
}

#[test]
fn feature_vector_sizes() {
    let ps = PlayerState::new(0);
    assert_eq!(PlayerState::state_size(), 263);
    assert_eq!(PlayerState::action_size(), 52);
    assert_eq!(PlayerState::state_action_size(), 315);
    assert_eq!(ps.state_vector_size(), 263);
    assert_eq!(ps.action_vector_size(), 52);
}
