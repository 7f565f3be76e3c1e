use card_engine::cards::{BasicCard, BasicDeck, Rank, Suit};
use card_engine::engine::{Action, ActionError, GameEvent, Phase, Round};
use card_engine::state::GameState;

fn card(rank: Rank, suit: Suit) -> BasicCard {
    BasicCard { rank, suit }
}

/// A score-phase position: hearts are trump, player 0 has led the
/// five of spades, and player 1 (to move) holds the given hand.
fn follow_position(hand1: Vec<BasicCard>) -> Round {
    let rounds_left = hand1.len();
    let mut hand0 = Vec::new();
    for r in Rank::iterator() {
        if hand0.len() + 1 < rounds_left {
            hand0.push(card(r, Suit::Diamonds));
        }
    }
    let state = GameState::from_parts(
        BasicDeck::from_cards(Vec::new()),
        [hand0, hand1],
        [0, 0],
        Suit::Hearts,
        Some(card(Rank::Five, Suit::Spades)),
        1,
        rounds_left,
        None,
    );
    Round { state, phase: Phase::Playing, rules: (0, 1) }
}

fn all_clubs() -> Vec<BasicCard> {
    let mut hand = Vec::new();
    for r in Rank::iterator() {
        hand.push(card(r, Suit::Clubs));
    }
    hand
}

#[test]
fn leader_wins_against_offsuit_follow() {
    let mut gs = GameState::new(Some(0));
    gs.trump = Suit::Hearts;
    let lead = card(Rank::King, Suit::Spades);
    let follow = card(Rank::Two, Suit::Clubs);
    assert_eq!(gs.score_hand(&lead, &follow), Some(true));
}

#[test]
fn trump_follow_beats_plain_lead() {
    let mut gs = GameState::new(Some(0));
    gs.trump = Suit::Hearts;
    let lead = card(Rank::King, Suit::Spades);
    let follow = card(Rank::Two, Suit::Hearts);
    assert_eq!(gs.score_hand(&lead, &follow), Some(false));
}

#[test]
fn same_suit_higher_rank_wins_and_swaps() {
    let mut gs = GameState::new(Some(0));
    gs.trump = Suit::Hearts;
    let high = card(Rank::King, Suit::Spades);
    let low = card(Rank::Two, Suit::Spades);
    assert_eq!(gs.score_hand(&high, &low), Some(true));
    assert_eq!(gs.score_hand(&low, &high), Some(false));
    assert_eq!(gs.score_hand(&high, &high), None);
}

#[test]
fn trump_lead_wins_unless_overtrumped() {
    let mut gs = GameState::new(Some(0));
    gs.trump = Suit::Hearts;
    let lead = card(Rank::Five, Suit::Hearts);
    assert_eq!(gs.score_hand(&lead, &card(Rank::Ace, Suit::Spades)), Some(true));
    assert_eq!(gs.score_hand(&lead, &card(Rank::Two, Suit::Hearts)), Some(true));
    assert_eq!(gs.score_hand(&lead, &card(Rank::Ten, Suit::Hearts)), Some(false));
}

#[test]
fn void_hand_may_play_any_card() {
    // Player 1 holds no spades: every club in the hand is playable.
    let round = follow_position(all_clubs());
    let actions = round.possible_actions();
    assert_eq!(actions.len(), 13);
    for a in &actions {
        assert_eq!(a.player, 1);
        assert_eq!(a.card.suit, Suit::Clubs);
    }
    let mut round = round;
    let events = round
        .play_action(Action { player: 1, card: card(Rank::Two, Suit::Clubs) })
        .unwrap();
    // The off-suit, non-trump follow loses the trick to the leader.
    assert_eq!(round.active_player(), 0);
    assert_eq!(round.get_state().score, [1, 0]);
    assert_eq!(events[0].len(), 2);
    assert_eq!(events[1].len(), 2);
}

#[test]
fn must_follow_suit_when_able() {
    let mut hand1 = all_clubs();
    hand1.pop();
    hand1.push(card(Rank::Two, Suit::Spades));
    let round = follow_position(hand1);
    let actions = round.possible_actions();
    assert_eq!(actions.len(), 1);
    assert_eq!(actions[0].card, card(Rank::Two, Suit::Spades));
    let mut round = round;
    let err = round
        .play_action(Action { player: 1, card: card(Rank::Two, Suit::Clubs) })
        .unwrap_err();
    assert!(matches!(err, ActionError::NotFollowingSuit));
    // A rejected action leaves the engine untouched.
    assert_eq!(round.active_player(), 1);
    assert_eq!(round.get_state().hands[1].len(), 13);
}

#[test]
fn missing_card_and_wrong_player_are_rejected() {
    let mut round = follow_position(all_clubs());
    let err = round
        .play_action(Action { player: 1, card: card(Rank::Nine, Suit::Diamonds) })
        .unwrap_err();
    assert!(matches!(err, ActionError::MissingCard));
    let err = round
        .play_action(Action { player: 0, card: card(Rank::Two, Suit::Clubs) })
        .unwrap_err();
    assert!(matches!(err, ActionError::WrongPlayer(1)));
}

#[test]
fn no_actions_while_game_over() {
    let mut round = Round::new((0, 1));
    assert!(round.is_game_over());
    assert!(round.possible_actions().is_empty());
    let err = round
        .play_action(Action { player: 0, card: card(Rank::Two, Suit::Clubs) })
        .unwrap_err();
    assert!(matches!(err, ActionError::GameOver));
    assert!(round.winner().is_some());
}

#[test]
fn start_round_deals_13_each_and_reveals_trump() {
    let mut round = Round::new((0, 1));
    let events = round.start_round(Some(1));
    assert!(!round.is_game_over());
    assert_eq!(round.active_player(), 1);
    let gs = round.get_state();
    assert_eq!(gs.hands[0].len(), 13);
    assert_eq!(gs.hands[1].len(), 13);
    assert_eq!(gs.deck.num_cards_left(), 25);
    assert_eq!(gs.rounds_left, 26);
    let revealed = gs.revealed.unwrap();
    assert_eq!(gs.trump, revealed.suit);
    for (p, evs) in events.iter().enumerate() {
        assert_eq!(evs.len(), 1);
        match &evs[0] {
            GameEvent::Start(s) => {
                assert_eq!(s.hand, gs.hands[p]);
                assert_eq!(s.revealed, revealed);
                assert_eq!(s.trump, gs.trump);
                assert_eq!(s.starting_player, 1);
            },
            _ => panic!("expected a start event"),
        }
    }
}

#[test]
fn coin_flip_picks_a_valid_starter() {
    let mut round = Round::new((0, 1));
    round.start_round(None);
    assert!(round.active_player() <= 1);
    assert!(!round.is_game_over());
}

#[test]
fn rejected_actions_never_disturb_a_live_round() {
    let mut round = Round::new((0, 1));
    round.start_round(Some(0));
    while !round.is_game_over() {
        // Submitting for the wrong seat fails and changes nothing.
        let active = round.active_player();
        let other = 1 - active;
        let own_cards = round.get_state().hands[active].clone();
        let score = round.get_state().score;
        if !round.get_state().hands[other].is_empty() {
            let foreign = round.get_state().hands[other][0];
            let err = round.play_action(Action { player: other, card: foreign }).unwrap_err();
            assert!(matches!(err, ActionError::WrongPlayer(_)));
            // A card of the other hand is never accepted from the active seat.
            assert!(round.play_action(Action { player: active, card: foreign }).is_err());
        }
        assert_eq!(round.get_state().hands[active], own_cards);
        assert_eq!(round.get_state().score, score);
        assert_eq!(round.active_player(), active);
        // Every offered action names the active player and an owned card.
        let actions = round.possible_actions();
        for a in &actions {
            assert_eq!(a.player, active);
            assert!(own_cards.contains(&a.card));
        }
        round.play_action(actions[actions.len() - 1]).unwrap();
    }
}

#[test]
fn full_round_scores_13_points() {
    let mut round = Round::new((0, 1));
    round.start_round(Some(0));
    let mut tricks = 0;
    let mut plays = 0;
    while !round.is_game_over() {
        let actions = round.possible_actions();
        assert!(!actions.is_empty());
        let before = round.get_state().rounds_left;
        round.play_action(actions[0]).unwrap();
        plays += 1;
        if round.get_state().rounds_left < before {
            tricks += 1;
        }
        assert!(plays <= 52);
    }
    assert_eq!(tricks, 26);
    assert_eq!(plays, 52);
    let score = round.get_state().score;
    assert_eq!(score[0] + score[1], 13);
    let expected = if score[0] < score[1] { 1 } else { 0 };
    assert_eq!(round.winner(), Some(expected));
    assert_eq!(round.get_state().deck.num_cards_left(), 0);
    assert!(round.get_state().hands[0].is_empty());
    assert!(round.get_state().hands[1].is_empty());
}
