//! The round engine: actions, events, errors, and the `Round` driver.

use vstd::prelude::*;

use crate::cards::{BasicCard, Suit};
use crate::phase::{
    action_error, action_legal_state, finished_inv, follow_events_ok, follow_transition,
    lead_events_ok, lead_transition, max_points, on_action, playing_inv,
};
use crate::state::{
    all_cards, clone_cards, lemma_wf_distinct, opt_cards, playable_cards_spec, GameState,
    PlayerView,
};

verus! {

/// A move: the given player plays the given card.
#[derive(Clone, Copy, Debug, PartialEq, Eq, Structural)]
pub struct Action {
    pub player: usize,
    pub card: BasicCard,
}

/// Why an action was rejected. The engine rejects rather than panics,
/// and a rejected action leaves the state untouched.
#[derive(Clone, Copy, Debug, PartialEq, Eq, Structural)]
pub enum ActionError {
    /// The submitting player is not the active one; carries the
    /// player whose turn it is.
    WrongPlayer(usize),
    /// The active player does not hold the card.
    MissingCard,
    /// The active player holds the led suit but played another.
    NotFollowingSuit,
    /// No round is being played.
    GameOver,
}

/// A trick was resolved.
#[derive(Clone, Copy, Debug)]
pub struct TrickEvent {
    /// Who led the trick.
    pub leading_player: usize,
    /// Who starts the next trick (the winner).
    pub active_player: usize,
    /// Cards played during the trick, indexed by player.
    pub cards_played: [BasicCard; 2],
    /// The newly revealed card, if any.
    pub revealed: Option<BasicCard>,
    /// Score after the trick.
    pub score: [usize; 2],
}

/// A round started; each player receives a view holding only their
/// own hand together with the public fields.
#[derive(Clone, Debug)]
pub struct StartRoundEvent {
    pub hand: Vec<BasicCard>,
    pub revealed: BasicCard,
    pub trump: Suit,
    pub starting_player: usize,
}

/// A player received a card. `card` is `None` when the recipient's
/// draw is hidden from the player this event is delivered to.
#[derive(Clone, Copy, Debug, PartialEq, Eq, Structural)]
pub struct CardEvent {
    pub player: usize,
    pub card: Option<BasicCard>,
}

/// Everything a player can observe, as emitted by the engine.
#[derive(Clone, Debug)]
pub enum GameEvent {
    Action(Action),
    Trick(TrickEvent),
    Card(CardEvent),
    Start(StartRoundEvent),
}

/// Points for winning a trick in the build phase, then in the score
/// phase. The conventional value is `(0, 1)`.
pub type ScoringRules = (usize, usize);

/// Whether a round is being played or is over.
#[derive(Clone, Copy, Debug, PartialEq, Eq, Structural)]
pub enum Phase {
    Playing,
    GameOver,
}

/// Relies on `rand::random::<bool>`: an arbitrary coin flip.
#[verifier::external_body]
fn random_bool() -> bool {
    rand::random::<bool>()
}

/// The start event the given player receives: their own hand and the
/// public fields, nothing of the other hand.
pub open spec fn is_start_event(ev: GameEvent, gs: GameState, p: int) -> bool {
    match ev {
        GameEvent::Start(s) => {
            &&& s.hand@ == gs.hands[p]@
            &&& gs.revealed == Some(s.revealed)
            &&& s.trump == gs.trump
            &&& s.starting_player == gs.active
        },
        _ => false,
    }
}

/// Each player's start-of-round event stream: one start event each,
/// holding only that player's hand.
pub open spec fn is_start_events(gs: GameState, evs: [Vec<GameEvent>; 2]) -> bool {
    &&& evs[0]@.len() == 1 && is_start_event(evs[0]@[0], gs, 0)
    &&& evs[1]@.len() == 1 && is_start_event(evs[1]@[0], gs, 1)
}

/// Game engine for a round of German Whist.
pub struct Round {
    /// Authoritative state of the current round.
    pub state: GameState,
    /// Whether the round is still being played.
    pub phase: Phase,
    /// Points per trick in the build and the score phase.
    pub rules: ScoringRules,
}

/// The error an action draws at the engine: anything while the game
/// is over, otherwise whatever the playing phase rejects.
pub open spec fn round_action_error(r: Round, a: Action) -> Option<ActionError> {
    match r.phase {
        Phase::GameOver => Some(ActionError::GameOver),
        Phase::Playing => action_error(r.state, a),
    }
}

impl Round {
    /// The engine's invariant: the scores cannot overflow, the state
    /// conserves the 52 cards, and in play the full structural
    /// invariant of the phase holds.
    pub open spec fn inv(&self) -> bool {
        &&& 26 * max_points(self.rules) <= usize::MAX
        &&& match self.phase {
            Phase::Playing => playing_inv(self.state, self.rules),
            Phase::GameOver => self.state.wf(),
        }
    }

    /// An action the engine accepts: the round is in play and the
    /// action is legal in the current state.
    pub open spec fn action_legal(&self, a: Action) -> bool {
        self.phase == Phase::Playing && action_legal_state(self.state, a)
    }

    /// A fresh engine: no round is being played yet.
    pub fn new(rules: ScoringRules) -> (r: Round)
        requires
            26 * max_points(rules) <= usize::MAX,
        ensures
            r.inv(),
            r.phase == Phase::GameOver,
            r.rules == rules,
    {
        let state = GameState::new(Some(0));
        Round { state, phase: Phase::GameOver, rules }
    }

    /// Deal and start a new round. With no starting player given, one
    /// is picked by a coin flip. Returns one start event per player,
    /// each holding only that player's own hand.
    pub fn start_round(&mut self, starting_player: Option<usize>) -> (evs: [Vec<GameEvent>; 2])
        requires
            old(self).inv(),
            match starting_player {
                Some(p) => p <= 1,
                None => true,
            },
        ensures
            final(self).inv(),
            final(self).rules == old(self).rules,
            final(self).phase == Phase::Playing,
            playing_inv(final(self).state, final(self).rules),
            final(self).state.rounds_left == 26,
            final(self).state.score[0] == 0 && final(self).state.score[1] == 0,
            final(self).state.played is None,
            final(self).state.revealed is Some,
            final(self).state.trump == final(self).state.revealed->Some_0.suit,
            final(self).state.hands[0]@.len() == 13 && final(self).state.hands[1]@.len() == 13,
            match starting_player {
                Some(p) => final(self).state.active == p,
                None => final(self).state.active <= 1,
            },
            is_start_events(final(self).state, evs),
    {
        let start: usize = match starting_player {
            Some(p) => p,
            None => if random_bool() {
                1
            } else {
                0
            },
        };
        self.phase = Phase::Playing;
        self.state = GameState::new(Some(start));
        let revealed = match self.state.revealed {
            Some(c) => c,
            None => vstd::pervasive::unreached(),
        };
        let s0 = StartRoundEvent {
            hand: clone_cards(&self.state.hands[0]),
            revealed,
            trump: self.state.trump,
            starting_player: start,
        };
        let s1 = StartRoundEvent {
            hand: clone_cards(&self.state.hands[1]),
            revealed,
            trump: self.state.trump,
            starting_player: start,
        };
        let mut ev0: Vec<GameEvent> = Vec::new();
        ev0.push(GameEvent::Start(s0));
        let mut ev1: Vec<GameEvent> = Vec::new();
        ev1.push(GameEvent::Start(s1));
        [ev0, ev1]
    }

    /// The authoritative state, for inspection.
    pub fn get_state(&self) -> (r: &GameState)
        ensures
            r == &self.state,
    {
        &self.state
    }

    /// Whose turn it is.
    pub fn active_player(&self) -> (r: usize)
        ensures
            r == self.state.active,
    {
        self.state.active
    }

    /// The active player's view of the state.
    pub fn active_player_view(&self) -> (r: PlayerView)
        requires
            self.inv(),
        ensures
            r.hand@ == self.state.hands[self.state.active as int]@,
            r.player == self.state.active,
            r.revealed == self.state.revealed,
            r.leading_card == self.state.played,
            r.trump == self.state.trump,
            r.score == self.state.score,
    {
        self.state.player_view(self.state.active)
    }

    /// True iff no round is being played.
    pub fn is_game_over(&self) -> (r: bool)
        ensures
            r == (self.phase == Phase::GameOver),
    {
        match self.phase {
            Phase::GameOver => true,
            Phase::Playing => false,
        }
    }

    /// The player with the higher score once the game is over, ties
    /// going to player 0; `None` while the round is in play.
    pub fn winner(&self) -> (r: Option<usize>)
        ensures
            self.phase == Phase::Playing ==> r is None,
            self.phase == Phase::GameOver ==> r == Some(
                if self.state.score[0] < self.state.score[1] {
                    1usize
                } else {
                    0usize
                },
            ),
    {
        if self.is_game_over() {
            Some(
                if self.state.score[0] < self.state.score[1] {
                    1
                } else {
                    0
                },
            )
        } else {
            None
        }
    }

    /// The current phase.
    pub fn get_phase(&self) -> (r: Phase)
        ensures
            r == self.phase,
    {
        self.phase
    }

    /// All legal moves: one action per playable card of the active
    /// hand, in hand order; sound, complete, and empty exactly when
    /// the game is over.
    pub fn possible_actions(&self) -> (r: Vec<Action>)
        requires
            self.inv(),
        ensures
            self.phase == Phase::Playing ==> {
                let cards = playable_cards_spec(
                    self.state.hands[self.state.active as int]@,
                    self.state.played,
                );
                &&& r@.len() == cards.len()
                &&& forall|i: int|
                    0 <= i < r@.len() ==> r@[i] == (Action {
                        player: self.state.active,
                        card: cards[i],
                    })
            },
            forall|i: int| 0 <= i < r@.len() ==> #[trigger] self.action_legal(r@[i]),
            forall|c: BasicCard|
                self.action_legal(Action { player: self.state.active, card: c }) ==> r@.contains(
                    Action { player: self.state.active, card: c },
                ),
            r@.len() > 0 <==> self.phase == Phase::Playing,
    {
        match self.phase {
            Phase::GameOver => Vec::new(),
            Phase::Playing => {
                let r = crate::phase::possible_actions(&self.state);
                proof {
                    let gs = self.state;
                    if gs.played is Some {
                        assert(gs.hands[gs.active as int]@.len() > 0);
                    } else {
                        assert(gs.hands[gs.active as int]@.len() == gs.hands[0]@.len());
                        assert(gs.hands[0]@.len() > 0);
                    }
                }
                r
            },
        }
    }

    /// Play one card. A rejected action reports why and changes
    /// nothing; an accepted one advances the trick, and the round
    /// ends after the 26th trick.
    pub fn play_action(&mut self, action: Action) -> (r: Result<[Vec<GameEvent>; 2], ActionError>)
        requires
            old(self).inv(),
        ensures
            final(self).inv(),
            final(self).rules == old(self).rules,
            match round_action_error(*old(self), action) {
                Some(e) => {
                    &&& r == Err::<[Vec<GameEvent>; 2], ActionError>(e)
                    &&& final(self).state == old(self).state
                    &&& final(self).phase == old(self).phase
                },
                None => {
                    &&& r is Ok
                    &&& if old(self).state.played is None {
                        &&& lead_transition(old(self).state, final(self).state, action)
                        &&& lead_events_ok(action, r->Ok_0)
                        &&& final(self).phase == Phase::Playing
                    } else {
                        &&& follow_transition(
                            old(self).state,
                            final(self).state,
                            old(self).rules,
                            action,
                        )
                        &&& follow_events_ok(old(self).state, final(self).state, action, r->Ok_0)
                        &&& final(self).phase == if final(self).state.rounds_left == 0 {
                            Phase::GameOver
                        } else {
                            Phase::Playing
                        }
                    }
                },
            },
    {
        match self.phase {
            Phase::GameOver => Err(ActionError::GameOver),
            Phase::Playing => {
                match on_action(&mut self.state, &self.rules, action) {
                    Ok(evs) => {
                        if self.state.rounds_left == 0 {
                            self.phase = Phase::GameOver;
                        }
                        Ok(evs)
                    },
                    Err(e) => Err(e),
                }
            },
        }
    }
}

/// Every engine state accounts for all 52 cards, each exactly once:
/// the deck, the two hands, the revealed card, the led card and the
/// pile of spent cards are disjoint and sum to the whole deck.
pub proof fn lemma_card_conservation(r: Round)
    requires
        r.inv(),
    ensures
        r.state.hands[0]@.len() + r.state.hands[1]@.len() + r.state.deck@.len() + opt_cards(
            r.state.revealed,
        ).len() + opt_cards(r.state.played).len() + r.state.gone@.len() == 52,
        all_cards(r.state).no_duplicates(),
{
    lemma_wf_distinct(r.state);
}

} // verus!
