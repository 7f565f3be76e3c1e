//! The playing phase: legality of actions, the trick protocol, and
//! the structural invariant that ties deck, hands and tricks together.

use vstd::prelude::*;

use crate::cards::BasicCard;
use crate::engine::{Action, ActionError, CardEvent, GameEvent, ScoringRules, TrickEvent};
use crate::state::{
    all_cards, has_suit_spec, lead_wins, lemma_all_cards_mset, lemma_empty_mset,
    lemma_remove_value_mset, lemma_wf_disjoint, opt_cards, playable_cards_spec, GameState,
};

verus! {

broadcast use vstd::seq_lib::group_to_multiset_ensures, vstd::multiset::group_multiset_axioms;

/// The larger of the two per-trick point values.
pub open spec fn max_points(rules: ScoringRules) -> int {
    if rules.0 >= rules.1 {
        rules.0 as int
    } else {
        rules.1 as int
    }
}

/// The scores stay bounded by the tricks resolved so far, so they
/// never overflow over a 26-trick round.
pub open spec fn score_inv(gs: GameState, rules: ScoringRules) -> bool {
    &&& gs.score[0] + gs.score[1] <= (26 - gs.rounds_left) * max_points(rules)
    &&& 26 * max_points(rules) <= usize::MAX
    &&& gs.rounds_left <= 26
}

/// Deck and hand sizes per sub-phase; `n` is the size of the fuller
/// hand. While a card is revealed (build phase) hands stay at 13 and
/// the deck shrinks by two per trick; afterwards (score phase) the
/// deck is empty and hands shrink with the tricks left.
pub open spec fn phase_sizes(gs: GameState, n: int) -> bool {
    match gs.revealed {
        Some(_) => n == 13 && gs.deck@.len() == 2 * gs.rounds_left - 27 && gs.rounds_left >= 14,
        None => gs.deck@.len() == 0 && n == gs.rounds_left,
    }
}

/// Invariant of a state in play: cards are conserved, scores bounded,
/// and the deck and hand sizes match the trick protocol. With no card
/// led the hands are level; with one led the active player's hand is
/// one fuller than the leader's.
pub open spec fn playing_inv(gs: GameState, rules: ScoringRules) -> bool {
    &&& gs.wf()
    &&& score_inv(gs, rules)
    &&& 1 <= gs.rounds_left <= 26
    &&& match gs.played {
        None => {
            &&& gs.hands[0]@.len() == gs.hands[1]@.len()
            &&& phase_sizes(gs, gs.hands[0]@.len() as int)
        },
        Some(_) => {
            &&& gs.hands[gs.active as int]@.len() == gs.hands[1 - gs.active as int]@.len() + 1
            &&& phase_sizes(gs, gs.hands[gs.active as int]@.len() as int)
        },
    }
}

/// A game that has run its 26 tricks: everything is spent.
pub open spec fn finished_inv(gs: GameState, rules: ScoringRules) -> bool {
    &&& gs.wf()
    &&& score_inv(gs, rules)
    &&& gs.rounds_left == 0
    &&& gs.hands[0]@.len() == 0 && gs.hands[1]@.len() == 0
    &&& gs.deck@.len() == 0
    &&& gs.played is None && gs.revealed is None
}

/// An action is legal iff it comes from the active player, plays a
/// card that player holds, and follows the led suit whenever the hand
/// can follow.
pub open spec fn action_legal_state(gs: GameState, a: Action) -> bool {
    &&& a.player == gs.active
    &&& gs.hands[a.player as int]@.contains(a.card)
    &&& match gs.played {
        Some(l) => has_suit_spec(gs.hands[a.player as int]@, l.suit) ==> a.card.suit == l.suit,
        None => true,
    }
}

/// The error an illegal action draws, checked in this order: wrong
/// player, card not held, suit not followed. `None` iff legal.
pub open spec fn action_error(gs: GameState, a: Action) -> Option<ActionError> {
    if a.player != gs.active {
        Some(ActionError::WrongPlayer(gs.active))
    } else if !gs.hands[a.player as int]@.contains(a.card) {
        Some(ActionError::MissingCard)
    } else if match gs.played {
        Some(l) => has_suit_spec(gs.hands[a.player as int]@, l.suit) && a.card.suit != l.suit,
        None => false,
    } {
        Some(ActionError::NotFollowingSuit)
    } else {
        None
    }
}

/// An action is legal exactly when it draws no error.
pub proof fn lemma_legal_iff_no_error(gs: GameState, a: Action)
    ensures
        action_legal_state(gs, a) <==> action_error(gs, a) is None,
{
}

/// Player who takes the trick: the leader (who is not the active
/// player) iff the led card beats the follow.
pub open spec fn trick_winner(o: GameState, a: Action) -> int {
    if lead_wins(o.trump, o.played->Some_0, a.card) {
        1 - o.active as int
    } else {
        o.active as int
    }
}

/// Hand of player `p` once the follower's card has left, before any
/// pickup.
pub open spec fn mid_hand(o: GameState, a: Action, p: int) -> Seq<BasicCard> {
    if p == a.player as int {
        o.hands[p]@.remove_value(a.card)
    } else {
        o.hands[p]@
    }
}

/// How a legal lead changes the state: the card moves from the hand
/// to the led slot and the turn passes; nothing else moves.
pub open spec fn lead_transition(o: GameState, n: GameState, a: Action) -> bool {
    &&& n.deck@ == o.deck@
    &&& n.hands[a.player as int]@ == o.hands[a.player as int]@.remove_value(a.card)
    &&& n.hands[1 - a.player as int]@ == o.hands[1 - a.player as int]@
    &&& n.score[0] == o.score[0] && n.score[1] == o.score[1]
    &&& n.trump == o.trump
    &&& n.played == Some(a.card)
    &&& n.active == 1 - a.player
    &&& n.rounds_left == o.rounds_left
    &&& n.revealed == o.revealed
    &&& n.gone@ == o.gone@
}

/// How a legal follow changes the state: the winner is credited and
/// leads next, both trick cards leave play, and in the build phase
/// the winner takes the revealed card, the loser draws, and a new
/// card is revealed while the deck lasts.
pub open spec fn follow_transition(o: GameState, n: GameState, rules: ScoringRules, a: Action) -> bool {
    let lc = o.played->Some_0;
    let w = trick_winner(o, a);
    let l = 1 - w;
    &&& n.trump == o.trump
    &&& n.played is None
    &&& n.active == w
    &&& n.rounds_left == o.rounds_left - 1
    &&& n.gone@ == o.gone@ + seq![lc, a.card]
    &&& n.score[w] == o.score[w] + if o.revealed is Some {
        rules.0 as int
    } else {
        rules.1 as int
    }
    &&& n.score[l] == o.score[l]
    &&& if o.revealed is Some {
        &&& n.hands[w]@ == mid_hand(o, a, w).push(o.revealed->Some_0)
        &&& n.hands[l]@ == mid_hand(o, a, l).push(o.deck@.last())
        &&& if o.deck@.len() >= 2 {
            &&& n.revealed == Some(o.deck@[o.deck@.len() - 2])
            &&& n.deck@ == o.deck@.take(o.deck@.len() - 2)
        } else {
            &&& n.revealed is None
            &&& n.deck@ == o.deck@.take(o.deck@.len() - 1)
        }
    } else {
        &&& n.hands[w]@ == mid_hand(o, a, w)
        &&& n.hands[l]@ == mid_hand(o, a, l)
        &&& n.revealed is None
        &&& n.deck@ == o.deck@
    }
}

/// The trick event both players receive: who led, who leads next, the
/// two cards by player, the new revealed card and the score.
pub open spec fn is_trick_event(ev: GameEvent, o: GameState, n: GameState, a: Action) -> bool {
    match ev {
        GameEvent::Trick(te) => {
            &&& te.leading_player == 1 - o.active as int
            &&& te.active_player == n.active
            &&& te.cards_played[o.active as int] == a.card
            &&& te.cards_played[1 - o.active as int] == o.played->Some_0
            &&& te.revealed == n.revealed
            &&& te.score[0] == n.score[0] && te.score[1] == n.score[1]
        },
        _ => false,
    }
}

/// Events of a lead: the played card is public, both players see the
/// same single event.
pub open spec fn lead_events_ok(a: Action, evs: [Vec<GameEvent>; 2]) -> bool {
    &&& evs[0]@ == seq![GameEvent::Action(a)]
    &&& evs[1]@ == seq![GameEvent::Action(a)]
}

/// Events of a follow. Both players see the action, the winner's
/// pickup of the revealed card, and the trick summary. The card the
/// loser draws from the deck is disclosed to the loser alone: the
/// winner sees a card event with no card in it.
pub open spec fn follow_events_ok(
    o: GameState,
    n: GameState,
    a: Action,
    evs: [Vec<GameEvent>; 2],
) -> bool {
    let w = trick_winner(o, a);
    let l = 1 - w;
    if o.revealed is Some {
        &&& evs[w]@.len() == 4 && evs[l]@.len() == 4
        &&& evs[w]@[0] == GameEvent::Action(a) && evs[l]@[0] == GameEvent::Action(a)
        &&& evs[w]@[1] == GameEvent::Card(
            CardEvent { player: w as usize, card: Some(o.revealed->Some_0) },
        )
        &&& evs[l]@[1] == GameEvent::Card(
            CardEvent { player: w as usize, card: Some(o.revealed->Some_0) },
        )
        &&& evs[w]@[2] == GameEvent::Card(CardEvent { player: l as usize, card: None })
        &&& evs[l]@[2] == GameEvent::Card(
            CardEvent { player: l as usize, card: Some(o.deck@.last()) },
        )
        &&& is_trick_event(evs[w]@[3], o, n, a) && is_trick_event(evs[l]@[3], o, n, a)
    } else {
        &&& evs[w]@.len() == 2 && evs[l]@.len() == 2
        &&& evs[w]@[0] == GameEvent::Action(a) && evs[l]@[0] == GameEvent::Action(a)
        &&& is_trick_event(evs[w]@[1], o, n, a) && is_trick_event(evs[l]@[1], o, n, a)
    }
}

/// All legal moves of the active player: one action per playable
/// card. Sound (every listed action is legal), complete (every legal
/// action is listed), and nonempty while the active player has cards.
pub fn possible_actions(gs: &GameState) -> (r: Vec<Action>)
    requires
        gs.active <= 1,
    ensures
        r@.len() == playable_cards_spec(gs.hands[gs.active as int]@, gs.played).len(),
        forall|i: int|
            0 <= i < r@.len() ==> r@[i] == (Action {
                player: gs.active,
                card: playable_cards_spec(gs.hands[gs.active as int]@, gs.played)[i],
            }),
        forall|i: int| 0 <= i < r@.len() ==> #[trigger] action_legal_state(*gs, r@[i]),
        forall|c: BasicCard|
            action_legal_state(*gs, Action { player: gs.active, card: c }) ==> r@.contains(
                Action { player: gs.active, card: c },
            ),
        gs.hands[gs.active as int]@.len() > 0 ==> r@.len() > 0,
{
    let view = gs.player_view(gs.active);
    let cards = view.playable_cards();
    let mut r: Vec<Action> = Vec::new();
    let mut i: usize = 0;
    while i < cards.len()
        invariant
            i <= cards@.len(),
            r@.len() == i,
            forall|j: int| 0 <= j < i ==> r@[j] == (Action { player: gs.active, card: cards@[j] }),
        decreases cards@.len() - i,
    {
        r.push(Action { player: gs.active, card: cards[i] });
        i = i + 1;
    }
    proof {
        assert forall|i2: int| 0 <= i2 < r@.len() implies #[trigger] action_legal_state(
            *gs,
            r@[i2],
        ) by {
            assert(cards@.contains(cards@[i2]));
        }
        assert forall|c: BasicCard|
            action_legal_state(*gs, Action { player: gs.active, card: c }) implies r@.contains(
            Action { player: gs.active, card: c },
        ) by {
            assert(cards@.contains(c));
            let j = choose|j: int| 0 <= j < cards@.len() && cards@[j] == c;
            assert(r@[j] == (Action { player: gs.active, card: c }));
        }
        if gs.hands[gs.active as int]@.len() > 0 {
            assert(cards@.len() > 0);
        }
    }
    r
}

/// Play one card. A rejected action leaves the state untouched and
/// reports why; an accepted lead or follow advances the trick as the
/// transition predicates describe and returns each player's events.
#[verifier::rlimit(100)]
pub fn on_action(gs: &mut GameState, rules: &ScoringRules, action: Action) -> (r: Result<
    [Vec<GameEvent>; 2],
    ActionError,
>)
    requires
        playing_inv(*old(gs), *rules),
    ensures
        match action_error(*old(gs), action) {
            Some(e) => r == Err::<[Vec<GameEvent>; 2], ActionError>(e) && *final(gs) == *old(gs),
            None => {
                &&& r is Ok
                &&& if old(gs).played is None {
                    &&& lead_transition(*old(gs), *final(gs), action)
                    &&& lead_events_ok(action, r->Ok_0)
                    &&& playing_inv(*final(gs), *rules)
                } else {
                    &&& follow_transition(*old(gs), *final(gs), *rules, action)
                    &&& follow_events_ok(*old(gs), *final(gs), action, r->Ok_0)
                    &&& final(gs).rounds_left >= 1 ==> playing_inv(*final(gs), *rules)
                    &&& final(gs).rounds_left == 0 ==> finished_inv(*final(gs), *rules)
                }
            },
        },
{
    let ghost o = *old(gs);
    if action.player != gs.active {
        return Err(ActionError::WrongPlayer(gs.active));
    }
    if !gs.has_card(action.player, action.card) {
        return Err(ActionError::MissingCard);
    }
    let played = gs.played;
    match played {
        None => {
            let _ = gs.remove_card(action.player, action.card);
            gs.played = Some(action.card);
            gs.active = 1 - gs.active;
            let mut ev0: Vec<GameEvent> = Vec::new();
            ev0.push(GameEvent::Action(action));
            let mut ev1: Vec<GameEvent> = Vec::new();
            ev1.push(GameEvent::Action(action));
            proof {
                lemma_lead_preserves_inv(o, *gs, *rules, action);
                assert(ev0@ =~= seq![GameEvent::Action(action)]);
                assert(ev1@ =~= seq![GameEvent::Action(action)]);
            }
            Ok([ev0, ev1])
        },
        Some(leading_card) => {
            if gs.has_suit(action.player, leading_card.suit) && action.card.suit
                != leading_card.suit {
                return Err(ActionError::NotFollowingSuit);
            }
            let lead_p = 1 - gs.active;
            let follow_p = gs.active;
            let _ = gs.remove_card(follow_p, action.card);
            proof {
                lemma_wf_disjoint(o);
            }
            let winner = match gs.score_hand(&leading_card, &action.card) {
                Some(true) => lead_p,
                Some(false) => follow_p,
                None => vstd::pervasive::unreached(),
            };
            let loser = 1 - winner;
            gs.played = None;
            let mut ev_w: Vec<GameEvent> = Vec::new();
            let mut ev_l: Vec<GameEvent> = Vec::new();
            ev_w.push(GameEvent::Action(action));
            ev_l.push(GameEvent::Action(action));
            let revealed = gs.revealed;
            proof {
                lemma_score_step(o, *rules);
            }
            match revealed {
                Some(rc) => {
                    gs.revealed = None;
                    gs.add_card(winner, rc);
                    ev_w.push(GameEvent::Card(CardEvent { player: winner, card: Some(rc) }));
                    ev_l.push(GameEvent::Card(CardEvent { player: winner, card: Some(rc) }));
                    let drawn = match gs.draw() {
                        Some(d) => d,
                        None => vstd::pervasive::unreached(),
                    };
                    gs.add_card(loser, drawn);
                    ev_l.push(GameEvent::Card(CardEvent { player: loser, card: Some(drawn) }));
                    ev_w.push(GameEvent::Card(CardEvent { player: loser, card: None }));
                    if gs.deck.num_cards_left() > 0 {
                        gs.revealed = gs.draw();
                    }
                    gs.increment_score(winner, rules.0);
                },
                None => {
                    gs.increment_score(winner, rules.1);
                },
            }
            gs.active = winner;
            gs.rounds_left = gs.rounds_left - 1;
            gs.gone = Ghost(gs.gone@ + seq![leading_card, action.card]);
            let cards_played: [BasicCard; 2] = if lead_p == 0 {
                [leading_card, action.card]
            } else {
                [action.card, leading_card]
            };
            let te = TrickEvent {
                leading_player: lead_p,
                active_player: gs.active,
                cards_played,
                revealed: gs.revealed,
                score: gs.score,
            };
            ev_w.push(GameEvent::Trick(te));
            ev_l.push(GameEvent::Trick(te));
            proof {
                let ld = o.deck@.len();
                assert(winner == trick_winner(o, action));
                if o.revealed is Some {
                    if ld >= 2 {
                        assert(gs.deck@ =~= o.deck@.take(ld - 2));
                        assert(o.deck@.drop_last().last() == o.deck@[ld - 2]);
                    } else {
                        assert(gs.deck@ =~= o.deck@.take(ld - 1));
                    }
                }
                assert(follow_transition(o, *gs, *rules, action));
                lemma_follow_preserves_inv(o, *gs, *rules, action);
                if o.revealed is Some {
                    assert(ev_w@ =~= seq![
                        GameEvent::Action(action),
                        GameEvent::Card(
                            CardEvent { player: winner, card: Some(o.revealed->Some_0) },
                        ),
                        GameEvent::Card(CardEvent { player: loser, card: None }),
                        GameEvent::Trick(te),
                    ]);
                    assert(ev_l@ =~= seq![
                        GameEvent::Action(action),
                        GameEvent::Card(
                            CardEvent { player: winner, card: Some(o.revealed->Some_0) },
                        ),
                        GameEvent::Card(CardEvent { player: loser, card: Some(o.deck@.last()) }),
                        GameEvent::Trick(te),
                    ]);
                } else {
                    assert(ev_w@ =~= seq![GameEvent::Action(action), GameEvent::Trick(te)]);
                    assert(ev_l@ =~= seq![GameEvent::Action(action), GameEvent::Trick(te)]);
                }
                assert(is_trick_event(GameEvent::Trick(te), o, *gs, action));
            }
            if winner == 0 {
                Ok([ev_w, ev_l])
            } else {
                Ok([ev_l, ev_w])
            }
        },
    }
}

/// A legal lead keeps the playing invariant: one card moves from the
/// active hand to the led slot.
proof fn lemma_lead_preserves_inv(o: GameState, n: GameState, rules: ScoringRules, a: Action)
    requires
        playing_inv(o, rules),
        o.played is None,
        action_error(o, a) is None,
        lead_transition(o, n, a),
    ensures
        playing_inv(n, rules),
{
    let ap = a.player as int;
    lemma_all_cards_mset(o);
    lemma_all_cards_mset(n);
    lemma_remove_value_mset(o.hands[ap]@, a.card);
    lemma_empty_mset();
    assert(opt_cards(n.played) =~= Seq::<BasicCard>::empty().push(a.card));
    assert(opt_cards(o.played) =~= Seq::<BasicCard>::empty());
    assert(all_cards(n).to_multiset() =~= all_cards(o).to_multiset());
}

/// Score arithmetic for one resolved trick: the winner's new score
/// stays within the bound for one fewer trick left.
proof fn lemma_score_step(o: GameState, rules: ScoringRules)
    requires
        score_inv(o, rules),
        o.rounds_left >= 1,
    ensures
        o.score[0] + max_points(rules) <= usize::MAX,
        o.score[1] + max_points(rules) <= usize::MAX,
        o.score[0] + o.score[1] + max_points(rules) <= (26 - (o.rounds_left - 1)) * max_points(
            rules,
        ),
{
    let m = max_points(rules);
    let d = 26 - o.rounds_left as int;
    assert((d + 1) * m == d * m + m) by (nonlinear_arith);
    assert(d * m + m <= 26 * m) by (nonlinear_arith)
        requires
            0 <= d <= 25,
            m >= 0,
    ;
}

/// A completed trick conserves the cards: the two trick cards move to
/// the spent pile, and any pickups move cards between deck, revealed
/// slot and hands.
proof fn lemma_follow_mset(o: GameState, n: GameState, rules: ScoringRules, a: Action)
    requires
        playing_inv(o, rules),
        o.played is Some,
        action_error(o, a) is None,
        follow_transition(o, n, rules, a),
    ensures
        all_cards(n).to_multiset() == all_cards(o).to_multiset(),
{
    if o.revealed is Some {
        lemma_follow_mset_build(o, n, rules, a);
    } else {
        lemma_follow_mset_score(o, n, rules, a);
    }
}

/// Card conservation for a build-phase trick: the winner takes the
/// revealed card, the loser draws, a new card may be revealed.
#[verifier::spinoff_prover]
#[verifier::rlimit(100)]
proof fn lemma_follow_mset_build(o: GameState, n: GameState, rules: ScoringRules, a: Action)
    requires
        playing_inv(o, rules),
        o.played is Some,
        o.revealed is Some,
        action_error(o, a) is None,
        follow_transition(o, n, rules, a),
    ensures
        all_cards(n).to_multiset() == all_cards(o).to_multiset(),
{
    let ap = a.player as int;
    let lc = o.played->Some_0;
    let fh = o.hands[ap]@;
    lemma_all_cards_mset(o);
    lemma_all_cards_mset(n);
    lemma_remove_value_mset(fh, a.card);
    lemma_empty_mset();
    assert(opt_cards(o.played) =~= Seq::<BasicCard>::empty().push(lc));
    assert(opt_cards(n.played) =~= Seq::<BasicCard>::empty());
    assert(n.gone@.to_multiset() =~= o.gone@.to_multiset().insert(lc).insert(a.card)) by {
        assert(n.gone@ =~= o.gone@.push(lc).push(a.card));
    }
    let ld = o.deck@.len();
    assert(opt_cards(o.revealed) =~= Seq::<BasicCard>::empty().push(o.revealed->Some_0));
    if ld >= 2 {
        assert(o.deck@ =~= o.deck@.take(ld - 2) + Seq::<BasicCard>::empty().push(
            o.deck@[ld - 2],
        ).push(o.deck@[ld - 1]));
        vstd::seq_lib::lemma_multiset_commutative(
            o.deck@.take(ld - 2),
            Seq::<BasicCard>::empty().push(o.deck@[ld - 2]).push(o.deck@[ld - 1]),
        );
        assert(opt_cards(n.revealed) =~= Seq::<BasicCard>::empty().push(o.deck@[ld - 2]));
        assert(o.deck@.last() == o.deck@[ld - 1]);
        assert(all_cards(n).to_multiset() =~= all_cards(o).to_multiset());
    } else {
        assert(ld == 1);
        assert(o.deck@ =~= Seq::<BasicCard>::empty().push(o.deck@[0]));
        assert(o.deck@.last() == o.deck@[0]);
        assert(n.deck@ =~= Seq::<BasicCard>::empty());
        assert(o.deck@.to_multiset() == n.deck@.to_multiset().insert(o.deck@.last()));
        assert(opt_cards(n.revealed) =~= Seq::<BasicCard>::empty());
        assert(all_cards(n).to_multiset() =~= all_cards(o).to_multiset());
    }
}

/// Card conservation for a score-phase trick: only the two trick
/// cards move, from hand and led slot to the spent pile.
#[verifier::spinoff_prover]
#[verifier::rlimit(100)]
proof fn lemma_follow_mset_score(o: GameState, n: GameState, rules: ScoringRules, a: Action)
    requires
        playing_inv(o, rules),
        o.played is Some,
        o.revealed is None,
        action_error(o, a) is None,
        follow_transition(o, n, rules, a),
    ensures
        all_cards(n).to_multiset() == all_cards(o).to_multiset(),
{
    let ap = a.player as int;
    let lc = o.played->Some_0;
    let fh = o.hands[ap]@;
    lemma_all_cards_mset(o);
    lemma_all_cards_mset(n);
    lemma_remove_value_mset(fh, a.card);
    lemma_empty_mset();
    assert(opt_cards(o.played) =~= Seq::<BasicCard>::empty().push(lc));
    assert(opt_cards(n.played) =~= Seq::<BasicCard>::empty());
    assert(n.gone@.to_multiset() =~= o.gone@.to_multiset().insert(lc).insert(a.card)) by {
        assert(n.gone@ =~= o.gone@.push(lc).push(a.card));
    }
    assert(all_cards(n).to_multiset() =~= all_cards(o).to_multiset());
}

/// A legal follow keeps the invariants: the two trick cards leave
/// play, pickups rebalance the hands, and the deck bookkeeping
/// matches the sub-phase.
proof fn lemma_follow_preserves_inv(o: GameState, n: GameState, rules: ScoringRules, a: Action)
    requires
        playing_inv(o, rules),
        o.played is Some,
        action_error(o, a) is None,
        follow_transition(o, n, rules, a),
    ensures
        n.rounds_left >= 1 ==> playing_inv(n, rules),
        n.rounds_left == 0 ==> finished_inv(n, rules),
{
    let ap = a.player as int;
    lemma_follow_mset(o, n, rules, a);
    lemma_remove_value_mset(o.hands[ap]@, a.card);
    lemma_score_step(o, rules);
    assert((26 - n.rounds_left) * max_points(rules) == (26 - (o.rounds_left - 1)) * max_points(
        rules,
    ));
}

} // verus!
