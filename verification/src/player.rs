//! Per-player observer: replays the events delivered to one player
//! into that player's view of the round.
//!
//! The observer's value is captured by [`ObserverModel`], and every
//! event update is the pure function [`observer_step`] of the prior
//! model and the event alone. Replaying a stream of events is
//! therefore deterministic, and rebuilding from scratch agrees with
//! incremental updates ([`lemma_replay_append`],
//! [`lemma_replay_deterministic`]).

use vstd::prelude::*;
use vstd::relations::{sorted_by, total_ordering};

use crate::cards::{rank_ord, suit_ord, BasicCard, Suit};
use crate::engine::GameEvent;
use crate::hand_belief::{sat_add, CardState, HandBelief};
use crate::state::{cards_contain, clone_cards, remove_first_card};

verus! {

broadcast use

    vstd::seq_lib::group_to_multiset_ensures,
    vstd::multiset::group_multiset_axioms,
    vstd::map::group_map_axioms,
;

/// The four suits in canonical order.
pub open spec fn all_suits() -> Seq<Suit> {
    Seq::new(4, |i: int| crate::cards::suit_from_ord(i))
}

/// Number of cards of the suit in the hand.
pub open spec fn suit_count(h: Seq<BasicCard>, s: Suit) -> int {
    h.filter(|c: BasicCard| c.suit == s).len() as int
}

/// Suit order for the feature layout: the trump suit first, then
/// suits holding more cards, ties broken by the canonical ordinal.
pub open spec fn suit_le(trump: Suit, h: Seq<BasicCard>, a: Suit, b: Suit) -> bool {
    let ta: int = if a == trump {
        0
    } else {
        1
    };
    let tb: int = if b == trump {
        0
    } else {
        1
    };
    ||| ta < tb
    ||| (ta == tb && suit_count(h, a) > suit_count(h, b))
    ||| (ta == tb && suit_count(h, a) == suit_count(h, b) && suit_ord(a) <= suit_ord(b))
}

/// The suit order is a total order: reflexive, antisymmetric,
/// transitive and strongly connected.
proof fn lemma_suit_le_total(trump: Suit, h: Seq<BasicCard>)
    ensures
        total_ordering(|a: Suit, b: Suit| suit_le(trump, h, a, b)),
{
    let leq = |a: Suit, b: Suit| suit_le(trump, h, a, b);
    assert forall|a: Suit, b: Suit| #[trigger] leq(a, b) && #[trigger] leq(b, a) implies a == b by {
        if suit_ord(a) == suit_ord(b) {
            assert(a == b);
        }
    }
    assert forall|a: Suit, b: Suit| #[trigger] leq(a, b) || #[trigger] leq(b, a) by {}
    assert forall|a: Suit| #[trigger] leq(a, a) by {}
    assert forall|a: Suit, b: Suit, c: Suit| #[trigger] leq(a, b) && #[trigger] leq(b, c) implies
        leq(a, c) by {}
}

/// The suit ordering the feature layout uses, as a function of trump
/// and hand.
pub open spec fn suit_order_spec(trump: Suit, h: Seq<BasicCard>) -> Seq<Suit> {
    all_suits().sort_by(|a: Suit, b: Suit| suit_le(trump, h, a, b))
}

/// A sequence of suits sorted by the suit order.
pub open spec fn sorted_suit_seq(q: Seq<Suit>, trump: Suit, h: Seq<BasicCard>) -> bool {
    forall|i: int, j: int| 0 <= i < j < q.len() ==> suit_le(trump, h, q[i], q[j])
}

/// Count the cards of the suit in the hand.
fn count_suit(hand: &Vec<BasicCard>, s: Suit) -> (r: usize)
    ensures
        r == suit_count(hand@, s),
{
    let mut cnt: usize = 0;
    let mut i: usize = 0;
    while i < hand.len()
        invariant
            i <= hand@.len(),
            cnt == suit_count(hand@.take(i as int), s),
            cnt <= i,
        decreases hand@.len() - i,
    {
        proof {
            reveal(Seq::filter);
            let t1 = hand@.take(i + 1);
            assert(t1.drop_last() =~= hand@.take(i as int));
            assert(t1.last() == hand@[i as int]);
            hand@.take(i + 1).lemma_filter_len(|c: BasicCard| c.suit == s);
        }
        if hand[i].suit == s {
            cnt = cnt + 1;
        }
        i = i + 1;
    }
    proof {
        assert(hand@.take(hand@.len() as int) =~= hand@);
    }
    cnt
}

/// Decide the suit order between two suits.
fn suit_le_exec(trump: Suit, hand: &Vec<BasicCard>, a: Suit, b: Suit) -> (r: bool)
    ensures
        r == suit_le(trump, hand@, a, b),
{
    let ta: u8 = if a == trump {
        0
    } else {
        1
    };
    let tb: u8 = if b == trump {
        0
    } else {
        1
    };
    if ta != tb {
        return ta < tb;
    }
    let ca = count_suit(hand, a);
    let cb = count_suit(hand, b);
    if ca != cb {
        return ca > cb;
    }
    a.ord() <= b.ord()
}

/// Insert one suit into a sorted run, keeping it sorted.
fn insert_sorted(v: &mut Vec<Suit>, trump: Suit, hand: &Vec<BasicCard>, x: Suit)
    requires
        sorted_suit_seq(old(v)@, trump, hand@),
        old(v)@.len() < 4,
    ensures
        sorted_suit_seq(final(v)@, trump, hand@),
        final(v)@.to_multiset() == old(v)@.to_multiset().insert(x),
        final(v)@.len() == old(v)@.len() + 1,
{
    let ghost orig = v@;
    let mut j: usize = 0;
    while j < v.len()
        invariant_except_break
            v@ == orig,
            sorted_suit_seq(orig, trump, hand@),
            j <= orig.len(),
            forall|k: int| 0 <= k < j ==> suit_le(trump, hand@, orig[k], x),
        ensures
            v@ == orig,
            j <= orig.len(),
            forall|k: int| 0 <= k < j ==> suit_le(trump, hand@, orig[k], x),
            j < orig.len() ==> suit_le(trump, hand@, x, orig[j as int]),
        decreases orig.len() - j,
    {
        if suit_le_exec(trump, hand, x, v[j]) {
            break ;
        }
        proof {
            lemma_suit_le_total(trump, hand@);
            let leq = |a: Suit, b: Suit| suit_le(trump, hand@, a, b);
            assert(leq(orig[j as int], x) || leq(x, orig[j as int]));
        }
        j = j + 1;
    }
    v.insert(j, x);
    proof {
        vstd::seq_lib::to_multiset_insert(orig, j as int, x);
        orig.insert_ensures(j as int, x);
        let newv = v@;
        lemma_suit_le_total(trump, hand@);
        let leq = |a: Suit, b: Suit| suit_le(trump, hand@, a, b);
        assert forall|i: int, k: int| 0 <= i < k < newv.len() implies suit_le(
            trump,
            hand@,
            newv[i],
            newv[k],
        ) by {
            if i < j && k == j {
            } else if i == j && k > j {
                if k - 1 > j {
                    assert(leq(x, orig[j as int]) && leq(orig[j as int], orig[k - 1]));
                }
            } else if i < j && k > j {
                if j < orig.len() {
                    assert(leq(orig[i], x) || (leq(orig[i], orig[j as int]) && leq(
                        orig[j as int],
                        x,
                    )));
                }
            }
        }
    }
}

/// The suit ordering of the feature layout, computed for the given
/// trump and hand.
fn sorted_suits(trump: Suit, hand: &Vec<BasicCard>) -> (r: [Suit; 4])
    ensures
        r@ == suit_order_spec(trump, hand@),
{
    let suits = Suit::iterator();
    let mut v: Vec<Suit> = Vec::new();
    let mut i: usize = 0;
    while i < 4
        invariant
            suits@.len() == 4,
            forall|k: int| 0 <= k < 4 ==> suits@[k] == crate::cards::suit_from_ord(k),
            i <= 4,
            v@.len() == i,
            sorted_suit_seq(v@, trump, hand@),
            v@.to_multiset() == suits@.take(i as int).to_multiset(),
        decreases 4 - i,
    {
        proof {
            assert(suits@.take(i + 1).drop_last() =~= suits@.take(i as int));
            assert(suits@.take(i + 1) =~= suits@.take(i as int).push(suits@[i as int]));
        }
        insert_sorted(&mut v, trump, hand, suits[i]);
        i = i + 1;
    }
    let r: [Suit; 4] = [v[0], v[1], v[2], v[3]];
    proof {
        let leq = |a: Suit, b: Suit| suit_le(trump, hand@, a, b);
        lemma_suit_le_total(trump, hand@);
        assert(suits@.take(4) =~= all_suits());
        all_suits().lemma_sort_by_ensures(leq);
        assert(sorted_by(v@, leq)) by {
            assert forall|i2: int, j2: int| 0 <= i2 < j2 < v@.len() implies leq(v@[i2], v@[j2]) by {
                assert(suit_le(trump, hand@, v@[i2], v@[j2]));
            }
        }
        vstd::seq_lib::lemma_sorted_unique(v@, suit_order_spec(trump, hand@), leq);
        assert(r@ =~= v@);
    }
    r
}

/// Position of a card in a 52-slot feature block: the rank ordinal
/// plus thirteen times the position of its suit in the suit order.
pub open spec fn card_index_spec(c: BasicCard, suit_order: Seq<Suit>) -> int {
    rank_ord(c.rank) + 13 * (suit_order.index_of_first(c.suit)->Some_0)
}

/// Index of the card in a 52-slot feature block laid out by the given
/// suit order.
pub fn card_index(card: &BasicCard, suit_order: &[Suit; 4]) -> (r: usize)
    requires
        suit_order@.contains(card.suit),
    ensures
        r == card_index_spec(*card, suit_order@),
        r < 52,
{
    let mut sp: usize = 0;
    loop
        invariant
            suit_order@.contains(card.suit),
            sp < 4,
            forall|k: int| 0 <= k < sp ==> suit_order@[k] != card.suit,
        ensures
            sp < 4,
            suit_order@[sp as int] == card.suit,
            forall|k: int| 0 <= k < sp ==> suit_order@[k] != card.suit,
        decreases 4 - sp,
    {
        if suit_order[sp] == card.suit {
            break ;
        }
        proof {
            if sp == 3 {
                assert(forall|k: int| 0 <= k < 4 ==> suit_order@[k] != card.suit);
                let w = choose|w: int| 0 <= w < 4 && suit_order@[w] == card.suit;
                assert(false);
            }
        }
        sp = sp + 1;
    }
    proof {
        suit_order@.index_of_first_ensures(card.suit);
        let k = suit_order@.index_of_first(card.suit)->Some_0;
        assert(suit_order@[k] == card.suit);
        assert(k <= sp) by {
            if k > sp {
                assert(suit_order@[sp as int] != card.suit);
            }
        }
        assert(k == sp);
    }
    card.rank.ord_ace_high() as usize + 13 * sp
}

/// Abstract value of an observer: everything its feature vector
/// reads. The suit ordering is derived from trump and hand by
/// `suit_order_spec` and so is not part of the value.
#[verifier::ext_equal]
pub struct ObserverModel {
    /// Whose view this is.
    pub player_id: int,
    /// Trump suit of the round.
    pub trump: Suit,
    /// The player's own hand.
    pub hand: Seq<BasicCard>,
    /// What is known of each card in the opponent's hand.
    pub oppo: Map<BasicCard, CardState>,
    /// Number of cards the opponent holds.
    pub oppo_num: int,
    /// Whose turn it is.
    pub active: int,
    /// Card currently played for, if any.
    pub revealed: Option<BasicCard>,
    /// Card leading the current trick, if any.
    pub leading_card: Option<BasicCard>,
    /// Cards played out in resolved tricks.
    pub played: Seq<BasicCard>,
    /// Own and opposing score.
    pub score0: int,
    /// Score of player 1.
    pub score1: int,
}

/// The opponent can no longer hold any card of the suit they might
/// have held.
pub open spec fn bel_empty_suit(b: Map<BasicCard, CardState>, s: Suit) -> Map<
    BasicCard,
    CardState,
> {
    Map::total(
        |c: BasicCard|
            if c.suit == s && b[c] == CardState::Prob {
                CardState::Void
            } else {
                b[c]
            },
    )
}

/// Every void card may be held again after an unknown draw.
pub open spec fn bel_unveil(b: Map<BasicCard, CardState>) -> Map<BasicCard, CardState> {
    Map::total(
        |c: BasicCard|
            if b[c] == CardState::Void {
                CardState::Prob
            } else {
                b[c]
            },
    )
}

/// Add a card to a set-like sequence: kept once, in arrival order.
pub open spec fn seq_insert_card(s: Seq<BasicCard>, c: BasicCard) -> Seq<BasicCard> {
    if s.contains(c) {
        s
    } else {
        s.push(c)
    }
}

/// How one event changes an observer's view. A pure function of the
/// prior view and the event: the observer learns nothing but what the
/// event carries.
pub open spec fn observer_step(m: ObserverModel, ev: GameEvent) -> ObserverModel {
    match ev {
        GameEvent::Start(s) => ObserverModel {
            player_id: m.player_id,
            trump: s.trump,
            hand: s.hand@,
            oppo: Map::total(
                |c: BasicCard|
                    if s.hand@.contains(c) || c == s.revealed {
                        CardState::Played
                    } else {
                        CardState::Prob
                    },
            ),
            oppo_num: 13,
            active: s.starting_player as int,
            revealed: Some(s.revealed),
            leading_card: None,
            played: Seq::empty(),
            score0: 0,
            score1: 0,
        },
        GameEvent::Action(a) => {
            let own = a.player as int == m.player_id;
            let bel1 = if own {
                m.oppo
            } else {
                m.oppo.insert(a.card, CardState::Played)
            };
            let bel2 = if own {
                bel1
            } else {
                match m.leading_card {
                    Some(p) => if p.suit != a.card.suit {
                        bel_empty_suit(bel1, p.suit)
                    } else {
                        bel1
                    },
                    None => bel1,
                }
            };
            ObserverModel {
                player_id: m.player_id,
                trump: m.trump,
                hand: if own {
                    m.hand.remove_value(a.card)
                } else {
                    m.hand
                },
                oppo: bel2,
                oppo_num: if own {
                    m.oppo_num
                } else if m.oppo_num > 0 {
                    m.oppo_num - 1
                } else {
                    0
                },
                active: if a.player == 0 {
                    1
                } else {
                    0
                },
                revealed: m.revealed,
                leading_card: if m.leading_card is None {
                    Some(a.card)
                } else {
                    m.leading_card
                },
                played: m.played,
                score0: m.score0,
                score1: m.score1,
            }
        },
        GameEvent::Card(ce) => {
            let own = ce.player as int == m.player_id;
            ObserverModel {
                player_id: m.player_id,
                trump: m.trump,
                hand: match ce.card {
                    Some(c) => if own {
                        seq_insert_card(m.hand, c)
                    } else {
                        m.hand
                    },
                    None => m.hand,
                },
                oppo: match ce.card {
                    Some(c) => if own {
                        m.oppo.insert(c, CardState::Played)
                    } else {
                        m.oppo.insert(c, CardState::Owns)
                    },
                    None => if own {
                        m.oppo
                    } else {
                        bel_unveil(m.oppo)
                    },
                },
                oppo_num: if own {
                    m.oppo_num
                } else {
                    sat_add(m.oppo_num, 1)
                },
                active: m.active,
                revealed: m.revealed,
                leading_card: m.leading_card,
                played: m.played,
                score0: m.score0,
                score1: m.score1,
            }
        },
        GameEvent::Trick(te) => ObserverModel {
            player_id: m.player_id,
            trump: m.trump,
            hand: m.hand,
            oppo: match te.revealed {
                Some(c) => m.oppo.insert(c, CardState::Played),
                None => m.oppo,
            },
            oppo_num: m.oppo_num,
            active: te.active_player as int,
            revealed: te.revealed,
            leading_card: None,
            played: seq_insert_card(
                seq_insert_card(m.played, te.cards_played[0]),
                te.cards_played[1],
            ),
            score0: te.score[0] as int,
            score1: te.score[1] as int,
        },
    }
}

/// Representation of the current round for one player: own hand, a
/// belief about the opponent's, the public state, and the suit
/// ordering of the feature layout.
pub struct PlayerState {
    /// Whose view this is.
    pub player_id: usize,
    /// Trump suit of the round.
    pub trump: Suit,
    /// The player's own hand.
    pub hand: Vec<BasicCard>,
    /// Estimate of the opponent's hand.
    pub oppo: HandBelief,
    /// Whose turn it is.
    pub active: usize,
    /// Card currently played for, if any.
    pub revealed: Option<BasicCard>,
    /// Card leading the current trick, if any.
    pub leading_card: Option<BasicCard>,
    /// Cards played out in resolved tricks.
    pub played_cards: Vec<BasicCard>,
    /// Score per player.
    pub score: [usize; 2],
    /// Suit ordering of the feature layout, kept in step with trump
    /// and hand.
    pub suit_order: [Suit; 4],
}

impl View for PlayerState {
    type V = ObserverModel;

    open spec fn view(&self) -> ObserverModel {
        ObserverModel {
            player_id: self.player_id as int,
            trump: self.trump,
            hand: self.hand@,
            oppo: Map::total(|c: BasicCard| self.oppo.state_of(c)),
            oppo_num: self.oppo.num_cards_spec(),
            active: self.active as int,
            revealed: self.revealed,
            leading_card: self.leading_card,
            played: self.played_cards@,
            score0: self.score[0] as int,
            score1: self.score[1] as int,
        }
    }
}

impl PlayerState {
    /// The tracker is intact and the stored suit ordering matches the
    /// trump and hand.
    pub open spec fn wf(&self) -> bool {
        &&& self.oppo.wf()
        &&& self.suit_order@ == suit_order_spec(self.trump, self.hand@)
    }

    /// The view a fresh observer starts from.
    pub open spec fn initial_model(id: int) -> ObserverModel {
        ObserverModel {
            player_id: id,
            trump: Suit::Hearts,
            hand: Seq::empty(),
            oppo: Map::total(|c: BasicCard| CardState::Void),
            oppo_num: 0,
            active: 0,
            revealed: None,
            leading_card: None,
            played: Seq::empty(),
            score0: 0,
            score1: 0,
        }
    }

    /// A fresh observer for the given player: empty hand, everything
    /// void, hearts as a placeholder trump until a round starts.
    pub fn new(id: usize) -> (r: PlayerState)
        ensures
            r.wf(),
            r@ == Self::initial_model(id as int),
    {
        let hand: Vec<BasicCard> = Vec::new();
        let suit_order = sorted_suits(Suit::Hearts, &hand);
        let r = PlayerState {
            player_id: id,
            trump: Suit::Hearts,
            hand,
            oppo: HandBelief::new(),
            active: 0,
            revealed: None,
            leading_card: None,
            played_cards: Vec::new(),
            score: [0, 0],
            suit_order,
        };
        proof {
            assert(r@.oppo =~= Map::total(|c: BasicCard| CardState::Void));
            assert(r@ =~= Self::initial_model(id as int));
        }
        r
    }

    /// Width of the state part of the feature vector: five 52-card
    /// blocks and three scalars.
    pub fn state_size() -> (r: usize)
        ensures
            r == 263,
    {
        crate::cards::NUM_BASIC_CARDS * 5 + 3
    }

    /// Width of the state part of the feature vector.
    pub fn state_vector_size(&self) -> (r: usize)
        ensures
            r == 263,
    {
        Self::state_size()
    }

    /// Width of the action part of the feature vector: one one-hot
    /// 52-card block.
    pub fn action_size() -> (r: usize)
        ensures
            r == 52,
    {
        crate::cards::NUM_BASIC_CARDS
    }

    /// Width of the action part of the feature vector.
    pub fn action_vector_size(&self) -> (r: usize)
        ensures
            r == 52,
    {
        Self::action_size()
    }

    /// Width of a state-action feature vector.
    pub fn state_action_size() -> (r: usize)
        ensures
            r == 315,
    {
        Self::state_size() + Self::action_size()
    }

    /// Update the view in response to one game event. The new view is
    /// a pure function of the old view and the event.
    pub fn on_event(&mut self, ev: &GameEvent)
        requires
            old(self).wf(),
        ensures
            final(self).wf(),
            final(self)@ == observer_step(old(self)@, *ev),
    {
        let ghost m = self@;
        match ev {
            GameEvent::Start(s) => {
                self.hand = clone_cards(&s.hand);
                self.trump = s.trump;
                self.active = s.starting_player;
                self.revealed = Some(s.revealed);
                self.played_cards = Vec::new();
                self.leading_card = None;
                self.score = [0, 0];
                self.oppo.clear();
                self.oppo.random_cards_drawn(13);
                self.oppo.card_seen(&s.revealed);
                let mut i: usize = 0;
                while i < self.hand.len()
                    invariant
                        self.oppo.wf(),
                        self.hand@ == s.hand@,
                        i <= self.hand@.len(),
                        self.oppo.num_cards_spec() == 13,
                        self.player_id == old(self).player_id,
                        self.trump == s.trump,
                        self.active == s.starting_player,
                        self.revealed == Some(s.revealed),
                        self.leading_card is None,
                        self.played_cards@ == Seq::<BasicCard>::empty(),
                        self.score[0] == 0 && self.score[1] == 0,
                        forall|c: BasicCard|
                            #![trigger self.oppo.state_of(c)]
                            self.oppo.state_of(c) == (if self.hand@.take(i as int).contains(c) || c
                                == s.revealed {
                                CardState::Played
                            } else {
                                CardState::Prob
                            }),
                    decreases self.hand@.len() - i,
                {
                    let c = self.hand[i];
                    self.oppo.card_seen(&c);
                    proof {
                        let t0 = self.hand@.take(i as int);
                        let t1 = self.hand@.take(i + 1);
                        assert(t1 =~= t0.push(c));
                        assert forall|c2: BasicCard|
                            #![trigger self.oppo.state_of(c2)]
                            self.oppo.state_of(c2) == (if t1.contains(c2) || c2 == s.revealed {
                                CardState::Played
                            } else {
                                CardState::Prob
                            }) by {
                            if t1.contains(c2) {
                                let j = choose|j: int| 0 <= j < t1.len() && t1[j] == c2;
                                if j < t0.len() {
                                    assert(t0[j] == c2);
                                    assert(t0.contains(c2));
                                } else {
                                    assert(c2 == c);
                                }
                            } else {
                                assert(!t0.contains(c2)) by {
                                    if t0.contains(c2) {
                                        let j = choose|j: int| 0 <= j < t0.len() && t0[j] == c2;
                                        assert(t1[j] == c2);
                                    }
                                }
                                assert(c2 != c) by {
                                    if c2 == c {
                                        assert(t1[t0.len() as int] == c2);
                                    }
                                }
                            }
                        }
                    }
                    i = i + 1;
                }
                proof {
                    assert(self.hand@.take(self.hand@.len() as int) =~= self.hand@);
                    assert forall|c: BasicCard|
                        #![trigger self.oppo.state_of(c)]
                        self.oppo.state_of(c) == (if s.hand@.contains(c) || c == s.revealed {
                            CardState::Played
                        } else {
                            CardState::Prob
                        }) by {}
                }
            },
            GameEvent::Action(a) => {
                let a = *a;
                if a.player == self.player_id {
                    let _ = remove_first_card(&mut self.hand, a.card);
                } else {
                    self.oppo.card_played(&a.card);
                    let lead = self.leading_card;
                    match lead {
                        Some(p) => {
                            if p.suit != a.card.suit {
                                self.oppo.empty_suit(p.suit);
                            }
                        },
                        None => {},
                    }
                }
                if self.leading_card.is_none() {
                    self.leading_card = Some(a.card);
                }
                self.active = if a.player == 0 {
                    1
                } else {
                    0
                };
            },
            GameEvent::Card(ce) => {
                let ce = *ce;
                if ce.player == self.player_id {
                    match ce.card {
                        Some(c) => {
                            if !cards_contain(&self.hand, c) {
                                self.hand.push(c);
                            }
                            self.oppo.card_seen(&c);
                        },
                        None => {},
                    }
                } else {
                    match ce.card {
                        Some(c) => {
                            self.oppo.card_drawn(&c);
                        },
                        None => {
                            self.oppo.random_cards_drawn(1);
                        },
                    }
                }
            },
            GameEvent::Trick(te) => {
                let te = *te;
                self.leading_card = None;
                self.revealed = te.revealed;
                self.active = te.active_player;
                self.score = te.score;
                match te.revealed {
                    Some(c) => {
                        self.oppo.card_seen(&c);
                    },
                    None => {},
                }
                let c0 = te.cards_played[0];
                if !cards_contain(&self.played_cards, c0) {
                    self.played_cards.push(c0);
                }
                let c1 = te.cards_played[1];
                if !cards_contain(&self.played_cards, c1) {
                    self.played_cards.push(c1);
                }
            },
        }
        self.suit_order = sorted_suits(self.trump, &self.hand);
        proof {
            let n = observer_step(m, *ev);
            assert(self@.player_id == n.player_id);
            assert(self@.trump == n.trump);
            assert(self@.hand =~= n.hand);
            assert(self@.oppo =~= n.oppo);
            assert(self@.oppo_num == n.oppo_num);
            assert(self@.active == n.active);
            assert(self@.revealed == n.revealed);
            assert(self@.leading_card == n.leading_card);
            assert(self@.played =~= n.played);
            assert(self@.score0 == n.score0 && self@.score1 == n.score1);
            assert(self@ =~= n);
        }
    }
}

/// Rebuild an observer's view by replaying a stream of events from a
/// starting view.
pub open spec fn replay(m: ObserverModel, evs: Seq<GameEvent>) -> ObserverModel
    decreases evs.len(),
{
    if evs.len() == 0 {
        m
    } else {
        replay(observer_step(m, evs[0]), evs.drop_first())
    }
}

/// Replay equivalence: rebuilding an observer from a whole event
/// stream gives the same view as updating it incrementally, chunk by
/// chunk.
pub proof fn lemma_replay_append(m: ObserverModel, evs1: Seq<GameEvent>, evs2: Seq<GameEvent>)
    ensures
        replay(m, evs1 + evs2) == replay(replay(m, evs1), evs2),
    decreases evs1.len(),
{
    if evs1.len() == 0 {
        assert(evs1 + evs2 =~= evs2);
    } else {
        assert((evs1 + evs2)[0] == evs1[0]);
        assert((evs1 + evs2).drop_first() =~= evs1.drop_first() + evs2);
        lemma_replay_append(observer_step(m, evs1[0]), evs1.drop_first(), evs2);
    }
}

/// No information leak: a player's view — and with it the feature
/// vector built from it — is a function of the initial view and the
/// events delivered to that player, and of nothing else.
pub proof fn lemma_replay_deterministic(
    m1: ObserverModel,
    m2: ObserverModel,
    evs1: Seq<GameEvent>,
    evs2: Seq<GameEvent>,
)
    requires
        m1 == m2,
        evs1 == evs2,
    ensures
        replay(m1, evs1) == replay(m2, evs2),
{
}

} // verus!
