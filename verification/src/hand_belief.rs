//! Tracker for which cards the opponent may hold.
//!
//! Each of the 52 cards is in one of four states: already played (or
//! otherwise known to be out of the opponent's reach), proven void,
//! possibly held, or certainly held. The tracker also carries the
//! number of cards the opponent is known to hold, which public draw
//! and play events keep exact. The numeric likelihood spread over the
//! `Prob` cards is a concern of the callers that build feature
//! vectors; the state machine here decides which cards can carry any
//! likelihood at all.

use vstd::prelude::*;

use crate::cards::{card_pos, lemma_full_deck_complete, BasicCard, Suit};

verus! {

/// Add to a held-cards count, capped at the counter's ceiling. Real
/// rounds never hold more than 52 cards, far below the cap.
pub open spec fn sat_add(a: int, n: int) -> int {
    if a + n <= usize::MAX {
        a + n
    } else {
        usize::MAX as int
    }
}

/// What is known of one card in the opponent's hand.
#[derive(Debug, Clone, Copy, PartialEq, Eq, Structural)]
pub enum CardState {
    /// The card has been played, or the opponent otherwise definitely
    /// does not have it.
    Played,
    /// The opponent was proven not to hold this card right now.
    Void,
    /// The opponent may hold the card.
    Prob,
    /// The opponent definitely holds this card.
    Owns,
}

/// Two distinct cards sit at distinct canonical positions.
pub proof fn lemma_card_pos_injective(a: BasicCard, b: BasicCard)
    requires
        a != b,
    ensures
        card_pos(a) != card_pos(b),
{
    lemma_full_deck_complete();
}

/// Best current estimate of the opponent's hand: a state per card,
/// and the known number of cards held.
///
/// This assumes that every action changing the opponent's hand size
/// is public (drawing and playing are announced), even when the card
/// itself is not.
pub struct HandBelief {
    /// State per card, indexed by canonical card position.
    states: Vec<CardState>,
    /// Number of cards the opponent holds.
    num: usize,
}

impl HandBelief {
    /// The tracker covers all 52 cards.
    pub closed spec fn wf(&self) -> bool {
        self.states@.len() == 52
    }

    /// What is known of the given card.
    pub closed spec fn state_of(&self, c: BasicCard) -> CardState {
        self.states@[card_pos(c)]
    }

    /// Number of cards the opponent holds.
    pub closed spec fn num_cards_spec(&self) -> int {
        self.num as int
    }

    /// A fresh tracker: nothing is held, every card is void.
    pub fn new() -> (r: HandBelief)
        ensures
            r.wf(),
            forall|c: BasicCard| r.state_of(c) == CardState::Void,
            r.num_cards_spec() == 0,
    {
        let mut states: Vec<CardState> = Vec::new();
        let mut i: usize = 0;
        while i < 52
            invariant
                i <= 52,
                states@.len() == i,
                forall|j: int| 0 <= j < i ==> states@[j] == CardState::Void,
            decreases 52 - i,
        {
            states.push(CardState::Void);
            i = i + 1;
        }
        proof {
            lemma_full_deck_complete();
        }
        HandBelief { states, num: 0 }
    }

    /// Forget everything: nothing is held, every card is void.
    pub fn clear(&mut self)
        requires
            old(self).wf(),
        ensures
            final(self).wf(),
            forall|c: BasicCard| final(self).state_of(c) == CardState::Void,
            final(self).num_cards_spec() == 0,
    {
        let mut i: usize = 0;
        while i < 52
            invariant
                self.states@.len() == 52,
                i <= 52,
                forall|j: int| 0 <= j < i ==> self.states@[j] == CardState::Void,
            decreases 52 - i,
        {
            self.states[i] = CardState::Void;
            i = i + 1;
        }
        self.num = 0;
        proof {
            lemma_full_deck_complete();
        }
    }

    /// What is known of the given card.
    pub fn card_state(&self, c: BasicCard) -> (r: CardState)
        requires
            self.wf(),
        ensures
            r == self.state_of(c),
    {
        self.states[c.pos()]
    }

    /// Number of cards the opponent holds.
    pub fn num_cards(&self) -> (r: usize)
        ensures
            r == self.num_cards_spec(),
    {
        self.num
    }

    /// The opponent drew `n` unknown cards: every void card may be
    /// held again, and the hand grows by `n`.
    pub fn random_cards_drawn(&mut self, n: usize)
        requires
            old(self).wf(),
        ensures
            final(self).wf(),
            forall|c: BasicCard|
                final(self).state_of(c) == if old(self).state_of(c) == CardState::Void {
                    CardState::Prob
                } else {
                    old(self).state_of(c)
                },
            final(self).num_cards_spec() == sat_add(old(self).num_cards_spec(), n as int),
    {
        let ghost orig = self.states@;
        let mut i: usize = 0;
        while i < 52
            invariant
                self.states@.len() == 52,
                orig.len() == 52,
                i <= 52,
                self.num == old(self).num,
                orig == old(self).states@,
                forall|j: int|
                    0 <= j < i ==> self.states@[j] == (if orig[j] == CardState::Void {
                        CardState::Prob
                    } else {
                        orig[j]
                    }),
                forall|j: int| i <= j < 52 ==> self.states@[j] == orig[j],
            decreases 52 - i,
        {
            let s = self.states[i];
            if let CardState::Void = s {
                self.states[i] = CardState::Prob;
            }
            i = i + 1;
        }
        self.num = if self.num <= usize::MAX - n {
            self.num + n
        } else {
            usize::MAX
        };
        proof {
            lemma_full_deck_complete();
        }
    }

    /// The given card was seen somewhere the opponent cannot hold it
    /// (in our own hand, or played for): it is out of reach, and the
    /// hand size is unchanged.
    pub fn card_seen(&mut self, c: &BasicCard)
        requires
            old(self).wf(),
        ensures
            final(self).wf(),
            final(self).state_of(*c) == CardState::Played,
            forall|c2: BasicCard| c2 != *c ==> final(self).state_of(c2) == old(self).state_of(c2),
            final(self).num_cards_spec() == old(self).num_cards_spec(),
    {
        let p = c.pos();
        self.states[p] = CardState::Played;
        proof {
            lemma_full_deck_complete();
            assert forall|c2: BasicCard| c2 != *c implies self.state_of(c2) == old(self).state_of(
                c2,
            ) by {
                lemma_card_pos_injective(c2, *c);
            }
        }
    }

    /// The opponent picked up the given card publicly: they certainly
    /// hold it, and the hand grows by one.
    pub fn card_drawn(&mut self, c: &BasicCard)
        requires
            old(self).wf(),
        ensures
            final(self).wf(),
            final(self).state_of(*c) == CardState::Owns,
            forall|c2: BasicCard| c2 != *c ==> final(self).state_of(c2) == old(self).state_of(c2),
            final(self).num_cards_spec() == sat_add(old(self).num_cards_spec(), 1),
    {
        let p = c.pos();
        self.states[p] = CardState::Owns;
        self.num = if self.num < usize::MAX {
            self.num + 1
        } else {
            usize::MAX
        };
        proof {
            lemma_full_deck_complete();
            assert forall|c2: BasicCard| c2 != *c implies self.state_of(c2) == old(self).state_of(
                c2,
            ) by {
                lemma_card_pos_injective(c2, *c);
            }
        }
    }

    /// The opponent played the given card: it is out of their hand,
    /// which shrinks by one (and is empty if it was already thought
    /// empty).
    pub fn card_played(&mut self, c: &BasicCard)
        requires
            old(self).wf(),
        ensures
            final(self).wf(),
            final(self).state_of(*c) == CardState::Played,
            forall|c2: BasicCard| c2 != *c ==> final(self).state_of(c2) == old(self).state_of(c2),
            final(self).num_cards_spec() == if old(self).num_cards_spec() > 0 {
                old(self).num_cards_spec() - 1
            } else {
                0
            },
    {
        let p = c.pos();
        self.states[p] = CardState::Played;
        if self.num > 0 {
            self.num = self.num - 1;
        }
        proof {
            lemma_full_deck_complete();
            assert forall|c2: BasicCard| c2 != *c implies self.state_of(c2) == old(self).state_of(
                c2,
            ) by {
                lemma_card_pos_injective(c2, *c);
            }
        }
    }

    /// The opponent proved they hold no card of the suit: every card
    /// of the suit they might have held is void; what they certainly
    /// hold or have played stays as it is.
    pub fn empty_suit(&mut self, suit: Suit)
        requires
            old(self).wf(),
        ensures
            final(self).wf(),
            forall|c: BasicCard|
                final(self).state_of(c) == (if c.suit == suit && old(self).state_of(c)
                    == CardState::Prob {
                    CardState::Void
                } else {
                    old(self).state_of(c)
                }),
            final(self).num_cards_spec() == old(self).num_cards_spec(),
    {
        let ghost orig = self.states@;
        let so = suit.ord() as usize;
        let mut i: usize = 0;
        while i < 13
            invariant
                self.states@.len() == 52,
                orig.len() == 52,
                orig == old(self).states@,
                so == crate::cards::suit_ord(suit),
                i <= 13,
                self.num == old(self).num,
                forall|j: int|
                    0 <= j < 52 ==> self.states@[j] == (if j % 4 == so && j / 4 < i && orig[j]
                        == CardState::Prob {
                        CardState::Void
                    } else {
                        orig[j]
                    }),
            decreases 13 - i,
        {
            let p = 4 * i + so;
            proof {
                assert(p % 4 == so && p / 4 == i) by (nonlinear_arith)
                    requires
                        p == 4 * i + so,
                        0 <= so < 4,
                        0 <= i < 13,
                ;
            }
            let st = self.states[p];
            if let CardState::Prob = st {
                self.states[p] = CardState::Void;
            }
            i = i + 1;
        }
        proof {
            lemma_full_deck_complete();
            assert forall|c: BasicCard|
                self.state_of(c) == (if c.suit == suit && old(self).state_of(c) == CardState::Prob {
                    CardState::Void
                } else {
                    old(self).state_of(c)
                }) by {
                let j = card_pos(c);
                assert(j % 4 == crate::cards::suit_ord(c.suit) && j / 4 == crate::cards::rank_ord(
                    c.rank,
                )) by (nonlinear_arith)
                    requires
                        j == 4 * crate::cards::rank_ord(c.rank) + crate::cards::suit_ord(c.suit),
                        0 <= crate::cards::rank_ord(c.rank) < 13,
                        0 <= crate::cards::suit_ord(c.suit) < 4,
                ;
                if c.suit == suit {
                    assert(crate::cards::suit_ord(c.suit) == so);
                } else {
                    assert(crate::cards::suit_ord(c.suit) != so) by {
                        lemma_suit_ord_injective(c.suit, suit);
                    }
                }
            }
        }
    }
}

/// Distinct suits have distinct ordinals.
proof fn lemma_suit_ord_injective(a: Suit, b: Suit)
    requires
        a != b,
    ensures
        crate::cards::suit_ord(a) != crate::cards::suit_ord(b),
{
}

} // verus!
