//! Authoritative game state: deck, hands, score, trump and trick slots.
//!
//! The central invariant is card conservation: the deck, the two hands,
//! the revealed card, the led card and the ghost pile of spent cards
//! together hold each of the 52 cards exactly once.

use vstd::prelude::*;

use crate::cards::{full_deck, rank_ord, suit_ord, BasicCard, BasicDeck, Rank, Suit};
use crate::engine::ActionError;
use vstd::multiset::Multiset;

verus! {

broadcast use vstd::seq_lib::group_to_multiset_ensures, vstd::multiset::group_multiset_axioms;

/// The multiset of the empty sequence is the empty multiset.
pub proof fn lemma_empty_mset()
    ensures
        Seq::<BasicCard>::empty().to_multiset() == Multiset::<BasicCard>::empty(),
{
    let s = Seq::<BasicCard>::empty();
    assert forall|c: BasicCard| #[trigger] s.to_multiset().count(c) == 0 by {
        assert(!s.contains(c));
    }
    assert(s.to_multiset() =~= Multiset::<BasicCard>::empty());
}

/// A filtered sequence only keeps elements of the original, and keeps
/// no duplicates if the original had none.
pub proof fn lemma_filter_sub<A>(s: Seq<A>, pred: spec_fn(A) -> bool)
    ensures
        forall|c: A| #[trigger] s.filter(pred).contains(c) ==> s.contains(c) && pred(c),
        s.no_duplicates() ==> s.filter(pred).no_duplicates(),
    decreases s.len(),
{
    reveal(Seq::filter);
    if s.len() > 0 {
        let prefix = s.drop_last();
        let pf = prefix.filter(pred);
        let f = s.filter(pred);
        lemma_filter_sub(prefix, pred);
        assert forall|c: A| #[trigger] prefix.contains(c) implies s.contains(c) by {
            let i = choose|i: int| 0 <= i < prefix.len() && prefix[i] == c;
            assert(s[i] == c);
        }
        assert(s[s.len() - 1] == s.last());
        assert(s.contains(s.last()));
        assert forall|c: A| #[trigger] f.contains(c) implies s.contains(c) && pred(c) by {
            if pred(s.last()) {
                if c != s.last() {
                    let i = choose|i: int| 0 <= i < f.len() && f[i] == c;
                    assert(f[i] == pf.push(s.last())[i]);
                    assert(i < pf.len());
                    assert(pf[i] == c);
                    assert(pf.contains(c));
                }
            } else {
                assert(pf.contains(c));
            }
        }
        if s.no_duplicates() {
            assert(prefix.no_duplicates());
            if pred(s.last()) {
                assert(!prefix.contains(s.last()));
                assert(!pf.contains(s.last()));
                assert forall|i: int, j: int| 0 <= i < j < f.len() implies f[i] != f[j] by {
                    if j < pf.len() {
                    } else {
                        assert(f[j] == s.last());
                        assert(f[i] == pf[i]);
                        assert(pf.contains(pf[i]));
                    }
                }
            }
        }
    }
}

/// The cards held by an optional slot: one card or none.
pub open spec fn opt_cards(c: Option<BasicCard>) -> Seq<BasicCard> {
    match c {
        Some(x) => seq![x],
        None => Seq::empty(),
    }
}

/// True iff the hand holds at least one card of the suit.
pub open spec fn has_suit_spec(hand: Seq<BasicCard>, s: Suit) -> bool {
    exists|i: int| 0 <= i < hand.len() && hand[i].suit == s
}

/// The cards of the hand that may legally be played against the led
/// card, in hand order: the led suit where the hand can follow, the
/// whole hand otherwise.
pub open spec fn playable_cards_spec(hand: Seq<BasicCard>, led: Option<BasicCard>) -> Seq<
    BasicCard,
> {
    match led {
        Some(l) => if has_suit_spec(hand, l.suit) {
            hand.filter(|c: BasicCard| c.suit == l.suit)
        } else {
            hand
        },
        None => hand,
    }
}

/// True iff the leading card beats the following card: the leader wins
/// on a trump lead unless overtrumped by a higher trump; a trump
/// follow beats a plain lead; an off-suit plain follow always loses;
/// on suit, the higher rank wins, ace high.
pub open spec fn lead_wins(trump: Suit, leading: BasicCard, following: BasicCard) -> bool {
    if leading.suit == trump {
        following.suit != trump || rank_ord(leading.rank) > rank_ord(following.rank)
    } else if following.suit == trump {
        false
    } else if following.suit != leading.suit {
        true
    } else {
        rank_ord(leading.rank) > rank_ord(following.rank)
    }
}

/// Swapping the two cards of a trick swaps the winner, wherever the
/// trick rule is symmetric: when the cards are of one suit, or when
/// one of them is a trump. (With two plain cards of different suits
/// the leader wins either way: the led-suit rule is the one
/// asymmetry.)
pub proof fn lemma_trick_swap(trump: Suit, a: BasicCard, b: BasicCard)
    requires
        a != b,
        a.suit == b.suit || a.suit == trump || b.suit == trump,
    ensures
        lead_wins(trump, a, b) == !lead_wins(trump, b, a),
{
    if a.suit == b.suit && rank_ord(a.rank) == rank_ord(b.rank) {
        assert(a.rank == b.rank) by {
            lemma_rank_ord_injective(a.rank, b.rank);
        }
    }
}

/// Distinct ranks have distinct ace-high ordinals.
proof fn lemma_rank_ord_injective(r1: Rank, r2: Rank)
    requires
        rank_ord(r1) == rank_ord(r2),
    ensures
        r1 == r2,
{
}

/// The follower beats the leader exactly when the leader does not win
/// the trick: `wins_against` and the engine's trick rule agree.
pub proof fn lemma_wins_against_agrees(trump: Suit, leading: BasicCard, follow: BasicCard)
    requires
        leading != follow,
    ensures
        (if follow.suit == leading.suit {
            rank_ord(follow.rank) > rank_ord(leading.rank)
        } else {
            follow.suit == trump
        }) == !lead_wins(trump, leading, follow),
{
    if follow.suit == leading.suit && rank_ord(follow.rank) == rank_ord(leading.rank) {
        lemma_rank_ord_injective(follow.rank, leading.rank);
    }
}

/// Authoritative state of one round.
pub struct GameState {
    /// Cards not yet dealt or drawn, top at the end.
    pub deck: BasicDeck,
    /// The two hands, indexed by player.
    pub hands: [Vec<BasicCard>; 2],
    /// Score per player.
    pub score: [usize; 2],
    /// Trump suit of the round.
    pub trump: Suit,
    /// Card led in the current trick, if one has been played.
    pub played: Option<BasicCard>,
    /// Player whose turn it is.
    pub active: usize,
    /// Number of tricks still to be resolved.
    pub rounds_left: usize,
    /// Card currently played for, if the round is in the build phase.
    pub revealed: Option<BasicCard>,
    /// Cards that have left circulation: both cards of every resolved
    /// trick, in resolution order, leader's card first.
    pub gone: Ghost<Seq<BasicCard>>,
}

/// Every card the state accounts for, as one sequence.
pub open spec fn all_cards(gs: GameState) -> Seq<BasicCard> {
    gs.deck@ + gs.hands[0]@ + gs.hands[1]@ + opt_cards(gs.revealed) + opt_cards(gs.played)
        + gs.gone@
}

impl GameState {
    /// Card conservation: the state accounts for each of the 52 cards
    /// exactly once, and the active player is 0 or 1.
    pub open spec fn wf(&self) -> bool {
        &&& all_cards(*self).to_multiset() == full_deck().to_multiset()
        &&& self.active <= 1
    }
}

/// The sequence of accounted cards decomposed into its six parts'
/// multisets.
pub proof fn lemma_all_cards_mset(gs: GameState)
    ensures
        all_cards(gs).to_multiset() == gs.deck@.to_multiset().add(
            gs.hands[0]@.to_multiset(),
        ).add(gs.hands[1]@.to_multiset()).add(opt_cards(gs.revealed).to_multiset()).add(
            opt_cards(gs.played).to_multiset(),
        ).add(gs.gone@.to_multiset()),
{
    broadcast use vstd::seq_lib::lemma_multiset_commutative;

}

/// In a well-formed state the 52 accounted cards are distinct, so no
/// card appears twice anywhere.
pub proof fn lemma_wf_distinct(gs: GameState)
    requires
        gs.wf(),
    ensures
        all_cards(gs).no_duplicates(),
        all_cards(gs).len() == 52,
        forall|c: BasicCard| #[trigger] all_cards(gs).to_multiset().count(c) == 1,
{
    crate::cards::lemma_full_deck_complete();
    full_deck().lemma_multiset_has_no_duplicates();
    assert forall|c: BasicCard| #[trigger] all_cards(gs).to_multiset().count(c) == 1 by {
        assert(full_deck().contains(c));
        assert(full_deck().to_multiset().count(c) > 0);
    }
    all_cards(gs).lemma_multiset_has_no_duplicates_conv();
    assert(all_cards(gs).len() == all_cards(gs).to_multiset().len());
    assert(full_deck().len() == full_deck().to_multiset().len());
}

/// Removing the first occurrence of a present value removes exactly
/// one copy from the multiset.
pub proof fn lemma_remove_value_mset(s: Seq<BasicCard>, c: BasicCard)
    requires
        s.contains(c),
    ensures
        s.remove_value(c).to_multiset() == s.to_multiset().remove(c),
        s.remove_value(c).len() == s.len() - 1,
{
    s.index_of_first_ensures(c);
    let i = s.index_of_first(c)->Some_0;
    assert(s.remove(i).to_multiset() =~= s.to_multiset().remove(s[i]));
}

/// In a well-formed state with a led card, that card is in nobody's
/// hand, and a card of one hand is not in the other.
pub proof fn lemma_wf_disjoint(gs: GameState)
    requires
        gs.wf(),
    ensures
        gs.played is Some ==> !gs.hands[0]@.contains(gs.played->Some_0) && !gs.hands[1]@.contains(
            gs.played->Some_0,
        ),
        forall|c: BasicCard| gs.hands[0]@.contains(c) ==> !gs.hands[1]@.contains(c),
{
    lemma_wf_distinct(gs);
    lemma_all_cards_mset(gs);
    if gs.played is Some {
        let lc = gs.played->Some_0;
        lemma_empty_mset();
        assert(opt_cards(gs.played) =~= Seq::<BasicCard>::empty().push(lc));
        assert(opt_cards(gs.played).to_multiset().count(lc) == 1);
        assert(all_cards(gs).to_multiset().count(lc) == 1);
    }
    assert forall|c: BasicCard| gs.hands[0]@.contains(c) implies !gs.hands[1]@.contains(c) by {
        if gs.hands[0]@.contains(c) && gs.hands[1]@.contains(c) {
            assert(gs.hands[0]@.to_multiset().count(c) > 0);
            assert(gs.hands[1]@.to_multiset().count(c) > 0);
            assert(all_cards(gs).to_multiset().count(c) == 1);
        }
    }
}

/// Copy a hand of cards.
pub(crate) fn clone_cards(v: &Vec<BasicCard>) -> (r: Vec<BasicCard>)
    ensures
        r@ == v@,
{
    let mut r: Vec<BasicCard> = Vec::new();
    let mut i: usize = 0;
    while i < v.len()
        invariant
            i <= v@.len(),
            r@ == v@.take(i as int),
        decreases v@.len() - i,
    {
        r.push(v[i]);
        i = i + 1;
        proof {
            assert(r@ =~= v@.take(i as int));
        }
    }
    proof {
        assert(v@.take(v@.len() as int) =~= v@);
    }
    r
}

/// True iff the cards contain `c`.
pub(crate) fn cards_contain(v: &Vec<BasicCard>, c: BasicCard) -> (r: bool)
    ensures
        r == v@.contains(c),
{
    let mut i: usize = 0;
    while i < v.len()
        invariant
            i <= v@.len(),
            forall|j: int| 0 <= j < i ==> v@[j] != c,
        decreases v@.len() - i,
    {
        if v[i] == c {
            return true;
        }
        i = i + 1;
    }
    false
}

/// True iff the cards contain one of suit `s`.
pub(crate) fn cards_have_suit(v: &Vec<BasicCard>, s: Suit) -> (r: bool)
    ensures
        r == has_suit_spec(v@, s),
{
    let mut i: usize = 0;
    while i < v.len()
        invariant
            i <= v@.len(),
            forall|j: int| 0 <= j < i ==> v@[j].suit != s,
        decreases v@.len() - i,
    {
        if v[i].suit == s {
            return true;
        }
        i = i + 1;
    }
    false
}

/// Remove the first occurrence of `c`, reporting whether it was there.
pub(crate) fn remove_first_card(v: &mut Vec<BasicCard>, c: BasicCard) -> (r: bool)
    ensures
        r == old(v)@.contains(c),
        final(v)@ == old(v)@.remove_value(c),
{
    let ghost orig = v@;
    let mut i: usize = 0;
    while i < v.len()
        invariant
            orig == old(v)@,
            v@ == orig,
            i <= orig.len(),
            forall|j: int| 0 <= j < i ==> orig[j] != c,
        decreases orig.len() - i,
    {
        if v[i] == c {
            proof {
                orig.index_of_first_ensures(c);
                assert(orig[i as int] == c);
                assert(orig.contains(c));
                let k = orig.index_of_first(c)->Some_0;
                assert(orig[k] == c);
                assert(k <= i) by {
                    if k > i {
                        assert(orig[i as int] != c);
                    }
                }
                assert(k == i);
                assert(orig.remove_value(c) == orig.remove(i as int));
            }
            v.remove(i);
            return true;
        }
        i = i + 1;
    }
    proof {
        assert forall|j: int| 0 <= j < orig.len() implies orig[j] != c by {}
        assert(!orig.contains(c));
        orig.index_of_first_ensures(c);
    }
    false
}

impl GameState {
    /// Deal a fresh round: shuffle a full deck, give 13 cards to each
    /// player, and turn up one card whose suit becomes trump. The
    /// starting player defaults to 0.
    pub fn new(player: Option<usize>) -> (r: GameState)
        requires
            match player {
                Some(p) => p <= 1,
                None => true,
            },
        ensures
            r.wf(),
            r.active == match player {
                Some(p) => p,
                None => 0usize,
            },
            r.score[0] == 0 && r.score[1] == 0,
            r.rounds_left == 26,
            r.played is None,
            r.revealed is Some,
            r.trump == r.revealed->Some_0.suit,
            r.hands[0]@.len() == 13,
            r.hands[1]@.len() == 13,
            r.deck@.len() == 25,
            r.gone@ == Seq::<BasicCard>::empty(),
    {
        let mut deck = BasicDeck::new();
        proof {
            crate::cards::lemma_full_deck_complete();
        }
        deck.shuffle();
        let ghost shuffled = deck@;
        let h0 = match deck.draw_n(13) {
            Some(h) => h,
            None => vstd::pervasive::unreached(),
        };
        let h1 = match deck.draw_n(13) {
            Some(h) => h,
            None => vstd::pervasive::unreached(),
        };
        let c = match deck.draw() {
            Some(c) => c,
            None => vstd::pervasive::unreached(),
        };
        let trump = c.suit;
        let active: usize = match player {
            Some(p) => p,
            None => 0,
        };
        let r = GameState {
            deck,
            hands: [h0, h1],
            score: [0, 0],
            trump,
            played: None,
            active,
            rounds_left: 26,
            revealed: Some(c),
            gone: Ghost(Seq::empty()),
        };
        proof {
            broadcast use vstd::seq_lib::lemma_multiset_commutative;

            lemma_empty_mset();
            assert(shuffled =~= (r.deck@.push(c) + r.hands[1]@) + r.hands[0]@);
            assert(opt_cards(r.revealed) =~= Seq::<BasicCard>::empty().push(c));
            assert(all_cards(r).to_multiset() =~= shuffled.to_multiset());
        }
        r
    }

    /// Assemble a position from its visible parts. The pile of spent
    /// cards starts empty: the position stands for a freshly recorded
    /// deal, not a replayed history.
    pub fn from_parts(
        deck: BasicDeck,
        hands: [Vec<BasicCard>; 2],
        score: [usize; 2],
        trump: Suit,
        played: Option<BasicCard>,
        active: usize,
        rounds_left: usize,
        revealed: Option<BasicCard>,
    ) -> (r: GameState)
        ensures
            r.deck == deck,
            r.hands == hands,
            r.score == score,
            r.trump == trump,
            r.played == played,
            r.active == active,
            r.rounds_left == rounds_left,
            r.revealed == revealed,
            r.gone@ == Seq::<BasicCard>::empty(),
    {
        GameState {
            deck,
            hands,
            score,
            trump,
            played,
            active,
            rounds_left,
            revealed,
            gone: Ghost(Seq::empty()),
        }
    }

    /// True iff the leading player wins the trick; `None` when both
    /// cards are the same (impossible with distinct cards).
    pub fn score_hand(&self, leading: &BasicCard, following: &BasicCard) -> (r: Option<bool>)
        ensures
            *leading == *following ==> r is None,
            *leading != *following ==> r == Some(lead_wins(self.trump, *leading, *following)),
    {
        if leading == following {
            return None;
        }
        if leading.suit == self.trump {
            Some(following.suit != self.trump
                || leading.rank.ord_ace_high() > following.rank.ord_ace_high())
        } else {
            Some(
                if following.suit == self.trump {
                    false
                } else if following.suit != leading.suit {
                    true
                } else {
                    leading.rank.ord_ace_high() > following.rank.ord_ace_high()
                },
            )
        }
    }

    /// Reveal a new top card from the deck.
    pub fn draw(&mut self) -> (r: Option<BasicCard>)
        ensures
            old(self).deck@.len() == 0 ==> r is None && final(self).deck@ == old(self).deck@,
            old(self).deck@.len() > 0 ==> {
                &&& r == Some(old(self).deck@.last())
                &&& final(self).deck@ == old(self).deck@.drop_last()
            },
            final(self).hands == old(self).hands,
            final(self).score == old(self).score,
            final(self).trump == old(self).trump,
            final(self).played == old(self).played,
            final(self).active == old(self).active,
            final(self).rounds_left == old(self).rounds_left,
            final(self).revealed == old(self).revealed,
            final(self).gone == old(self).gone,
    {
        self.deck.draw()
    }

    /// Add points to the given player's score.
    pub fn increment_score(&mut self, player: usize, points: usize)
        requires
            player <= 1,
            old(self).score[player as int] + points <= usize::MAX,
        ensures
            final(self).score[player as int] == old(self).score[player as int] + points,
            final(self).score[1 - player as int] == old(self).score[1 - player as int],
            final(self).hands == old(self).hands,
            final(self).deck == old(self).deck,
            final(self).trump == old(self).trump,
            final(self).played == old(self).played,
            final(self).active == old(self).active,
            final(self).rounds_left == old(self).rounds_left,
            final(self).revealed == old(self).revealed,
            final(self).gone == old(self).gone,
    {
        self.score[player] = self.score[player] + points;
    }

    /// True iff the player holds the card.
    pub fn has_card(&self, player: usize, c: BasicCard) -> (r: bool)
        requires
            player <= 1,
        ensures
            r == self.hands[player as int]@.contains(c),
    {
        cards_contain(&self.hands[player], c)
    }

    /// True iff the player holds at least one card of the suit.
    pub fn has_suit(&self, player: usize, s: Suit) -> (r: bool)
        requires
            player <= 1,
        ensures
            r == has_suit_spec(self.hands[player as int]@, s),
    {
        cards_have_suit(&self.hands[player], s)
    }

    /// Give the player a card.
    pub fn add_card(&mut self, player: usize, c: BasicCard)
        requires
            player <= 1,
        ensures
            final(self).hands[player as int]@ == old(self).hands[player as int]@.push(c),
            final(self).hands[1 - player as int] == old(self).hands[1 - player as int],
            final(self).deck == old(self).deck,
            final(self).score == old(self).score,
            final(self).trump == old(self).trump,
            final(self).played == old(self).played,
            final(self).active == old(self).active,
            final(self).rounds_left == old(self).rounds_left,
            final(self).revealed == old(self).revealed,
            final(self).gone == old(self).gone,
    {
        let mut h = clone_cards(&self.hands[player]);
        h.push(c);
        self.hands[player] = h;
    }

    /// Take the card out of the player's hand, or report that the
    /// player does not own it, leaving the state untouched.
    pub fn remove_card(&mut self, player: usize, c: BasicCard) -> (r: Result<(), ActionError>)
        requires
            player <= 1,
        ensures
            r is Ok <==> old(self).hands[player as int]@.contains(c),
            r is Err ==> r == Err::<(), ActionError>(ActionError::MissingCard) && *final(self)
                == *old(self),
            final(self).hands[player as int]@ == old(self).hands[player as int]@.remove_value(c),
            final(self).hands[1 - player as int] == old(self).hands[1 - player as int],
            final(self).deck == old(self).deck,
            final(self).score == old(self).score,
            final(self).trump == old(self).trump,
            final(self).played == old(self).played,
            final(self).active == old(self).active,
            final(self).rounds_left == old(self).rounds_left,
            final(self).revealed == old(self).revealed,
            final(self).gone == old(self).gone,
    {
        let mut h = clone_cards(&self.hands[player]);
        let found = remove_first_card(&mut h, c);
        if found {
            self.hands[player] = h;
            Ok(())
        } else {
            proof {
                old(self).hands[player as int]@.index_of_first_ensures(c);
            }
            Err(ActionError::MissingCard)
        }
    }

    /// Read-only snapshot of what the player may see of the state.
    pub fn player_view(&self, player: usize) -> (r: PlayerView)
        requires
            player <= 1,
        ensures
            r.hand@ == self.hands[player as int]@,
            r.player == player,
            r.revealed == self.revealed,
            r.leading_card == self.played,
            r.trump == self.trump,
            r.score == self.score,
    {
        PlayerView::from_state(player, self)
    }

    /// Key by which cards are shown: suits grouped, trumps first,
    /// ranks ascending within a suit, ace high.
    pub open spec fn display_key(&self, c: BasicCard) -> (int, int) {
        ((suit_ord(c.suit) + if c.suit != self.trump { 4int } else { 0int }), rank_ord(c.rank))
    }

    /// Order two cards for display: suits grouped, trumps first, then
    /// ascending rank, ace high.
    pub fn display_order(&self, c1: &BasicCard, c2: &BasicCard) -> (r: core::cmp::Ordering)
        ensures
            r == core::cmp::Ordering::Less <==> (self.display_key(*c1).0 < self.display_key(
                *c2,
            ).0 || (self.display_key(*c1).0 == self.display_key(*c2).0 && self.display_key(
                *c1,
            ).1 < self.display_key(*c2).1)),
            r == core::cmp::Ordering::Equal <==> self.display_key(*c1) == self.display_key(*c2),
    {
        let s1 = c1.suit.ord() + if c1.suit != self.trump {
            4
        } else {
            0
        };
        let s2 = c2.suit.ord() + if c2.suit != self.trump {
            4
        } else {
            0
        };
        if s1 < s2 {
            core::cmp::Ordering::Less
        } else if s1 > s2 {
            core::cmp::Ordering::Greater
        } else {
            let r1 = c1.rank.ord_ace_high();
            let r2 = c2.rank.ord_ace_high();
            if r1 < r2 {
                core::cmp::Ordering::Less
            } else if r1 > r2 {
                core::cmp::Ordering::Greater
            } else {
                core::cmp::Ordering::Equal
            }
        }
    }
}

/// What one player may see of the state: their own hand and the
/// public fields.
pub struct PlayerView {
    /// The player's own hand.
    pub hand: Vec<BasicCard>,
    /// Whose view this is.
    pub player: usize,
    /// Card currently played for, if any.
    pub revealed: Option<BasicCard>,
    /// Card leading the current trick, if any.
    pub leading_card: Option<BasicCard>,
    /// Trump suit.
    pub trump: Suit,
    /// Score per player.
    pub score: [usize; 2],
}

impl PlayerView {
    /// Snapshot the given player's view of the state.
    pub fn from_state(player: usize, gs: &GameState) -> (r: PlayerView)
        requires
            player <= 1,
        ensures
            r.hand@ == gs.hands[player as int]@,
            r.player == player,
            r.revealed == gs.revealed,
            r.leading_card == gs.played,
            r.trump == gs.trump,
            r.score == gs.score,
    {
        PlayerView {
            hand: clone_cards(&gs.hands[player]),
            player,
            revealed: gs.revealed,
            leading_card: gs.played,
            trump: gs.trump,
            score: gs.score,
        }
    }

    /// A card the player may legally play now: it must be in the
    /// hand, and must follow the led suit when the hand can.
    pub open spec fn playable_spec(&self, c: BasicCard) -> bool {
        &&& self.hand@.contains(c)
        &&& match self.leading_card {
            Some(l) => has_suit_spec(self.hand@, l.suit) ==> c.suit == l.suit,
            None => true,
        }
    }

    /// The cards playable in the current state, in hand order.
    /// Assumes the player is active.
    pub fn playable_cards(&self) -> (r: Vec<BasicCard>)
        ensures
            r@ == playable_cards_spec(self.hand@, self.leading_card),
            forall|c: BasicCard| #[trigger] r@.contains(c) <==> self.playable_spec(c),
            self.hand@.no_duplicates() ==> r@.no_duplicates(),
            self.hand@.len() > 0 ==> r@.len() > 0,
    {
        broadcast use vstd::seq_lib::group_filter_ensures;

        match self.leading_card {
            Some(l) => {
                if cards_have_suit(&self.hand, l.suit) {
                    let mut r: Vec<BasicCard> = Vec::new();
                    let mut i: usize = 0;
                    while i < self.hand.len()
                        invariant
                            i <= self.hand@.len(),
                            r@ == self.hand@.take(i as int).filter(|c: BasicCard| c.suit == l.suit),
                        decreases self.hand@.len() - i,
                    {
                        let c = self.hand[i];
                        proof {
                            reveal(Seq::filter);
                            let t1 = self.hand@.take(i + 1);
                            assert(t1.drop_last() =~= self.hand@.take(i as int));
                            assert(t1.last() == self.hand@[i as int]);
                        }
                        if c.suit == l.suit {
                            r.push(c);
                        }
                        i = i + 1;
                    }
                    proof {
                        assert(self.hand@.take(self.hand@.len() as int) =~= self.hand@);
                        let pred = |c: BasicCard| c.suit == l.suit;
                        assert(r@ == self.hand@.filter(pred));
                        lemma_filter_sub(self.hand@, pred);
                        assert forall|c: BasicCard| self.playable_spec(c) implies r@.contains(
                            c,
                        ) by {
                            let j = choose|j: int| 0 <= j < self.hand@.len() && self.hand@[j] == c;
                            self.hand@.lemma_filter_contains(pred, j);
                        }
                        let w = choose|j: int|
                            0 <= j < self.hand@.len() && self.hand@[j].suit == l.suit;
                        self.hand@.lemma_filter_contains(pred, w);
                    }
                    r
                } else {
                    clone_cards(&self.hand)
                }
            },
            None => clone_cards(&self.hand),
        }
    }

    /// True iff the player holds the card.
    pub fn has_card(&self, c: BasicCard) -> (r: bool)
        ensures
            r == self.hand@.contains(c),
    {
        cards_contain(&self.hand, c)
    }

    /// True iff the player holds at least one card of the suit.
    pub fn has_suit(&self, s: &Suit) -> (r: bool)
        ensures
            r == has_suit_spec(self.hand@, *s),
    {
        cards_have_suit(&self.hand, *s)
    }

    /// Suit ordinal used for sorting a hand for play: trumps last.
    pub fn ord_suit(&self, s: Suit) -> (r: u8)
        ensures
            r == suit_ord(s) + if s == self.trump {
                4int
            } else {
                0int
            },
    {
        s.ord() + if s == self.trump {
            4
        } else {
            0
        }
    }

    /// True iff the following card beats the leading card; false when
    /// the cards are equivalent.
    pub fn wins_against(&self, leading: &BasicCard, follow: &BasicCard) -> (r: bool)
        ensures
            r == if follow.suit == leading.suit {
                rank_ord(follow.rank) > rank_ord(leading.rank)
            } else {
                follow.suit == self.trump
            },
    {
        if follow.suit == leading.suit {
            follow.rank.ord_ace_high() > leading.rank.ord_ace_high()
        } else {
            follow.suit == self.trump
        }
    }

    /// The cards of the hand, in hand order.
    pub fn iter(&self) -> (r: &Vec<BasicCard>)
        ensures
            r@ == self.hand@,
    {
        &self.hand
    }
}

} // verus!
