//! A verified engine for two-player German Whist.
//!
//! The crate models the cards, the game state, the trick rules and the
//! per-player observation events, and proves the central invariants:
//! the 52 cards stay distinct and conserved, only legal actions are
//! offered or accepted, and the events delivered to each player carry
//! exactly what that player is entitled to see.

pub mod cards;
pub mod engine;
pub mod hand_belief;
pub mod neural_net;
pub mod phase;
pub mod player;
pub mod state;
