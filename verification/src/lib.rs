//! A simulation of the iterated prisoner's dilemma in the style of "The Evolution of Trust".
//!
//! A [`matrices::GameMatrix`] holds the payoffs, a [`machines::Machine`] scores single rounds
//! and keeps running totals, the [`players`] decide round by round whether to cooperate, a
//! [`matches::Match`] lets two players meet on a machine and an [`matches::Arena`] lets a whole
//! population meet pairwise before a [`genetics::GeneticStrategy`] forms the next generation.

pub mod errors;
pub mod genetics;
pub mod machines;
pub mod matches;
pub mod matrices;
pub mod players;
pub mod ranking;
pub mod round_robin;
pub mod rounds;
pub mod traits;
pub mod worm_bools;

/// Auto include traits.
pub mod prelude;
