//! The traits of this crate in one place.

pub use crate::traits::{MachineTrait, MatchTrait, NoiseTrait, PlayerTrait};
