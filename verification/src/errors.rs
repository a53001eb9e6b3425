//! Holds all the errors in this crate.

use vstd::prelude::*;

verus! {

/// Indicates a failure in [`crate::matches::Arena`].
#[derive(Debug, Clone, Copy, PartialEq, Eq, Structural)]
pub enum ArenaError {
    /// Thrown when a player type cannot be known (ID larger than types).
    UnknownPlayer,
}

impl ArenaError {
    /// The text that describes the error.
    pub open spec fn description(self) -> Seq<char> {
        match self {
            Self::UnknownPlayer => "The given ID in the players list is not in constructors."@,
        }
    }

    /// The error in words.
    pub fn message(&self) -> (text: &'static str)
        ensures
            text@ == self.description(),
    {
        match self {
            Self::UnknownPlayer => "The given ID in the players list is not in constructors.",
        }
    }
}

} // verus!
