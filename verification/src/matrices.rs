//! Holds structs regarding payoff tables and such.

use vstd::prelude::*;

verus! {

/// Holds the rewards of one round for each of the four joint decisions.
///
/// In each pair the first reward goes to the first player and the second to the second.
#[derive(Debug)]
pub struct GameMatrix<T> {
    /// The rewards for players both cooperating.
    pub cc: (T, T),
    /// The rewards for the first player cooperating and the other not.
    pub cd: (T, T),
    /// The rewards for the second player cooperating and the other not.
    pub dc: (T, T),
    /// The rewards for players both not cooperating.
    pub dd: (T, T),
}

impl<T> GameMatrix<T> {
    /// The rewards that the table gives for a pair of decisions (`true` is to cooperate).
    pub open spec fn lookup(self, consents: (bool, bool)) -> (T, T) {
        if consents.0 {
            if consents.1 {
                self.cc
            } else {
                self.cd
            }
        } else {
            if consents.1 {
                self.dc
            } else {
                self.dd
            }
        }
    }

    /// The rewards for a pair of decisions.
    pub fn get_for_consents(&self, consents: (bool, bool)) -> (rewards: &(T, T))
        ensures
            *rewards == self.lookup(consents),
    {
        match consents {
            (true, true) => &self.cc,
            (true, false) => &self.cd,
            (false, true) => &self.dc,
            (false, false) => &self.dd,
        }
    }
}

impl<T: Clone> Clone for GameMatrix<T> {
    fn clone(&self) -> (copy: Self)
        ensures
            cloned(self.cc.0, copy.cc.0) && cloned(self.cc.1, copy.cc.1),
            cloned(self.cd.0, copy.cd.0) && cloned(self.cd.1, copy.cd.1),
            cloned(self.dc.0, copy.dc.0) && cloned(self.dc.1, copy.dc.1),
            cloned(self.dd.0, copy.dd.0) && cloned(self.dd.1, copy.dd.1),
    {
        Self {
            cc: (self.cc.0.clone(), self.cc.1.clone()),
            cd: (self.cd.0.clone(), self.cd.1.clone()),
            dc: (self.dc.0.clone(), self.dc.1.clone()),
            dd: (self.dd.0.clone(), self.dd.1.clone()),
        }
    }
}

impl GameMatrix<isize> {
    /// The classic table: cooperation pays both moderately, a lone defector wins at the
    /// cooperator's cost, and mutual defection pays nothing.
    pub open spec fn classic() -> GameMatrix<isize> {
        GameMatrix { cc: (2, 2), cd: (-1isize, 3), dc: (3, -1isize), dd: (0, 0) }
    }
}

impl Default for GameMatrix<isize> {
    fn default() -> (matrix: Self)
        ensures
            matrix == GameMatrix::classic(),
    {
        Self { cc: (2, 2), cd: (-1, 3), dc: (3, -1), dd: (0, 0) }
    }
}

} // verus!
