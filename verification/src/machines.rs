//! Holds basic machines determining how games are played and how scores are recorded.
//!
//! Machines may malfunction randomly hence players must pay attention to the results registered
//! by the machines and base their decisions on that, not what they assume they played. This is
//! the reason a player type like [`crate::players::Simpleton`] sees the results returned by the
//! machine instead of what they put in the machine. In other words, a player must take action
//! on their registered state, not the state they assume they are in.

use crate::matrices::GameMatrix;
use crate::traits::{MachineTrait, NoiseTrait};
use vstd::prelude::*;

verus! {

/// The main "engine" of the game which handles payoffs and costs.
///
/// This is a deterministic machine which works always according to the given matrix. This is
/// the default for most of the logic.
#[derive(Debug)]
pub struct Machine {
    /// The game matrix regarding this machine.
    pub matrix: GameMatrix<isize>,
    /// What are the current scores of this machine being played this much.
    pub scores: (isize, isize),
}

impl Machine {
    /// A machine that pays by `matrix`, with both scores at zero.
    pub fn new(matrix: GameMatrix<isize>) -> (machine: Self)
        ensures
            machine.matrix == matrix,
            machine.scores == (0isize, 0isize),
    {
        Self { matrix, scores: (0, 0) }
    }
}

impl Default for Machine {
    fn default() -> (machine: Self)
        ensures
            machine.matrix == GameMatrix::classic(),
            machine.scores == (0isize, 0isize),
    {
        Self { matrix: GameMatrix::default(), scores: (0, 0) }
    }
}

impl Clone for Machine {
    fn clone(&self) -> (copy: Self)
        ensures
            copy == *self,
    {
        Self { matrix: self.matrix.clone(), scores: self.scores }
    }
}

impl MachineTrait for Machine {
    open spec fn rule(&self) -> spec_fn((bool, bool), (isize, isize)) -> bool {
        |consents: (bool, bool), rewards: (isize, isize)| rewards == self.matrix.lookup(consents)
    }

    open spec fn totals(&self) -> (isize, isize) {
        self.scores
    }

    fn play_off_record(&self, consents: (bool, bool)) -> (rewards: (isize, isize))
        ensures
            rewards == self.matrix.lookup(consents),
    {
        *self.matrix.get_for_consents(consents)
    }

    fn scores(&self) -> (totals: (isize, isize)) {
        self.scores
    }

    fn reset_scores(&mut self)
        ensures
            final(self).matrix == old(self).matrix,
    {
        self.scores = (0, 0);
    }

    fn record_scores(&mut self, last_rewards: (isize, isize))
        ensures
            final(self).matrix == old(self).matrix,
    {
        self.scores.0 += last_rewards.0;
        self.scores.1 += last_rewards.1;
    }
}

/// The decisions that a failing machine scores for the decisions `consents`: a side that
/// cooperates is scored as cooperating if its decision was `kept`, and a side that cheats is
/// scored as cooperating if it was `forgiven`.
pub fn perturbed(consents: (bool, bool), kept: (bool, bool), forgiven: (bool, bool)) -> (scored: (
    bool,
    bool,
))
    ensures
        scored.0 == (if consents.0 {
            kept.0
        } else {
            forgiven.0
        }),
        scored.1 == (if consents.1 {
            kept.1
        } else {
            forgiven.1
        }),
{
    (
        if consents.0 {
            kept.0
        } else {
            forgiven.0
        },
        if consents.1 {
            kept.1
        } else {
            forgiven.1
        },
    )
}

/// A machine with chances of failure or swapping outputs.
///
/// Before a round is scored, the noise may turn each side's decision into the other one. The
/// rewards are those that the base machine gives for the decisions as the noise left them, so
/// they may be any pair of the table; scores are kept by the base machine.
#[derive(Debug)]
pub struct MachineRandomizer<N> {
    /// The machine that pays and keeps the scores.
    pub base: Machine,
    /// Where the failures come from.
    pub noise: N,
}

impl<N: NoiseTrait> MachineTrait for MachineRandomizer<N> {
    open spec fn rule(&self) -> spec_fn((bool, bool), (isize, isize)) -> bool {
        |consents: (bool, bool), rewards: (isize, isize)|
            exists|scored: (bool, bool)| rewards == #[trigger] self.base.matrix.lookup(scored)
    }

    open spec fn totals(&self) -> (isize, isize) {
        self.base.scores
    }

    fn play_off_record(&self, consents: (bool, bool)) -> (rewards: (isize, isize)) {
        // mutate the contests randomly.
        let scored = self.noise.perturb(consents);
        self.base.play_off_record(scored)
    }

    fn scores(&self) -> (totals: (isize, isize)) {
        self.base.scores()
    }

    fn reset_scores(&mut self)
        ensures
            final(self).base.matrix == old(self).base.matrix,
            final(self).noise == old(self).noise,
    {
        self.base.reset_scores()
    }

    fn record_scores(&mut self, last_rewards: (isize, isize))
        ensures
            final(self).base.matrix == old(self).base.matrix,
            final(self).noise == old(self).noise,
    {
        self.base.record_scores(last_rewards)
    }
}

} // verus!
