//! Holds all the traits for this crate.

use vstd::prelude::*;

verus! {

/// Whether both numbers of a pair can be held as rewards or scores.
pub open spec fn fits(pair: (int, int)) -> bool {
    isize::MIN <= pair.0 <= isize::MAX && isize::MIN <= pair.1 <= isize::MAX
}

/// Determines the behaviour of the player.
///
/// A player is a state machine over its memory, which is its view. A match coordinator
/// (ideally a [`MatchTrait`] implementor) asks for the decision with
/// [`Self::cooperation_consent`], tells the player how each round went with
/// [`Self::memorize_last_game`], and clears the memory with [`Self::forget_games`] before a
/// new opponent is met. Cloning a player must keep its memory, which
/// [`Self::lemma_clone_keeps_memory`] asks each implementor to show.
///
/// Some players lack memory and always (i.e. [`crate::players::AllCooperate`]) play a preset
/// strategy: their memory is the unit value.
pub trait PlayerTrait: View + Clone + Sized {
    /// The answer that a player with this memory gives to the next round: `Some(true)` to
    /// cooperate, `Some(false)` to cheat, `None` where the answer is left to chance.
    spec fn consent(memory: Self::V) -> Option<bool>;

    /// The memory after a round with the given decisions and rewards, the player's own first.
    spec fn memorized(
        memory: Self::V,
        last_consents: (bool, bool),
        last_rewards: (isize, isize),
    ) -> Self::V;

    /// The memory of a player that has met nobody yet.
    spec fn forgotten(memory: Self::V) -> Self::V;

    /// Determine whether the player should cooperate or not (player's answer to the next round).
    fn cooperation_consent(&self) -> (consent: bool)
        ensures
            Self::consent(self@) matches Some(bound) ==> consent == bound,
    ;

    /// Add the last game to the memory to make observations based on that.
    ///
    /// The decisions are those that the two players gave and the rewards those that the
    /// machine recorded for them, the player's own first.
    fn memorize_last_game(&mut self, last_consents: (bool, bool), last_rewards: (isize, isize))
        ensures
            final(self)@ == Self::memorized(old(self)@, last_consents, last_rewards),
    ;

    /// Reset the memory.
    fn forget_games(&mut self)
        ensures
            final(self)@ == Self::forgotten(old(self)@),
    ;

    /// A clone has the memory of the player it was made from.
    proof fn lemma_clone_keeps_memory(&self, copy: &Self)
        requires
            cloned(*self, *copy),
        ensures
            copy@ == self@,
    ;
}

/// Whether a player with this memory may answer `consent` to the next round.
pub open spec fn allows<P: PlayerTrait>(memory: P::V, consent: bool) -> bool {
    P::consent(memory) matches Some(bound) ==> consent == bound
}

/// A boxed player plays as the player in the box.
impl<P: PlayerTrait> PlayerTrait for Box<P> {
    open spec fn consent(memory: P::V) -> Option<bool> {
        P::consent(memory)
    }

    open spec fn memorized(
        memory: P::V,
        last_consents: (bool, bool),
        last_rewards: (isize, isize),
    ) -> P::V {
        P::memorized(memory, last_consents, last_rewards)
    }

    open spec fn forgotten(memory: P::V) -> P::V {
        P::forgotten(memory)
    }

    fn cooperation_consent(&self) -> (consent: bool) {
        (**self).cooperation_consent()
    }

    fn memorize_last_game(&mut self, last_consents: (bool, bool), last_rewards: (isize, isize)) {
        (**self).memorize_last_game(last_consents, last_rewards)
    }

    fn forget_games(&mut self) {
        (**self).forget_games()
    }

    proof fn lemma_clone_keeps_memory(&self, copy: &Self) {
        if *self != *copy {
            (**self).lemma_clone_keeps_memory(&**copy);
        }
    }
}

/// A machine receiving inputs from players and putting out the results.
///
/// What a machine pays is given by its rule, a relation between the decisions put in and the
/// rewards put out: a machine that malfunctions at random may pay several rewards for the
/// same decisions. The rule never changes; the running totals do.
pub trait MachineTrait: Sized {
    /// Whether the machine may pay `rewards` for the decisions `consents`.
    spec fn rule(&self) -> spec_fn((bool, bool), (isize, isize)) -> bool;

    /// The running totals of both sides.
    spec fn totals(&self) -> (isize, isize);

    /// Play a game and return the results (do not record the results anywhere).
    fn play_off_record(&self, consents: (bool, bool)) -> (rewards: (isize, isize))
        ensures
            (self.rule())(consents, rewards),
    ;

    /// Get the scores.
    fn scores(&self) -> (totals: (isize, isize))
        ensures
            totals == self.totals(),
    ;

    /// Reset the machine stats.
    fn reset_scores(&mut self)
        ensures
            final(self).totals() == (0isize, 0isize),
            final(self).rule() == old(self).rule(),
    ;

    /// Add another round of scores the leaderboard.
    fn record_scores(&mut self, last_rewards: (isize, isize))
        requires
            fits(
                (
                    old(self).totals().0 + last_rewards.0,
                    old(self).totals().1 + last_rewards.1,
                ),
            ),
        ensures
            final(self).totals().0 == old(self).totals().0 + last_rewards.0,
            final(self).totals().1 == old(self).totals().1 + last_rewards.1,
            final(self).rule() == old(self).rule(),
    ;

    /// Play the inputs and get the outputs (mutating scoreboard and recording each result).
    ///
    /// The rewards returned are those that were recorded.
    fn play(&mut self, consents: (bool, bool)) -> (rewards: (isize, isize))
        requires
            forall|payable: (isize, isize)|
                #[trigger] (old(self).rule())(consents, payable) ==> fits(
                    (old(self).totals().0 + payable.0, old(self).totals().1 + payable.1),
                ),
        ensures
            (old(self).rule())(consents, rewards),
            final(self).totals().0 == old(self).totals().0 + rewards.0,
            final(self).totals().1 == old(self).totals().1 + rewards.1,
            final(self).rule() == old(self).rule(),
    {
        let last_rewards = self.play_off_record(consents);
        self.record_scores(last_rewards);
        last_rewards
    }
}

/// A boxed machine works as the machine in the box.
impl<M: MachineTrait> MachineTrait for Box<M> {
    open spec fn rule(&self) -> spec_fn((bool, bool), (isize, isize)) -> bool {
        (**self).rule()
    }

    open spec fn totals(&self) -> (isize, isize) {
        (**self).totals()
    }

    fn play_off_record(&self, consents: (bool, bool)) -> (rewards: (isize, isize)) {
        (**self).play_off_record(consents)
    }

    fn scores(&self) -> (totals: (isize, isize)) {
        (**self).scores()
    }

    fn reset_scores(&mut self) {
        (**self).reset_scores()
    }

    fn record_scores(&mut self, last_rewards: (isize, isize)) {
        (**self).record_scores(last_rewards)
    }
}

/// Where the failures of a machine come from, such as a random number generator held against
/// the chances of failure.
pub trait NoiseTrait {
    /// The decisions that the machine scores when the players put in `consents`. Nothing is
    /// promised of them: chance decides.
    fn perturb(&self, consents: (bool, bool)) -> (bool, bool);
}

/// A match for two players (consecutive plays on a machine), or for a whole population.
pub trait MatchTrait: Sized {
    /// Whether the next round can be played with every total staying within `isize`.
    spec fn can_play(&self) -> bool;

    /// Whether `next` may be the state that one round leads to from this one.
    spec fn step(&self, next: &Self) -> bool;

    /// Play the next round and save it in the machine.
    fn play(&mut self)
        requires
            old(self).can_play(),
        ensures
            old(self).step(final(self)),
    ;

    /// Play the number of rounds in succession.
    fn play_for_rounds(&mut self, rounds: usize)
        requires
            ({
                let step = |from: Self, to: Self| from.step(&to);
                forall|played: nat, state: Self|
                    played < rounds && #[trigger] reaches(step, *old(self), state, played)
                        ==> state.can_play()
            }),
        ensures
            reaches(|from: Self, to: Self| from.step(&to), *old(self), *final(self), rounds as nat),
    {
        let ghost step = |from: Self, to: Self| from.step(&to);
        let mut played: usize = 0;
        while played < rounds
            invariant
                played <= rounds,
                step == |from: Self, to: Self| from.step(&to),
                reaches(step, *old(self), *self, played as nat),
                forall|played: nat, state: Self|
                    played < rounds && #[trigger] reaches(step, *old(self), state, played)
                        ==> state.can_play(),
            decreases rounds - played,
        {
            let ghost before = *self;
            self.play();
            played += 1;
            assert(step(before, *self));
            assert(reaches(step, *old(self), before, (played as nat - 1) as nat));
            proof {
                lemma_reaches_further(step, *old(self), before, *self, (played - 1) as nat);
            }
        }
    }
}

/// Whether `rounds` steps in succession may lead from the state `from` to the state `to`.
pub open spec fn reaches<S>(step: spec_fn(S, S) -> bool, from: S, to: S, rounds: nat) -> bool
    decreases rounds,
{
    if rounds == 0 {
        to == from
    } else {
        exists|state: S| reaches(step, from, state, (rounds - 1) as nat) && #[trigger] step(state, to)
    }
}

/// A state reached in `rounds` steps and one step more make `rounds + 1` steps.
pub proof fn lemma_reaches_further<S>(
    step: spec_fn(S, S) -> bool,
    from: S,
    state: S,
    to: S,
    rounds: nat,
)
    requires
        reaches(step, from, state, rounds),
        step(state, to),
    ensures
        reaches(step, from, to, rounds + 1),
{
    assert(reaches(step, from, state, ((rounds + 1) - 1) as nat));
}

} // verus!
