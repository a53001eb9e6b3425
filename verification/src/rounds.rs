//! Records of played rounds, and what a sequence of them does to players and scores.

use crate::matrices::GameMatrix;
use crate::traits::{allows, fits, PlayerTrait};
use vstd::prelude::*;

verus! {

/// One round as the first of two players saw it: the decisions of both and the rewards that
/// the machine recorded for them, the first player's first.
pub struct Round {
    pub consents: (bool, bool),
    pub rewards: (isize, isize),
}

impl Round {
    /// The same round as the second player saw it.
    pub open spec fn mirrored(self) -> Round {
        Round {
            consents: (self.consents.1, self.consents.0),
            rewards: (self.rewards.1, self.rewards.0),
        }
    }
}

/// The same rounds as the second player saw them.
pub open spec fn mirrored(rounds: Seq<Round>) -> Seq<Round> {
    Seq::new(rounds.len(), |k: int| rounds[k].mirrored())
}

/// The memory that a player has after it memorized `rounds` one by one, starting from `memory`.
pub open spec fn memory_after<P: PlayerTrait>(memory: P::V, rounds: Seq<Round>) -> P::V
    decreases rounds.len(),
{
    if rounds.len() == 0 {
        memory
    } else {
        P::memorized(
            memory_after::<P>(memory, rounds.drop_last()),
            rounds.last().consents,
            rounds.last().rewards,
        )
    }
}

/// The rewards of `rounds` added up for each side.
pub open spec fn total(rounds: Seq<Round>) -> (int, int)
    decreases rounds.len(),
{
    if rounds.len() == 0 {
        (0, 0)
    } else {
        (
            total(rounds.drop_last()).0 + rounds.last().rewards.0,
            total(rounds.drop_last()).1 + rounds.last().rewards.1,
        )
    }
}

/// Whether `round` may come next between two players with these memories on a machine that
/// pays by `rule`: each player that is bound to an answer gives it, and the machine may pay
/// the rewards for the two answers.
pub open spec fn admits<P1: PlayerTrait, P2: PlayerTrait>(
    rule: spec_fn((bool, bool), (isize, isize)) -> bool,
    first: P1::V,
    second: P2::V,
    round: Round,
) -> bool {
    &&& allows::<P1>(first, round.consents.0)
    &&& allows::<P2>(second, round.consents.1)
    &&& rule(round.consents, round.rewards)
}

/// Whether `rounds` may be played in succession by two players who begin with these memories
/// and memorize each round, on a machine that pays by `rule`.
pub open spec fn playable<P1: PlayerTrait, P2: PlayerTrait>(
    rule: spec_fn((bool, bool), (isize, isize)) -> bool,
    first: P1::V,
    second: P2::V,
    rounds: Seq<Round>,
) -> bool
    decreases rounds.len(),
{
    rounds.len() == 0 || {
        let earlier = rounds.drop_last();
        &&& playable::<P1, P2>(rule, first, second, earlier)
        &&& admits::<P1, P2>(
            rule,
            memory_after::<P1>(first, earlier),
            memory_after::<P2>(second, mirrored(earlier)),
            rounds.last(),
        )
    }
}

/// Whether every sequence of at most `limit` rounds that two players with these memories may
/// play adds up to totals within `isize`, when added to the totals `start`.
pub open spec fn stays_within<P1: PlayerTrait, P2: PlayerTrait>(
    rule: spec_fn((bool, bool), (isize, isize)) -> bool,
    first: P1::V,
    second: P2::V,
    start: (isize, isize),
    limit: nat,
) -> bool {
    forall|rounds: Seq<Round>|
        rounds.len() <= limit && #[trigger] playable::<P1, P2>(rule, first, second, rounds)
            ==> fits((start.0 + total(rounds).0, start.1 + total(rounds).1))
}

/// What one more round does to the rounds played so far.
pub proof fn lemma_round_added<P1: PlayerTrait, P2: PlayerTrait>(
    rule: spec_fn((bool, bool), (isize, isize)) -> bool,
    first: P1::V,
    second: P2::V,
    rounds: Seq<Round>,
    round: Round,
)
    ensures
        memory_after::<P1>(first, rounds.push(round)) == P1::memorized(
            memory_after::<P1>(first, rounds),
            round.consents,
            round.rewards,
        ),
        memory_after::<P2>(second, mirrored(rounds.push(round))) == P2::memorized(
            memory_after::<P2>(second, mirrored(rounds)),
            round.mirrored().consents,
            round.mirrored().rewards,
        ),
        total(rounds.push(round)) == (
            total(rounds).0 + round.rewards.0,
            total(rounds).1 + round.rewards.1,
        ),
        playable::<P1, P2>(rule, first, second, rounds.push(round)) <==> playable::<P1, P2>(
            rule,
            first,
            second,
            rounds,
        ) && admits::<P1, P2>(
            rule,
            memory_after::<P1>(first, rounds),
            memory_after::<P2>(second, mirrored(rounds)),
            round,
        ),
{
    let longer = rounds.push(round);
    assert(longer.drop_last() == rounds);
    assert(longer.last() == round);
    assert(mirrored(longer).drop_last() == mirrored(rounds));
    assert(mirrored(longer).last() == round.mirrored());
}

/// The rounds that two players play on a machine that pays by `matrix`, as long as the answer
/// of neither is left to chance: each gives the answer it is bound to.
pub open spec fn script<P1: PlayerTrait, P2: PlayerTrait>(
    matrix: GameMatrix<isize>,
    first: P1::V,
    second: P2::V,
    rounds: nat,
) -> Seq<Round>
    decreases rounds,
{
    if rounds == 0 {
        Seq::empty()
    } else {
        let earlier = script::<P1, P2>(matrix, first, second, (rounds - 1) as nat);
        let consents = (
            P1::consent(memory_after::<P1>(first, earlier)).unwrap(),
            P2::consent(memory_after::<P2>(second, mirrored(earlier))).unwrap(),
        );
        earlier.push(Round { consents, rewards: matrix.lookup(consents) })
    }
}

/// Whether both players are bound to an answer in each of the first `rounds` rounds of the
/// script.
pub open spec fn bound_along<P1: PlayerTrait, P2: PlayerTrait>(
    matrix: GameMatrix<isize>,
    first: P1::V,
    second: P2::V,
    rounds: nat,
) -> bool {
    forall|earlier: nat|
        earlier < rounds ==> {
            let seen = #[trigger] script::<P1, P2>(matrix, first, second, earlier);
            &&& P1::consent(memory_after::<P1>(first, seen)) is Some
            &&& P2::consent(memory_after::<P2>(second, mirrored(seen))) is Some
        }
}

/// On a machine that pays by a table, two players who are bound to their answers can play
/// nothing but the script.
pub proof fn lemma_script_is_played<P1: PlayerTrait, P2: PlayerTrait>(
    rule: spec_fn((bool, bool), (isize, isize)) -> bool,
    matrix: GameMatrix<isize>,
    first: P1::V,
    second: P2::V,
    played: Seq<Round>,
)
    requires
        forall|consents: (bool, bool), rewards: (isize, isize)| #[trigger]
            rule(consents, rewards) <==> rewards == matrix.lookup(consents),
        bound_along::<P1, P2>(matrix, first, second, played.len()),
    ensures
        script::<P1, P2>(matrix, first, second, played.len()).len() == played.len(),
        playable::<P1, P2>(rule, first, second, played) <==> played == script::<P1, P2>(
            matrix,
            first,
            second,
            played.len(),
        ),
    decreases played.len(),
{
    if played.len() > 0 {
        let earlier = played.drop_last();
        let before = script::<P1, P2>(matrix, first, second, earlier.len());
        lemma_script_is_played::<P1, P2>(rule, matrix, first, second, earlier);
        assert(before == script::<P1, P2>(matrix, first, second, (played.len() - 1) as nat));
        let consents = (
            P1::consent(memory_after::<P1>(first, before)).unwrap(),
            P2::consent(memory_after::<P2>(second, mirrored(before))).unwrap(),
        );
        let next = Round { consents, rewards: matrix.lookup(consents) };
        let whole = script::<P1, P2>(matrix, first, second, played.len());
        assert(whole == before.push(next));
        assert(whole.drop_last() == before);
        assert(rule(next.consents, next.rewards));
        if playable::<P1, P2>(rule, first, second, played) {
            assert(earlier == before);
            assert(played.last() == next);
            assert(played == earlier.push(played.last()));
        }
        if played == whole {
            assert(earlier == before);
            assert(played.last() == next);
        }
    } else {
        assert(played == Seq::<Round>::empty());
    }
}

/// Whether no reward that the rule allows is further than `bound` from zero.
pub open spec fn pays_within(
    rule: spec_fn((bool, bool), (isize, isize)) -> bool,
    bound: nat,
) -> bool {
    forall|consents: (bool, bool), rewards: (isize, isize)| #[trigger]
        rule(consents, rewards) ==> -bound <= rewards.0 <= bound && -bound <= rewards.1 <= bound
}

/// Rounds with rewards of at most `bound` add up to at most `bound` a round.
pub proof fn lemma_total_within<P1: PlayerTrait, P2: PlayerTrait>(
    rule: spec_fn((bool, bool), (isize, isize)) -> bool,
    bound: nat,
    first: P1::V,
    second: P2::V,
    rounds: Seq<Round>,
)
    requires
        pays_within(rule, bound),
        playable::<P1, P2>(rule, first, second, rounds),
    ensures
        -(bound * rounds.len()) <= total(rounds).0 <= bound * rounds.len(),
        -(bound * rounds.len()) <= total(rounds).1 <= bound * rounds.len(),
    decreases rounds.len(),
{
    if rounds.len() > 0 {
        lemma_total_within::<P1, P2>(rule, bound, first, second, rounds.drop_last());
        assert(rule(rounds.last().consents, rounds.last().rewards));
        assert(bound * rounds.len() == bound * (rounds.len() - 1) + bound) by (nonlinear_arith);
    } else {
        assert(bound * rounds.len() == 0) by (nonlinear_arith)
            requires
                rounds.len() == 0,
        ;
    }
}

/// Totals stay within `isize` over `limit` rounds where they start no further from zero than
/// `limit` times the highest reward leaves room for.
pub proof fn lemma_stays_within<P1: PlayerTrait, P2: PlayerTrait>(
    rule: spec_fn((bool, bool), (isize, isize)) -> bool,
    bound: nat,
    first: P1::V,
    second: P2::V,
    start: (isize, isize),
    limit: nat,
)
    requires
        pays_within(rule, bound),
        -isize::MAX <= start.0 - bound * limit,
        start.0 + bound * limit <= isize::MAX,
        -isize::MAX <= start.1 - bound * limit,
        start.1 + bound * limit <= isize::MAX,
    ensures
        stays_within::<P1, P2>(rule, first, second, start, limit),
{
    assert forall|rounds: Seq<Round>|
        rounds.len() <= limit && #[trigger] playable::<P1, P2>(
            rule,
            first,
            second,
            rounds,
        ) implies fits((start.0 + total(rounds).0, start.1 + total(rounds).1)) by {
        lemma_total_within::<P1, P2>(rule, bound, first, second, rounds);
        assert(bound * rounds.len() <= bound * limit) by (nonlinear_arith)
            requires
                rounds.len() <= limit,
        ;
    }
}

} // verus!
