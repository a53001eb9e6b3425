//! Different configurations for putting players against each other (1V1 and manyVmany).

use crate::errors::ArenaError;
use crate::genetics::{lemma_apply_keeps_types, GeneticStrategy};
use crate::machines::Machine;
use crate::matrices::GameMatrix;
use crate::ranking::{is_ranked, lemma_ranked, listed, rank_by_score, types_of};
use crate::round_robin::{
    grand_total, lemma_pairings, lemma_pairings_before, lemma_scores_add_up, lemma_tally_added,
    lemma_tally_within, pairings, pairings_before, row, slot, tally, tally_sum,
};
use crate::rounds::{
    admits, bound_along, lemma_round_added, lemma_script_is_played, lemma_stays_within,
    lemma_total_within, memory_after, mirrored, pays_within, playable, script, stays_within,
    total, Round,
};
use crate::traits::{fits, reaches, MachineTrait, MatchTrait, PlayerTrait};
use vstd::prelude::*;

verus! {

/// One round between two players on a machine: both are asked, the machine plays and records
/// their answers, and each player memorizes the round as it saw it.
fn play_round<P1: PlayerTrait, P2: PlayerTrait, M: MachineTrait>(
    machine: &mut M,
    first: &mut P1,
    second: &mut P2,
) -> (round: Ghost<Round>)
    requires
        forall|round: Round| #[trigger]
            admits::<P1, P2>(old(machine).rule(), old(first)@, old(second)@, round) ==> fits(
                (
                    old(machine).totals().0 + round.rewards.0,
                    old(machine).totals().1 + round.rewards.1,
                ),
            ),
    ensures
        admits::<P1, P2>(old(machine).rule(), old(first)@, old(second)@, round@),
        final(first)@ == P1::memorized(old(first)@, round@.consents, round@.rewards),
        final(second)@ == P2::memorized(
            old(second)@,
            round@.mirrored().consents,
            round@.mirrored().rewards,
        ),
        final(machine).totals().0 == old(machine).totals().0 + round@.rewards.0,
        final(machine).totals().1 == old(machine).totals().1 + round@.rewards.1,
        final(machine).rule() == old(machine).rule(),
{
    let last_consents = (first.cooperation_consent(), second.cooperation_consent());
    assert forall|payable: (isize, isize)| #[trigger]
        (machine.rule())(last_consents, payable) implies fits(
        (machine.totals().0 + payable.0, machine.totals().1 + payable.1),
    ) by {
        let round = Round { consents: last_consents, rewards: payable };
        assert(admits::<P1, P2>(machine.rule(), first@, second@, round));
    }
    let last_rewards = machine.play(last_consents);

    // broadcast results to players
    second.memorize_last_game(
        (last_consents.1, last_consents.0),
        (last_rewards.1, last_rewards.0),
    );
    first.memorize_last_game(last_consents, last_rewards);
    Ghost(Round { consents: last_consents, rewards: last_rewards })
}

/// A structure simulating two people playing a game.
#[derive(Debug)]
pub struct Match<P1, P2, M = Machine> {
    /// The machine used in the match.
    pub machine: M,
    /// Players of the match.
    pub players: (P1, P2),
}

impl<P1: PlayerTrait, P2: PlayerTrait, M: MachineTrait> Match<P1, P2, M> {
    /// Whether `round` may come next in this state of the match.
    pub open spec fn admits(&self, round: Round) -> bool {
        admits::<P1, P2>(self.machine.rule(), self.players.0@, self.players.1@, round)
    }

    /// Whether the match may get from this state to `next` by playing `rounds`: the rounds
    /// are playable, both players have memorized them, and the machine has added their
    /// rewards to its totals.
    pub open spec fn leads(&self, rounds: Seq<Round>, next: &Self) -> bool {
        &&& playable::<P1, P2>(self.machine.rule(), self.players.0@, self.players.1@, rounds)
        &&& next.players.0@ == memory_after::<P1>(self.players.0@, rounds)
        &&& next.players.1@ == memory_after::<P2>(self.players.1@, mirrored(rounds))
        &&& next.machine.totals().0 == self.machine.totals().0 + total(rounds).0
        &&& next.machine.totals().1 == self.machine.totals().1 + total(rounds).1
        &&& next.machine.rule() == self.machine.rule()
    }

    /// A match gets from one state to another in `rounds` rounds by playing that many rounds
    /// that are playable in succession.
    pub proof fn lemma_rounds_lead(from: Self, to: Self, rounds: nat)
        requires
            reaches(|from: Self, to: Self| from.step(&to), from, to, rounds),
        ensures
            exists|played: Seq<Round>| played.len() == rounds && #[trigger] from.leads(played, &to),
        decreases rounds,
    {
        let step = |from: Self, to: Self| from.step(&to);
        if rounds == 0 {
            assert(from.leads(Seq::empty(), &to));
        } else {
            let state = choose|state: Self|
                reaches(step, from, state, (rounds - 1) as nat) && #[trigger] step(state, to);
            Self::lemma_rounds_lead(from, state, (rounds - 1) as nat);
            let earlier = choose|played: Seq<Round>|
                played.len() == rounds - 1 && #[trigger] from.leads(played, &state);
            let round = choose|round: Round| #[trigger] state.leads(seq![round], &to);
            lemma_round_added::<P1, P2>(
                state.machine.rule(),
                state.players.0@,
                state.players.1@,
                Seq::empty(),
                round,
            );
            assert(Seq::<Round>::empty().push(round) == seq![round]);
            lemma_round_added::<P1, P2>(
                from.machine.rule(),
                from.players.0@,
                from.players.1@,
                earlier,
                round,
            );
            assert(from.leads(earlier.push(round), &to));
        }
    }

    /// Where no playable sequence of up to `rounds` rounds takes a total out of `isize`, each
    /// state that the match reaches in fewer rounds allows one more round.
    pub proof fn lemma_can_play_on(from: Self, state: Self, played: nat, rounds: nat)
        requires
            stays_within::<P1, P2>(
                from.machine.rule(),
                from.players.0@,
                from.players.1@,
                from.machine.totals(),
                rounds,
            ),
            played < rounds,
            reaches(|from: Self, to: Self| from.step(&to), from, state, played),
        ensures
            state.can_play(),
    {
        Self::lemma_rounds_lead(from, state, played);
        let earlier = choose|earlier: Seq<Round>|
            earlier.len() == played && #[trigger] from.leads(earlier, &state);
        assert forall|round: Round| #[trigger] state.admits(round) implies fits(
            (
                state.machine.totals().0 + round.rewards.0,
                state.machine.totals().1 + round.rewards.1,
            ),
        ) by {
            lemma_round_added::<P1, P2>(
                from.machine.rule(),
                from.players.0@,
                from.players.1@,
                earlier,
                round,
            );
            assert(playable::<P1, P2>(
                from.machine.rule(),
                from.players.0@,
                from.players.1@,
                earlier.push(round),
            ));
        }
    }
}

impl<P1: PlayerTrait + Default, P2: PlayerTrait + Default> Default for Match<P1, P2, Machine> {
    /// Two players as their types make them by default, on a machine with the classic table
    /// and both scores at zero.
    fn default() -> (game: Self)
        ensures
            game.machine.matrix == GameMatrix::classic(),
            game.machine.scores == (0isize, 0isize),
            call_ensures(P1::default, (), game.players.0),
            call_ensures(P2::default, (), game.players.1),
    {
        Self { machine: Machine::default(), players: (P1::default(), P2::default()) }
    }
}

impl<P1: PlayerTrait, P2: PlayerTrait, M: MachineTrait> MatchTrait for Match<P1, P2, M> {
    /// Whichever round may come next, its rewards leave both totals within `isize`.
    open spec fn can_play(&self) -> bool {
        forall|round: Round| #[trigger]
            self.admits(round) ==> fits(
                (
                    self.machine.totals().0 + round.rewards.0,
                    self.machine.totals().1 + round.rewards.1,
                ),
            )
    }

    /// One round that may come next has been played.
    open spec fn step(&self, next: &Self) -> bool {
        exists|round: Round| #[trigger] self.leads(seq![round], next)
    }

    fn play(&mut self) {
        let ghost before = *self;
        assert forall|round: Round| #[trigger]
            admits::<P1, P2>(
                self.machine.rule(),
                self.players.0@,
                self.players.1@,
                round,
            ) implies fits(
            (self.machine.totals().0 + round.rewards.0, self.machine.totals().1 + round.rewards.1),
        ) by {
            assert(before.admits(round));
        }
        let round = play_round(&mut self.machine, &mut self.players.0, &mut self.players.1);
        proof {
            lemma_round_added::<P1, P2>(
                before.machine.rule(),
                before.players.0@,
                before.players.1@,
                Seq::empty(),
                round@,
            );
            assert(Seq::<Round>::empty().push(round@) == seq![round@]);
            assert(before.leads(seq![round@], self));
        }
    }
}

/// A copy of a player, made by `dyn_clone::clone`: that function hands out what the player's
/// own `clone` returns.
#[verifier::external_body]
fn clone_player<P: PlayerTrait>(player: &P) -> (copy: P)
    ensures
        cloned(*player, copy),
{
    dyn_clone::clone(player)
}

/// A number of rounds in succession between two players on a machine; the result is the
/// record of the rounds played.
fn play_rounds<P1: PlayerTrait, P2: PlayerTrait, M: MachineTrait>(
    machine: &mut M,
    first: &mut P1,
    second: &mut P2,
    rounds: usize,
) -> (played: Ghost<Seq<Round>>)
    requires
        stays_within::<P1, P2>(
            old(machine).rule(),
            old(first)@,
            old(second)@,
            old(machine).totals(),
            rounds as nat,
        ),
    ensures
        played@.len() == rounds,
        playable::<P1, P2>(old(machine).rule(), old(first)@, old(second)@, played@),
        final(first)@ == memory_after::<P1>(old(first)@, played@),
        final(second)@ == memory_after::<P2>(old(second)@, mirrored(played@)),
        final(machine).totals().0 == old(machine).totals().0 + total(played@).0,
        final(machine).totals().1 == old(machine).totals().1 + total(played@).1,
        final(machine).rule() == old(machine).rule(),
{
    let ghost rule = machine.rule();
    let ghost start = machine.totals();
    let ghost mut played: Seq<Round> = Seq::empty();
    let mut count: usize = 0;
    while count < rounds
        invariant
            count <= rounds,
            played.len() == count,
            rule == old(machine).rule(),
            start == old(machine).totals(),
            stays_within::<P1, P2>(rule, old(first)@, old(second)@, start, rounds as nat),
            playable::<P1, P2>(rule, old(first)@, old(second)@, played),
            first@ == memory_after::<P1>(old(first)@, played),
            second@ == memory_after::<P2>(old(second)@, mirrored(played)),
            machine.totals().0 == start.0 + total(played).0,
            machine.totals().1 == start.1 + total(played).1,
            machine.rule() == rule,
        decreases rounds - count,
    {
        assert forall|round: Round| #[trigger]
            admits::<P1, P2>(machine.rule(), first@, second@, round) implies fits(
            (machine.totals().0 + round.rewards.0, machine.totals().1 + round.rewards.1),
        ) by {
            lemma_round_added::<P1, P2>(rule, old(first)@, old(second)@, played, round);
            assert(playable::<P1, P2>(rule, old(first)@, old(second)@, played.push(round)));
        }
        let round = play_round(machine, first, second);
        proof {
            lemma_round_added::<P1, P2>(rule, old(first)@, old(second)@, played, round@);
            played = played.push(round@);
        }
        count += 1;
    }
    Ghost(played)
}

/// What an [`Arena`] holds.
pub struct ArenaView<V> {
    /// The rule by which the machine pays.
    pub rule: spec_fn((bool, bool), (isize, isize)) -> bool,
    /// The memories with which the players of each type begin a pairing.
    pub prototypes: Seq<V>,
    /// The type of each individual of the population.
    pub players: Seq<usize>,
    /// The score of each individual of the population that played last.
    pub scores: Seq<isize>,
    /// Rounds per pairing.
    pub rounds: nat,
    /// How one generation follows from another.
    pub strategy: GeneticStrategy,
}

impl<V> ArenaView<V> {
    /// Whether each individual is of a type that has a prototype.
    pub open spec fn well_formed(self) -> bool {
        forall|position: int|
            0 <= position < self.players.len() ==> (#[trigger] self.players[position])
                < self.prototypes.len()
    }

    /// The memory with which the individual at `position` begins a pairing.
    pub open spec fn prototype_of(self, position: int) -> V {
        self.prototypes[self.players[position] as int]
    }
}

/// Whether the two individuals of `pair` may play `game` against each other in the arena.
pub open spec fn game_between<P: PlayerTrait>(
    arena: ArenaView<P::V>,
    pair: (int, int),
    game: Seq<Round>,
) -> bool {
    &&& game.len() == arena.rounds
    &&& playable::<P, P>(arena.rule, arena.prototype_of(pair.0), arena.prototype_of(pair.1), game)
}

/// Whether `games` may be the games of the first pairings of the arena's population, in the
/// order in which they are played.
pub open spec fn played<P: PlayerTrait>(arena: ArenaView<P::V>, games: Seq<Seq<Round>>) -> bool {
    &&& games.len() <= pairings(arena.players.len()).len()
    &&& forall|at: int|
        0 <= at < games.len() ==> game_between::<P>(
            arena,
            pairings(arena.players.len())[at],
            #[trigger] games[at],
        )
}

/// Whether a generation can be played with every total staying within `isize`: however the
/// first pairings go, each score so far is within `isize`, and so are the running totals of
/// the pairing that comes next, at each of its rounds.
pub open spec fn within_limits<P: PlayerTrait>(arena: ArenaView<P::V>) -> bool {
    forall|games: Seq<Seq<Round>>| #[trigger]
        played::<P>(arena, games) ==> {
            let pairs = pairings(arena.players.len());
            &&& forall|position: int|
                0 <= position < arena.players.len() ==> isize::MIN <= #[trigger] tally(
                    pairs,
                    games,
                    position,
                ) <= isize::MAX
            &&& games.len() < pairs.len() ==> stays_within::<P, P>(
                arena.rule,
                arena.prototype_of(pairs[games.len() as int].0),
                arena.prototype_of(pairs[games.len() as int].1),
                (0, 0),
                arena.rounds,
            )
        }
}

/// Whether one generation may lead from the arena `before` to the arena `after`, where
/// `games` are the games of all pairings and `ranked` is the population by ascending score:
/// each individual scores the sum of its rewards over its pairings, and the strategy makes
/// the next population of the ranked types.
pub open spec fn generation<P: PlayerTrait>(
    before: ArenaView<P::V>,
    games: Seq<Seq<Round>>,
    ranked: Seq<(usize, isize)>,
    after: ArenaView<P::V>,
) -> bool {
    let pairs = pairings(before.players.len());
    &&& played::<P>(before, games)
    &&& games.len() == pairs.len()
    &&& after.scores.len() == before.players.len()
    &&& forall|position: int|
        0 <= position < before.players.len() ==> (#[trigger] after.scores[position]) == tally(
            pairs,
            games,
            position,
        )
    &&& is_ranked(listed(before.players, after.scores), ranked)
    &&& after.players == before.strategy.apply(types_of(ranked))
    &&& after.rule == before.rule
    &&& after.prototypes == before.prototypes
    &&& after.rounds == before.rounds
    &&& after.strategy == before.strategy
}

/// A generation can be played within `isize` where the highest reward, times the rounds of a
/// pairing, times the number of pairings, is within `isize`.
pub proof fn lemma_within_limits<P: PlayerTrait>(arena: ArenaView<P::V>, bound: nat)
    requires
        pays_within(arena.rule, bound),
        bound * arena.rounds * pairings(arena.players.len()).len() <= isize::MAX,
    ensures
        within_limits::<P>(arena),
{
    let pairs = pairings(arena.players.len());
    let per_game = bound * arena.rounds;
    assert(per_game <= isize::MAX || pairs.len() == 0) by (nonlinear_arith)
        requires
            per_game * pairs.len() <= isize::MAX,
            per_game >= 0,
    ;
    assert forall|games: Seq<Seq<Round>>| #[trigger] played::<P>(arena, games) implies {
        &&& forall|position: int|
            0 <= position < arena.players.len() ==> isize::MIN <= #[trigger] tally(
                pairs,
                games,
                position,
            ) <= isize::MAX
        &&& games.len() < pairs.len() ==> stays_within::<P, P>(
            arena.rule,
            arena.prototype_of(pairs[games.len() as int].0),
            arena.prototype_of(pairs[games.len() as int].1),
            (0, 0),
            arena.rounds,
        )
    } by {
        assert forall|at: int| 0 <= at < games.len() implies -per_game <= total(
            #[trigger] games[at],
        ).0 <= per_game && -per_game <= total(games[at]).1 <= per_game by {
            assert(game_between::<P>(arena, pairs[at], games[at]));
            lemma_total_within::<P, P>(
                arena.rule,
                bound,
                arena.prototype_of(pairs[at].0),
                arena.prototype_of(pairs[at].1),
                games[at],
            );
        }
        assert forall|position: int| 0 <= position < arena.players.len() implies isize::MIN
            <= #[trigger] tally(pairs, games, position) <= isize::MAX by {
            lemma_tally_within(pairs, games, position, per_game);
            assert(per_game * games.len() <= per_game * pairs.len()) by (nonlinear_arith)
                requires
                    games.len() <= pairs.len(),
                    per_game >= 0,
            ;
        }
        if games.len() < pairs.len() {
            lemma_stays_within::<P, P>(
                arena.rule,
                bound,
                arena.prototype_of(pairs[games.len() as int].0),
                arena.prototype_of(pairs[games.len() as int].1),
                (0, 0),
                arena.rounds,
            );
        }
    }
}

/// On a machine that pays by a table, individuals whose types are bound to their answers
/// can play nothing but their scripts.
pub proof fn lemma_games_follow_scripts<P: PlayerTrait>(
    arena: ArenaView<P::V>,
    matrix: GameMatrix<isize>,
    games: Seq<Seq<Round>>,
)
    requires
        forall|consents: (bool, bool), rewards: (isize, isize)| #[trigger]
            (arena.rule)(consents, rewards) <==> rewards == matrix.lookup(consents),
        forall|at: int|
            0 <= at < pairings(arena.players.len()).len() ==> bound_along::<P, P>(
                matrix,
                arena.prototype_of((#[trigger] pairings(arena.players.len())[at]).0),
                arena.prototype_of(pairings(arena.players.len())[at].1),
                arena.rounds,
            ),
        played::<P>(arena, games),
    ensures
        forall|at: int|
            0 <= at < games.len() ==> (#[trigger] games[at]) == script::<P, P>(
                matrix,
                arena.prototype_of(pairings(arena.players.len())[at].0),
                arena.prototype_of(pairings(arena.players.len())[at].1),
                arena.rounds,
            ),
{
    let pairs = pairings(arena.players.len());
    assert forall|at: int| 0 <= at < games.len() implies (#[trigger] games[at]) == script::<P, P>(
        matrix,
        arena.prototype_of(pairs[at].0),
        arena.prototype_of(pairs[at].1),
        arena.rounds,
    ) by {
        assert(game_between::<P>(arena, pairs[at], games[at]));
        let pair = pairs[at];
        lemma_script_is_played::<P, P>(
            arena.rule,
            matrix,
            arena.prototype_of(pair.0),
            arena.prototype_of(pair.1),
            games[at],
        );
    }
}

/// The scores added up.
pub open spec fn scores_sum(scores: Seq<isize>) -> int
    decreases scores.len(),
{
    if scores.len() == 0 {
        0
    } else {
        scores_sum(scores.drop_last()) + scores.last()
    }
}

/// After a generation the scores of all individuals add up to what both sides of all
/// pairings earned.
pub proof fn lemma_generation_scores_add_up<P: PlayerTrait>(
    before: ArenaView<P::V>,
    games: Seq<Seq<Round>>,
    ranked: Seq<(usize, isize)>,
    after: ArenaView<P::V>,
)
    requires
        generation::<P>(before, games, ranked, after),
    ensures
        scores_sum(after.scores) == grand_total(games),
{
    let size = before.players.len();
    lemma_scores_so_far(pairings(size), games, after.scores, size);
    assert(after.scores.take(size as int) == after.scores);
    lemma_scores_add_up(size, games);
}

proof fn lemma_scores_so_far(
    pairs: Seq<(int, int)>,
    games: Seq<Seq<Round>>,
    scores: Seq<isize>,
    size: nat,
)
    requires
        size <= scores.len(),
        forall|position: int|
            0 <= position < size ==> (#[trigger] scores[position]) == tally(
                pairs,
                games,
                position,
            ),
    ensures
        scores_sum(scores.take(size as int)) == tally_sum(pairs, games, size),
    decreases size,
{
    if size > 0 {
        lemma_scores_so_far(pairs, games, scores, (size - 1) as nat);
        assert(scores.take(size as int).drop_last() == scores.take(size - 1));
        assert(scores.take(size as int).last() == scores[size - 1]);
    }
}

/// A generation leaves every individual with a type that has a prototype.
pub proof fn lemma_generation_keeps_form<P: PlayerTrait>(
    before: ArenaView<P::V>,
    games: Seq<Seq<Round>>,
    ranked: Seq<(usize, isize)>,
    after: ArenaView<P::V>,
)
    requires
        before.well_formed(),
        generation::<P>(before, games, ranked, after),
    ensures
        after.well_formed(),
{
    let items = listed(before.players, after.scores);
    lemma_ranked(items, ranked);
    assert forall|k: int| 0 <= k < types_of(ranked).len() implies (#[trigger] types_of(
        ranked,
    )[k]) < before.prototypes.len() by {
        let item = ranked[k];
        assert(items.contains(item));
        let source = choose|source: int| 0 <= source < items.len() && items[source] == item;
        assert(before.players[source] < before.prototypes.len());
    }
    lemma_apply_keeps_types(before.strategy, types_of(ranked), before.prototypes.len() as int);
}

/// A place where multiple opponents compete 2 by 2 and get removed and the best multiply.
pub struct Arena<P, M = Machine> {
    /// The rule of the base match for each 1v1 competition.
    machine: M,
    /// What type of players are present in the game (assumed forgotten version).
    player_constructors: Vec<P>,
    /// Players competing in the arena (holds the ID of `player_types`).
    players: Vec<usize>,
    /// What's every player's score.
    scores: Vec<isize>,
    /// Rounds per play for each two opponents.
    rounds: usize,
    /// How to remove or multiply winners between each play (if needed).
    strategy: GeneticStrategy,
}

impl<P: PlayerTrait, M: MachineTrait> View for Arena<P, M> {
    type V = ArenaView<P::V>;

    closed spec fn view(&self) -> ArenaView<P::V> {
        ArenaView {
            rule: self.machine.rule(),
            prototypes: Seq::new(
                self.player_constructors@.len(),
                |k: int| self.player_constructors@[k]@,
            ),
            players: self.players@,
            scores: self.scores@,
            rounds: self.rounds as nat,
            strategy: self.strategy,
        }
    }
}

impl<P: PlayerTrait, M: MachineTrait> Arena<P, M> {
    /// Returns the arena or Err if players not in `0..player_constructors.len()`.
    ///
    /// The player of each type forgets what it may have seen, and there are no scores yet.
    pub fn new(
        machine: M,
        player_constructors: Vec<P>,
        players: Vec<usize>,
        rounds: usize,
        strategy: GeneticStrategy,
    ) -> (made: Result<Self, ArenaError>)
        ensures
            made is Ok <==> forall|position: int|
                0 <= position < players@.len() ==> (#[trigger] players@[position])
                    < player_constructors@.len(),
            made matches Err(error) ==> error == ArenaError::UnknownPlayer,
            made matches Ok(arena) ==> arena@.well_formed() && arena@ == (ArenaView {
                rule: machine.rule(),
                prototypes: Seq::new(
                    player_constructors@.len(),
                    |k: int| P::forgotten(player_constructors@[k]@),
                ),
                players: players@,
                scores: Seq::empty(),
                rounds: rounds as nat,
                strategy,
            }),
    {
        let mut at: usize = 0;
        while at < players.len()
            invariant
                at <= players.len(),
                forall|position: int|
                    0 <= position < at ==> (#[trigger] players@[position])
                        < player_constructors@.len(),
            decreases players.len() - at,
        {
            if players[at] >= player_constructors.len() {
                return Err(ArenaError::UnknownPlayer);
            }
            at += 1;
        }

        // make sure they are clean and forgotten everything in the past (to clone).
        let mut forgotten = player_constructors;
        let mut at: usize = 0;
        while at < forgotten.len()
            invariant
                at <= forgotten.len() == player_constructors@.len(),
                forall|k: int|
                    0 <= k < at ==> (#[trigger] forgotten@[k])@ == P::forgotten(
                        player_constructors@[k]@,
                    ),
                forall|k: int|
                    at <= k < forgotten.len() ==> (#[trigger] forgotten@[k])
                        == player_constructors@[k],
            decreases forgotten.len() - at,
        {
            forgotten[at].forget_games();
            at += 1;
        }

        let arena = Self {
            player_constructors: forgotten,
            scores: Vec::new(),
            strategy,
            machine,
            rounds,
            players,
        };
        assert(arena@.prototypes == Seq::new(
            player_constructors@.len(),
            |k: int| P::forgotten(player_constructors@[k]@),
        ));
        Ok(arena)
    }

    /// The types of the individuals of the population.
    pub fn players(&self) -> (players: &Vec<usize>)
        ensures
            players@ == self@.players,
    {
        &self.players
    }

    /// The scores of the individuals that played the last generation, in their order.
    pub fn scores(&self) -> (scores: &Vec<isize>)
        ensures
            scores@ == self@.scores,
    {
        &self.scores
    }
}

impl<P: PlayerTrait, M: MachineTrait> MatchTrait for Arena<P, M> {
    open spec fn can_play(&self) -> bool {
        self@.well_formed() && within_limits::<P>(self@)
    }

    open spec fn step(&self, next: &Self) -> bool {
        exists|games: Seq<Seq<Round>>, ranked: Seq<(usize, isize)>| #[trigger]
            generation::<P>(self@, games, ranked, next@)
    }

    /// Play one generation: every two individuals meet for the rounds of a pairing, each
    /// between players with a fresh memory and on a machine with cleared totals; then the
    /// strategy makes the next population of the types ranked by score.
    fn play(&mut self)
        ensures
            final(self)@.well_formed(),
    {
        let ghost before = self@;
        let size = self.players.len();
        let ghost pairs = pairings(size as nat);

        // reset scores.
        self.scores = vec![0; size];

        let ghost mut games: Seq<Seq<Round>> = Seq::empty();
        let mut i: usize = 0;
        while i < size
            invariant
                i <= size == before.players.len(),
                pairs == pairings(size as nat),
                within_limits::<P>(before),
                before.well_formed(),
                before.prototypes.len() == self.player_constructors@.len(),
                self@.players == before.players,
                self@.prototypes == before.prototypes,
                self@.rule == before.rule,
                self@.rounds == before.rounds,
                self@.strategy == before.strategy,
                self.scores@.len() == size,
                played::<P>(before, games),
                games.len() == pairings_before(i as nat, size as nat).len(),
                forall|position: int|
                    0 <= position < size ==> (#[trigger] self.scores@[position]) == tally(
                        pairs,
                        games,
                        position,
                    ),
            decreases size - i,
        {
            let mut j: usize = i + 1;
            while j < size
                invariant
                    i < j <= size == before.players.len(),
                    pairs == pairings(size as nat),
                    within_limits::<P>(before),
                    before.well_formed(),
                    before.prototypes.len() == self.player_constructors@.len(),
                    self@.players == before.players,
                    self@.prototypes == before.prototypes,
                    self@.rule == before.rule,
                    self@.rounds == before.rounds,
                    self@.strategy == before.strategy,
                    self.scores@.len() == size,
                    played::<P>(before, games),
                    games.len() == slot(i as int, j as int, size as nat),
                    forall|position: int|
                        0 <= position < size ==> (#[trigger] self.scores@[position]) == tally(
                            pairs,
                            games,
                            position,
                        ),
                decreases size - j,
            {
                proof {
                    lemma_pairings(size as nat);
                    assert(pairs[slot(i as int, j as int, size as nat)] == (i as int, j as int));
                    assert(before.players[i as int] < before.prototypes.len());
                    assert(before.players[j as int] < before.prototypes.len());
                }
                // get both players cleared.
                let mut p1 = clone_player(&self.player_constructors[self.players[i]]);
                let mut p2 = clone_player(&self.player_constructors[self.players[j]]);
                proof {
                    self.player_constructors@[self.players@[i as int] as int].lemma_clone_keeps_memory(
                        &p1,
                    );
                    self.player_constructors@[self.players@[j as int] as int].lemma_clone_keeps_memory(
                        &p2,
                    );
                    assert(p1@ == before.prototype_of(i as int));
                    assert(p2@ == before.prototype_of(j as int));
                }

                // reset everything and make a match.
                self.machine.reset_scores();

                // play the rounds
                let game = play_rounds(&mut self.machine, &mut p1, &mut p2, self.rounds);
                let ovo_results = self.machine.scores();

                // memorize the results
                proof {
                    let longer = games.push(game@);
                    assert forall|at: int| 0 <= at < longer.len() implies game_between::<P>(
                        before,
                        pairs[at],
                        #[trigger] longer[at],
                    ) by {
                        if at < games.len() {
                            assert(longer[at] == games[at]);
                        }
                    }
                    assert(played::<P>(before, longer));
                    lemma_tally_added(pairs, games, game@, i as int);
                    lemma_tally_added(pairs, games, game@, j as int);
                    assert forall|position: int|
                        0 <= position < size && position != i && position != j implies tally(
                        pairs,
                        longer,
                        position,
                    ) == tally(pairs, games, position) by {
                        lemma_tally_added(pairs, games, game@, position);
                    }
                    assert(isize::MIN <= tally(pairs, longer, i as int) <= isize::MAX);
                    assert(isize::MIN <= tally(pairs, longer, j as int) <= isize::MAX);
                    games = longer;
                }
                let first_score = self.scores[i] + ovo_results.0;
                self.scores.set(i, first_score);
                let second_score = self.scores[j] + ovo_results.1;
                self.scores.set(j, second_score);
                j += 1;
            }
            proof {
                lemma_pairings_before((i + 1) as nat, size as nat);
                assert(pairings_before((i + 1) as nat, size as nat).len() == pairings_before(
                    i as nat,
                    size as nat,
                ).len() + (size - i - 1)) by {
                    assert(pairings_before((i + 1) as nat, size as nat) == pairings_before(
                        i as nat,
                        size as nat,
                    ) + row(i as int, size as nat));
                }
            }
            i += 1;
        }

        // The best type of players (best at the end of the array).
        let sorted_types = rank_by_score(&self.players, &self.scores);
        let ghost ranked = choose|ranked: Seq<(usize, isize)>| #[trigger]
            is_ranked(listed(self.players@, self.scores@), ranked) && sorted_types@ == types_of(
                ranked,
            );
        let next_players = self.strategy.apply_to_vec(sorted_types);
        self.players = next_players;
        proof {
            assert(generation::<P>(before, games, ranked, self@));
            lemma_generation_keeps_form::<P>(before, games, ranked, self@);
        }
    }
}

} // verus!
