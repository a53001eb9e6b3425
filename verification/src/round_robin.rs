//! Who meets whom when everybody meets everybody else once, and what each one earns.

use crate::rounds::{total, Round};
use vstd::prelude::*;

verus! {

/// The pairings of the individual at position `first` with those after it, in their order.
pub open spec fn row(first: int, size: nat) -> Seq<(int, int)> {
    Seq::new((size - first - 1) as nat, |k: int| (first, first + 1 + k))
}

/// The pairings of the individuals before position `first` among `size`, in the order in which
/// they are played: by the position of the first individual, then by that of the second.
pub open spec fn pairings_before(first: nat, size: nat) -> Seq<(int, int)>
    decreases first,
{
    if first == 0 {
        Seq::empty()
    } else {
        pairings_before((first - 1) as nat, size) + row(first - 1, size)
    }
}

/// All the pairings among `size` individuals, in the order in which they are played.
pub open spec fn pairings(size: nat) -> Seq<(int, int)> {
    pairings_before(size, size)
}

/// The place that the pairing of `first` with `second` has in the order of play.
pub open spec fn slot(first: int, second: int, size: nat) -> int {
    pairings_before(first as nat, size).len() + (second - first - 1)
}

/// The rewards that the individual at `position` takes from the rounds of one pairing.
pub open spec fn share(pair: (int, int), game: Seq<Round>, position: int) -> int {
    if pair.0 == position {
        total(game).0
    } else if pair.1 == position {
        total(game).1
    } else {
        0
    }
}

/// The score of the individual at `position` once the first pairings of `pairs` have been
/// played as `games` tells: the sum of its rewards over the pairings it took part in.
pub open spec fn tally(pairs: Seq<(int, int)>, games: Seq<Seq<Round>>, position: int) -> int
    decreases games.len(),
{
    if games.len() == 0 {
        0
    } else {
        tally(pairs, games.drop_last(), position) + share(
            pairs[games.len() - 1],
            games.last(),
            position,
        )
    }
}

/// The scores of the first `size` individuals added up.
pub open spec fn tally_sum(pairs: Seq<(int, int)>, games: Seq<Seq<Round>>, size: nat) -> int
    decreases size,
{
    if size == 0 {
        0
    } else {
        tally_sum(pairs, games, (size - 1) as nat) + tally(pairs, games, size - 1)
    }
}

/// The rewards of both sides added up over all of `games`.
pub open spec fn grand_total(games: Seq<Seq<Round>>) -> int
    decreases games.len(),
{
    if games.len() == 0 {
        0
    } else {
        grand_total(games.drop_last()) + total(games.last()).0 + total(games.last()).1
    }
}

/// How many pairings come before those of the individual at `first`, and where each pairing
/// of the rows before `upto` stands.
pub proof fn lemma_pairings_before(upto: nat, size: nat)
    requires
        upto <= size,
    ensures
        2 * pairings_before(upto, size).len() == upto * (2 * size - upto - 1),
        forall|first: int, second: int|
            0 <= first < upto && first < second < size ==> 0 <= #[trigger] slot(
                first,
                second,
                size,
            ) < pairings_before(upto, size).len() && pairings_before(upto, size)[slot(
                first,
                second,
                size,
            )] == (first, second),
        forall|first: nat|
            first <= upto ==> #[trigger] pairings_before(first, size).len() <= pairings_before(
                upto,
                size,
            ).len(),
    decreases upto,
{
    if upto > 0 {
        let before = pairings_before((upto - 1) as nat, size);
        lemma_pairings_before((upto - 1) as nat, size);
        assert(2 * (before.len() + row(upto - 1, size).len()) == upto * (2 * size - upto - 1))
            by (nonlinear_arith)
            requires
                2 * before.len() == (upto - 1) * (2 * size - (upto - 1) - 1),
                row(upto - 1, size).len() == size - (upto - 1) - 1,
                0 < upto <= size,
        ;
        assert forall|first: int, second: int|
            0 <= first < upto && first < second < size implies 0 <= #[trigger] slot(
            first,
            second,
            size,
        ) < pairings_before(upto, size).len() && pairings_before(upto, size)[slot(
            first,
            second,
            size,
        )] == (first, second) by {
            if first == upto - 1 {
                assert(row(upto - 1, size)[second - first - 1] == (first, second));
            }
        }
    }
}

/// Every entry of the pairings names two positions, the lower one first.
pub proof fn lemma_pairings_entries(upto: nat, size: nat)
    requires
        upto <= size,
    ensures
        forall|at: int|
            0 <= at < pairings_before(upto, size).len() ==> {
                let pair = #[trigger] pairings_before(upto, size)[at];
                &&& 0 <= pair.0 < upto
                &&& pair.0 < pair.1 < size
                &&& at == slot(pair.0, pair.1, size)
            },
    decreases upto,
{
    if upto > 0 {
        let before = pairings_before((upto - 1) as nat, size);
        lemma_pairings_entries((upto - 1) as nat, size);
        assert forall|at: int| 0 <= at < pairings_before(upto, size).len() implies {
            let pair = #[trigger] pairings_before(upto, size)[at];
            &&& 0 <= pair.0 < upto
            &&& pair.0 < pair.1 < size
            &&& at == slot(pair.0, pair.1, size)
        } by {
            if at < before.len() {
                assert(pairings_before(upto, size)[at] == before[at]);
            } else {
                assert(pairings_before(upto, size)[at] == row(upto - 1, size)[at - before.len()]);
            }
        }
    }
}

/// Among `size` individuals there are `size * (size - 1) / 2` pairings; nobody meets itself,
/// and any two individuals meet exactly once, at the place that `slot` gives.
pub proof fn lemma_pairings(size: nat)
    ensures
        2 * pairings(size).len() == size * (size - 1),
        forall|at: int|
            0 <= at < pairings(size).len() ==> {
                let pair = #[trigger] pairings(size)[at];
                &&& 0 <= pair.0 < pair.1 < size
                &&& at == slot(pair.0, pair.1, size)
            },
        forall|first: int, second: int|
            0 <= first < second < size ==> 0 <= #[trigger] slot(first, second, size) < pairings(
                size,
            ).len() && pairings(size)[slot(first, second, size)] == (first, second),
{
    lemma_pairings_before(size, size);
    lemma_pairings_entries(size, size);
    assert(size * (2 * size - size - 1) == size * (size - 1)) by (nonlinear_arith);
}

/// What one more game does to the score of the individual at `position`.
pub proof fn lemma_tally_added(
    pairs: Seq<(int, int)>,
    games: Seq<Seq<Round>>,
    game: Seq<Round>,
    position: int,
)
    ensures
        tally(pairs, games.push(game), position) == tally(pairs, games, position) + share(
            pairs[games.len() as int],
            game,
            position,
        ),
{
    assert(games.push(game).drop_last() == games);
}

proof fn lemma_tally_sum_added(
    pairs: Seq<(int, int)>,
    games: Seq<Seq<Round>>,
    game: Seq<Round>,
    size: nat,
)
    requires
        pairs[games.len() as int].0 != pairs[games.len() as int].1,
    ensures
        tally_sum(pairs, games.push(game), size) == tally_sum(pairs, games, size) + (if 0
            <= pairs[games.len() as int].0 < size {
            total(game).0
        } else {
            0
        }) + (if 0 <= pairs[games.len() as int].1 < size {
            total(game).1
        } else {
            0
        }),
    decreases size,
{
    if size > 0 {
        lemma_tally_sum_added(pairs, games, game, (size - 1) as nat);
        lemma_tally_added(pairs, games, game, size - 1);
    }
}

/// The scores of all individuals add up to the rewards of both sides over all pairings played.
pub proof fn lemma_scores_add_up(size: nat, games: Seq<Seq<Round>>)
    requires
        games.len() <= pairings(size).len(),
    ensures
        tally_sum(pairings(size), games, size) == grand_total(games),
    decreases games.len(),
{
    if games.len() == 0 {
        lemma_tally_sum_none(pairings(size), games, size);
    } else {
        let earlier = games.drop_last();
        lemma_scores_add_up(size, earlier);
        lemma_pairings(size);
        assert(earlier.push(games.last()) == games);
        lemma_tally_sum_added(pairings(size), earlier, games.last(), size);
    }
}

proof fn lemma_tally_sum_none(pairs: Seq<(int, int)>, games: Seq<Seq<Round>>, size: nat)
    requires
        games.len() == 0,
    ensures
        tally_sum(pairs, games, size) == 0,
    decreases size,
{
    if size > 0 {
        lemma_tally_sum_none(pairs, games, (size - 1) as nat);
    }
}

/// Where no game brings a side more than `bound` or costs it more, no score is further from
/// zero than `bound` times the number of games.
pub proof fn lemma_tally_within(
    pairs: Seq<(int, int)>,
    games: Seq<Seq<Round>>,
    position: int,
    bound: nat,
)
    requires
        forall|at: int|
            0 <= at < games.len() ==> -bound <= total(#[trigger] games[at]).0 <= bound && -bound
                <= total(games[at]).1 <= bound,
    ensures
        -(bound * games.len()) <= tally(pairs, games, position) <= bound * games.len(),
    decreases games.len(),
{
    if games.len() > 0 {
        let earlier = games.drop_last();
        assert forall|at: int| 0 <= at < earlier.len() implies -bound <= total(
            #[trigger] earlier[at],
        ).0 <= bound && -bound <= total(earlier[at]).1 <= bound by {
            assert(earlier[at] == games[at]);
        }
        lemma_tally_within(pairs, earlier, position, bound);
        assert(-bound <= total(games[games.len() - 1]).0 <= bound);
        assert(bound * games.len() == bound * (games.len() - 1) + bound) by (nonlinear_arith);
    } else {
        assert(bound * games.len() == 0) by (nonlinear_arith)
            requires
                games.len() == 0,
        ;
    }
}

} // verus!
