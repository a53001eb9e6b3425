//! Helpers regarding genetic manipulation and evolution algorithms.

use vstd::prelude::*;

verus! {

/// Strategies regarding moving from one generation to another in genetic settings.
#[derive(Debug, Clone, Copy, PartialEq, Eq, Structural)]
pub enum GeneticStrategy {
    /// Keep the population as given (no change).
    Keep,
    /// Remove the worst and multiply the best: how many to remove, how many to add.
    CullingElitism(usize, usize),
}

/// How many entries leave a list of `len` entries when `to_remove` are asked for.
pub open spec fn culled(len: nat, to_remove: nat) -> nat {
    if len <= to_remove {
        len
    } else {
        to_remove
    }
}

/// What is left of a list sorted from worst to best once its `count` worst entries are gone.
///
/// Each slot that a removed entry leaves at the front is taken by the entry that is last at
/// that moment, so the first survivors listed are the best ones, best first, and the other
/// survivors keep their places.
pub open spec fn survivors(sorted: Seq<usize>, count: nat) -> Seq<usize>
    recommends
        count <= sorted.len(),
{
    Seq::new(
        (sorted.len() - count) as nat,
        |k: int|
            if k < count {
                sorted[sorted.len() - 1 - k]
            } else {
                sorted[k]
            },
    )
}

/// `count` copies of `item`.
pub open spec fn copies(item: usize, count: nat) -> Seq<usize> {
    Seq::new(count, |k: int| item)
}

impl GeneticStrategy {
    /// The next generation that the strategy makes of a list of types sorted from the worst
    /// score to the best.
    pub open spec fn apply(self, sorted: Seq<usize>) -> Seq<usize> {
        match self {
            GeneticStrategy::Keep => sorted,
            GeneticStrategy::CullingElitism(to_remove, to_add) => if sorted.len() == 0 {
                sorted
            } else {
                survivors(sorted, culled(sorted.len(), to_remove as nat)) + copies(
                    sorted.last(),
                    to_add as nat,
                )
            },
        }
    }

    /// Apply a strategy on the types of a population (usize is the ID/type of group).
    ///
    /// The list has to be sorted from the worst type to the best in score. Note that the
    /// results may be unsorted.
    pub fn apply_to_vec(&self, sorted_types: Vec<usize>) -> (next: Vec<usize>)
        ensures
            next@ == self.apply(sorted_types@),
    {
        let mut sorted_types = sorted_types;
        if sorted_types.len() == 0 {
            return sorted_types;
        }
        match self {
            GeneticStrategy::Keep => {},
            GeneticStrategy::CullingElitism(to_remove, to_add) => {
                let ghost sorted = sorted_types@;
                let best: usize = sorted_types[sorted_types.len() - 1];

                // remove only if possible
                let to_remove: usize = if sorted_types.len() <= *to_remove {
                    sorted_types.len()
                } else {
                    *to_remove
                };

                let mut i: usize = 0;
                while i < to_remove
                    invariant
                        i <= to_remove <= sorted.len(),
                        sorted_types@.len() == sorted.len() - i,
                        forall|k: int|
                            0 <= k < sorted_types@.len() ==> sorted_types@[k] == if k < i {
                                sorted[sorted.len() - 1 - k]
                            } else {
                                sorted[k]
                            },
                    decreases to_remove - i,
                {
                    if i < sorted_types.len() {
                        sorted_types.swap_remove(i);
                    } else {
                        sorted_types.pop();
                    }
                    i += 1;
                }
                assert(sorted_types@ == survivors(sorted, to_remove as nat));

                let ghost kept = sorted_types@;
                let mut added: usize = 0;
                while added < *to_add
                    invariant
                        added <= *to_add,
                        sorted_types@ == kept + copies(best, added as nat),
                    decreases *to_add - added,
                {
                    sorted_types.push(best);
                    added += 1;
                }
            },
        }
        sorted_types
    }
}

/// Every type of the next generation is a type of the list that it was made of.
pub proof fn lemma_apply_keeps_types(strategy: GeneticStrategy, sorted: Seq<usize>, bound: int)
    requires
        forall|k: int| 0 <= k < sorted.len() ==> (#[trigger] sorted[k]) < bound,
    ensures
        forall|k: int|
            0 <= k < strategy.apply(sorted).len() ==> (#[trigger] strategy.apply(sorted)[k])
                < bound,
{
}

/// Culling takes the worst entries off a sorted list, as many as asked for or all of them, and
/// adds the asked number of copies of the best type: the next generation holds the types of
/// the entries that are left, each as often as they do, and after them the copies.
pub proof fn lemma_culling_elitism(to_remove: usize, to_add: usize, sorted: Seq<usize>)
    requires
        sorted.len() > 0,
    ensures
        ({
            let next = GeneticStrategy::CullingElitism(to_remove, to_add).apply(sorted);
            let removed = culled(sorted.len(), to_remove as nat);
            let kept = (sorted.len() - removed) as nat;
            &&& removed <= to_remove && removed <= sorted.len()
            &&& removed == to_remove || removed == sorted.len()
            &&& next.len() == sorted.len() - removed + to_add
            &&& next.subrange(0, kept as int).to_multiset() == sorted.skip(
                removed as int,
            ).to_multiset()
            &&& forall|k: int| kept <= k < next.len() ==> next[k] == sorted.last()
        }),
{
    let next = GeneticStrategy::CullingElitism(to_remove, to_add).apply(sorted);
    let size = sorted.len() as int;
    let removed = culled(sorted.len(), to_remove as nat) as int;
    let kept = size - removed;
    let swapped = if removed <= kept {
        removed
    } else {
        kept
    };
    let best = sorted.subrange(size - swapped, size);
    let middle = sorted.subrange(removed, size - swapped);
    assert(next.subrange(0, kept) == best.reverse() + middle);
    assert(sorted.skip(removed) == middle + best);
    vstd::seq_lib::lemma_multiset_commutative(best.reverse(), middle);
    vstd::seq_lib::lemma_multiset_commutative(middle, best);
    best.lemma_reverse_to_multiset();
    assert(best.reverse().to_multiset().add(middle.to_multiset()) == middle.to_multiset().add(
        best.to_multiset(),
    ));
}

/// To remove nobody and to add nobody leaves the list as it is.
pub proof fn lemma_culling_nothing(sorted: Seq<usize>)
    ensures
        GeneticStrategy::CullingElitism(0, 0).apply(sorted) == sorted,
{
    if sorted.len() > 0 {
        assert(survivors(sorted, 0) + copies(sorted.last(), 0) == sorted);
    }
}

} // verus!
