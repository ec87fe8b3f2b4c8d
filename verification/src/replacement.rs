use vstd::prelude::*;

use std::cmp::Ordering;

use crate::opt_traits::{
    as_good_as, pop_inv, row_drawn_from, Fitness, OptData, ReplacementStrategy,
};
use crate::prob::Prob;
use crate::sorting::{is_index_perm, key_lt, sort_indices_by_fitness};

verus! {

/// Discards the whole old portion: the survivors are the offspring alone.
/// It needs exactly as many offspring as there were parents, so that the
/// population size is preserved.
pub struct GenerationalReplacementStrategy {}

impl GenerationalReplacementStrategy {
    /// Discards the old portion: the survivors are exactly the offspring
    /// slice of the joined sequences, in order.
    pub fn keep_offspring<T: OptData, FIn: Fitness, FOpt: Fitness>(
        population: &mut Vec<T>,
        fitness_in: &mut Vec<FIn>,
        fitness_opt: &mut Vec<FOpt>,
        offsprings_from: usize,
    )
        requires
            offsprings_from <= old(population)@.len(),
            old(population)@.len() == old(fitness_in)@.len(),
            old(population)@.len() == old(fitness_opt)@.len(),
        ensures
            final(population)@ == old(population)@.subrange(
                offsprings_from as int,
                old(population)@.len() as int,
            ),
            final(fitness_in)@ == old(fitness_in)@.subrange(
                offsprings_from as int,
                old(fitness_in)@.len() as int,
            ),
            final(fitness_opt)@ == old(fitness_opt)@.subrange(
                offsprings_from as int,
                old(fitness_opt)@.len() as int,
            ),
    {
        let mut tail = population.split_off(offsprings_from);
        std::mem::swap(population, &mut tail);
        let mut tail_in = fitness_in.split_off(offsprings_from);
        std::mem::swap(fitness_in, &mut tail_in);
        let mut tail_opt = fitness_opt.split_off(offsprings_from);
        std::mem::swap(fitness_opt, &mut tail_opt);
    }
}

impl<T: OptData, FIn: Fitness, FOpt: Fitness> ReplacementStrategy<
    T,
    FIn,
    FOpt,
> for GenerationalReplacementStrategy {
    open spec fn pre(&self, joined_len: int, offsprings_from: int) -> bool {
        joined_len == 2 * offsprings_from
    }

    fn pre_check(&self, joined_len: usize, offsprings_from: usize) -> (r: bool) {
        offsprings_from <= usize::MAX / 2 && joined_len == 2 * offsprings_from
    }

    fn replace(
        &self,
        population: &mut Vec<T>,
        fitness_in: &mut Vec<FIn>,
        fitness_opt: &mut Vec<FOpt>,
        offsprings_from: usize,
    )
        ensures
            final(population)@ == old(population)@.subrange(
                offsprings_from as int,
                old(population)@.len() as int,
            ),
            final(fitness_in)@ == old(fitness_in)@.subrange(
                offsprings_from as int,
                old(fitness_in)@.len() as int,
            ),
            final(fitness_opt)@ == old(fitness_opt)@.subrange(
                offsprings_from as int,
                old(fitness_opt)@.len() as int,
            ),
    {
        Self::keep_offspring(population, fitness_in, fitness_opt, offsprings_from);
        proof {
            assert forall|k: int|
                0 <= k < offsprings_from implies #[trigger] row_drawn_from(
                final(population)@,
                final(fitness_in)@,
                final(fitness_opt)@,
                old(population)@,
                old(fitness_in)@,
                old(fitness_opt)@,
                k,
            ) by {
                let t = offsprings_from as int + k;
                assert(final(population)@[k]@ == old(population)@[t]@);
                assert(final(fitness_in)@[k]@ == old(fitness_in)@[t]@);
                assert(final(fitness_opt)@[k]@ == old(fitness_opt)@[t]@);
            }
        }
    }
}

/// Swaps, for each old slot, the offspring at the same relative position in
/// with a fixed probability; needs as many offspring as parents.
pub struct RandomReplacementStrategy {
    pub select_offspring_prob: Prob,
}

impl RandomReplacementStrategy {
    /// For each of the `offsprings_from` slots, keeps the old row or, by
    /// one coin flip per slot, takes the offspring row at the same
    /// relative position; the candidate and both fitness entries of a slot
    /// always switch together.
    pub fn replace_slotwise<T: OptData, FIn: Fitness, FOpt: Fitness>(
        &self,
        population: &mut Vec<T>,
        fitness_in: &mut Vec<FIn>,
        fitness_opt: &mut Vec<FOpt>,
        offsprings_from: usize,
    )
        requires
            old(population)@.len() == 2 * offsprings_from,
            old(population)@.len() == old(fitness_in)@.len(),
            old(population)@.len() == old(fitness_opt)@.len(),
            pop_inv(old(population)@),
            self.select_offspring_prob.wf(),
        ensures
            final(population)@.len() == offsprings_from as int,
            final(fitness_in)@.len() == offsprings_from as int,
            final(fitness_opt)@.len() == offsprings_from as int,
            pop_inv(final(population)@),
            forall|i: int|
                #![trigger final(population)@[i]]
                0 <= i < offsprings_from ==> {
                    ||| {
                        &&& final(population)@[i]@ == old(population)@[i]@
                        &&& final(fitness_in)@[i]@ == old(fitness_in)@[i]@
                        &&& final(fitness_opt)@[i]@ == old(fitness_opt)@[i]@
                    }
                    ||| {
                        &&& final(population)@[i]@ == old(population)@[i
                            + offsprings_from as int]@
                        &&& final(fitness_in)@[i]@ == old(fitness_in)@[i
                            + offsprings_from as int]@
                        &&& final(fitness_opt)@[i]@ == old(fitness_opt)@[i
                            + offsprings_from as int]@
                    }
                },
    {
        let mut i: usize = 0;
        while i < offsprings_from
            invariant
                i <= offsprings_from,
                offsprings_from <= population.len(),
                population@.len() == old(population)@.len(),
                population@.len() == fitness_in@.len(),
                population@.len() == fitness_opt@.len(),
                old(population)@.len() == old(fitness_in)@.len(),
                old(population)@.len() == old(fitness_opt)@.len(),
                2 * offsprings_from == population.len(),
                pop_inv(population@),
                self.select_offspring_prob.wf(),
                forall|j: int|
                    i <= j < population@.len() ==> #[trigger] population@[j] == old(population)@[j],
                forall|j: int|
                    i <= j < fitness_in@.len() ==> #[trigger] fitness_in@[j] == old(fitness_in)@[j],
                forall|j: int|
                    i <= j < fitness_opt@.len() ==> #[trigger] fitness_opt@[j] == old(
                        fitness_opt,
                    )@[j],
                forall|j: int|
                    #![trigger population@[j]]
                    0 <= j < i ==> {
                        ||| {
                            &&& population@[j]@ == old(population)@[j]@
                            &&& fitness_in@[j]@ == old(fitness_in)@[j]@
                            &&& fitness_opt@[j]@ == old(fitness_opt)@[j]@
                        }
                        ||| {
                            &&& population@[j]@ == old(population)@[j + offsprings_from as int]@
                            &&& fitness_in@[j]@ == old(fitness_in)@[j + offsprings_from as int]@
                            &&& fitness_opt@[j]@ == old(fitness_opt)@[j + offsprings_from as int]@
                        }
                    },
            decreases offsprings_from - i,
        {
            if self.select_offspring_prob.flip() {
                let v = population[i + offsprings_from].duplicate();
                population[i] = v;
                let fi = fitness_in[i + offsprings_from].duplicate();
                fitness_in[i] = fi;
                let fo = fitness_opt[i + offsprings_from].duplicate();
                fitness_opt[i] = fo;
            }
            i = i + 1;
        }
        population.truncate(offsprings_from);
        fitness_in.truncate(offsprings_from);
        fitness_opt.truncate(offsprings_from);
    }
}

impl<T: OptData, FIn: Fitness, FOpt: Fitness> ReplacementStrategy<
    T,
    FIn,
    FOpt,
> for RandomReplacementStrategy {
    open spec fn pre(&self, joined_len: int, offsprings_from: int) -> bool {
        joined_len == 2 * offsprings_from && self.select_offspring_prob.wf()
    }

    fn pre_check(&self, joined_len: usize, offsprings_from: usize) -> (r: bool) {
        offsprings_from <= usize::MAX / 2 && joined_len == 2 * offsprings_from
            && 1 <= self.select_offspring_prob.den && self.select_offspring_prob.num
            <= self.select_offspring_prob.den
    }

    fn replace(
        &self,
        population: &mut Vec<T>,
        fitness_in: &mut Vec<FIn>,
        fitness_opt: &mut Vec<FOpt>,
        offsprings_from: usize,
    )
        ensures
            forall|i: int|
                #![trigger final(population)@[i]]
                0 <= i < offsprings_from ==> {
                    ||| {
                        &&& final(population)@[i]@ == old(population)@[i]@
                        &&& final(fitness_in)@[i]@ == old(fitness_in)@[i]@
                        &&& final(fitness_opt)@[i]@ == old(fitness_opt)@[i]@
                    }
                    ||| {
                        &&& final(population)@[i]@ == old(population)@[i
                            + offsprings_from as int]@
                        &&& final(fitness_in)@[i]@ == old(fitness_in)@[i
                            + offsprings_from as int]@
                        &&& final(fitness_opt)@[i]@ == old(fitness_opt)@[i
                            + offsprings_from as int]@
                    }
                },
    {
        self.replace_slotwise(population, fitness_in, fitness_opt, offsprings_from);
        proof {
            assert forall|k: int|
                0 <= k < offsprings_from implies #[trigger] row_drawn_from(
                final(population)@,
                final(fitness_in)@,
                final(fitness_opt)@,
                old(population)@,
                old(fitness_in)@,
                old(fitness_opt)@,
                k,
            ) by {
                if final(population)@[k]@ == old(population)@[k]@ && final(fitness_in)@[k]@ == old(
                    fitness_in,
                )@[k]@ && final(fitness_opt)@[k]@ == old(fitness_opt)@[k]@ {
                    assert(0 <= k < old(population)@.len());
                } else {
                    let t = k + offsprings_from as int;
                    assert(final(population)@[k]@ == old(population)@[t]@);
                }
            }
        }
    }
}

/// Keeps the best `offsprings_from` entries of the joined population in
/// optimization-fitness order: the standard elitist strategy.
pub struct TruncationReplacementStrategy {}

impl TruncationReplacementStrategy {
    /// Sorts the joined population by optimization fitness, best first with
    /// ties broken by position, and keeps the first `keep` entries.
    ///
    /// For a deterministic, totally pre-ordered fitness the survivors are
    /// non-decreasing in quality order, and the first survivor is at least
    /// as good as every member of the joined population, so the best
    /// fitness never regresses from one generation to the next.
    pub fn replace_sorted<T: OptData, FIn: Fitness, FOpt: Fitness>(
        population: &mut Vec<T>,
        fitness_in: &mut Vec<FIn>,
        fitness_opt: &mut Vec<FOpt>,
        keep: usize,
    )
        requires
            1 <= keep <= old(population)@.len(),
            old(population)@.len() == old(fitness_in)@.len(),
            old(population)@.len() == old(fitness_opt)@.len(),
            pop_inv(old(population)@),
        ensures
            final(population)@.len() == keep as int,
            final(fitness_in)@.len() == keep as int,
            final(fitness_opt)@.len() == keep as int,
            pop_inv(final(population)@),
            forall|k: int|
                0 <= k < keep ==> #[trigger] row_drawn_from(
                    final(population)@,
                    final(fitness_in)@,
                    final(fitness_opt)@,
                    old(population)@,
                    old(fitness_in)@,
                    old(fitness_opt)@,
                    k,
                ),
            FOpt::deterministic() && FOpt::totally_ordered() ==> forall|p: int, q: int|
                0 <= p < q < keep ==> as_good_as::<FOpt>(
                    #[trigger] final(fitness_opt)@[p]@,
                    #[trigger] final(fitness_opt)@[q]@,
                ),
            FOpt::deterministic() && FOpt::totally_ordered() ==> forall|t: int|
                0 <= t < old(fitness_opt)@.len() ==> as_good_as::<FOpt>(
                    final(fitness_opt)@[0]@,
                    #[trigger] old(fitness_opt)@[t]@,
                ),
            exists|src: Seq<usize>|
                #![trigger src.len()]
                {
                    &&& src.len() == keep as int
                    &&& forall|a: int, b: int| 0 <= a < b < src.len() ==> src[a] != src[b]
                    &&& forall|k: int|
                        #![trigger src[k]]
                        0 <= k < src.len() ==> {
                            &&& src[k] < old(population)@.len()
                            &&& final(population)@[k]@ == old(population)@[src[k] as int]@
                            &&& final(fitness_in)@[k]@ == old(fitness_in)@[src[k] as int]@
                            &&& final(fitness_opt)@[k]@ == old(fitness_opt)@[src[k] as int]@
                        }
                },
            FOpt::deterministic() && FOpt::totally_ordered() ==> forall|k: int, t: int|
                #![trigger final(fitness_opt)@[k], old(fitness_opt)@[t]]
                0 <= k < keep && 0 <= t < old(fitness_opt)@.len() ==> (as_good_as::<FOpt>(
                    final(fitness_opt)@[k]@,
                    old(fitness_opt)@[t]@,
                ) || exists|m: int|
                    #![trigger final(fitness_opt)@[m]]
                    {
                        &&& 0 <= m < keep
                        &&& final(population)@[m]@ == old(population)@[t]@
                        &&& final(fitness_in)@[m]@ == old(fitness_in)@[t]@
                        &&& final(fitness_opt)@[m]@ == old(fitness_opt)@[t]@
                    }),
    {
        let n = population.len();
        let idx = sort_indices_by_fitness::<FOpt>(fitness_opt);
        let mut new_pop: Vec<T> = Vec::new();
        let mut new_in: Vec<FIn> = Vec::new();
        let mut new_opt: Vec<FOpt> = Vec::new();
        let mut k: usize = 0;
        while k < keep
            invariant
                k <= keep,
                keep <= n,
                population@ == old(population)@,
                fitness_in@ == old(fitness_in)@,
                fitness_opt@ == old(fitness_opt)@,
                n == population@.len(),
                n == fitness_in@.len(),
                n == fitness_opt@.len(),
                pop_inv(population@),
                is_index_perm(idx@, n as int),
                FOpt::deterministic() && FOpt::totally_ordered() ==> forall|p: int, q: int|
                    0 <= p < q < idx@.len() ==> key_lt::<FOpt>(
                        fitness_opt@,
                        idx@[p] as int,
                        idx@[q] as int,
                    ),
                new_pop@.len() == k,
                new_in@.len() == k,
                new_opt@.len() == k,
                forall|m: int|
                    0 <= m < k ==> (#[trigger] new_pop@[m])@ == population@[idx@[m] as int]@
                        && new_pop@[m].inv() == population@[idx@[m] as int].inv(),
                forall|m: int| 0 <= m < k ==> (#[trigger] new_in@[m])@ == fitness_in@[idx@[m] as int]@,
                forall|m: int|
                    0 <= m < k ==> (#[trigger] new_opt@[m])@ == fitness_opt@[idx@[m] as int]@,
            decreases keep - k,
        {
            let t = idx[k];
            new_pop.push(population[t].duplicate());
            new_in.push(fitness_in[t].duplicate());
            new_opt.push(fitness_opt[t].duplicate());
            k = k + 1;
        }
        proof {
            assert forall|m: int|
                0 <= m < keep implies #[trigger] row_drawn_from(
                new_pop@,
                new_in@,
                new_opt@,
                old(population)@,
                old(fitness_in)@,
                old(fitness_opt)@,
                m,
            ) by {
                let t = idx@[m] as int;
                assert(0 <= t < old(population)@.len());
                assert(new_pop@[m]@ == old(population)@[t]@);
                assert(new_in@[m]@ == old(fitness_in)@[t]@);
                assert(new_opt@[m]@ == old(fitness_opt)@[t]@);
            }
            if FOpt::deterministic() && FOpt::totally_ordered() {
                assert forall|p: int, q: int| 0 <= p < q < keep implies as_good_as::<FOpt>(
                    #[trigger] new_opt@[p]@,
                    #[trigger] new_opt@[q]@,
                ) by {
                    assert(key_lt::<FOpt>(old(fitness_opt)@, idx@[p] as int, idx@[q] as int));
                }
                assert forall|t: int| 0 <= t < old(fitness_opt)@.len() implies as_good_as::<FOpt>(
                    new_opt@[0]@,
                    #[trigger] old(fitness_opt)@[t]@,
                ) by {
                    assert(idx@.contains(t as usize));
                    let pos = choose|pos: int| 0 <= pos < idx@.len() && idx@[pos] == t as usize;
                    if pos == 0 {
                        FOpt::cmp_flip(old(fitness_opt)@[t]@, old(fitness_opt)@[t]@);
                    } else {
                        assert(key_lt::<FOpt>(old(fitness_opt)@, idx@[0] as int, idx@[pos] as int));
                    }
                }
            }
        }
        *population = new_pop;
        *fitness_in = new_in;
        *fitness_opt = new_opt;
        proof {
            let ghost src = idx@.subrange(0, keep as int);
            assert(src.len() == keep as int);
            assert(forall|a: int, b: int| 0 <= a < b < src.len() ==> src[a] != src[b]);
            assert forall|k: int| #![trigger src[k]] 0 <= k < src.len() implies {
                &&& src[k] < old(population)@.len()
                &&& final(population)@[k]@ == old(population)@[src[k] as int]@
                &&& final(fitness_in)@[k]@ == old(fitness_in)@[src[k] as int]@
                &&& final(fitness_opt)@[k]@ == old(fitness_opt)@[src[k] as int]@
            } by {
                assert(src[k] == idx@[k]);
            }
            if FOpt::deterministic() && FOpt::totally_ordered() {
                assert forall|k: int, t: int|
                    #![trigger final(fitness_opt)@[k], old(fitness_opt)@[t]]
                    0 <= k < keep && 0 <= t < old(fitness_opt)@.len() implies (as_good_as::<FOpt>(
                    final(fitness_opt)@[k]@,
                    old(fitness_opt)@[t]@,
                ) || exists|m: int|
                    #![trigger final(fitness_opt)@[m]]
                    {
                        &&& 0 <= m < keep
                        &&& final(population)@[m]@ == old(population)@[t]@
                        &&& final(fitness_in)@[m]@ == old(fitness_in)@[t]@
                        &&& final(fitness_opt)@[m]@ == old(fitness_opt)@[t]@
                    }) by {
                    assert(idx@.contains(t as usize));
                    let pos = choose|pos: int| 0 <= pos < idx@.len() && idx@[pos] == t as usize;
                    if pos < keep as int {
                        assert(final(population)@[pos]@ == old(population)@[t]@);
                        assert(final(fitness_in)@[pos]@ == old(fitness_in)@[t]@);
                        assert(final(fitness_opt)@[pos]@ == old(fitness_opt)@[t]@);
                    } else {
                        assert(crate::sorting::key_lt::<FOpt>(
                            old(fitness_opt)@,
                            idx@[k] as int,
                            idx@[pos] as int,
                        ));
                    }
                }
            }
        }
    }
}

impl<T: OptData, FIn: Fitness, FOpt: Fitness> ReplacementStrategy<
    T,
    FIn,
    FOpt,
> for TruncationReplacementStrategy {
    open spec fn pre(&self, joined_len: int, offsprings_from: int) -> bool {
        true
    }

    fn pre_check(&self, joined_len: usize, offsprings_from: usize) -> (r: bool) {
        true
    }

    fn replace(
        &self,
        population: &mut Vec<T>,
        fitness_in: &mut Vec<FIn>,
        fitness_opt: &mut Vec<FOpt>,
        offsprings_from: usize,
    )
        ensures
            FOpt::deterministic() && FOpt::totally_ordered() ==> forall|p: int, q: int|
                0 <= p < q < offsprings_from ==> as_good_as::<FOpt>(
                    #[trigger] final(fitness_opt)@[p]@,
                    #[trigger] final(fitness_opt)@[q]@,
                ),
            FOpt::deterministic() && FOpt::totally_ordered() ==> forall|t: int|
                0 <= t < old(fitness_opt)@.len() ==> as_good_as::<FOpt>(
                    final(fitness_opt)@[0]@,
                    #[trigger] old(fitness_opt)@[t]@,
                ),
            exists|src: Seq<usize>|
                #![trigger src.len()]
                {
                    &&& src.len() == offsprings_from as int
                    &&& forall|a: int, b: int| 0 <= a < b < src.len() ==> src[a] != src[b]
                    &&& forall|k: int|
                        #![trigger src[k]]
                        0 <= k < src.len() ==> {
                            &&& src[k] < old(population)@.len()
                            &&& final(population)@[k]@ == old(population)@[src[k] as int]@
                            &&& final(fitness_in)@[k]@ == old(fitness_in)@[src[k] as int]@
                            &&& final(fitness_opt)@[k]@ == old(fitness_opt)@[src[k] as int]@
                        }
                },
            FOpt::deterministic() && FOpt::totally_ordered() ==> forall|k: int, t: int|
                #![trigger final(fitness_opt)@[k], old(fitness_opt)@[t]]
                0 <= k < offsprings_from && 0 <= t < old(fitness_opt)@.len() ==> (as_good_as::<
                    FOpt,
                >(final(fitness_opt)@[k]@, old(fitness_opt)@[t]@) || exists|m: int|
                    #![trigger final(fitness_opt)@[m]]
                    {
                        &&& 0 <= m < offsprings_from
                        &&& final(population)@[m]@ == old(population)@[t]@
                        &&& final(fitness_in)@[m]@ == old(fitness_in)@[t]@
                        &&& final(fitness_opt)@[m]@ == old(fitness_opt)@[t]@
                    }),
    {
        Self::replace_sorted(population, fitness_in, fitness_opt, offsprings_from);
    }
}

} // verus!
