use vstd::prelude::*;

use std::cmp::Ordering;

use crate::opt_traits::{Fitness, OptData, Selection};
use crate::rng::{rand_below, rand_u64_below};
use crate::sorting::sort_indices_by_fitness;

verus! {

/// For each of `select_count` picks, samples `rounds_count` indices
/// uniformly with replacement and keeps the one with the best comparison.
pub struct TournamentSelection {
    pub select_count: usize,
    pub rounds_count: usize,
}

impl TournamentSelection {
    /// For each of `select_count` picks, samples `rounds_count` candidates
    /// uniformly with replacement and keeps the winner of the comparisons:
    /// exactly `select_count` in-bounds indices come back.
    pub fn select_winners<F: Fitness>(&self, fitness: &Vec<F>, parents_indices: &mut Vec<usize>)
        requires
            fitness@.len() >= 1,
        ensures
            final(parents_indices)@.len() == self.select_count as int,
            forall|i: int|
                0 <= i < final(parents_indices)@.len() ==> #[trigger] final(parents_indices)@[i]
                    < fitness@.len(),
    {
        parents_indices.clear();
        let mut p: usize = 0;
        while p < self.select_count
            invariant
                p <= self.select_count,
                fitness@.len() >= 1,
                parents_indices@.len() == p,
                forall|i: int|
                    0 <= i < parents_indices@.len() ==> #[trigger] parents_indices@[i]
                        < fitness@.len(),
            decreases self.select_count - p,
        {
            let mut best_index = rand_below(fitness.len());
            let mut round: usize = 1;
            while round < self.rounds_count
                invariant
                    fitness@.len() >= 1,
                    best_index < fitness@.len(),
                decreases self.rounds_count - round,
            {
                let index = rand_below(fitness.len());
                if matches!(F::opt_cmp(&fitness[index], &fitness[best_index]), Ordering::Less) {
                    best_index = index;
                }
                round = round + 1;
            }
            parents_indices.push(best_index);
            p = p + 1;
        }
    }
}

impl<T: OptData, F: Fitness> Selection<T, F> for TournamentSelection {
    fn select(&self, fitness: &Vec<F>, parents_indices: &mut Vec<usize>)
        ensures
            final(parents_indices)@.len() == self.select_count as int,
    {
        self.select_winners(fitness, parents_indices);
    }
}

/// Keeps the `select_count` fittest members: every pair `(fitness, index)`
/// is ranked, ties broken by the smaller index, and the best ranks win.
pub struct RankSelection {
    pub select_count: usize,
}

impl RankSelection {
    /// Ranks every `(fitness, index)` pair, ties broken by the smaller
    /// index, and keeps the best `select_count` ranks in rank order.
    ///
    /// For a deterministic, totally pre-ordered fitness every selected
    /// member is at least as good as every member left out.
    pub fn select_ranked<F: Fitness>(&self, fitness: &Vec<F>, parents_indices: &mut Vec<usize>)
        ensures
            F::deterministic() && F::totally_ordered() ==> forall|k1: int, k2: int|
                0 <= k1 < k2 < final(parents_indices)@.len() ==> crate::sorting::key_lt::<F>(
                    fitness@,
                    final(parents_indices)@[k1] as int,
                    final(parents_indices)@[k2] as int,
                ),
            final(parents_indices)@.len() == (if self.select_count as int <= fitness@.len() {
                self.select_count as int
            } else {
                fitness@.len() as int
            }),
            forall|k: int|
                0 <= k < final(parents_indices)@.len() ==> #[trigger] final(parents_indices)@[k]
                    < fitness@.len(),
            forall|k1: int, k2: int|
                0 <= k1 < k2 < final(parents_indices)@.len() ==> final(parents_indices)@[k1]
                    != final(parents_indices)@[k2],
            F::deterministic() && F::totally_ordered() ==> forall|k: int, t: int|
                #![trigger final(parents_indices)@[k], fitness@[t]]
                0 <= k < final(parents_indices)@.len() && 0 <= t < fitness@.len()
                    && !final(parents_indices)@.contains(t as usize)
                    ==> crate::opt_traits::as_good_as::<F>(
                    fitness@[final(parents_indices)@[k] as int]@,
                    fitness@[t]@,
                ),
    {
        parents_indices.clear();
        let ranked = sort_indices_by_fitness::<F>(fitness);
        let count = if self.select_count <= ranked.len() {
            self.select_count
        } else {
            ranked.len()
        };
        let mut i: usize = 0;
        while i < count
            invariant
                count <= ranked@.len(),
                ranked@.len() == fitness@.len(),
                i <= count,
                parents_indices@.len() == i,
                forall|k: int| 0 <= k < i ==> #[trigger] parents_indices@[k] == ranked@[k],
                forall|k: int| 0 <= k < ranked@.len() ==> (#[trigger] ranked@[k]) < fitness@.len(),
                forall|k: int|
                    0 <= k < parents_indices@.len() ==> #[trigger] parents_indices@[k]
                        < fitness@.len(),
            decreases count - i,
        {
            parents_indices.push(ranked[i]);
            i = i + 1;
        }
        proof {
            assert(crate::sorting::is_index_perm(ranked@, fitness@.len() as int));
            if F::deterministic() && F::totally_ordered() {
                assert forall|k: int, t: int|
                    #![trigger final(parents_indices)@[k], fitness@[t]]
                    0 <= k < final(parents_indices)@.len() && 0 <= t < fitness@.len()
                        && !final(parents_indices)@.contains(t as usize)
                        implies crate::opt_traits::as_good_as::<F>(
                    fitness@[final(parents_indices)@[k] as int]@,
                    fitness@[t]@,
                ) by {
                    assert(ranked@.contains(t as usize));
                    let pos = choose|pos: int|
                        0 <= pos < ranked@.len() && ranked@[pos] == t as usize;
                    if pos < count {
                        assert(final(parents_indices)@[pos] == t as usize);
                        assert(final(parents_indices)@.contains(t as usize));
                    } else if pos > k {
                        assert(crate::sorting::key_lt::<F>(
                            fitness@,
                            ranked@[k] as int,
                            ranked@[pos] as int,
                        ));
                    }
                }
            }
        }
    }
}

impl<T: OptData, F: Fitness> Selection<T, F> for RankSelection {
    fn select(&self, fitness: &Vec<F>, parents_indices: &mut Vec<usize>)
        ensures
            final(parents_indices)@.len() == (if self.select_count as int <= fitness@.len() {
                self.select_count as int
            } else {
                fitness@.len() as int
            }),
            forall|k1: int, k2: int|
                0 <= k1 < k2 < final(parents_indices)@.len() ==> final(parents_indices)@[k1]
                    != final(parents_indices)@[k2],
            F::deterministic() && F::totally_ordered() ==> forall|k1: int, k2: int|
                0 <= k1 < k2 < final(parents_indices)@.len() ==> crate::sorting::key_lt::<F>(
                    fitness@,
                    final(parents_indices)@[k1] as int,
                    final(parents_indices)@[k2] as int,
                ),
            F::deterministic() && F::totally_ordered() ==> forall|k: int, t: int|
                #![trigger final(parents_indices)@[k], fitness@[t]]
                0 <= k < final(parents_indices)@.len() && 0 <= t < fitness@.len()
                    && !final(parents_indices)@.contains(t as usize)
                    ==> crate::opt_traits::as_good_as::<F>(
                    fitness@[final(parents_indices)@[k] as int]@,
                    fitness@[t]@,
                ),
    {
        self.select_ranked(fitness, parents_indices);
    }
}

/// Uniform sampling with replacement, blind to fitness.
pub struct RandomSelection {
    pub select_count: usize,
}

impl RandomSelection {
    /// Draws exactly `select_count` indices uniformly with replacement.
    pub fn select_uniform<F: Fitness>(&self, fitness: &Vec<F>, parents_indices: &mut Vec<usize>)
        requires
            fitness@.len() >= 1,
        ensures
            final(parents_indices)@.len() == self.select_count as int,
            forall|i: int|
                0 <= i < final(parents_indices)@.len() ==> #[trigger] final(parents_indices)@[i]
                    < fitness@.len(),
    {
        parents_indices.clear();
        let mut p: usize = 0;
        while p < self.select_count
            invariant
                p <= self.select_count,
                fitness@.len() >= 1,
                parents_indices@.len() == p,
                forall|i: int|
                    0 <= i < parents_indices@.len() ==> #[trigger] parents_indices@[i]
                        < fitness@.len(),
            decreases self.select_count - p,
        {
            parents_indices.push(rand_below(fitness.len()));
            p = p + 1;
        }
    }
}

impl<T: OptData, F: Fitness> Selection<T, F> for RandomSelection {
    fn select(&self, fitness: &Vec<F>, parents_indices: &mut Vec<usize>)
        ensures
            final(parents_indices)@.len() == self.select_count as int,
    {
        self.select_uniform(fitness, parents_indices);
    }
}

/// Selects every index once, in order: the population passes through
/// unchanged, which expresses local search through the population loop.
pub struct IdentitySelection {}

impl IdentitySelection {
    /// Selects exactly the indices `0 .. fitness.len()`, in order.
    pub fn select_everyone<F: Fitness>(fitness: &Vec<F>, parents_indices: &mut Vec<usize>)
        ensures
            final(parents_indices)@.len() == fitness@.len(),
            forall|k: int|
                0 <= k < final(parents_indices)@.len() ==> #[trigger] final(parents_indices)@[k]
                    == k as usize,
    {
        parents_indices.clear();
        let mut i: usize = 0;
        while i < fitness.len()
            invariant
                i <= fitness@.len(),
                parents_indices@.len() == i,
                forall|k: int|
                    0 <= k < parents_indices@.len() ==> #[trigger] parents_indices@[k]
                        == k as usize,
            decreases fitness@.len() - i,
        {
            parents_indices.push(i);
            i = i + 1;
        }
    }
}

impl<T: OptData, F: Fitness> Selection<T, F> for IdentitySelection {
    fn select(&self, fitness: &Vec<F>, parents_indices: &mut Vec<usize>)
        ensures
            final(parents_indices)@.len() == fitness@.len(),
            forall|k: int|
                0 <= k < final(parents_indices)@.len() ==> #[trigger] final(parents_indices)@[k]
                    == k as usize,
    {
        IdentitySelection::select_everyone(fitness, parents_indices);
        proof {
            assert forall|k: int|
                0 <= k < final(parents_indices)@.len() implies #[trigger] final(parents_indices)@[k]
                < fitness@.len() by {
            }
        }
    }
}

/// Stochastic universal sampling over the cumulative scalar fitness: one
/// random phase, then `select_count` equally spaced pointers, kept exact by
/// integer arithmetic.
///
/// The scheme needs non-negative entries with a positive, in-range sum;
/// on any other input it degenerates to selecting nothing.
pub struct RouletteWheelSelection {
    pub select_count: usize,
}

/// The sum of a scalar fitness sequence.
pub open spec fn sum_fitness(fs: Seq<i64>) -> int
    decreases fs.len(),
{
    if fs.len() == 0 {
        0
    } else {
        sum_fitness(fs.drop_last()) + fs.last()
    }
}

proof fn lemma_sum_prefix_step(fs: Seq<i64>, m: int)
    requires
        0 <= m < fs.len(),
    ensures
        sum_fitness(fs.subrange(0, m + 1)) == sum_fitness(fs.subrange(0, m)) + fs[m],
{
    assert(fs.subrange(0, m + 1).drop_last() =~= fs.subrange(0, m));
    assert(fs.subrange(0, m + 1).last() == fs[m]);
}

proof fn lemma_sum_nonneg(fs: Seq<i64>)
    requires
        forall|i: int| 0 <= i < fs.len() ==> 0 <= #[trigger] fs[i],
    ensures
        0 <= sum_fitness(fs),
    decreases fs.len(),
{
    if fs.len() > 0 {
        lemma_sum_nonneg(fs.drop_last());
    }
}

/// With non-negative entries, every prefix sum is bounded by the whole sum.
proof fn lemma_sum_prefix_le(fs: Seq<i64>, m: int)
    requires
        0 <= m <= fs.len(),
        forall|i: int| 0 <= i < fs.len() ==> 0 <= #[trigger] fs[i],
    ensures
        0 <= sum_fitness(fs.subrange(0, m)) <= sum_fitness(fs),
    decreases fs.len() - m,
{
    lemma_sum_nonneg(fs.subrange(0, m));
    if m == fs.len() {
        assert(fs.subrange(0, m) =~= fs);
    } else {
        lemma_sum_prefix_step(fs, m);
        lemma_sum_prefix_le(fs, m + 1);
    }
}

/// Every entry is non-negative and the total is positive and in range:
/// the inputs on which stochastic universal sampling is defined.
pub open spec fn sus_defined(fs: Seq<i64>) -> bool {
    &&& forall|i: int| 0 <= i < fs.len() ==> 0 <= #[trigger] fs[i]
    &&& sum_fitness(fs) >= 1
    &&& sum_fitness(fs) <= u64::MAX as int
}

/// Pointer `m` of a stochastic-universal-sampling pass with phase `ph`
/// falls inside the cumulative-fitness slot of the member `picks[m]`
/// names, on an axis scaled by the number of picks.
pub open spec fn sus_window(fs: Seq<i64>, picks: Seq<usize>, ph: int, m: int) -> bool {
    let c = picks.len() as int;
    let s = picks[m] as int;
    &&& c * sum_fitness(fs.subrange(0, s)) <= ph + m * sum_fitness(fs)
    &&& ph + m * sum_fitness(fs) < c * sum_fitness(fs.subrange(0, s + 1))
}

/// Every pick of the pass sits in the slot its evenly spaced pointer hits.
pub open spec fn sus_positions(fs: Seq<i64>, picks: Seq<usize>, ph: int) -> bool {
    forall|m: int| 0 <= m < picks.len() ==> #[trigger] sus_window(fs, picks, ph, m)
}

/// Some phase below the total fitness explains every pick of the pass.
pub open spec fn sus_result(fs: Seq<i64>, picks: Seq<usize>) -> bool {
    exists|ph: int| 0 <= ph < sum_fitness(fs) && #[trigger] sus_positions(fs, picks, ph)
}

impl RouletteWheelSelection {
    /// One stochastic-universal-sampling pass: a single random phase, then
    /// `select_count` pointers spaced exactly `sum / select_count` apart
    /// over the cumulative fitness, kept exact by scaled integers.
    ///
    /// On well-defined input exactly `select_count` indices come back; on
    /// degenerate input (a negative entry, a zero or out-of-range sum, or a
    /// zero count) nothing is selected.
    #[verifier::rlimit(90)]
    fn sus_core(&self, fitness: &Vec<i64>) -> (r: Vec<usize>)
        ensures
            forall|m: int|
                0 <= m < r@.len() ==> #[trigger] r@[m]
                    < fitness@.len(),
            sus_defined(fitness@) && self.select_count >= 1 ==> r@.len()
                == self.select_count,
            !(sus_defined(fitness@) && self.select_count >= 1)
                ==> r@.len() == 0,
            forall|m1: int, m2: int|
                0 <= m1 < m2 < r@.len() ==> #[trigger] r@[m1]
                    <= #[trigger] r@[m2],
            sus_defined(fitness@) && self.select_count >= 1 ==> sus_result(
                fitness@,
                r@,
            ),
    {
        let mut parents_indices: Vec<usize> = Vec::new();
        let mut sum: u128 = 0;
        let mut i: usize = 0;
        let mut all_non_negative = true;
        while i < fitness.len()
            invariant
                i <= fitness@.len(),
                sum <= i * (i64::MAX as u128),
                all_non_negative ==> {
                    &&& forall|t: int| 0 <= t < i ==> 0 <= #[trigger] fitness@[t]
                    &&& sum == sum_fitness(fitness@.subrange(0, i as int))
                },
                !all_non_negative ==> exists|t: int| 0 <= t < i && #[trigger] fitness@[t] < 0,
            decreases fitness@.len() - i,
        {
            let v = fitness[i];
            if v < 0 {
                all_non_negative = false;
            } else {
                proof {
                    assert(sum + v <= (i + 1) * (i64::MAX as u128)) by (nonlinear_arith)
                        requires
                            sum <= i * (i64::MAX as u128),
                            0 <= v <= i64::MAX,
                    ;
                    assert((i + 1) * (i64::MAX as u128) < u128::MAX) by (nonlinear_arith)
                        requires
                            i + 1 <= usize::MAX,
                            usize::MAX <= u64::MAX,
                    ;
                    if all_non_negative {
                        lemma_sum_prefix_step(fitness@, i as int);
                    }
                }
                sum = sum + (v as u128);
            }
            i = i + 1;
        }
        proof {
            assert(fitness@.subrange(0, fitness@.len() as int) =~= fitness@);
        }
        if !all_non_negative || sum == 0 || sum > u64::MAX as u128 || self.select_count == 0 {
            // degenerate configuration: nothing is selected
            return parents_indices;
        }
        let total: u128 = sum;
        let count: u128 = self.select_count as u128;
        let phase: u128 = rand_u64_below(total as u64) as u128;
        let mut acc: u128 = 0;
        let mut k: u128 = 0;
        let mut idx: usize = 0;
        while idx < fitness.len()
            invariant
                idx <= fitness@.len(),
                forall|t: int| 0 <= t < fitness@.len() ==> 0 <= #[trigger] fitness@[t],
                count >= 1,
                count == self.select_count as u128,
                count <= u64::MAX,
                total >= 1,
                total <= u64::MAX,
                total == sum_fitness(fitness@),
                phase < total,
                acc == sum_fitness(fitness@.subrange(0, idx as int)),
                acc <= total,
                k <= count,
                parents_indices@.len() == k,
                k == count || phase + k * total >= count * acc,
                forall|m: int|
                    0 <= m < parents_indices@.len() ==> #[trigger] parents_indices@[m]
                        < fitness@.len(),
                forall|m: int|
                    0 <= m < parents_indices@.len() ==> #[trigger] parents_indices@[m] <= idx,
                forall|m1: int, m2: int|
                    0 <= m1 < m2 < parents_indices@.len() ==> #[trigger] parents_indices@[m1]
                        <= #[trigger] parents_indices@[m2],
                forall|m: int|
                    #![trigger parents_indices@[m]]
                    0 <= m < parents_indices@.len() ==> count * sum_fitness(
                        fitness@.subrange(0, parents_indices@[m] as int),
                    ) <= phase + m * total && phase + m * total < count * sum_fitness(
                        fitness@.subrange(0, parents_indices@[m] as int + 1),
                    ),
            decreases fitness@.len() - idx,
        {
            let v = fitness[idx];
            proof {
                lemma_sum_prefix_step(fitness@, idx as int);
                lemma_sum_prefix_le(fitness@, idx as int + 1);
            }
            let next_acc: u128 = acc + (v as u128);
            while k < count
                invariant
                    k <= count,
                    count <= u64::MAX,
                    total <= u64::MAX,
                    next_acc <= total,
                    acc <= next_acc,
                    phase < total,
                    idx < fitness@.len(),
                    parents_indices@.len() == k,
                    k == count || phase + k * total >= count * acc,
                    forall|m: int|
                        0 <= m < parents_indices@.len() ==> #[trigger] parents_indices@[m]
                            < fitness@.len(),
                    forall|m: int|
                        0 <= m < parents_indices@.len() ==> #[trigger] parents_indices@[m] <= idx,
                    forall|m1: int, m2: int|
                        0 <= m1 < m2 < parents_indices@.len() ==> #[trigger] parents_indices@[m1]
                            <= #[trigger] parents_indices@[m2],
                    acc == sum_fitness(fitness@.subrange(0, idx as int)),
                    next_acc == sum_fitness(fitness@.subrange(0, idx as int + 1)),
                    forall|m: int|
                        #![trigger parents_indices@[m]]
                        0 <= m < parents_indices@.len() ==> count * sum_fitness(
                            fitness@.subrange(0, parents_indices@[m] as int),
                        ) <= phase + m * total && phase + m * total < count * sum_fitness(
                            fitness@.subrange(0, parents_indices@[m] as int + 1),
                        ),
                ensures
                    k == count || phase + k * total >= count * next_acc,
                decreases count - k,
            {
                proof {
                    assert(count * acc <= count * next_acc && count * next_acc <= count * total
                        && count * total < u128::MAX && phase + k * total < u128::MAX)
                        by (nonlinear_arith)
                        requires
                            acc <= next_acc,
                            next_acc <= total,
                            phase < total,
                            k <= count,
                            1 <= count <= u64::MAX,
                            1 <= total <= u64::MAX,
                    ;
                }
                let lo: u128 = count * acc;
                let hi: u128 = count * next_acc;
                let pos: u128 = phase + k * total;
                if lo <= pos && pos < hi {
                    parents_indices.push(idx);
                    k = k + 1;
                    proof {
                        assert(phase + k * total >= count * acc) by (nonlinear_arith)
                            requires
                                phase + (k - 1) * total >= count * acc,
                                total >= 1,
                                k >= 1,
                        ;
                    }
                } else {
                    break ;
                }
            }
            acc = next_acc;
            idx = idx + 1;
        }
        proof {
            assert(acc == total);
            if k < count {
                assert(phase + k * total < count * total) by (nonlinear_arith)
                    requires
                        phase < total,
                        k <= count - 1,
                        total >= 1,
                        count >= 1,
                ;
                assert(false);
            }
            assert(parents_indices@.len() == count);
            assert forall|m: int|
                0 <= m < parents_indices@.len() implies #[trigger] sus_window(
                fitness@,
                parents_indices@,
                phase as int,
                m,
            ) by {
                assert(count * sum_fitness(fitness@.subrange(0, parents_indices@[m] as int))
                    <= phase + m * total && phase + m * total < count * sum_fitness(
                    fitness@.subrange(0, parents_indices@[m] as int + 1),
                ));
            }
            assert(sus_positions(fitness@, parents_indices@, phase as int));
            assert(0 <= phase < sum_fitness(fitness@));
            assert(sus_result(fitness@, parents_indices@));
        }
        parents_indices
    }

    /// One stochastic-universal-sampling pass into the caller's buffer.
    pub fn sus_select(&self, fitness: &Vec<i64>, parents_indices: &mut Vec<usize>)
        ensures
            forall|m: int|
                0 <= m < final(parents_indices)@.len() ==> #[trigger] final(parents_indices)@[m]
                    < fitness@.len(),
            sus_defined(fitness@) && self.select_count >= 1 ==> final(parents_indices)@.len()
                == self.select_count,
            !(sus_defined(fitness@) && self.select_count >= 1)
                ==> final(parents_indices)@.len() == 0,
            forall|m1: int, m2: int|
                0 <= m1 < m2 < final(parents_indices)@.len() ==> #[trigger] final(parents_indices)@[m1]
                    <= #[trigger] final(parents_indices)@[m2],
            sus_defined(fitness@) && self.select_count >= 1 ==> sus_result(
                fitness@,
                final(parents_indices)@,
            ),
    {
        *parents_indices = self.sus_core(fitness);
    }
}

impl<T: OptData> Selection<T, i64> for RouletteWheelSelection {
    fn select(&self, fitness: &Vec<i64>, parents_indices: &mut Vec<usize>)
        ensures
            sus_defined(fitness@) && self.select_count >= 1 ==> final(parents_indices)@.len()
                == self.select_count,
            !(sus_defined(fitness@) && self.select_count >= 1)
                ==> final(parents_indices)@.len() == 0,
            forall|m1: int, m2: int|
                0 <= m1 < m2 < final(parents_indices)@.len() ==> #[trigger] final(parents_indices)@[m1]
                    <= #[trigger] final(parents_indices)@[m2],
            sus_defined(fitness@) && self.select_count >= 1 ==> sus_result(
                fitness@,
                final(parents_indices)@,
            ),
    {
        self.sus_select(fitness, parents_indices);
    }
}

} // verus!
