use vstd::prelude::*;

use std::cmp::Ordering;

use crate::opt_data::ConstraintsSumed;
use crate::opt_traits::{
    pop_inv, sat_sub, Constraints, Fitness, FitnessTransformer, OptData, Solution, Statistics,
};
use crate::opt_data::ConstraintsSumed as _;
use crate::prob::Prob;

verus! {

/// The fitness a constrained run ranks by: the raw objective, the summed
/// constraint violations, and the probability of ranking an infeasible
/// pair by objective anyway.
#[derive(Debug, Clone, Copy)]
pub struct StochasticRankFitness {
    pub fitness: i64,
    pub violations: i64,
    pub prob: Prob,
}

impl View for StochasticRankFitness {
    type V = StochasticRankFitness;

    open spec fn view(&self) -> StochasticRankFitness {
        *self
    }
}

/// The plain objective comparison of two ranked fitness values.
pub open spec fn objective_cmp(a: StochasticRankFitness, b: StochasticRankFitness) -> Ordering {
    if a.fitness < b.fitness {
        Ordering::Less
    } else if a.fitness == b.fitness {
        Ordering::Equal
    } else {
        Ordering::Greater
    }
}

/// The comparison of two ranked fitness values by violation magnitude.
pub open spec fn violation_cmp(a: StochasticRankFitness, b: StochasticRankFitness) -> Ordering {
    if a.violations < b.violations {
        Ordering::Less
    } else if a.violations == b.violations {
        Ordering::Equal
    } else {
        Ordering::Greater
    }
}

impl StochasticRankFitness {
    /// The stochastic-ranking comparator. When both candidates are
    /// feasible the result is exactly the plain objective comparison,
    /// independent of the configured probability; otherwise, with that
    /// probability the pair is still ranked by objective, and with the
    /// complementary probability by violation magnitude.
    pub fn ranked_cmp(f1: &StochasticRankFitness, f2: &StochasticRankFitness) -> (r: Ordering)
        ensures
            f1.violations <= 0 && f2.violations <= 0 ==> r == objective_cmp(*f1, *f2),
            r == objective_cmp(*f1, *f2) || r == violation_cmp(*f1, *f2),
    {
        let both_feasible = f1.violations <= 0 && f2.violations <= 0;
        let by_objective: bool = if both_feasible {
            true
        } else {
            let wf = 1 <= f1.prob.den && f1.prob.num <= f1.prob.den;
            wf && f1.prob.flip()
        };
        if by_objective {
            if f1.fitness < f2.fitness {
                Ordering::Less
            } else if f1.fitness == f2.fitness {
                Ordering::Equal
            } else {
                Ordering::Greater
            }
        } else {
            if f1.violations < f2.violations {
                Ordering::Less
            } else if f1.violations == f2.violations {
                Ordering::Equal
            } else {
                Ordering::Greater
            }
        }
    }
}

impl Fitness for StochasticRankFitness {
    open spec fn cmp_spec(a: StochasticRankFitness, b: StochasticRankFitness) -> Ordering {
        objective_cmp(a, b)
    }

    open spec fn deterministic() -> bool {
        false
    }

    open spec fn totally_ordered() -> bool {
        false
    }

    proof fn cmp_flip(a: StochasticRankFitness, b: StochasticRankFitness) {
    }

    proof fn cmp_transitive(a: StochasticRankFitness, b: StochasticRankFitness, c: StochasticRankFitness) {
    }

    fn opt_cmp(f1: &StochasticRankFitness, f2: &StochasticRankFitness) -> (r: Ordering) {
        StochasticRankFitness::ranked_cmp(f1, f2)
    }

    fn diff(curr: &StochasticRankFitness, prev: &StochasticRankFitness) -> i64 {
        sat_sub(curr.fitness, prev.fitness)
    }

    fn duplicate(&self) -> (r: StochasticRankFitness) {
        *self
    }
}

/// Pairs every raw objective value with its candidate's summed constraint
/// violations, so selection and replacement can rank under constraints.
pub struct StochasticRankFitnessTransformer<T: OptData, ConstraintsT: Constraints<T>> {
    pub prob: Prob,
    pub constraints: ConstraintsT,
    pub _marker: core::marker::PhantomData<T>,
}

impl<T: OptData, ConstraintsT: Constraints<T>> StochasticRankFitnessTransformer<T, ConstraintsT> {
    pub fn new(prob: Prob, constraints: ConstraintsT) -> (r: Self) {
        StochasticRankFitnessTransformer { prob, constraints, _marker: core::marker::PhantomData }
    }

    /// Pairs each raw objective value with its candidate's summed
    /// violations and the configured ranking probability, entry by entry.
    pub fn derive_ranked(
        &self,
        population: &Vec<T>,
        fitness_in: &Vec<i64>,
        fitness_out: &mut Vec<StochasticRankFitness>,
    )
        requires
            population@.len() == fitness_in@.len(),
            pop_inv(population@),
        ensures
            final(fitness_out)@.len() == fitness_in@.len(),
            forall|i: int|
                #![trigger final(fitness_out)@[i]]
                0 <= i < fitness_in@.len() ==> {
                    &&& final(fitness_out)@[i].fitness == fitness_in@[i]
                    &&& final(fitness_out)@[i].prob == self.prob
                    &&& final(fitness_out)@[i].violations as int
                        == self.constraints.violations_sum_spec(population@[i]@)
                },
    {
        fitness_out.clear();
        let mut i: usize = 0;
        while i < fitness_in.len()
            invariant
                population@.len() == fitness_in@.len(),
                pop_inv(population@),
                i <= fitness_in@.len(),
                fitness_out@.len() == i,
                forall|k: int|
                    #![trigger fitness_out@[k]]
                    0 <= k < i ==> {
                        &&& fitness_out@[k].fitness == fitness_in@[k]
                        &&& fitness_out@[k].prob == self.prob
                        &&& fitness_out@[k].violations as int
                            == self.constraints.violations_sum_spec(population@[k]@)
                    },
            decreases fitness_in@.len() - i,
        {
            let violations = self.constraints.violations_sum(&population[i]);
            fitness_out.push(
                StochasticRankFitness { fitness: fitness_in[i], violations, prob: self.prob },
            );
            i = i + 1;
        }
    }
}

impl<T: OptData, ConstraintsT: Constraints<T>> FitnessTransformer<
    T,
    i64,
    StochasticRankFitness,
> for StochasticRankFitnessTransformer<T, ConstraintsT> {
    fn transform(
        &mut self,
        population: &Vec<T>,
        fitness_in: &Vec<i64>,
        fitness_out: &mut Vec<StochasticRankFitness>,
    )
        ensures
            forall|i: int|
                #![trigger final(fitness_out)@[i]]
                0 <= i < fitness_in@.len() ==> {
                    &&& final(fitness_out)@[i].fitness == fitness_in@[i]
                    &&& final(fitness_out)@[i].prob == old(self).prob
                    &&& final(fitness_out)@[i].violations as int
                        == old(self).constraints.violations_sum_spec(population@[i]@)
                },
    {
        self.derive_ranked(population, fitness_in, fitness_out);
    }
}

/// The best constrained candidate of a population: least violations first,
/// then least objective.
pub struct StochasticRankSolution<T: OptData> {
    pub data: T,
    pub fitness: i64,
    pub violations: i64,
}

impl<T: OptData> StochasticRankSolution<T> {
    /// Lexicographic "better": fewer violations, then smaller objective.
    pub open spec fn better_spec(self, other: Self) -> bool {
        self.violations < other.violations || (self.violations == other.violations && self.fitness
            < other.fitness)
    }
}

impl<T: OptData> StochasticRankSolution<T> {
    /// Extracts the best constrained candidate: least summed violations
    /// first, then least objective, the earliest such member on ties.
    pub fn best_constrained(
        population: &Vec<T>,
        fitness_in: &Vec<i64>,
        fitness_opt: &Vec<StochasticRankFitness>,
    ) -> (r: Self)
        requires
            population@.len() == fitness_in@.len(),
            population@.len() == fitness_opt@.len(),
            population@.len() >= 1,
            pop_inv(population@),
        ensures
            exists|b: int|
                #![trigger population@[b]]
                {
                    &&& 0 <= b < population@.len()
                    &&& r.data@ == population@[b]@
                    &&& r.fitness == fitness_in@[b]
                    &&& r.violations == fitness_opt@[b].violations
                    &&& forall|i: int|
                        0 <= i < b ==> r.violations < (#[trigger] fitness_opt@[i]).violations || (
                        r.violations == fitness_opt@[i].violations && r.fitness < fitness_in@[i])
                },
            forall|i: int|
                0 <= i < population@.len() ==> r.violations < (#[trigger] fitness_opt@[i]).violations
                    || (r.violations == fitness_opt@[i].violations && r.fitness <= fitness_in@[i]),
    {
        let mut best_index: usize = 0;
        let mut i: usize = 1;
        while i < population.len()
            invariant
                population@.len() == fitness_in@.len(),
                population@.len() == fitness_opt@.len(),
                population@.len() >= 1,
                pop_inv(population@),
                1 <= i <= population@.len(),
                best_index < i,
                forall|k: int|
                    0 <= k < i ==> fitness_opt@[best_index as int].violations < (
                    #[trigger] fitness_opt@[k]).violations || (fitness_opt@[
                        best_index as int
                    ].violations == fitness_opt@[k].violations && fitness_in@[best_index as int]
                        <= fitness_in@[k]),
                forall|k: int|
                    0 <= k < best_index ==> fitness_opt@[best_index as int].violations < (
                    #[trigger] fitness_opt@[k]).violations || (fitness_opt@[
                        best_index as int
                    ].violations == fitness_opt@[k].violations && fitness_in@[best_index as int]
                        < fitness_in@[k]),
            decreases population@.len() - i,
        {
            if fitness_opt[i].violations < fitness_opt[best_index].violations {
                best_index = i;
            } else if fitness_opt[i].violations == fitness_opt[best_index].violations
                && fitness_in[i] < fitness_in[best_index] {
                best_index = i;
            }
            i = i + 1;
        }
        StochasticRankSolution {
            data: population[best_index].duplicate(),
            fitness: fitness_in[best_index],
            violations: fitness_opt[best_index].violations,
        }
    }
}

impl<T: OptData> Solution<T, i64, StochasticRankFitness> for StochasticRankSolution<T> {
    fn from_population(
        population: &Vec<T>,
        fitness_in: &Vec<i64>,
        fitness_opt: &Vec<StochasticRankFitness>,
    ) -> (r: Self)
        ensures
            exists|b: int|
                #![trigger population@[b]]
                {
                    &&& 0 <= b < population@.len()
                    &&& r.data@ == population@[b]@
                    &&& r.fitness == fitness_in@[b]
                    &&& r.violations == fitness_opt@[b].violations
                    &&& forall|i: int|
                        0 <= i < b ==> r.violations < (#[trigger] fitness_opt@[i]).violations || (
                        r.violations == fitness_opt@[i].violations && r.fitness < fitness_in@[i])
                },
            forall|i: int|
                0 <= i < population@.len() ==> r.violations < (#[trigger] fitness_opt@[i]).violations
                    || (r.violations == fitness_opt@[i].violations && r.fitness <= fitness_in@[i]),
    {
        StochasticRankSolution::best_constrained(population, fitness_in, fitness_opt)
    }

    fn diff(&self, other: &Self) -> i64 {
        sat_sub(self.fitness, other.fitness)
    }

    fn is_better(&self, other: &Self) -> bool {
        self.violations < other.violations || (self.violations == other.violations && self.fitness
            < other.fitness)
    }

    fn duplicate(&self) -> Self {
        StochasticRankSolution {
            data: self.data.duplicate(),
            fitness: self.fitness,
            violations: self.violations,
        }
    }
}

/// One best-so-far constrained snapshot per generation: each entry is the
/// better of the generation's best and the previous entry.
pub struct StochasticRankStatistics<T: OptData> {
    pub solutions: Vec<StochasticRankSolution<T>>,
}

impl<T: OptData> Statistics<T, i64, StochasticRankFitness> for StochasticRankStatistics<T> {
    open spec fn records(&self) -> int {
        self.solutions@.len() as int
    }

    fn new() -> (r: Self) {
        StochasticRankStatistics { solutions: Vec::new() }
    }

    fn report_iter(
        &mut self,
        _iter: usize,
        population: &Vec<T>,
        fitness_in: &Vec<i64>,
        fitness_opt: &Vec<StochasticRankFitness>,
    ) {
        let mut solution = StochasticRankSolution::from_population(
            population,
            fitness_in,
            fitness_opt,
        );
        if self.solutions.len() > 0 {
            let last = &self.solutions[self.solutions.len() - 1];
            let last_better = last.violations < solution.violations || (last.violations
                == solution.violations && last.fitness < solution.fitness);
            if last_better {
                solution = StochasticRankSolution {
                    data: last.data.duplicate(),
                    fitness: last.fitness,
                    violations: last.violations,
                };
            }
        }
        self.solutions.push(solution);
    }
}

/// The sum of the positive entries of a violations vector, clamped at the
/// largest representable value.
pub open spec fn positive_sum(s: Seq<i64>) -> int
    decreases s.len(),
{
    if s.len() == 0 {
        0
    } else {
        let rest = positive_sum(s.drop_last());
        if s.last() >= 0 {
            if rest + s.last() > i64::MAX as int {
                i64::MAX as int
            } else {
                rest + s.last()
            }
        } else {
            rest
        }
    }
}

proof fn lemma_positive_sum_step(s: Seq<i64>, m: int)
    requires
        0 <= m < s.len(),
    ensures
        positive_sum(s.subrange(0, m + 1)) == (if s[m] >= 0 {
            if positive_sum(s.subrange(0, m)) + s[m] > i64::MAX as int {
                i64::MAX as int
            } else {
                positive_sum(s.subrange(0, m)) + s[m]
            }
        } else {
            positive_sum(s.subrange(0, m))
        }),
{
    assert(s.subrange(0, m + 1).drop_last() =~= s.subrange(0, m));
    assert(s.subrange(0, m + 1).last() == s[m]);
}

proof fn lemma_positive_sum_bounds(s: Seq<i64>)
    ensures
        0 <= positive_sum(s) <= i64::MAX as int,
    decreases s.len(),
{
    if s.len() > 0 {
        lemma_positive_sum_bounds(s.drop_last());
    }
}

/// The positive-part sum vanishes exactly when no entry is positive.
proof fn lemma_positive_sum_zero(s: Seq<i64>)
    ensures
        (positive_sum(s) == 0) <==> (forall|i: int| 0 <= i < s.len() ==> #[trigger] s[i] <= 0),
    decreases s.len(),
{
    lemma_positive_sum_bounds(s);
    if s.len() > 0 {
        lemma_positive_sum_zero(s.drop_last());
        lemma_positive_sum_bounds(s.drop_last());
        if positive_sum(s) == 0 {
            assert forall|i: int| 0 <= i < s.len() implies #[trigger] s[i] <= 0 by {
                if i < s.len() - 1 {
                    assert(s.drop_last()[i] == s[i]);
                }
            }
        } else {
            if forall|i: int| 0 <= i < s.len() ==> #[trigger] s[i] <= 0 {
                assert(forall|i: int|
                    0 <= i < s.drop_last().len() ==> #[trigger] s.drop_last()[i] <= 0);
            }
        }
    }
}

/// Summed constraint handling lifted from a violations vector: feasible
/// when no component is positive, with the saturated sum of the positive
/// components as the violation magnitude.
pub struct SummedConstraints<T: OptData, C: ConstraintsSumed<T>> {
    pub inner: C,
    pub _marker: core::marker::PhantomData<T>,
}

impl<T: OptData, C: ConstraintsSumed<T>> Constraints<T> for SummedConstraints<T, C> {
    open spec fn violations_sum_spec(&self, data: T::V) -> int {
        positive_sum(self.inner.violations_spec(data))
    }

    fn has_constrains() -> bool {
        true
    }

    fn is_feasible(&self, data: &T) -> (r: bool) {
        let v = self.inner.violations(data);
        proof {
            lemma_positive_sum_zero(v@);
            lemma_positive_sum_bounds(v@);
        }
        let mut i: usize = 0;
        while i < v.len()
            invariant
                v@ == self.inner.violations_spec(data@),
                i <= v@.len(),
                forall|k: int| 0 <= k < i ==> #[trigger] v@[k] <= 0,
            decreases v@.len() - i,
        {
            if v[i] > 0 {
                proof {
                    lemma_positive_sum_zero(v@);
                    lemma_positive_sum_bounds(v@);
                }
                return false;
            }
            i = i + 1;
        }
        true
    }

    fn violations_sum(&self, data: &T) -> (r: i64) {
        let v = self.inner.violations(data);
        let mut acc: i64 = 0;
        let mut i: usize = 0;
        while i < v.len()
            invariant
                v@ == self.inner.violations_spec(data@),
                i <= v@.len(),
                acc as int == positive_sum(v@.subrange(0, i as int)),
                0 <= acc,
            decreases v@.len() - i,
        {
            proof {
                lemma_positive_sum_step(v@, i as int);
            }
            let x = v[i];
            let room = sat_sub(i64::MAX, if x >= 0 {
                x
            } else {
                0
            });
            acc = if x >= 0 && acc <= room {
                acc + x
            } else if x >= 0 {
                i64::MAX
            } else {
                acc
            };
            i = i + 1;
        }
        proof {
            assert(v@.subrange(0, v@.len() as int) =~= v@);
        }
        acc
    }
}

} // verus!
