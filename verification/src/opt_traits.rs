use vstd::prelude::*;

use std::cmp::Ordering;

verus! {

/// A candidate solution representation: a value with a validity invariant,
/// a dimensionality, and a clone that provably preserves both.
pub trait OptData: View + Sized {
    /// Validity invariant of the representation (for example: a tour is a
    /// permutation of the vertex set).
    spec fn inv(&self) -> bool;

    fn dim(&self) -> usize;

    fn duplicate(&self) -> (r: Self)
        ensures
            r@ == self@,
            r.inv() <==> self.inv(),
    ;
}

/// A fitness value with a total pre-order comparator used for every
/// ranking, selection and replacement decision, and a scalar improvement
/// magnitude used to detect stagnation.
///
/// `cmp_spec` is the mathematical comparison; `Ordering::Less` means "better"
/// (minimization). A comparator that draws random numbers (stochastic
/// ranking) sets `deterministic()` to false; one whose order is partial
/// (Pareto dominance) sets `totally_ordered()` to false, which weakens what
/// sorting by it promises.
pub trait Fitness: View + Sized {
    spec fn cmp_spec(a: Self::V, b: Self::V) -> Ordering;

    /// The executable comparator always agrees with `cmp_spec`.
    spec fn deterministic() -> bool;

    /// `cmp_spec` behaves as a total pre-order, so sorting by it is meaningful.
    spec fn totally_ordered() -> bool;

    proof fn cmp_flip(a: Self::V, b: Self::V)
        ensures
            Self::totally_ordered() ==> ((Self::cmp_spec(a, b) == Ordering::Less) <==> (
            Self::cmp_spec(b, a) == Ordering::Greater)),
    ;

    proof fn cmp_transitive(a: Self::V, b: Self::V, c: Self::V)
        requires
            Self::cmp_spec(a, b) != Ordering::Greater,
            Self::cmp_spec(b, c) != Ordering::Greater,
        ensures
            Self::totally_ordered() ==> Self::cmp_spec(a, c) != Ordering::Greater,
    ;

    fn opt_cmp(f1: &Self, f2: &Self) -> (r: Ordering)
        ensures
            Self::deterministic() ==> r == Self::cmp_spec(f1@, f2@),
    ;

    fn diff(curr: &Self, prev: &Self) -> i64;

    fn duplicate(&self) -> (r: Self)
        ensures
            r@ == self@,
    ;
}

/// `a` is at least as good as `b` in optimization-quality order.
pub open spec fn as_good_as<F: Fitness>(a: F::V, b: F::V) -> bool {
    F::cmp_spec(a, b) != Ordering::Greater
}

/// The difference `a - b` clamped into the i64 range.
pub open spec fn sat_sub_spec(a: int, b: int) -> int {
    if a - b > i64::MAX as int {
        i64::MAX as int
    } else if a - b < i64::MIN as int {
        i64::MIN as int
    } else {
        a - b
    }
}

/// The difference `a - b` clamped into the i64 range.
pub fn sat_sub(a: i64, b: i64) -> (r: i64)
    ensures
        r as int == sat_sub_spec(a as int, b as int),
{
    let d: i128 = a as i128 - b as i128;
    if d > i64::MAX as i128 {
        i64::MAX
    } else if d < i64::MIN as i128 {
        i64::MIN
    } else {
        d as i64
    }
}

/// The sum `a + b` clamped into the i64 range.
pub open spec fn sat_add_spec(a: int, b: int) -> int {
    if a + b > i64::MAX as int {
        i64::MAX as int
    } else if a + b < i64::MIN as int {
        i64::MIN as int
    } else {
        a + b
    }
}

/// The sum `a + b` clamped into the i64 range.
pub fn sat_add(a: i64, b: i64) -> (r: i64)
    ensures
        r as int == sat_add_spec(a as int, b as int),
{
    let s: i128 = a as i128 + b as i128;
    if s > i64::MAX as i128 {
        i64::MAX
    } else if s < i64::MIN as i128 {
        i64::MIN
    } else {
        s as i64
    }
}

/// Scalar fitness: a plain number in minimization order.
impl Fitness for i64 {
    open spec fn cmp_spec(a: i64, b: i64) -> Ordering {
        if a < b {
            Ordering::Less
        } else if a == b {
            Ordering::Equal
        } else {
            Ordering::Greater
        }
    }

    open spec fn deterministic() -> bool {
        true
    }

    open spec fn totally_ordered() -> bool {
        true
    }

    proof fn cmp_flip(a: i64, b: i64) {
    }

    proof fn cmp_transitive(a: i64, b: i64, c: i64) {
    }

    fn opt_cmp(f1: &i64, f2: &i64) -> (r: Ordering) {
        if *f1 < *f2 {
            Ordering::Less
        } else if *f1 == *f2 {
            Ordering::Equal
        } else {
            Ordering::Greater
        }
    }

    fn diff(curr: &i64, prev: &i64) -> i64 {
        sat_sub(*curr, *prev)
    }

    fn duplicate(&self) -> (r: i64) {
        *self
    }
}

/// `a` strictly dominates `b`: no objective is worse and at least one is
/// strictly better, over the objectives the two share.
pub open spec fn dominates(a: Seq<i64>, b: Seq<i64>) -> bool {
    let n = if a.len() <= b.len() {
        a.len() as int
    } else {
        b.len() as int
    };
    &&& forall|i: int| 0 <= i < n ==> #[trigger] a[i] <= b[i]
    &&& exists|i: int| 0 <= i < n && #[trigger] a[i] < b[i]
}

/// Vector fitness under the Pareto-dominance comparison: `Greater` as soon
/// as some shared objective is worse, `Less` when none is worse and some is
/// strictly better, `Equal` otherwise. This order is partial, not total.
impl Fitness for Vec<i64> {
    open spec fn cmp_spec(a: Seq<i64>, b: Seq<i64>) -> Ordering {
        let n = if a.len() <= b.len() {
            a.len() as int
        } else {
            b.len() as int
        };
        if exists|i: int| 0 <= i < n && #[trigger] a[i] > b[i] {
            Ordering::Greater
        } else if exists|i: int| 0 <= i < n && #[trigger] a[i] < b[i] {
            Ordering::Less
        } else {
            Ordering::Equal
        }
    }

    open spec fn deterministic() -> bool {
        true
    }

    open spec fn totally_ordered() -> bool {
        false
    }

    proof fn cmp_flip(a: Seq<i64>, b: Seq<i64>) {
    }

    proof fn cmp_transitive(a: Seq<i64>, b: Seq<i64>, c: Seq<i64>) {
    }

    fn opt_cmp(f1: &Vec<i64>, f2: &Vec<i64>) -> (r: Ordering) {
        let n = if f1.len() <= f2.len() {
            f1.len()
        } else {
            f2.len()
        };
        let mut at_least_one_better = false;
        let mut i: usize = 0;
        while i < n
            invariant
                i <= n,
                n <= f1@.len(),
                n <= f2@.len(),
                n == if f1@.len() <= f2@.len() {
                    f1@.len() as int
                } else {
                    f2@.len() as int
                },
                forall|k: int| 0 <= k < i ==> #[trigger] f1@[k] <= f2@[k],
                at_least_one_better == exists|k: int| 0 <= k < i && #[trigger] f1@[k] < f2@[k],
            decreases n - i,
        {
            if f1[i] > f2[i] {
                return Ordering::Greater;
            } else if f1[i] < f2[i] {
                at_least_one_better = true;
            }
            i = i + 1;
        }
        if at_least_one_better {
            Ordering::Less
        } else {
            Ordering::Equal
        }
    }

    /// The improvement magnitude of one objective vector against another:
    /// the accumulated per-objective distance, clamped into range.
    fn diff(curr: &Vec<i64>, prev: &Vec<i64>) -> i64 {
        let n = if curr.len() <= prev.len() {
            curr.len()
        } else {
            prev.len()
        };
        let mut acc: i64 = 0;
        let mut i: usize = 0;
        while i < n
            invariant
                i <= n,
                n <= curr@.len(),
                n <= prev@.len(),
                0 <= acc,
            decreases n - i,
        {
            let d = sat_sub(curr[i], prev[i]);
            let m = if d == i64::MIN {
                i64::MAX
            } else if d < 0 {
                -d
            } else {
                d
            };
            acc = if acc <= sat_sub(i64::MAX, m) {
                acc + m
            } else {
                i64::MAX
            };
            i = i + 1;
        }
        acc
    }

    fn duplicate(&self) -> (r: Vec<i64>) {
        let mut v: Vec<i64> = Vec::new();
        let mut i: usize = 0;
        while i < self.len()
            invariant
                i <= self@.len(),
                v@ =~= self@.subrange(0, i as int),
            decreases self@.len() - i,
        {
            v.push(self[i]);
            i = i + 1;
        }
        proof {
            assert(v@ =~= self@);
        }
        v
    }
}

/// All candidates of a population are valid.
pub open spec fn pop_inv<T: OptData>(s: Seq<T>) -> bool {
    forall|i: int| 0 <= i < s.len() ==> (#[trigger] s[i]).inv()
}

/// Evaluates one candidate, or a whole population, to a raw fitness value.
pub trait GeneralFitnessFunc<T: OptData, F: Fitness>: Sized {
    fn eval_general(&self, data: &T, out: &mut F)
        requires
            data.inv(),
    ;

    fn eval_population(&mut self, population: &Vec<T>, fitness: &mut Vec<F>)
        requires
            pop_inv(population@),
        ensures
            final(fitness)@.len() == population@.len(),
    ;
}

/// A scalar (single-objective) fitness function, deterministic over the
/// candidate's view.
pub trait FitnessFunc<T: OptData> {
    spec fn eval_spec(&self, data: T::V) -> i64;

    fn eval(&self, data: &T) -> (r: i64)
        requires
            data.inv(),
        ensures
            r == self.eval_spec(data@),
    ;
}

/// A multi-objective fitness function: evaluates a candidate to a vector of
/// objectives, deterministic over the candidate's view.
pub trait MultiObjFitnessFunc<T: OptData> {
    spec fn eval_multi_spec(&self, data: T::V) -> Seq<i64>;

    fn eval_multi(&self, data: &T, out: &mut Vec<i64>)
        requires
            data.inv(),
        ensures
            final(out)@ == self.eval_multi_spec(data@),
    ;
}

/// Derives the optimization fitness sequence (used for ordering decisions)
/// from the raw fitness sequence (used for reporting).
pub trait FitnessTransformer<T: OptData, FIn: Fitness, FOut: Fitness>: Sized {
    fn transform(
        &mut self,
        population: &Vec<T>,
        fitness_in: &Vec<FIn>,
        fitness_out: &mut Vec<FOut>,
    )
        requires
            population@.len() == fitness_in@.len(),
            population@.len() >= 1,
            pop_inv(population@),
        ensures
            final(fitness_out)@.len() == fitness_in@.len(),
    ;
}

/// Constraint handling: feasibility and summed violation magnitude, with
/// the magnitude pinned by a specification over the candidate's view.
pub trait Constraints<T: OptData> {
    spec fn violations_sum_spec(&self, data: T::V) -> int;

    fn has_constrains() -> bool;

    fn is_feasible(&self, data: &T) -> (r: bool)
        requires
            data.inv(),
        ensures
            r == (self.violations_sum_spec(data@) <= 0),
    ;

    fn violations_sum(&self, data: &T) -> (r: i64)
        requires
            data.inv(),
        ensures
            r as int == self.violations_sum_spec(data@),
    ;
}

/// An in-place mutation operator, with a self-adaptation hook fed with the
/// improvement of the last iteration.
pub trait PerturbeMutOp<T: OptData>: Sized {
    fn eval(&self, data: &mut T)
        requires
            old(data).inv(),
        ensures
            final(data).inv(),
    ;

    fn update(&mut self, iter_diff: i64, dim: usize);

    fn duplicate(&self) -> Self;
}

/// Decides, from the iteration number and the last improvement, whether a
/// search loop stops. `max_iters` bounds how long it can keep a loop
/// running, so every search terminates.
pub trait TerminationCond<T: OptData> {
    spec fn should_stop(&self, iter: int, diff: int) -> bool;

    spec fn max_iters(&self) -> usize;

    proof fn stops(&self, iter: int, diff: int)
        requires
            iter >= self.max_iters(),
        ensures
            self.should_stop(iter, diff),
    ;

    fn eval(&self, iter: usize, diff: i64) -> (r: bool)
        ensures
            r == self.should_stop(iter as int, diff as int),
    ;
}

/// Produces one initial candidate.
pub trait InitFunc<T: OptData> {
    fn init(&self) -> (r: T)
        ensures
            r.inv(),
    ;
}

/// Produces a whole initial population of a configured size.
pub trait InitPopulation<T: OptData>: InitFunc<T> + Sized {
    spec fn popsize(&self) -> int;

    fn init_pop(&self) -> (r: Vec<T>)
        ensures
            r@.len() == self.popsize(),
            pop_inv(r@),
    ;

    fn duplicate(&self) -> (r: Self)
        ensures
            r.popsize() == self.popsize(),
    ;
}

/// Selects parent indices from the optimization-fitness sequence; duplicates
/// are allowed, every returned index lies inside the population.
pub trait Selection<T: OptData, F: Fitness> {
    fn select(&self, fitness: &Vec<F>, parents_indices: &mut Vec<usize>)
        requires
            fitness@.len() >= 1,
        ensures
            forall|i: int|
                0 <= i < final(parents_indices)@.len() ==> #[trigger] final(parents_indices)@[i]
                    < fitness@.len(),
    ;
}

/// Recombines pairs of parents into offspring candidates; every offspring is
/// a valid candidate.
pub trait Crossover<T: OptData> {
    fn crossover(&self, population: &Vec<T>, parents_indices: &Vec<usize>, offsprings: &mut Vec<T>)
        requires
            pop_inv(population@),
            forall|i: int|
                0 <= i < parents_indices@.len() ==> (#[trigger] parents_indices@[i])
                    < population@.len(),
        ensures
            pop_inv(final(offsprings)@),
            final(offsprings)@.len() <= parents_indices@.len(),
    ;
}

/// Row `k` of the first three parallel sequences is, viewwise, a row of the
/// last three parallel sequences at one common position.
pub open spec fn row_drawn_from<T: OptData, FIn: Fitness, FOpt: Fitness>(
    np: Seq<T>,
    ni: Seq<FIn>,
    no: Seq<FOpt>,
    op: Seq<T>,
    oi: Seq<FIn>,
    oo: Seq<FOpt>,
    k: int,
) -> bool {
    exists|t: int|
        #![trigger op[t]]
        {
            &&& 0 <= t < op.len()
            &&& np[k]@ == op[t]@
            &&& ni[k]@ == oi[t]@
            &&& no[k]@ == oo[t]@
        }
}

/// Trims the joined "old followed by offspring" sequences back to the
/// original population size (`offsprings_from`), keeping the three parallel
/// sequences aligned: every surviving row is a row of the joined input.
///
/// `pre` is the strategy's own additional precondition on the joined length
/// (random and generational replacement need as many offspring as parents);
/// `pre_check` is its executable twin.
pub trait ReplacementStrategy<T: OptData, FIn: Fitness, FOpt: Fitness> {
    spec fn pre(&self, joined_len: int, offsprings_from: int) -> bool;

    fn pre_check(&self, joined_len: usize, offsprings_from: usize) -> (r: bool)
        ensures
            r == self.pre(joined_len as int, offsprings_from as int),
    ;

    fn replace(
        &self,
        population: &mut Vec<T>,
        fitness_in: &mut Vec<FIn>,
        fitness_opt: &mut Vec<FOpt>,
        offsprings_from: usize,
    )
        requires
            1 <= offsprings_from <= old(population)@.len(),
            old(population)@.len() == old(fitness_in)@.len(),
            old(population)@.len() == old(fitness_opt)@.len(),
            pop_inv(old(population)@),
            self.pre(old(population)@.len() as int, offsprings_from as int),
        ensures
            final(population)@.len() == offsprings_from as int,
            final(fitness_in)@.len() == offsprings_from as int,
            final(fitness_opt)@.len() == offsprings_from as int,
            pop_inv(final(population)@),
            forall|k: int|
                0 <= k < offsprings_from ==> #[trigger] row_drawn_from(
                    final(population)@,
                    final(fitness_in)@,
                    final(fitness_opt)@,
                    old(population)@,
                    old(fitness_in)@,
                    old(fitness_opt)@,
                    k,
                ),
    ;
}

/// A best-solution snapshot extracted from a population.
pub trait Solution<T: OptData, FIn: Fitness, FOpt: Fitness>: Sized {
    fn from_population(population: &Vec<T>, fitness_in: &Vec<FIn>, fitness_opt: &Vec<FOpt>) -> (r:
        Self)
        requires
            population@.len() == fitness_in@.len(),
            population@.len() == fitness_opt@.len(),
            population@.len() >= 1,
            pop_inv(population@),
    ;

    fn diff(&self, other: &Self) -> i64;

    fn is_better(&self, other: &Self) -> bool;

    fn duplicate(&self) -> Self;
}

/// An append-only record of per-iteration summaries, grown exactly once per
/// iteration.
pub trait Statistics<T: OptData, FIn: Fitness, FOpt: Fitness>: Sized {
    spec fn records(&self) -> int;

    fn new() -> (r: Self)
        ensures
            r.records() == 0,
    ;

    fn report_iter(
        &mut self,
        iter: usize,
        population: &Vec<T>,
        fitness_in: &Vec<FIn>,
        fitness_opt: &Vec<FOpt>,
    )
        requires
            population@.len() == fitness_in@.len(),
            population@.len() == fitness_opt@.len(),
            population@.len() >= 1,
            pop_inv(population@),
        ensures
            final(self).records() == old(self).records() + 1,
    ;
}

} // verus!
