use vstd::prelude::*;

use std::cmp::Ordering;

use crate::opt_traits::{as_good_as, sat_sub, Fitness, OptData, Solution, Statistics};
use crate::sorting::lemma_equal_sym;

verus! {

/// Bound on the length of a naive bit vector, so that every objective
/// computed from one (ones count, autocorrelation energy) fits its integer
/// type without overflow.
pub const NAIVE_BIT_LEN_LIMIT: usize = 1024;

/// Copies a vector of plain values element by element.
pub(crate) fn clone_vec_copy<A: Copy>(v: &Vec<A>) -> (r: Vec<A>)
    ensures
        r@ == v@,
{
    let mut out: Vec<A> = Vec::new();
    let mut i: usize = 0;
    while i < v.len()
        invariant
            i <= v@.len(),
            out@ =~= v@.subrange(0, i as int),
        decreases v@.len() - i,
    {
        out.push(v[i]);
        i = i + 1;
    }
    proof {
        assert(out@ =~= v@);
    }
    out
}

/// Every entry of a bit sequence is 0 or 1, and the sequence is short
/// enough for its objectives to stay in range.
pub open spec fn bits_wf(s: Seq<u8>) -> bool {
    &&& s.len() <= NAIVE_BIT_LEN_LIMIT
    &&& forall|i: int| 0 <= i < s.len() ==> (#[trigger] s[i]) <= 1
}

/// A candidate kept as one byte per bit.
#[derive(Debug)]
pub struct NaiveBitVec {
    pub bits: Vec<u8>,
}

impl View for NaiveBitVec {
    type V = Seq<u8>;

    open spec fn view(&self) -> Seq<u8> {
        self.bits@
    }
}

impl Clone for NaiveBitVec {
    fn clone(&self) -> (r: Self) {
        NaiveBitVec { bits: clone_vec_copy(&self.bits) }
    }
}

impl OptData for NaiveBitVec {
    open spec fn inv(&self) -> bool {
        bits_wf(self.bits@)
    }

    fn dim(&self) -> usize {
        self.bits.len()
    }

    fn duplicate(&self) -> (r: Self) {
        NaiveBitVec { bits: clone_vec_copy(&self.bits) }
    }
}

/// A representation that is a plain vector of elements, with its validity
/// a property of the element sequence alone. Generic crossover works on any
/// such representation.
pub trait VecOptData<E>: OptData {
    /// Validity of an element sequence.
    spec fn elems_inv(s: Seq<E>) -> bool;

    /// The element sequence of this value.
    spec fn velems(&self) -> Seq<E>;

    proof fn inv_is_elems_inv(&self)
        ensures
            self.inv() <==> Self::elems_inv(self.velems()),
    ;

    fn vec_new() -> (r: Self)
        ensures
            r.velems() =~= Seq::<E>::empty(),
    ;

    fn get(&self) -> (r: &Vec<E>)
        ensures
            r@ == self.velems(),
    ;

    fn from_elems(elems: Vec<E>) -> (r: Self)
        ensures
            r.velems() == elems@,
    ;
}

impl VecOptData<u8> for NaiveBitVec {
    open spec fn elems_inv(s: Seq<u8>) -> bool {
        bits_wf(s)
    }

    open spec fn velems(&self) -> Seq<u8> {
        self.bits@
    }

    proof fn inv_is_elems_inv(&self) {
    }

    fn vec_new() -> (r: Self) {
        NaiveBitVec { bits: Vec::new() }
    }

    fn get(&self) -> (r: &Vec<u8>) {
        &self.bits
    }

    fn from_elems(elems: Vec<u8>) -> (r: Self) {
        NaiveBitVec { bits: elems }
    }
}

/// Constraint handling given as a vector of violation magnitudes: the
/// summed form and feasibility follow from it.
pub trait ConstraintsSumed<T: OptData> {
    /// The violation magnitudes, as a function of the candidate's view.
    spec fn violations_spec(&self, data: T::V) -> Seq<i64>;

    fn violations(&self, data: &T) -> (r: Vec<i64>)
        requires
            data.inv(),
        ensures
            r@ == self.violations_spec(data@),
    ;
}

/// The index of the best entry of a non-empty fitness sequence: the first
/// entry that no later entry strictly improves on. For a deterministic
/// total pre-order it is at least as good as every entry, and every
/// earlier entry is strictly worse, so it is the smallest index attaining
/// the minimum.
pub fn find_best_fitness<F: Fitness>(fitness: &Vec<F>) -> (r: usize)
    requires
        fitness@.len() >= 1,
    ensures
        r < fitness@.len(),
        F::deterministic() && F::totally_ordered() ==> forall|i: int|
            0 <= i < fitness@.len() ==> as_good_as::<F>(fitness@[r as int]@, (#[trigger] fitness@[i])@),
        F::deterministic() && F::totally_ordered() ==> forall|i: int|
            0 <= i < r ==> F::cmp_spec(fitness@[r as int]@, (#[trigger] fitness@[i])@)
                == Ordering::Less,
{
    let mut best_index: usize = 0;
    let mut i: usize = 1;
    proof {
        if F::deterministic() && F::totally_ordered() {
            F::cmp_flip(fitness@[0]@, fitness@[0]@);
        }
    }
    while i < fitness.len()
        invariant
            1 <= i <= fitness@.len(),
            best_index < i,
            F::deterministic() && F::totally_ordered() ==> forall|k: int|
                0 <= k < i ==> as_good_as::<F>(
                    fitness@[best_index as int]@,
                    (#[trigger] fitness@[k])@,
                ),
            F::deterministic() && F::totally_ordered() ==> forall|k: int|
                0 <= k < best_index ==> F::cmp_spec(
                    fitness@[best_index as int]@,
                    (#[trigger] fitness@[k])@,
                ) == Ordering::Less,
        decreases fitness@.len() - i,
    {
        let c = F::opt_cmp(&fitness[i], &fitness[best_index]);
        proof {
            if F::deterministic() && F::totally_ordered() {
                let fi = fitness@[i as int]@;
                let fb = fitness@[best_index as int]@;
                if F::cmp_spec(fi, fb) == Ordering::Less {
                    assert forall|k: int| 0 <= k < i + 1 implies as_good_as::<F>(
                        fi,
                        (#[trigger] fitness@[k])@,
                    ) by {
                        if k < i {
                            F::cmp_transitive(fi, fb, fitness@[k]@);
                        } else {
                            F::cmp_flip(fi, fi);
                        }
                    }
                    assert forall|k: int| 0 <= k < i implies F::cmp_spec(
                        fi,
                        (#[trigger] fitness@[k])@,
                    ) == Ordering::Less by {
                        let fk = fitness@[k]@;
                        F::cmp_transitive(fi, fb, fk);
                        if F::cmp_spec(fi, fk) == Ordering::Equal {
                            lemma_equal_sym::<F>(fi, fk);
                            F::cmp_transitive(fb, fk, fi);
                            F::cmp_flip(fi, fb);
                        }
                    }
                } else {
                    if F::cmp_spec(fi, fb) == Ordering::Greater {
                        F::cmp_flip(fb, fi);
                    } else {
                        lemma_equal_sym::<F>(fi, fb);
                    }
                }
            }
        }
        if matches!(c, Ordering::Less) {
            best_index = i;
        }
        i = i + 1;
    }
    best_index
}

/// A placeholder snapshot for runs whose caller keeps no solution.
#[derive(Clone)]
pub struct EmptySolution {}

impl<T: OptData, FIn: Fitness, FOpt: Fitness> Solution<T, FIn, FOpt> for EmptySolution {
    fn from_population(_population: &Vec<T>, _fitness_in: &Vec<FIn>, _fitness_opt: &Vec<FOpt>) -> (
        r: Self) {
        EmptySolution {  }
    }

    fn diff(&self, _other: &Self) -> i64 {
        i64::MAX
    }

    fn is_better(&self, _other: &Self) -> bool {
        true
    }

    fn duplicate(&self) -> Self {
        EmptySolution {  }
    }
}

/// A placeholder record for runs whose caller keeps no statistics; it only
/// counts the iterations it was shown.
#[derive(Clone)]
pub struct EmptyStatistics {
    pub count: Ghost<int>,
}

impl<T: OptData, FIn: Fitness, FOpt: Fitness> Statistics<T, FIn, FOpt> for EmptyStatistics {
    open spec fn records(&self) -> int {
        self.count@
    }

    fn new() -> (r: Self) {
        EmptyStatistics { count: Ghost(0) }
    }

    fn report_iter(
        &mut self,
        _iter: usize,
        _population: &Vec<T>,
        _fitness_in: &Vec<FIn>,
        _fitness_opt: &Vec<FOpt>,
    ) {
        self.count = Ghost(self.count@ + 1);
    }
}

/// The best candidate of a population, with its scalar fitness.
pub struct BSFSingleObjSolution<T: OptData> {
    pub value: T,
    pub fitness: i64,
}

impl<T: OptData> Solution<T, i64, i64> for BSFSingleObjSolution<T> {
    fn from_population(population: &Vec<T>, _fitness_in: &Vec<i64>, fitness_opt: &Vec<i64>) -> (r:
        Self) {
        let best_index = find_best_fitness(fitness_opt);
        BSFSingleObjSolution {
            value: population[best_index].duplicate(),
            fitness: fitness_opt[best_index],
        }
    }

    fn diff(&self, other: &Self) -> i64 {
        sat_sub(self.fitness, other.fitness)
    }

    fn is_better(&self, other: &Self) -> bool {
        self.fitness < other.fitness
    }

    fn duplicate(&self) -> Self {
        BSFSingleObjSolution { value: self.value.duplicate(), fitness: self.fitness }
    }
}

/// The least entry of a scalar fitness sequence; the neutral element of an
/// empty sequence is the largest representable value.
pub open spec fn min_fitness(s: Seq<i64>) -> int
    decreases s.len(),
{
    if s.len() == 0 {
        i64::MAX as int
    } else {
        let m = min_fitness(s.drop_last());
        if s.last() < m {
            s.last() as int
        } else {
            m
        }
    }
}

proof fn lemma_min_fitness_le_all(s: Seq<i64>, i: int)
    requires
        0 <= i < s.len(),
    ensures
        min_fitness(s) <= s[i],
    decreases s.len(),
{
    if i < s.len() - 1 {
        lemma_min_fitness_le_all(s.drop_last(), i);
    }
}

proof fn lemma_min_fitness_is_member(s: Seq<i64>)
    requires
        s.len() >= 1,
    ensures
        exists|i: int| 0 <= i < s.len() && (#[trigger] s[i]) == min_fitness(s),
    decreases s.len(),
{
    if s.len() == 1 {
        assert(min_fitness(s.drop_last()) == i64::MAX as int);
        assert(s[0] == min_fitness(s));
    } else if s.last() < min_fitness(s.drop_last()) {
        assert(s[s.len() - 1] == min_fitness(s));
    } else {
        lemma_min_fitness_is_member(s.drop_last());
        let i = choose|i: int|
            0 <= i < s.drop_last().len() && (#[trigger] s.drop_last()[i]) == min_fitness(
                s.drop_last(),
            );
        assert(s[i] == min_fitness(s));
    }
}

/// One scalar fitness entry per iteration, clamped to the best value seen
/// so far, so the recorded sequence never increases.
pub struct BSFSingleObjStatistics {
    pub fitness: Vec<i64>,
}

impl BSFSingleObjStatistics {
    /// Appends one entry: the best fitness of this generation, clamped to
    /// the best value ever recorded.
    pub fn record_best(&mut self, fitness_opt: &Vec<i64>)
        requires
            fitness_opt@.len() >= 1,
        ensures
            final(self).fitness@ == old(self).fitness@.push(
                ({
                    let gen_best = min_fitness(fitness_opt@);
                    let prev = old(self).fitness@;
                    if prev.len() > 0 && prev.last() < gen_best {
                        prev.last() as i64
                    } else {
                        gen_best as i64
                    }
                }),
            ),
    {
        let best_index = find_best_fitness(fitness_opt);
        let mut curr_fitness = fitness_opt[best_index];
        proof {
            assert forall|i: int| 0 <= i < fitness_opt@.len() implies fitness_opt@[
                best_index as int
            ] <= fitness_opt@[i] by {
                assert(as_good_as::<i64>(fitness_opt@[best_index as int], fitness_opt@[i]));
            }
            lemma_min_fitness_is_member(fitness_opt@);
            let w = choose|i: int|
                0 <= i < fitness_opt@.len() && (#[trigger] fitness_opt@[i]) == min_fitness(
                    fitness_opt@,
                );
            lemma_min_fitness_le_all(fitness_opt@, best_index as int);
            assert(fitness_opt@[best_index as int] == min_fitness(fitness_opt@));
        }
        if self.fitness.len() > 0 {
            let last = self.fitness[self.fitness.len() - 1];
            if last < curr_fitness {
                curr_fitness = last;
            }
        }
        self.fitness.push(curr_fitness);
    }
}

/// A recorded fitness series never increases: later entries are at least
/// as good (minimization).
pub open spec fn non_increasing(s: Seq<i64>) -> bool {
    forall|i: int, j: int| 0 <= i <= j < s.len() ==> #[trigger] s[i] >= #[trigger] s[j]
}

impl<T: OptData> Statistics<T, i64, i64> for BSFSingleObjStatistics {
    open spec fn records(&self) -> int {
        self.fitness@.len() as int
    }

    fn new() -> (r: Self) {
        BSFSingleObjStatistics { fitness: Vec::new() }
    }

    fn report_iter(
        &mut self,
        _iter: usize,
        _population: &Vec<T>,
        _fitness_in: &Vec<i64>,
        fitness_opt: &Vec<i64>,
    )
        ensures
            final(self).fitness@ == old(self).fitness@.push(
                ({
                    let gen_best = min_fitness(fitness_opt@);
                    let prev = old(self).fitness@;
                    if prev.len() > 0 && prev.last() < gen_best {
                        prev.last() as i64
                    } else {
                        gen_best as i64
                    }
                }),
            ),
    {
        self.record_best(fitness_opt);
    }
}

/// One scalar fitness entry per iteration: the best of that iteration's
/// population, with no clamping.
pub struct IterSingleObjStatistics {
    pub fitness: Vec<i64>,
}

impl<T: OptData> Statistics<T, i64, i64> for IterSingleObjStatistics {
    open spec fn records(&self) -> int {
        self.fitness@.len() as int
    }

    fn new() -> (r: Self) {
        IterSingleObjStatistics { fitness: Vec::new() }
    }

    fn report_iter(
        &mut self,
        _iter: usize,
        _population: &Vec<T>,
        _fitness_in: &Vec<i64>,
        fitness_opt: &Vec<i64>,
    ) {
        let best_index = find_best_fitness(fitness_opt);
        let v = fitness_opt[best_index];
        self.fitness.push(v);
    }
}

} // verus!
