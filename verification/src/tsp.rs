use vstd::prelude::*;

use crate::crossover::{crossover_vec_data, pair_crossed, CrossoverFun};
use crate::opt_data::{clone_vec_copy, VecOptData};
use crate::opt_traits::{
    pop_inv, Crossover, FitnessFunc, InitFunc, InitPopulation, OptData, PerturbeMutOp,
};
use crate::permutation::{
    cycle_crossover_keyed, elements_from, has_key, key_perm, lemma_elements_from_refl,
    lemma_elements_from_swap, move_element, order_crossover_keyed, reverse_range, swap_elements,
    PermKey,
};
use crate::rng::rand_below;

verus! {

/// Bound on the number of vertices of a tour, so that a tour length summed
/// from bounded distances fits a 64-bit integer.
pub const MAX_TOUR_VERTS: usize = 0xFFFF;

/// Bound on a single stored distance.
pub const MAX_DIST: u64 = 0xFFFF_FFFF;

/// A tour: the visiting order of the vertices, as a permutation of
/// `0 .. n`.
#[derive(Debug)]
pub struct TspPermutation {
    pub vert_perm: Vec<usize>,
}

/// A valid tour visits every vertex exactly once and is short enough for
/// its length to stay in range.
pub open spec fn tour_wf(s: Seq<usize>) -> bool {
    &&& key_perm::<usize>(s)
    &&& s.len() <= MAX_TOUR_VERTS
}

impl View for TspPermutation {
    type V = Seq<usize>;

    open spec fn view(&self) -> Seq<usize> {
        self.vert_perm@
    }
}

impl Clone for TspPermutation {
    fn clone(&self) -> (r: Self) {
        TspPermutation { vert_perm: clone_vec_copy(&self.vert_perm) }
    }
}

impl OptData for TspPermutation {
    open spec fn inv(&self) -> bool {
        tour_wf(self.vert_perm@)
    }

    fn dim(&self) -> usize {
        self.vert_perm.len()
    }

    fn duplicate(&self) -> (r: Self) {
        TspPermutation { vert_perm: clone_vec_copy(&self.vert_perm) }
    }
}

impl VecOptData<usize> for TspPermutation {
    open spec fn elems_inv(s: Seq<usize>) -> bool {
        tour_wf(s)
    }

    open spec fn velems(&self) -> Seq<usize> {
        self.vert_perm@
    }

    proof fn inv_is_elems_inv(&self) {
    }

    fn vec_new() -> (r: Self) {
        TspPermutation { vert_perm: Vec::new() }
    }

    fn get(&self) -> (r: &Vec<usize>) {
        &self.vert_perm
    }

    fn from_elems(elems: Vec<usize>) -> (r: Self) {
        TspPermutation { vert_perm: elems }
    }
}

/// The number of entries a half-matrix over `n` vertices stores: the strict
/// lower triangle together with the diagonal.
pub open spec fn half_matrix_size(n: int) -> int {
    n + n * (n - 1) / 2
}

/// The storage offset of the unordered vertex pair `{v1 % n, v2 % n}`.
pub open spec fn pair_offset(n: int, v1: int, v2: int) -> int {
    let a = v1 % n;
    let b = v2 % n;
    if a <= b {
        a + half_matrix_size(b)
    } else {
        b + half_matrix_size(a)
    }
}

pub proof fn lemma_pair_offset_in_range(n: int, v1: int, v2: int)
    requires
        1 <= n,
    ensures
        0 <= pair_offset(n, v1, v2) < half_matrix_size(n),
{
    assert(0 <= v1 % n < n && 0 <= v2 % n < n) by (nonlinear_arith)
        requires
            1 <= n,
    ;
    let a = v1 % n;
    let b = v2 % n;
    let lo = if a <= b {
        a
    } else {
        b
    };
    let hi = if a <= b {
        b
    } else {
        a
    };
    assert(0 <= lo + (hi + hi * (hi - 1) / 2) && lo + (hi + hi * (hi - 1) / 2) < n + n * (n - 1)
        / 2) by (nonlinear_arith)
        requires
            0 <= lo <= hi,
            hi < n,
    ;
}

/// A symmetric pairwise distance table stored without redundancy as a
/// lower-triangular half-matrix, indexed by an order-independent pair
/// mapping.
#[derive(Debug)]
pub struct DistanceHalfMatrix {
    vert_count: usize,
    distances: Vec<u64>,
}

impl Clone for DistanceHalfMatrix {
    fn clone(&self) -> (r: Self)
        ensures
            r.wf() == self.wf(),
            r.vert_count_spec() == self.vert_count_spec(),
            forall|a: int, b: int| #[trigger] r.dist_spec(a, b) == self.dist_spec(a, b),
    {
        DistanceHalfMatrix {
            vert_count: self.vert_count,
            distances: clone_vec_copy(&self.distances),
        }
    }
}

impl DistanceHalfMatrix {
    /// The table stores exactly the triangular number of entries for its
    /// vertex count, each within the distance bound.
    pub closed spec fn wf(&self) -> bool {
        &&& 1 <= self.vert_count <= MAX_TOUR_VERTS
        &&& self.distances@.len() == half_matrix_size(self.vert_count as int)
        &&& forall|i: int|
            0 <= i < self.distances@.len() ==> (#[trigger] self.distances@[i]) <= MAX_DIST
    }

    pub closed spec fn vert_count_spec(&self) -> int {
        self.vert_count as int
    }

    /// The stored distance of an unordered vertex pair.
    pub closed spec fn dist_spec(&self, v1: int, v2: int) -> u64 {
        self.distances@[pair_offset(self.vert_count as int, v1, v2)]
    }

    /// The distance mapping does not depend on the order of the pair.
    pub proof fn lemma_dist_symmetric(&self, v1: int, v2: int)
        ensures
            self.dist_spec(v1, v2) == self.dist_spec(v2, v1),
    {
    }

    /// An all-zero table over the given number of vertices.
    pub fn new(vert_count: usize) -> (r: Self)
        requires
            1 <= vert_count <= MAX_TOUR_VERTS,
        ensures
            r.wf(),
            r.vert_count_spec() == vert_count as int,
            forall|a: int, b: int| #[trigger] r.dist_spec(a, b) == 0,
    {
        proof {
            assert(vert_count * (vert_count - 1) <= MAX_TOUR_VERTS * (MAX_TOUR_VERTS - 1))
                by (nonlinear_arith)
                requires
                    1 <= vert_count <= MAX_TOUR_VERTS,
            ;
        }
        let size = vert_count + vert_count * (vert_count - 1) / 2;
        let mut distances: Vec<u64> = Vec::new();
        let mut i: usize = 0;
        while i < size
            invariant
                i <= size,
                distances@.len() == i,
                forall|k: int| 0 <= k < i ==> (#[trigger] distances@[k]) == 0,
            decreases size - i,
        {
            distances.push(0);
            i = i + 1;
        }
        let r = DistanceHalfMatrix { vert_count, distances };
        proof {
            assert forall|a: int, b: int| #[trigger] r.dist_spec(a, b) == 0 by {
                lemma_pair_offset_in_range(vert_count as int, a, b);
            }
        }
        r
    }

    /// Wraps an existing half-matrix; the data must have exactly the
    /// triangular size and stay within the distance bound.
    pub fn from(vert_count: usize, distances: Vec<u64>) -> (r: Self)
        requires
            1 <= vert_count <= MAX_TOUR_VERTS,
            distances@.len() == half_matrix_size(vert_count as int),
            forall|i: int| 0 <= i < distances@.len() ==> (#[trigger] distances@[i]) <= MAX_DIST,
        ensures
            r.wf(),
            r.vert_count_spec() == vert_count as int,
            forall|a: int, b: int| #[trigger] r.dist_spec(a, b) == distances@[pair_offset(
                vert_count as int,
                a,
                b,
            )],
    {
        DistanceHalfMatrix { vert_count, distances }
    }

    /// The number of vertices the table covers.
    pub fn vert_count(&self) -> (r: usize)
        ensures
            r as int == self.vert_count_spec(),
            self.wf() ==> 1 <= r <= MAX_TOUR_VERTS,
    {
        self.vert_count
    }

    /// The storage offset of an unordered vertex pair.
    pub fn get_index(&self, v1: usize, v2: usize) -> (r: usize)
        requires
            self.wf(),
        ensures
            r as int == pair_offset(self.vert_count_spec(), v1 as int, v2 as int),
            r < half_matrix_size(self.vert_count_spec()),
    {
        let a = v1 % self.vert_count;
        let b = v2 % self.vert_count;
        let (lo, hi) = if a <= b {
            (a, b)
        } else {
            (b, a)
        };
        proof {
            lemma_pair_offset_in_range(self.vert_count as int, v1 as int, v2 as int);
            assert(hi * hi <= MAX_TOUR_VERTS * MAX_TOUR_VERTS && hi <= hi * hi && (hi * hi - hi)
                == hi * (hi - 1)) by (nonlinear_arith)
                requires
                    0 <= hi <= MAX_TOUR_VERTS,
            ;
        }
        lo + (hi + (hi * hi - hi) / 2)
    }

    /// The distance of an unordered vertex pair.
    pub fn get(&self, v1: usize, v2: usize) -> (r: u64)
        requires
            self.wf(),
        ensures
            r == self.dist_spec(v1 as int, v2 as int),
            r <= MAX_DIST,
    {
        let index = self.get_index(v1, v2);
        self.distances[index]
    }

    /// Stores the distance of an unordered vertex pair.
    pub fn set(&mut self, v1: usize, v2: usize, dist: u64)
        requires
            old(self).wf(),
            dist <= MAX_DIST,
        ensures
            final(self).wf(),
            final(self).vert_count_spec() == old(self).vert_count_spec(),
            final(self).dist_spec(v1 as int, v2 as int) == dist,
            forall|a: int, b: int|
                pair_offset(old(self).vert_count_spec(), a, b) != pair_offset(
                    old(self).vert_count_spec(),
                    v1 as int,
                    v2 as int,
                ) ==> #[trigger] final(self).dist_spec(a, b) == old(self).dist_spec(a, b),
    {
        let ghost n0 = old(self).vert_count_spec();
        let index = self.get_index(v1, v2);
        self.distances[index] = dist;
        proof {
            assert forall|a: int, b: int|
                pair_offset(n0, a, b) != pair_offset(n0, v1 as int, v2 as int) implies #[trigger] self.dist_spec(
                a,
                b,
            ) == old(self).dist_spec(a, b) by {
                lemma_pair_offset_in_range(n0, a, b);
            }
        }
    }
}

/// The length of the closed tour `s` under the distance table: the first
/// `m` hops, where hop `i` connects `s[i]` to its cyclic successor.
pub open spec fn tour_len_partial(dm: DistanceHalfMatrix, s: Seq<usize>, m: int) -> int
    decreases m,
{
    if m <= 0 {
        0
    } else {
        tour_len_partial(dm, s, m - 1) + dm.dist_spec(
            s[if m == s.len() {
                0int
            } else {
                m
            }] as int,
            s[m - 1] as int,
        )
    }
}

/// Evaluates a tour to its total length.
pub struct TspFitness {
    distances: DistanceHalfMatrix,
}

impl TspFitness {
    #[verifier::type_invariant]
    spec fn type_inv(&self) -> bool {
        self.distances.wf()
    }

    pub fn new(distances: DistanceHalfMatrix) -> (r: Self)
        requires
            distances.wf(),
        ensures
            r.dist_table() == distances,
    {
        TspFitness { distances }
    }

    pub closed spec fn dist_table(&self) -> DistanceHalfMatrix {
        self.distances
    }
}

impl FitnessFunc<TspPermutation> for TspFitness {
    open spec fn eval_spec(&self, data: Seq<usize>) -> i64 {
        tour_len_partial(self.dist_table(), data, data.len() as int) as i64
    }

    fn eval(&self, data: &TspPermutation) -> (r: i64) {
        proof {
            use_type_invariant(self);
        }
        let n = data.vert_perm.len();
        let mut total: u64 = 0;
        let mut i: usize = 0;
        while i < n
            invariant
                self.distances.wf(),
                n == data.vert_perm@.len(),
                n <= MAX_TOUR_VERTS,
                i <= n,
                total == tour_len_partial(self.distances, data.vert_perm@, i as int),
                total <= i * (MAX_DIST as int),
            decreases n - i,
        {
            let next = if i + 1 == n {
                0
            } else {
                i + 1
            };
            let d = self.distances.get(data.vert_perm[next], data.vert_perm[i]);
            proof {
                assert((i + 1) * (MAX_DIST as int) <= MAX_TOUR_VERTS * (MAX_DIST as int))
                    by (nonlinear_arith)
                    requires
                        0 <= i,
                        i + 1 <= MAX_TOUR_VERTS,
                ;
            }
            total = total + d;
            i = i + 1;
        }
        proof {
            assert(n * (MAX_DIST as int) <= MAX_TOUR_VERTS * (MAX_DIST as int))
                by (nonlinear_arith)
                requires
                    0 <= n <= MAX_TOUR_VERTS,
            ;
        }
        total as i64
    }
}

/// Builds random initial tours over a fixed vertex count.
pub struct InitTspPopulation {
    size: usize,
    vert_count: usize,
}

impl InitTspPopulation {
    #[verifier::type_invariant]
    spec fn type_inv(&self) -> bool {
        1 <= self.size && 1 <= self.vert_count <= MAX_TOUR_VERTS
    }

    /// The number of vertices every generated tour visits.
    pub closed spec fn vert_count_spec(&self) -> int {
        self.vert_count as int
    }

    pub fn new(size: usize, vert_count: usize) -> (r: Self)
        requires
            1 <= size,
            1 <= vert_count <= MAX_TOUR_VERTS,
        ensures
            r.popsize() == size as int,
            r.vert_count_spec() == vert_count as int,
    {
        InitTspPopulation { size, vert_count }
    }

    fn gen_vert_perm(&self) -> (r: TspPermutation)
        ensures
            r.inv(),
            r@.len() == self.vert_count_spec(),
    {
        proof {
            use_type_invariant(self);
        }
        let n = self.vert_count;
        let mut perm: Vec<usize> = Vec::new();
        let mut i: usize = 0;
        while i < n
            invariant
                i <= n,
                perm@.len() == i,
                forall|k: int| 0 <= k < i ==> (#[trigger] perm@[k]) == k as usize,
            decreases n - i,
        {
            perm.push(i);
            i = i + 1;
        }
        proof {
            assert forall|v: int| 0 <= v < perm@.len() implies #[trigger] has_key(perm@, v) by {
                assert(perm@[v].key_spec() == v);
            }
            assert(key_perm(perm@));
        }
        let mut k: usize = 0;
        while k < n
            invariant
                n == perm@.len(),
                n >= 1,
                k <= n,
                key_perm(perm@),
            decreases n - k,
        {
            let j = rand_below(n);
            swap_elements(&mut perm, k, j);
            k = k + 1;
        }
        TspPermutation { vert_perm: perm }
    }
}

impl InitFunc<TspPermutation> for InitTspPopulation {
    fn init(&self) -> (r: TspPermutation)
        ensures
            r@.len() == self.vert_count_spec(),
    {
        self.gen_vert_perm()
    }
}

impl InitPopulation<TspPermutation> for InitTspPopulation {
    closed spec fn popsize(&self) -> int {
        self.size as int
    }

    fn init_pop(&self) -> (r: Vec<TspPermutation>)
        ensures
            forall|k: int|
                0 <= k < r@.len() ==> (#[trigger] r@[k])@.len() == self.vert_count_spec(),
    {
        proof {
            use_type_invariant(self);
        }
        let mut out: Vec<TspPermutation> = Vec::new();
        let mut i: usize = 0;
        while i < self.size
            invariant
                i <= self.size,
                out@.len() == i,
                pop_inv(out@),
                forall|k: int|
                    0 <= k < out@.len() ==> (#[trigger] out@[k])@.len() == self.vert_count_spec(),
            decreases self.size - i,
        {
            out.push(self.gen_vert_perm());
            i = i + 1;
        }
        out
    }

    fn duplicate(&self) -> (r: Self)
        ensures
            r.vert_count_spec() == self.vert_count_spec(),
    {
        proof {
            use_type_invariant(self);
        }
        InitTspPopulation { size: self.size, vert_count: self.vert_count }
    }
}

/// Relocates a random element to a random position, shifting the elements
/// in between.
pub fn tsp_move_perturbation<V: PermKey>(perm: &mut Vec<V>)
    requires
        old(perm)@.len() <= usize::MAX / 2,
    ensures
        final(perm)@.len() == old(perm)@.len(),
        key_perm(old(perm)@) ==> key_perm(final(perm)@),
        elements_from(final(perm)@, old(perm)@),
{
    if perm.len() == 0 {
        proof {
            lemma_elements_from_refl(perm@);
        }
        return ;
    }
    let move_from = rand_below(perm.len());
    let move_to = rand_below(perm.len());
    move_element(perm, move_from, move_to);
}

/// Exchanges two random positions: the result is the old sequence with
/// exactly one (possibly trivial) transposition applied.
pub fn tsp_swap_perturbation<V: PermKey>(perm: &mut Vec<V>)
    ensures
        final(perm)@.len() == old(perm)@.len(),
        key_perm(old(perm)@) ==> key_perm(final(perm)@),
        elements_from(final(perm)@, old(perm)@),
        old(perm)@.len() > 0 ==> exists|a: int, b: int|
            #![trigger old(perm)@[a], old(perm)@[b]]
            0 <= a < old(perm)@.len() && 0 <= b < old(perm)@.len() && final(perm)@ == old(
                perm,
            )@.update(a, old(perm)@[b]).update(b, old(perm)@[a]),
{
    if perm.len() == 0 {
        proof {
            lemma_elements_from_refl(perm@);
        }
        return ;
    }
    let pos1 = rand_below(perm.len());
    let pos2 = rand_below(perm.len());
    let ghost pre = perm@;
    swap_elements(perm, pos1, pos2);
    proof {
        lemma_elements_from_refl(pre);
        lemma_elements_from_swap(pre, perm@, pre, pos1 as int, pos2 as int);
        assert(0 <= (pos1 as int) < pre.len() && 0 <= (pos2 as int) < pre.len() && perm@
            == pre.update(pos1 as int, pre[pos2 as int]).update(pos2 as int, pre[pos1 as int]));
    }
}

/// Reverses a random circular sub-range.
pub fn tsp_reverse_perturbation<V: PermKey>(perm: &mut Vec<V>)
    requires
        old(perm)@.len() <= usize::MAX / 2,
    ensures
        final(perm)@.len() == old(perm)@.len(),
        key_perm(old(perm)@) ==> key_perm(final(perm)@),
        elements_from(final(perm)@, old(perm)@),
{
    if perm.len() == 0 {
        proof {
            lemma_elements_from_refl(perm@);
        }
        return ;
    }
    let from = rand_below(perm.len());
    let to = rand_below(perm.len());
    reverse_range(perm, from, to);
}

/// The move step as a tour mutation operator.
#[derive(Clone)]
pub struct TspMovePerturbation {}

impl PerturbeMutOp<TspPermutation> for TspMovePerturbation {
    fn eval(&self, data: &mut TspPermutation) {
        tsp_move_perturbation(&mut data.vert_perm);
    }

    fn update(&mut self, _iter_diff: i64, _dim: usize) {
    }

    fn duplicate(&self) -> Self {
        TspMovePerturbation {  }
    }
}

/// The swap step as a tour mutation operator.
#[derive(Clone)]
pub struct TspSwapPerturbation {}

impl PerturbeMutOp<TspPermutation> for TspSwapPerturbation {
    fn eval(&self, data: &mut TspPermutation) {
        tsp_swap_perturbation(&mut data.vert_perm);
    }

    fn update(&mut self, _iter_diff: i64, _dim: usize) {
    }

    fn duplicate(&self) -> Self {
        TspSwapPerturbation {  }
    }
}

/// The reverse step as a tour mutation operator.
#[derive(Clone)]
pub struct TspReversePerturbation {}

impl PerturbeMutOp<TspPermutation> for TspReversePerturbation {
    fn eval(&self, data: &mut TspPermutation) {
        tsp_reverse_perturbation(&mut data.vert_perm);
    }

    fn update(&mut self, _iter_diff: i64, _dim: usize) {
    }

    fn duplicate(&self) -> Self {
        TspReversePerturbation {  }
    }
}

/// Cycle crossover on tours: every offspring is still a permutation of the
/// same vertex set as its parents, every offspring entry is one parent's
/// entry at that same position, and the positions where the offsprings
/// depart from their own parents are exchanged jointly and form one closed
/// key cycle.
pub struct TspCycleCrossover {}

impl CrossoverFun<usize> for TspCycleCrossover {
    open spec fn post(&self, p1: Seq<usize>, p2: Seq<usize>, o1: Seq<usize>, o2: Seq<usize>) -> bool {
        &&& (key_perm(p1) && key_perm(p2) ==> key_perm(o1) && key_perm(o2))
        &&& forall|i: int|
            0 <= i < o1.len() && i < p1.len() && i < p2.len() ==> (#[trigger] o1[i]) == p1[i]
                || o1[i] == p2[i]
        &&& forall|i: int|
            0 <= i < o2.len() && i < p1.len() && i < p2.len() ==> (#[trigger] o2[i]) == p1[i]
                || o2[i] == p2[i]
        &&& (p1.len() == p2.len() ==> exists|cyc: Seq<usize>|
            #![trigger crate::permutation::swapped_on(p1, p2, o1, o2, cyc)]
            crate::permutation::swapped_on(p1, p2, o1, o2, cyc) && (key_perm(p1) && key_perm(p2)
                ==> crate::permutation::closed_cycle(p1, p2, cyc)))
    }

    fn crossover_fun(&self, p1: &Vec<usize>, p2: &Vec<usize>, o1: &mut Vec<usize>, o2: &mut Vec<
        usize,
    >) {
        cycle_crossover_keyed(p1, p2, o1, o2);
    }
}

impl Crossover<TspPermutation> for TspCycleCrossover {
    fn crossover(
        &self,
        population: &Vec<TspPermutation>,
        parents_indices: &Vec<usize>,
        offsprings: &mut Vec<TspPermutation>,
    ) {
        crossover_vec_data(population, parents_indices, offsprings, self);
        proof {
            lemma_tsp_pairs_valid(*self, population@, parents_indices@, final(offsprings)@);
        }
    }
}

/// Order crossover on tours: every offspring is still a permutation of the
/// same vertex set as its parents; one offspring copies a contiguous slice
/// of one parent and fills the rest in the other parent's order, the other
/// offspring does the same with the roles exchanged.
pub struct TspOrderCrossover {}

impl CrossoverFun<usize> for TspOrderCrossover {
    open spec fn post(&self, p1: Seq<usize>, p2: Seq<usize>, o1: Seq<usize>, o2: Seq<usize>) -> bool {
        &&& (key_perm(p1) && key_perm(p2) ==> key_perm(o1) && key_perm(o2))
        &&& (key_perm(p1) && key_perm(p2) ==> exists|from: int, to: int|
            #![trigger crate::permutation::order_fill_shape(p1, p2, o1, from, to)]
            {
                &&& 0 <= from <= to <= p1.len()
                &&& crate::permutation::order_fill_shape(p1, p2, o1, from, to)
                &&& crate::permutation::order_fill_shape(p2, p1, o2, from, to)
            })
    }

    fn crossover_fun(&self, p1: &Vec<usize>, p2: &Vec<usize>, o1: &mut Vec<usize>, o2: &mut Vec<
        usize,
    >) {
        order_crossover_keyed(p1, p2, o1, o2);
    }
}

impl Crossover<TspPermutation> for TspOrderCrossover {
    fn crossover(
        &self,
        population: &Vec<TspPermutation>,
        parents_indices: &Vec<usize>,
        offsprings: &mut Vec<TspPermutation>,
    ) {
        crossover_vec_data(population, parents_indices, offsprings, self);
        proof {
            lemma_tsp_pairs_valid(*self, population@, parents_indices@, final(offsprings)@);
        }
    }
}

/// Offspring produced pairwise by a permutation-preserving recombination of
/// valid tours are valid tours.
proof fn lemma_tsp_pairs_valid<CF: CrossoverFun<usize>>(
    cf: CF,
    population: Seq<TspPermutation>,
    parents_indices: Seq<usize>,
    offsprings: Seq<TspPermutation>,
)
    requires
        pop_inv(population),
        forall|k: int|
            0 <= k < parents_indices.len() ==> (#[trigger] parents_indices[k]) < population.len(),
        offsprings.len() == 2 * (parents_indices.len() as int / 2),
        forall|p1: Seq<usize>, p2: Seq<usize>, o1: Seq<usize>, o2: Seq<usize>|
            #[trigger] cf.post(p1, p2, o1, o2) ==> (key_perm(p1) && key_perm(p2) ==> key_perm(o1)
                && key_perm(o2)),
        forall|j: int|
            0 <= j < parents_indices.len() as int / 2 ==> #[trigger] pair_crossed(
                cf,
                population[parents_indices[2 * j] as int].velems(),
                population[parents_indices[2 * j + 1] as int].velems(),
                offsprings[2 * j].velems(),
                offsprings[2 * j + 1].velems(),
            ),
    ensures
        pop_inv(offsprings),
{
    assert forall|m: int| 0 <= m < offsprings.len() implies (#[trigger] offsprings[m]).inv() by {
        let j = m / 2;
        let pa = population[parents_indices[2 * j] as int];
        let pb = population[parents_indices[2 * j + 1] as int];
        assert(pair_crossed(
            cf,
            pa.velems(),
            pb.velems(),
            offsprings[2 * j].velems(),
            offsprings[2 * j + 1].velems(),
        ));
        if pa.velems().len() == pb.velems().len() {
            assert(cf.post(
                pa.velems(),
                pb.velems(),
                offsprings[2 * j].velems(),
                offsprings[2 * j + 1].velems(),
            ));
        }
    }
}

/// Every vertex triple of the table satisfies the triangle inequality.
pub open spec fn is_metric(m: DistanceHalfMatrix) -> bool {
    forall|a: int, b: int, c: int|
        #![trigger m.dist_spec(a, c), m.dist_spec(c, b)]
        0 <= a < m.vert_count_spec() && 0 <= b < m.vert_count_spec() && 0 <= c
            < m.vert_count_spec() ==> m.dist_spec(a, b) <= m.dist_spec(a, c) + m.dist_spec(c, b)
}

/// Decides whether the stored distances form a metric: no pair is farther
/// apart than any detour over a third vertex.
pub fn are_distances_a_metric(distances: &DistanceHalfMatrix) -> (r: bool)
    requires
        distances.wf(),
    ensures
        r == is_metric(*distances),
{
    let n = distances.vert_count();
    let mut a: usize = 0;
    while a < n
        invariant
            distances.wf(),
            n == distances.vert_count_spec(),
            a <= n,
            forall|x: int, y: int, z: int|
                #![trigger distances.dist_spec(x, z), distances.dist_spec(z, y)]
                0 <= x < a && 0 <= y < n && 0 <= z < n ==> distances.dist_spec(x, y)
                    <= distances.dist_spec(x, z) + distances.dist_spec(z, y),
        decreases n - a,
    {
        let mut b: usize = 0;
        while b < n
            invariant
                distances.wf(),
                n == distances.vert_count_spec(),
                a < n,
                b <= n,
                forall|x: int, y: int, z: int|
                    #![trigger distances.dist_spec(x, z), distances.dist_spec(z, y)]
                    0 <= x < a && 0 <= y < n && 0 <= z < n ==> distances.dist_spec(x, y)
                        <= distances.dist_spec(x, z) + distances.dist_spec(z, y),
                forall|y: int, z: int|
                    #![trigger distances.dist_spec(a as int, z), distances.dist_spec(z, y)]
                    0 <= y < b && 0 <= z < n ==> distances.dist_spec(a as int, y)
                        <= distances.dist_spec(a as int, z) + distances.dist_spec(z, y),
            decreases n - b,
        {
            let d_ab = distances.get(a, b);
            let mut c: usize = 0;
            while c < n
                invariant
                    distances.wf(),
                    n == distances.vert_count_spec(),
                    a < n,
                    b < n,
                    c <= n,
                    d_ab == distances.dist_spec(a as int, b as int),
                    forall|z: int|
                        0 <= z < c ==> distances.dist_spec(a as int, b as int) <= (
                        #[trigger] distances.dist_spec(a as int, z)) + distances.dist_spec(
                            z,
                            b as int,
                        ),
                decreases n - c,
            {
                if d_ab > distances.get(a, c) + distances.get(c, b) {
                    proof {
                        assert(distances.dist_spec(a as int, b as int) > distances.dist_spec(
                            a as int,
                            c as int,
                        ) + distances.dist_spec(c as int, b as int));
                        assert(!is_metric(*distances));
                    }
                    return false;
                }
                c = c + 1;
            }
            b = b + 1;
        }
        a = a + 1;
    }
    true
}

} // verus!
