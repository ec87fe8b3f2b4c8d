use vstd::prelude::*;

use std::rc::Rc;

use crate::crossover::CrossoverFun;
use crate::opt_traits::{pop_inv, Crossover, FitnessFunc, InitFunc, InitPopulation, OptData, PerturbeMutOp};
use crate::permutation::{
    cycle_crossover_keyed, elements_from, find_key_pos, has_key, key_perm,
    lemma_elements_from_refl, order_crossover_keyed, swap_elements, PermKey,
};
use crate::prob::Prob;
use crate::rng::{rand_below, rand_u64_below};
use crate::tsp::{
    tsp_move_perturbation, tsp_reverse_perturbation, tsp_swap_perturbation, DistanceHalfMatrix,
    MAX_DIST, MAX_TOUR_VERTS,
};

verus! {

/// One stop of a group tour: the visited group, and which of the group's
/// vertices is visited, as a local index within the group.
#[derive(Debug, Clone, Copy, PartialEq, Eq, Structural)]
pub struct GroupVert {
    pub group: usize,
    pub vert: usize,
}

impl PermKey for GroupVert {
    open spec fn key_spec(self) -> usize {
        self.group
    }

    fn key(&self) -> (r: usize) {
        self.group
    }
}

/// An immutable problem instance: the vertex count, the grouping of the
/// vertices, the symmetric distance table, and the best known tour length.
/// It is built once and shared read-only by every candidate of a run.
#[derive(Debug, Clone)]
pub struct GtspProblem {
    pub vert_count: usize,
    pub best_known: u64,
    pub groups: Vec<Vec<usize>>,
    pub distances: DistanceHalfMatrix,
}

impl GtspProblem {
    /// Groups are non-empty, name only existing vertices, and the distance
    /// table covers the vertex set.
    pub open spec fn wf(&self) -> bool {
        &&& 1 <= self.vert_count <= MAX_TOUR_VERTS
        &&& 1 <= self.groups@.len() <= self.vert_count
        &&& self.distances.wf()
        &&& self.distances.vert_count_spec() == self.vert_count as int
        &&& forall|g: int|
            0 <= g < self.groups@.len() ==> 1 <= (#[trigger] self.groups@[g])@.len()
                <= self.vert_count
        &&& forall|g: int, i: int|
            0 <= g < self.groups@.len() && 0 <= i < self.groups@[g]@.len() ==> (
            #[trigger] self.groups@[g]@[i]) < self.vert_count
    }
}

/// One stop is valid for a problem when it names an existing group and one
/// of that group's vertices.
pub open spec fn stop_ok(prob: GtspProblem, s: GroupVert) -> bool {
    s.group < prob.groups@.len() && s.vert < prob.groups@[s.group as int]@.len()
}

/// A valid group tour visits every group exactly once, at one of the
/// group's own vertices, over a well-formed shared problem.
pub open spec fn group_tour_wf(prob: GtspProblem, s: Seq<GroupVert>) -> bool {
    &&& prob.wf()
    &&& s.len() == prob.groups@.len()
    &&& key_perm(s)
    &&& forall|i: int| 0 <= i < s.len() ==> stop_ok(prob, #[trigger] s[i])
}

/// A candidate group tour, holding the shared problem it belongs to.
#[derive(Debug)]
pub struct GtspPermutation {
    pub problem: Rc<GtspProblem>,
    pub perm: Vec<GroupVert>,
}

impl View for GtspPermutation {
    type V = (GtspProblem, Seq<GroupVert>);

    open spec fn view(&self) -> (GtspProblem, Seq<GroupVert>) {
        (*self.problem, self.perm@)
    }
}

impl Clone for GtspPermutation {
    fn clone(&self) -> (r: Self) {
        GtspPermutation {
            problem: Rc::clone(&self.problem),
            perm: crate::opt_data::clone_vec_copy(&self.perm),
        }
    }
}

impl OptData for GtspPermutation {
    open spec fn inv(&self) -> bool {
        group_tour_wf(*self.problem, self.perm@)
    }

    fn dim(&self) -> usize {
        self.problem.vert_count
    }

    fn duplicate(&self) -> (r: Self) {
        GtspPermutation {
            problem: Rc::clone(&self.problem),
            perm: crate::opt_data::clone_vec_copy(&self.perm),
        }
    }
}

/// The total length of the group tour: the first `m` hops, each connecting
/// a stop's vertex to its cyclic successor's vertex.
pub open spec fn gtsp_tour_len_partial(prob: GtspProblem, s: Seq<GroupVert>, m: int) -> int
    decreases m,
{
    if m <= 0 {
        0
    } else {
        let nxt = if m == s.len() {
            0int
        } else {
            m
        };
        gtsp_tour_len_partial(prob, s, m - 1) + prob.distances.dist_spec(
            prob.groups@[s[nxt].group as int]@[s[nxt].vert as int] as int,
            prob.groups@[s[m - 1].group as int]@[s[m - 1].vert as int] as int,
        )
    }
}

/// Evaluates a group tour to its total length.
pub struct GtspFitness {}

impl FitnessFunc<GtspPermutation> for GtspFitness {
    open spec fn eval_spec(&self, data: (GtspProblem, Seq<GroupVert>)) -> i64 {
        gtsp_tour_len_partial(data.0, data.1, data.1.len() as int) as i64
    }

    fn eval(&self, data: &GtspPermutation) -> (r: i64) {
        let n = data.perm.len();
        let mut total: u64 = 0;
        let mut i: usize = 0;
        while i < n
            invariant
                n == data.perm@.len(),
                n <= MAX_TOUR_VERTS,
                i <= n,
                data.inv(),
                total == gtsp_tour_len_partial(*data.problem, data.perm@, i as int),
                total <= i * (MAX_DIST as int),
            decreases n - i,
        {
            let next = if i + 1 == n {
                0
            } else {
                i + 1
            };
            let gv1 = data.perm[next];
            let gv2 = data.perm[i];
            let vert1 = data.problem.groups[gv1.group][gv1.vert];
            let vert2 = data.problem.groups[gv2.group][gv2.vert];
            let d = data.problem.distances.get(vert1, vert2);
            proof {
                assert((i + 1) * (MAX_DIST as int) <= MAX_TOUR_VERTS * (MAX_DIST as int))
                    by (nonlinear_arith)
                    requires
                        0 <= i,
                        i + 1 <= MAX_TOUR_VERTS,
                ;
            }
            total = total + d;
            i = i + 1;
        }
        total as i64
    }
}

/// Replacing one stop by another of the same group keeps the tour valid.
proof fn lemma_key_perm_update_same_key<K: PermKey>(s: Seq<K>, i: int, x: K)
    requires
        key_perm(s),
        0 <= i < s.len(),
        x.key_spec() == s[i].key_spec(),
    ensures
        key_perm(s.update(i, x)),
{
    let t = s.update(i, x);
    assert forall|v: int| 0 <= v < t.len() implies #[trigger] has_key(t, v) by {
        assert(has_key(s, v));
        let w = choose|w: int| 0 <= w < s.len() && (#[trigger] s[w].key_spec()) == v;
        assert(t[w].key_spec() == v);
    }
}

/// A rearranged or recombined group tour over the same problem is valid
/// whenever it still visits every group once and draws its stops from
/// valid tours.
proof fn lemma_group_tour_from_elements(
    prob: &GtspProblem,
    s: Seq<GroupVert>,
    base: Seq<GroupVert>,
)
    requires
        group_tour_wf(*prob, base),
        s.len() == base.len(),
        key_perm(s),
        elements_from(s, base),
    ensures
        group_tour_wf(*prob, s),
{
    assert forall|i: int| 0 <= i < s.len() implies stop_ok(*prob, #[trigger] s[i]) by {
        assert(base.contains(s[i]));
        let j = choose|j: int| 0 <= j < base.len() && base[j] == s[i];
        assert(stop_ok(*prob, base[j]));
    }
}

/// Relocates one random stop of the tour, shifting those in between.
#[derive(Clone)]
pub struct GtspMoveGroupPerturbation {}

impl PerturbeMutOp<GtspPermutation> for GtspMoveGroupPerturbation {
    fn eval(&self, data: &mut GtspPermutation) {
        let ghost pre = old(data).perm@;
        tsp_move_perturbation(&mut data.perm);
        proof {
            lemma_group_tour_from_elements(&data.problem, data.perm@, pre);
        }
    }

    fn update(&mut self, _iter_diff: i64, _dim: usize) {
    }

    fn duplicate(&self) -> Self {
        GtspMoveGroupPerturbation {  }
    }
}

/// Exchanges two random stops of the tour.
#[derive(Clone)]
pub struct GtspSwapGroupPerturbation {}

impl PerturbeMutOp<GtspPermutation> for GtspSwapGroupPerturbation {
    fn eval(&self, data: &mut GtspPermutation) {
        let ghost pre = old(data).perm@;
        tsp_swap_perturbation(&mut data.perm);
        proof {
            lemma_group_tour_from_elements(&data.problem, data.perm@, pre);
        }
    }

    fn update(&mut self, _iter_diff: i64, _dim: usize) {
    }

    fn duplicate(&self) -> Self {
        GtspSwapGroupPerturbation {  }
    }
}

/// Reverses a random circular sub-range of the tour.
#[derive(Clone)]
pub struct GtspReverseGroupPerturbation {}

impl PerturbeMutOp<GtspPermutation> for GtspReverseGroupPerturbation {
    fn eval(&self, data: &mut GtspPermutation) {
        let ghost pre = old(data).perm@;
        tsp_reverse_perturbation(&mut data.perm);
        proof {
            lemma_group_tour_from_elements(&data.problem, data.perm@, pre);
        }
    }

    fn update(&mut self, _iter_diff: i64, _dim: usize) {
    }

    fn duplicate(&self) -> Self {
        GtspReverseGroupPerturbation {  }
    }
}

/// Resamples, per stop and with a fixed probability, which of the group's
/// vertices the tour visits.
#[derive(Clone)]
pub struct GtspRandGroupVertPerturbation {
    pub change_prob: Prob,
}

impl GtspRandGroupVertPerturbation {
    /// The recommended setting: resample each stop with probability
    /// `1 / groups_count`.
    pub fn new(groups_count: usize) -> (r: Self)
        requires
            1 <= groups_count,
    {
        GtspRandGroupVertPerturbation { change_prob: Prob::one_over(groups_count as u64) }
    }
}

impl GtspRandGroupVertPerturbation {
    /// Resamples, per stop and by one coin flip each, the visited vertex
    /// uniformly within the stop's group; the group visiting order is left
    /// exactly as it was.
    pub fn resample_verts(&self, data: &mut GtspPermutation)
        requires
            old(data).inv(),
            self.change_prob.wf(),
        ensures
            final(data).inv(),
            final(data).problem == old(data).problem,
            final(data).perm@.len() == old(data).perm@.len(),
            forall|i: int|
                0 <= i < final(data).perm@.len() ==> (#[trigger] final(data).perm@[i]).group
                    == old(data).perm@[i].group,
    {
        let n = data.perm.len();
        let mut i: usize = 0;
        while i < n
            invariant
                n == data.perm@.len(),
                n == old(data).perm@.len(),
                data.problem == old(data).problem,
                data.inv(),
                self.change_prob.wf(),
                forall|j: int|
                    0 <= j < n ==> (#[trigger] data.perm@[j]).group == old(data).perm@[j].group,
            decreases n - i,
        {
            if self.change_prob.flip() {
                let group = data.perm[i].group;
                let group_size = data.problem.groups[group].len();
                let v = rand_below(group_size);
                let ghost pre = data.perm@;
                data.perm[i] = GroupVert { group, vert: v };
                proof {
                    lemma_key_perm_update_same_key(pre, i as int, GroupVert { group, vert: v });
                }
            }
            i = i + 1;
        }
    }
}

impl PerturbeMutOp<GtspPermutation> for GtspRandGroupVertPerturbation {
    fn eval(&self, data: &mut GtspPermutation)
        ensures
            final(data).problem == old(data).problem,
            final(data).perm@.len() == old(data).perm@.len(),
            forall|i: int|
                0 <= i < final(data).perm@.len() ==> (#[trigger] final(data).perm@[i]).group
                    == old(data).perm@[i].group,
    {
        let wf = 1 <= self.change_prob.den && self.change_prob.num <= self.change_prob.den;
        if !wf {
            return ;
        }
        self.resample_verts(data);
    }

    fn update(&mut self, _iter_diff: i64, _dim: usize) {
    }

    fn duplicate(&self) -> Self {
        GtspRandGroupVertPerturbation { change_prob: self.change_prob }
    }
}

/// Scale used to turn an inverse distance into an integer roulette weight:
/// a vertex at distance `d` gets weight `WHEEL_SCALE / (d + 1)`.
pub const WHEEL_SCALE: u64 = 0x1_0000_0000;

/// The vertex a stop visits.
pub open spec fn visited_vertex(prob: GtspProblem, s: GroupVert) -> int {
    prob.groups@[s.group as int]@[s.vert as int] as int
}

/// The stop's group holds at least one vertex different from the one the
/// stop currently visits.
pub open spec fn group_has_alternative(prob: GtspProblem, s: GroupVert) -> bool {
    exists|vi: int|
        0 <= vi < prob.groups@[s.group as int]@.len() && (#[trigger] prob.groups@[s.group as int]@[vi]) as int
            != visited_vertex(prob, s)
}

/// The roulette weight of the group's vertex `vi`, seen from the current
/// vertex: zero for the current vertex itself, the scaled inverse distance
/// for every other.
pub open spec fn wheel_weight(prob: GtspProblem, group: int, curr_vert: int, vi: int) -> int {
    if prob.groups@[group]@[vi] as int == curr_vert {
        0
    } else {
        WHEEL_SCALE as int / (prob.distances.dist_spec(
            curr_vert,
            prob.groups@[group]@[vi] as int,
        ) as int + 1)
    }
}

/// The sum of the roulette weights of the group's first `m` vertices.
pub open spec fn wheel_sum(prob: GtspProblem, group: int, curr_vert: int, m: int) -> int
    decreases m,
{
    if m <= 0 {
        0
    } else {
        wheel_sum(prob, group, curr_vert, m - 1) + wheel_weight(prob, group, curr_vert, m - 1)
    }
}

/// Resamples stops like the random variant, but biases the choice toward
/// vertices close to the stop's current vertex, by inverse-distance
/// roulette.
#[derive(Clone)]
pub struct GtspRouletteWheelGroupVertPerturbation {
    pub change_prob: Prob,
}

impl GtspRouletteWheelGroupVertPerturbation {
    /// The recommended setting: resample each stop with probability
    /// `1 / groups_count`.
    pub fn new(groups_count: usize) -> (r: Self)
        requires
            1 <= groups_count,
    {
        GtspRouletteWheelGroupVertPerturbation { change_prob: Prob::one_over(groups_count as u64) }
    }
}

impl GtspRouletteWheelGroupVertPerturbation {
    /// Resamples stops by inverse-distance roulette, leaving the group
    /// visiting order exactly as it was; the current vertex gets roulette
    /// weight zero, so with resample probability one, every stop whose
    /// group offers an alternative vertex moves to a different vertex.
    #[verifier::loop_isolation(false)]
    pub fn resample_verts_biased(&self, data: &mut GtspPermutation)
        requires
            old(data).inv(),
            self.change_prob.wf(),
        ensures
            final(data).inv(),
            final(data).problem == old(data).problem,
            final(data).perm@.len() == old(data).perm@.len(),
            forall|i: int|
                0 <= i < final(data).perm@.len() ==> (#[trigger] final(data).perm@[i]).group
                    == old(data).perm@[i].group,
            (self.change_prob.num == self.change_prob.den && (forall|i: int|
                0 <= i < old(data).perm@.len() ==> group_has_alternative(
                    *old(data).problem,
                    #[trigger] old(data).perm@[i],
                ))) ==> forall|i: int|
                0 <= i < final(data).perm@.len() ==> visited_vertex(
                    *old(data).problem,
                    #[trigger] final(data).perm@[i],
                ) != visited_vertex(*old(data).problem, old(data).perm@[i]),
    {
        let ghost certain = self.change_prob.num == self.change_prob.den && (forall|i: int|
            0 <= i < old(data).perm@.len() ==> group_has_alternative(
                *old(data).problem,
                #[trigger] old(data).perm@[i],
            ));
        let n = data.perm.len();
        let mut i: usize = 0;
        while i < n
            invariant
                n == data.perm@.len(),
                data.problem == old(data).problem,
                data.inv(),
                forall|j: int|
                    0 <= j < n ==> (#[trigger] data.perm@[j]).group == old(data).perm@[j].group,
                forall|j: int|
                    i <= j < n ==> (#[trigger] data.perm@[j]) == old(data).perm@[j],
                certain ==> forall|j: int|
                    0 <= j < i ==> visited_vertex(*old(data).problem, #[trigger] data.perm@[j])
                        != visited_vertex(*old(data).problem, old(data).perm@[j]),
            decreases n - i,
        {
            let flipped = self.change_prob.flip();
            if flipped {
                let group = data.perm[i].group;
                let curr_vi = data.perm[i].vert;
                let group_size = data.problem.groups[group].len();
                let vert = data.problem.groups[group][curr_vi];
                let mut weight_sum: u64 = 0;
                let mut vi: usize = 0;
                while vi < group_size
                    invariant
                        vi <= group_size,
                        weight_sum <= vi * (WHEEL_SCALE as int),
                        weight_sum as int == wheel_sum(*old(data).problem, group as int, vert as int, vi as int),
                        (exists|vj: int|
                            0 <= vj < vi && (#[trigger] (*old(data).problem).groups@[group as int]@[vj]) as int
                                != vert as int) ==> weight_sum >= 1,
                    decreases group_size - vi,
                {
                    let v = data.problem.groups[group][vi];
                    let w: u64 = if v == vert {
                        0
                    } else {
                        let d = data.problem.distances.get(vert, v);
                        proof {
                            assert((WHEEL_SCALE as int) / (d as int + 1) >= 1) by (nonlinear_arith)
                                requires
                                    1 <= d as int + 1 <= WHEEL_SCALE as int,
                            ;
                        }
                        WHEEL_SCALE / (d + 1)
                    };
                    proof {
                        assert(weight_sum + w <= (vi + 1) * (WHEEL_SCALE as int))
                            by (nonlinear_arith)
                            requires
                                weight_sum <= vi * (WHEEL_SCALE as int),
                                0 <= w <= WHEEL_SCALE,
                        ;
                        assert((vi + 1) * (WHEEL_SCALE as int) < u64::MAX) by (nonlinear_arith)
                            requires
                                vi + 1 <= MAX_TOUR_VERTS,
                        ;
                    }
                    weight_sum = weight_sum + w;
                    vi = vi + 1;
                }
                proof {
                    if certain {
                        assert(group_has_alternative(*old(data).problem, data.perm@[i as int]));
                    }
                }
                if weight_sum > 0 {
                    let pick = rand_u64_below(weight_sum);
                    let mut acc: u64 = 0;
                    let mut vi2: usize = 0;
                    let mut chosen = curr_vi;
                    while vi2 < group_size
                        invariant
                            vi2 <= group_size,
                            acc <= vi2 * (WHEEL_SCALE as int),
                            acc as int == wheel_sum(*old(data).problem, group as int, vert as int, vi2 as int),
                            chosen < group_size,
                            pick < acc ==> (*old(data).problem).groups@[group as int]@[chosen as int] as int
                                != vert as int,
                        decreases group_size - vi2,
                    {
                        let v = data.problem.groups[group][vi2];
                        let w: u64 = if v == vert {
                            0
                        } else {
                            let d = data.problem.distances.get(vert, v);
                            WHEEL_SCALE / (d + 1)
                        };
                        proof {
                            assert(acc + w <= (vi2 + 1) * (WHEEL_SCALE as int))
                                by (nonlinear_arith)
                                requires
                                    acc <= vi2 * (WHEEL_SCALE as int),
                                    0 <= w <= WHEEL_SCALE,
                            ;
                            assert((vi2 + 1) * (WHEEL_SCALE as int) < u64::MAX)
                                by (nonlinear_arith)
                                requires
                                    vi2 + 1 <= MAX_TOUR_VERTS,
                            ;
                        }
                        let next_acc = acc + w;
                        if acc <= pick && pick < next_acc {
                            chosen = vi2;
                        }
                        acc = next_acc;
                        vi2 = vi2 + 1;
                    }
                    let ghost pre = data.perm@;
                    data.perm[i] = GroupVert { group, vert: chosen };
                    proof {
                        lemma_key_perm_update_same_key(
                            pre,
                            i as int,
                            GroupVert { group, vert: chosen },
                        );
                    }
                }
            }
            proof {
                if certain {
                    assert(flipped);
                    assert(visited_vertex(*old(data).problem, data.perm@[i as int])
                        != visited_vertex(*old(data).problem, old(data).perm@[i as int]));
                }
            }
            i = i + 1;
        }
    }
}

impl PerturbeMutOp<GtspPermutation> for GtspRouletteWheelGroupVertPerturbation {
    fn eval(&self, data: &mut GtspPermutation)
        ensures
            final(data).problem == old(data).problem,
            final(data).perm@.len() == old(data).perm@.len(),
            forall|i: int|
                0 <= i < final(data).perm@.len() ==> (#[trigger] final(data).perm@[i]).group
                    == old(data).perm@[i].group,
            (self.change_prob.wf() && self.change_prob.num == self.change_prob.den && (forall|
                i: int,
            |
                0 <= i < old(data).perm@.len() ==> group_has_alternative(
                    *old(data).problem,
                    #[trigger] old(data).perm@[i],
                ))) ==> forall|i: int|
                0 <= i < final(data).perm@.len() ==> visited_vertex(
                    *old(data).problem,
                    #[trigger] final(data).perm@[i],
                ) != visited_vertex(*old(data).problem, old(data).perm@[i]),
    {
        let wf = 1 <= self.change_prob.den && self.change_prob.num <= self.change_prob.den;
        if !wf {
            return ;
        }
        self.resample_verts_biased(data);
    }

    fn update(&mut self, _iter_diff: i64, _dim: usize) {
    }

    fn duplicate(&self) -> Self {
        GtspRouletteWheelGroupVertPerturbation { change_prob: self.change_prob }
    }
}

/// A sequence with, position for position, the same keys as a valid one is
/// valid too.
proof fn lemma_key_perm_pointwise(s: Seq<GroupVert>, t: Seq<GroupVert>)
    requires
        key_perm(s),
        t.len() == s.len(),
        forall|i: int| 0 <= i < t.len() ==> (#[trigger] t[i]).key_spec() == s[i].key_spec(),
    ensures
        key_perm(t),
{
    assert forall|v: int| 0 <= v < t.len() implies #[trigger] has_key(t, v) by {
        assert(has_key(s, v));
        let w = choose|w: int| 0 <= w < s.len() && (#[trigger] s[w].key_spec()) == v;
        assert(t[w].key_spec() == v);
    }
}

/// What every group-tour recombination guarantees: offspring of valid
/// parents visit every group exactly once, and every stop is a stop of one
/// of the parents.
pub open spec fn gtsp_cross_post(
    p1: Seq<GroupVert>,
    p2: Seq<GroupVert>,
    o1: Seq<GroupVert>,
    o2: Seq<GroupVert>,
) -> bool {
    &&& (key_perm(p1) && key_perm(p2) ==> key_perm(o1) && key_perm(o2))
    &&& forall|i: int| 0 <= i < o1.len() ==> p1.contains(#[trigger] o1[i]) || p2.contains(o1[i])
    &&& forall|i: int| 0 <= i < o2.len() ==> p1.contains(#[trigger] o2[i]) || p2.contains(o2[i])
}

/// Uniform city crossover: the group visiting order of each offspring is
/// its own parent's, but for each group one coin decides whether the
/// visited vertex is kept or taken from the other parent's stop at that
/// group.
/// How one position of a uniform-city offspring is filled: its own
/// parent's stop, or, when the shared per-group coin says so and the other
/// parent visits the group, the other parent's stop for that group.
pub open spec fn city_pick(
    pa: Seq<GroupVert>,
    pb: Seq<GroupVert>,
    coins: Seq<bool>,
    e: GroupVert,
    k: int,
) -> bool {
    let g = pa[k].group;
    if g < coins.len() && !coins[g as int] && has_key(pb, g as int) {
        exists|j: int| 0 <= j < pb.len() && (#[trigger] pb[j]).key_spec() == g && e == pb[j]
    } else {
        e == pa[k]
    }
}

/// At position `i` the two offsprings treat the group of `p1[i]` with one
/// shared coin: where `j` is the group's position in `p2`, either both
/// offsprings keep their own parent's stop, or they exchange them.
pub open spec fn coupled_at(
    p1: Seq<GroupVert>,
    p2: Seq<GroupVert>,
    o1: Seq<GroupVert>,
    o2: Seq<GroupVert>,
    i: int,
) -> bool {
    exists|j: int|
        #![trigger p2[j]]
        {
            &&& 0 <= j < p2.len()
            &&& p2[j].key_spec() == p1[i].key_spec()
            &&& ((o1[i] == p1[i] && o2[j] == p2[j]) || (o1[i] == p2[j] && o2[j] == p1[i]))
        }
}

pub fn gtsp_uniform_city_crossover(
    p1: &Vec<GroupVert>,
    p2: &Vec<GroupVert>,
    o1: &mut Vec<GroupVert>,
    o2: &mut Vec<GroupVert>,
)
    requires
        p1@.len() == p2@.len(),
        old(o1)@.len() == 0,
        old(o2)@.len() == 0,
    ensures
        final(o1)@.len() == p1@.len(),
        final(o2)@.len() == p2@.len(),
        gtsp_cross_post(p1@, p2@, final(o1)@, final(o2)@),
        forall|i: int| 0 <= i < p1@.len() ==> (#[trigger] final(o1)@[i]).group == p1@[i].group,
        forall|i: int| 0 <= i < p2@.len() ==> (#[trigger] final(o2)@[i]).group == p2@[i].group,
        key_perm(p1@) && key_perm(p2@) ==> forall|i: int|
            0 <= i < p1@.len() ==> #[trigger] coupled_at(p1@, p2@, final(o1)@, final(o2)@, i),
{
    let n = p1.len();
    let mut coins: Vec<bool> = Vec::new();
    let mut z: usize = 0;
    while z < n
        invariant
            coins@.len() == z,
            z <= n,
        decreases n - z,
    {
        coins.push(rand_below(2) == 1);
        z = z + 1;
    }
    let mut i: usize = 0;
    while i < n
        invariant
            n == p1@.len(),
            n == p2@.len(),
            coins@.len() == n,
            i <= n,
            o1@.len() == i,
            o2@.len() == i,
            forall|k: int|
                0 <= k < i ==> (#[trigger] o1@[k]).key_spec() == p1@[k].key_spec() && (p1@.contains(
                    o1@[k],
                ) || p2@.contains(o1@[k])),
            forall|k: int|
                0 <= k < i ==> (#[trigger] o2@[k]).key_spec() == p2@[k].key_spec() && (p1@.contains(
                    o2@[k],
                ) || p2@.contains(o2@[k])),
            forall|k: int| 0 <= k < i ==> city_pick(p1@, p2@, coins@, #[trigger] o1@[k], k),
            forall|k: int| 0 <= k < i ==> city_pick(p2@, p1@, coins@, #[trigger] o2@[k], k),
        decreases n - i,
    {
        let g1 = p1[i].group;
        let e1: GroupVert;
        if g1 < n && !coins[g1] {
            match find_key_pos(p2, g1) {
                Some(j) => {
                    e1 = p2[j];
                    proof {
                        assert((#[trigger] p2@[j as int]).key_spec() == g1);
                        assert(has_key(p2@, g1 as int));
                    }
                },
                None => {
                    e1 = p1[i];
                    proof {
                        assert(!has_key(p2@, g1 as int));
                    }
                },
            }
        } else {
            e1 = p1[i];
        }
        proof {
            assert(p1@.contains(p1@[i as int]));
            assert(city_pick(p1@, p2@, coins@, e1, i as int));
        }
        o1.push(e1);
        let g2 = p2[i].group;
        let e2: GroupVert;
        if g2 < n && !coins[g2] {
            match find_key_pos(p1, g2) {
                Some(j) => {
                    e2 = p1[j];
                    proof {
                        assert((#[trigger] p1@[j as int]).key_spec() == g2);
                        assert(has_key(p1@, g2 as int));
                    }
                },
                None => {
                    e2 = p2[i];
                    proof {
                        assert(!has_key(p1@, g2 as int));
                    }
                },
            }
        } else {
            e2 = p2[i];
        }
        proof {
            assert(p2@.contains(p2@[i as int]));
            assert(city_pick(p2@, p1@, coins@, e2, i as int));
        }
        o2.push(e2);
        i = i + 1;
    }
    proof {
        if key_perm(p1@) && key_perm(p2@) {
            lemma_key_perm_pointwise(p1@, o1@);
            lemma_key_perm_pointwise(p2@, o2@);
            assert forall|i: int|
                0 <= i < p1@.len() implies #[trigger] coupled_at(p1@, p2@, o1@, o2@, i) by {
                let g = p1@[i].group;
                assert(key_perm(p1@));
                assert(0 <= i < p1@.len());
                assert(p1@[i].key_spec() == g);
                assert((g as int) < p1@.len());
                assert(has_key(p2@, g as int));
                let j = choose|j: int|
                    0 <= j < p2@.len() && (#[trigger] p2@[j].key_spec()) == g as int;
                assert(p2@[j].group == g);
                assert(city_pick(p1@, p2@, coins@, o1@[i], i));
                assert(city_pick(p2@, p1@, coins@, o2@[j], j));
                if (g as int) < coins@.len() && !coins@[g as int] {
                    assert(has_key(p1@, g as int)) by {
                        assert((#[trigger] p1@[i].key_spec()) == g);
                    }
                    let t = choose|t: int|
                        0 <= t < p2@.len() && (#[trigger] p2@[t]).key_spec() == g && o1@[i]
                            == p2@[t];
                    assert(t == j);
                    let t2 = choose|t2: int|
                        0 <= t2 < p1@.len() && (#[trigger] p1@[t2]).key_spec() == g && o2@[j]
                            == p1@[t2];
                    assert(t2 == i);
                    assert(o1@[i] == p2@[j] && o2@[j] == p1@[i]);
                } else {
                    assert(o1@[i] == p1@[i] && o2@[j] == p2@[j]);
                }
                assert(0 <= j < p2@.len() && (#[trigger] p2@[j]).key_spec() == p1@[i].key_spec()
                    && ((o1@[i] == p1@[i] && o2@[j] == p2@[j]) || (o1@[i] == p2@[j] && o2@[j]
                    == p1@[i])));
                assert(coupled_at(p1@, p2@, o1@, o2@, i));
            }
        }
    }
}

/// Turns a probability into a threshold on a uniform draw below
/// `WHEEL_SCALE`.
fn prob_threshold(p: Prob) -> (r: u64)
    ensures
        r <= WHEEL_SCALE,
{
    if 1 <= p.den && p.num <= p.den {
        proof {
            assert((p.num as int) * (WHEEL_SCALE as int) <= (u64::MAX as int) * (
            WHEEL_SCALE as int) && (p.num as int) * (WHEEL_SCALE as int) / (p.den as int)
                <= WHEEL_SCALE as int) by (nonlinear_arith)
                requires
                    1 <= p.den,
                    p.num <= p.den,
                    p.den <= u64::MAX,
            ;
        }
        let t: u128 = (p.num as u128) * (WHEEL_SCALE as u128) / (p.den as u128);
        t as u64
    } else {
        0
    }
}

/// Composite group-tour crossover: a weighted random draw chooses uniform
/// city crossover, cycle crossover on the visiting order, order crossover
/// on the visiting order, or plain pass-through for the residual mass.
fn gtsp_composite_crossover(
    city_prob: Prob,
    cycle_prob: Prob,
    order_prob: Prob,
    p1: &Vec<GroupVert>,
    p2: &Vec<GroupVert>,
    o1: &mut Vec<GroupVert>,
    o2: &mut Vec<GroupVert>,
)
    requires
        p1@.len() == p2@.len(),
        old(o1)@.len() == 0,
        old(o2)@.len() == 0,
    ensures
        final(o1)@.len() == p1@.len(),
        final(o2)@.len() == p2@.len(),
        gtsp_cross_post(p1@, p2@, final(o1)@, final(o2)@),
{
    let t_city = prob_threshold(city_prob);
    let t_cycle = prob_threshold(cycle_prob);
    let t_order = prob_threshold(order_prob);
    let r = rand_u64_below(WHEEL_SCALE);
    if r < t_city {
        gtsp_uniform_city_crossover(p1, p2, o1, o2);
    } else if t_cycle > 0 && r - t_city < t_cycle {
        cycle_crossover_keyed(p1, p2, o1, o2);
        proof {
            lemma_pointwise_choice_contains(p1@, p2@, o1@);
            lemma_pointwise_choice_contains(p1@, p2@, o2@);
        }
    } else if t_order > 0 && r >= t_city && (r - t_city >= t_cycle) && r - t_city - t_cycle
        < t_order {
        order_crossover_keyed(p1, p2, o1, o2);
        proof {
            lemma_order_origin_contains(p1@, p2@, o1@);
            lemma_order_origin_contains(p2@, p1@, o2@);
        }
    } else {
        let a = crate::opt_data::clone_vec_copy(p1);
        let b = crate::opt_data::clone_vec_copy(p2);
        *o1 = a;
        *o2 = b;
        proof {
            assert forall|i: int| 0 <= i < final(o1)@.len() implies p1@.contains(
                #[trigger] final(o1)@[i],
            ) || p2@.contains(final(o1)@[i]) by {
                assert(p1@.contains(p1@[i]));
            }
            assert forall|i: int| 0 <= i < final(o2)@.len() implies p1@.contains(
                #[trigger] final(o2)@[i],
            ) || p2@.contains(final(o2)@[i]) by {
                assert(p2@.contains(p2@[i]));
            }
        }
    }
}

/// A sequence whose every entry equals one parent's entry at the same
/// position draws its elements from the parents.
proof fn lemma_pointwise_choice_contains(
    p1: Seq<GroupVert>,
    p2: Seq<GroupVert>,
    o: Seq<GroupVert>,
)
    requires
        p1.len() == p2.len(),
        o.len() == p1.len(),
        forall|i: int| 0 <= i < o.len() ==> (#[trigger] o[i]) == p1[i] || o[i] == p2[i],
    ensures
        forall|i: int| 0 <= i < o.len() ==> p1.contains(#[trigger] o[i]) || p2.contains(o[i]),
{
    assert forall|i: int| 0 <= i < o.len() implies p1.contains(#[trigger] o[i]) || p2.contains(
        o[i],
    ) by {
        if o[i] == p1[i] {
            assert(p1.contains(p1[i]));
        } else {
            assert(p2.contains(p2[i]));
        }
    }
}

/// A sequence whose entries are slice copies or fill picks draws its
/// elements from the parents.
proof fn lemma_order_origin_contains(pa: Seq<GroupVert>, pb: Seq<GroupVert>, o: Seq<GroupVert>)
    requires
        pa.len() == pb.len(),
        o.len() == pa.len(),
        forall|t: int|
            #![trigger o[t]]
            0 <= t < pa.len() ==> o[t] == pa[t] || exists|j: int|
                0 <= j < pb.len() && o[t] == #[trigger] pb[j],
    ensures
        forall|i: int| 0 <= i < o.len() ==> pa.contains(#[trigger] o[i]) || pb.contains(o[i]),
{
    assert forall|i: int| 0 <= i < o.len() implies pa.contains(#[trigger] o[i]) || pb.contains(
        o[i],
    ) by {
        if o[i] == pa[i] {
            assert(pa.contains(pa[i]));
        } else {
            let j = choose|j: int| 0 <= j < pb.len() && o[i] == #[trigger] pb[j];
            assert(pb.contains(pb[j]));
        }
    }
}

/// Checks that every stop of a tour names an existing group and vertex.
fn stops_valid(prob: &GtspProblem, perm: &Vec<GroupVert>) -> (r: bool)
    ensures
        r == forall|i: int| 0 <= i < perm@.len() ==> stop_ok(*prob, #[trigger] perm@[i]),
{
    let mut i: usize = 0;
    while i < perm.len()
        invariant
            i <= perm@.len(),
            forall|k: int| 0 <= k < i ==> stop_ok(*prob, #[trigger] perm@[k]),
        decreases perm@.len() - i,
    {
        let s = perm[i];
        if !(s.group < prob.groups.len()) {
            return false;
        }
        if !(s.vert < prob.groups[s.group].len()) {
            return false;
        }
        i = i + 1;
    }
    true
}

/// Splits the parent indices into consecutive pairs and recombines each
/// pair of group tours; every offspring is a valid tour over its first
/// parent's problem. A trailing unpaired parent is dropped, and a pair the
/// recombination cannot make valid (parents of unequal dimension or of
/// different problem instances) passes through as clones.
pub fn crossover_gtsp_data<CrossoverFunT: CrossoverFun<GroupVert>>(
    population: &Vec<GtspPermutation>,
    parents_indices: &Vec<usize>,
    offsprings: &mut Vec<GtspPermutation>,
    crossover_fun: &CrossoverFunT,
)
    requires
        pop_inv(population@),
        forall|k: int|
            0 <= k < parents_indices@.len() ==> (#[trigger] parents_indices@[k])
                < population@.len(),
        forall|p1: Seq<GroupVert>, p2: Seq<GroupVert>, o1: Seq<GroupVert>, o2: Seq<GroupVert>|
            #[trigger] crossover_fun.post(p1, p2, o1, o2) ==> gtsp_cross_post(p1, p2, o1, o2),
    ensures
        pop_inv(final(offsprings)@),
        final(offsprings)@.len() == 2 * (parents_indices@.len() as int / 2),
{
    offsprings.clear();
    let pairs = parents_indices.len() / 2;
    let mut j: usize = 0;
    while j < pairs
        invariant
            pairs == parents_indices@.len() as int / 2,
            2 * pairs <= parents_indices.len(),
            j <= pairs,
            offsprings@.len() == 2 * j,
            pop_inv(population@),
            pop_inv(offsprings@),
            forall|k: int|
                0 <= k < parents_indices@.len() ==> (#[trigger] parents_indices@[k])
                    < population@.len(),
            forall|p1: Seq<GroupVert>, p2: Seq<GroupVert>, o1: Seq<GroupVert>, o2: Seq<GroupVert>|
                #[trigger] crossover_fun.post(p1, p2, o1, o2) ==> gtsp_cross_post(p1, p2, o1, o2),
        decreases pairs - j,
    {
        let parent1 = &population[parents_indices[2 * j]];
        let parent2 = &population[parents_indices[2 * j + 1]];
        if parent1.perm.len() == parent2.perm.len() {
            let mut e1: Vec<GroupVert> = Vec::new();
            let mut e2: Vec<GroupVert> = Vec::new();
            crossover_fun.crossover_fun(&parent1.perm, &parent2.perm, &mut e1, &mut e2);
            proof {
                assert(gtsp_cross_post(parent1.perm@, parent2.perm@, e1@, e2@));
            }
            let ok1 = stops_valid(&parent1.problem, &e1);
            let ok2 = stops_valid(&parent2.problem, &e2);
            let off1 = if ok1 {
                GtspPermutation { problem: Rc::clone(&parent1.problem), perm: e1 }
            } else {
                parent1.duplicate()
            };
            proof {
                assert(off1.inv());
            }
            let off2 = if ok2 {
                GtspPermutation { problem: Rc::clone(&parent2.problem), perm: e2 }
            } else {
                parent2.duplicate()
            };
            proof {
                assert(off2.inv());
            }
            offsprings.push(off1);
            offsprings.push(off2);
        } else {
            offsprings.push(parent1.duplicate());
            offsprings.push(parent2.duplicate());
        }
        j = j + 1;
    }
}

/// Composite crossover drawing between uniform city crossover, cycle
/// crossover on the visiting order, and pass-through. The probabilities
/// should sum to at most one; the residual mass passes the parents through.
pub struct GtspCycleCrossover {
    pub city_prob: Prob,
    pub cycle_prob: Prob,
}

impl GtspCycleCrossover {
    pub fn new() -> (r: Self) {
        GtspCycleCrossover { city_prob: Prob::half(), cycle_prob: Prob::half() }
    }
}

impl CrossoverFun<GroupVert> for GtspCycleCrossover {
    open spec fn post(
        &self,
        p1: Seq<GroupVert>,
        p2: Seq<GroupVert>,
        o1: Seq<GroupVert>,
        o2: Seq<GroupVert>,
    ) -> bool {
        gtsp_cross_post(p1, p2, o1, o2)
    }

    fn crossover_fun(
        &self,
        p1: &Vec<GroupVert>,
        p2: &Vec<GroupVert>,
        o1: &mut Vec<GroupVert>,
        o2: &mut Vec<GroupVert>,
    ) {
        gtsp_composite_crossover(
            self.city_prob,
            self.cycle_prob,
            Prob { num: 0, den: 1 },
            p1,
            p2,
            o1,
            o2,
        );
    }
}

impl Crossover<GtspPermutation> for GtspCycleCrossover {
    fn crossover(
        &self,
        population: &Vec<GtspPermutation>,
        parents_indices: &Vec<usize>,
        offsprings: &mut Vec<GtspPermutation>,
    ) {
        crossover_gtsp_data(population, parents_indices, offsprings, self);
    }
}

/// Composite crossover drawing between uniform city crossover, order
/// crossover on the visiting order, and pass-through.
pub struct GtspOrderCrossover {
    pub city_prob: Prob,
    pub order_prob: Prob,
}

impl GtspOrderCrossover {
    pub fn new() -> (r: Self) {
        GtspOrderCrossover { city_prob: Prob::half(), order_prob: Prob::half() }
    }
}

impl CrossoverFun<GroupVert> for GtspOrderCrossover {
    open spec fn post(
        &self,
        p1: Seq<GroupVert>,
        p2: Seq<GroupVert>,
        o1: Seq<GroupVert>,
        o2: Seq<GroupVert>,
    ) -> bool {
        gtsp_cross_post(p1, p2, o1, o2)
    }

    fn crossover_fun(
        &self,
        p1: &Vec<GroupVert>,
        p2: &Vec<GroupVert>,
        o1: &mut Vec<GroupVert>,
        o2: &mut Vec<GroupVert>,
    ) {
        gtsp_composite_crossover(
            self.city_prob,
            Prob { num: 0, den: 1 },
            self.order_prob,
            p1,
            p2,
            o1,
            o2,
        );
    }
}

impl Crossover<GtspPermutation> for GtspOrderCrossover {
    fn crossover(
        &self,
        population: &Vec<GtspPermutation>,
        parents_indices: &Vec<usize>,
        offsprings: &mut Vec<GtspPermutation>,
    ) {
        crossover_gtsp_data(population, parents_indices, offsprings, self);
    }
}

/// The fully general composite crossover: uniform city, cycle, order, or
/// pass-through, by one weighted draw.
pub struct GtspGeneralCrossover {
    pub city_prob: Prob,
    pub cycle_prob: Prob,
    pub order_prob: Prob,
}

impl CrossoverFun<GroupVert> for GtspGeneralCrossover {
    open spec fn post(
        &self,
        p1: Seq<GroupVert>,
        p2: Seq<GroupVert>,
        o1: Seq<GroupVert>,
        o2: Seq<GroupVert>,
    ) -> bool {
        gtsp_cross_post(p1, p2, o1, o2)
    }

    fn crossover_fun(
        &self,
        p1: &Vec<GroupVert>,
        p2: &Vec<GroupVert>,
        o1: &mut Vec<GroupVert>,
        o2: &mut Vec<GroupVert>,
    ) {
        gtsp_composite_crossover(
            self.city_prob,
            self.cycle_prob,
            self.order_prob,
            p1,
            p2,
            o1,
            o2,
        );
    }
}

impl Crossover<GtspPermutation> for GtspGeneralCrossover {
    fn crossover(
        &self,
        population: &Vec<GtspPermutation>,
        parents_indices: &Vec<usize>,
        offsprings: &mut Vec<GtspPermutation>,
    ) {
        crossover_gtsp_data(population, parents_indices, offsprings, self);
    }
}

/// Builds random group tours over a shared problem: a random group order,
/// each group visited at a random one of its vertices.
pub struct InitRandomGtspPopulation {
    problem: Rc<GtspProblem>,
    size: usize,
}

impl InitRandomGtspPopulation {
    #[verifier::type_invariant]
    spec fn type_inv(&self) -> bool {
        (*self.problem).wf() && 1 <= self.size
    }

    /// The problem instance every generated tour belongs to.
    pub closed spec fn problem_spec(&self) -> GtspProblem {
        *self.problem
    }

    pub fn new(problem: Rc<GtspProblem>, size: usize) -> (r: Self)
        requires
            (*problem).wf(),
            1 <= size,
        ensures
            r.popsize() == size as int,
            r.problem_spec() == *problem,
    {
        InitRandomGtspPopulation { problem, size }
    }

    fn gen_perm(&self) -> (r: GtspPermutation)
        ensures
            r.inv(),
            r@.0 == self.problem_spec(),
    {
        proof {
            use_type_invariant(self);
        }
        let groups_count = self.problem.groups.len();
        let mut perm: Vec<GroupVert> = Vec::new();
        let mut g: usize = 0;
        while g < groups_count
            invariant
                (*self.problem).wf(),
                groups_count == self.problem.groups@.len(),
                g <= groups_count,
                perm@.len() == g,
                forall|k: int| 0 <= k < g ==> (#[trigger] perm@[k]).group == k as usize,
                forall|k: int| 0 <= k < g ==> stop_ok(*self.problem, #[trigger] perm@[k]),
            decreases groups_count - g,
        {
            let group_size = self.problem.groups[g].len();
            let vert = rand_below(group_size);
            perm.push(GroupVert { group: g, vert });
            g = g + 1;
        }
        proof {
            assert forall|v: int| 0 <= v < perm@.len() implies #[trigger] has_key(perm@, v) by {
                assert(perm@[v].key_spec() == v);
            }
            assert(key_perm(perm@));
            lemma_elements_from_refl(perm@);
        }
        let ghost init = perm@;
        let mut k: usize = 0;
        while k < groups_count
            invariant
                groups_count == perm@.len(),
                groups_count >= 1,
                k <= groups_count,
                key_perm(perm@),
                elements_from(perm@, init),
                init.len() == perm@.len(),
                group_tour_wf(*self.problem, init),
            decreases groups_count - k,
        {
            let j = rand_below(groups_count);
            let ghost pre = perm@;
            swap_elements(&mut perm, k, j);
            proof {
                crate::permutation::lemma_elements_from_swap(pre, perm@, init, k as int, j as int);
            }
            k = k + 1;
        }
        proof {
            lemma_group_tour_from_elements(&self.problem, perm@, init);
        }
        GtspPermutation { problem: Rc::clone(&self.problem), perm }
    }
}

impl InitFunc<GtspPermutation> for InitRandomGtspPopulation {
    fn init(&self) -> (r: GtspPermutation)
        ensures
            r@.0 == self.problem_spec(),
    {
        self.gen_perm()
    }
}

impl InitPopulation<GtspPermutation> for InitRandomGtspPopulation {
    closed spec fn popsize(&self) -> int {
        self.size as int
    }

    fn init_pop(&self) -> (r: Vec<GtspPermutation>)
        ensures
            forall|k: int| 0 <= k < r@.len() ==> (#[trigger] r@[k])@.0 == self.problem_spec(),
    {
        proof {
            use_type_invariant(self);
        }
        let mut out: Vec<GtspPermutation> = Vec::new();
        let mut i: usize = 0;
        while i < self.size
            invariant
                i <= self.size,
                out@.len() == i,
                pop_inv(out@),
                forall|k: int| 0 <= k < out@.len() ==> (#[trigger] out@[k])@.0 == self.problem_spec(),
            decreases self.size - i,
        {
            out.push(self.gen_perm());
            i = i + 1;
        }
        out
    }

    fn duplicate(&self) -> (r: Self)
        ensures
            r.problem_spec() == self.problem_spec(),
    {
        proof {
            use_type_invariant(self);
        }
        InitRandomGtspPopulation { problem: Rc::clone(&self.problem), size: self.size }
    }
}

/// Builds initial group tours greedily: a random starting vertex, then
/// always the nearest vertex of a group not yet visited.
/// The step from `prev` to `curr` is no longer than a step from `prev` to
/// any vertex of group `g`.
pub open spec fn nearest_step(prob: GtspProblem, prev: GroupVert, curr: GroupVert, g: int) -> bool {
    forall|v: int|
        0 <= v < prob.groups@[g]@.len() ==> prob.distances.dist_spec(
            visited_vertex(prob, prev),
            visited_vertex(prob, curr),
        ) <= prob.distances.dist_spec(
            visited_vertex(prob, prev),
            (#[trigger] prob.groups@[g]@[v]) as int,
        )
}

/// The step from `prev` to `curr` is no longer than a step from `prev` to
/// any vertex of any group `rem` lists.
pub open spec fn nearest_among(
    prob: GtspProblem,
    prev: GroupVert,
    curr: GroupVert,
    rem: Seq<usize>,
) -> bool {
    forall|k: int| 0 <= k < rem.len() ==> nearest_step(prob, prev, curr, (#[trigger] rem[k]) as int)
}

/// After its first stop the tour is greedy: every stop is at least as
/// close to its predecessor as each vertex of each group visited later.
pub open spec fn greedy_tour(prob: GtspProblem, s: Seq<GroupVert>) -> bool {
    forall|i: int, j: int|
        #![trigger s[i], s[j]]
        1 <= i <= j < s.len() ==> nearest_step(prob, s[i - 1], s[i], s[j].group as int)
}

pub struct InitHeuristicGtspPopulation {
    problem: Rc<GtspProblem>,
    size: usize,
}

impl InitHeuristicGtspPopulation {
    #[verifier::type_invariant]
    spec fn type_inv(&self) -> bool {
        (*self.problem).wf() && 1 <= self.size
    }

    /// The problem instance every generated tour belongs to.
    pub closed spec fn problem_spec(&self) -> GtspProblem {
        *self.problem
    }

    pub fn new(problem: Rc<GtspProblem>, size: usize) -> (r: Self)
        requires
            (*problem).wf(),
            1 <= size,
        ensures
            r.popsize() == size as int,
            r.problem_spec() == *problem,
    {
        InitHeuristicGtspPopulation { problem, size }
    }

    /// Builds one tour: a random first stop, then always the nearest
    /// vertex of any group not yet visited.
    pub fn gen_perm(&self) -> (r: GtspPermutation)
        ensures
            r.inv(),
            r@.0 == self.problem_spec(),
            greedy_tour(r@.0, r@.1),
    {
        proof {
            use_type_invariant(self);
        }
        let n = self.problem.groups.len();
        let mut remaining: Vec<usize> = Vec::new();
        let mut g: usize = 0;
        while g < n
            invariant
                g <= n,
                remaining@.len() == g,
                forall|k: int| 0 <= k < g ==> (#[trigger] remaining@[k]) == k as usize,
            decreases n - g,
        {
            remaining.push(g);
            g = g + 1;
        }
        let mut perm: Vec<GroupVert> = Vec::new();
        proof {
            assert forall|v: usize| v < n implies remaining@.contains(v) by {
                assert(remaining@[v as int] == v);
            }
        }
        while remaining.len() > 0
            invariant
                (*self.problem).wf(),
                n == self.problem.groups@.len(),
                perm@.len() + remaining@.len() == n,
                forall|i: int| 0 <= i < perm@.len() ==> stop_ok(*self.problem, #[trigger] perm@[i]),
                forall|i: int| 0 <= i < perm@.len() ==> (#[trigger] perm@[i]).group < n,
                forall|i: int, j: int|
                    0 <= i < j < perm@.len() ==> perm@[i].group != perm@[j].group,
                forall|k: int| 0 <= k < remaining@.len() ==> (#[trigger] remaining@[k]) < n,
                forall|k: int, l: int|
                    0 <= k < l < remaining@.len() ==> remaining@[k] != remaining@[l],
                forall|i: int, k: int|
                    0 <= i < perm@.len() && 0 <= k < remaining@.len() ==> (#[trigger] perm@[i]).group
                        != (#[trigger] remaining@[k]),
                forall|v: usize| v < n ==> has_key(perm@, v as int) || remaining@.contains(v),
                forall|i: int, j: int|
                    #![trigger perm@[i], perm@[j]]
                    1 <= i <= j < perm@.len() ==> nearest_step(
                        *self.problem,
                        perm@[i - 1],
                        perm@[i],
                        perm@[j].group as int,
                    ),
                forall|i: int, k: int|
                    #![trigger perm@[i], remaining@[k]]
                    1 <= i < perm@.len() && 0 <= k < remaining@.len() ==> nearest_step(
                        *self.problem,
                        perm@[i - 1],
                        perm@[i],
                        remaining@[k] as int,
                    ),
            decreases remaining@.len(),
        {
            let best_ri: usize;
            let best_vert: usize;
            if perm.len() == 0 {
                // random start
                let ri = rand_below(remaining.len());
                let start_group = remaining[ri];
                let v = rand_below(self.problem.groups[start_group].len());
                best_ri = ri;
                best_vert = v;
            } else {
                // nearest vertex of any unvisited group
                let curr = perm[perm.len() - 1];
                let curr_vert = self.problem.groups[curr.group][curr.vert];
                let mut b_ri: usize = 0;
                let mut b_vert: usize = 0;
                let mut best_dist: u64 = u64::MAX;
                let mut ri: usize = 0;
                while ri < remaining.len()
                    invariant
                        (*self.problem).wf(),
                        n == self.problem.groups@.len(),
                        remaining@.len() >= 1,
                        ri <= remaining@.len(),
                        forall|k: int|
                            0 <= k < remaining@.len() ==> (#[trigger] remaining@[k]) < n,
                        b_ri < remaining@.len(),
                        b_vert < self.problem.groups@[remaining@[b_ri as int] as int]@.len(),
                        curr_vert < self.problem.vert_count,
                        forall|k: int, v: int|
                            #![trigger self.problem.groups@[remaining@[k] as int]@[v]]
                            0 <= k < ri && 0 <= v < self.problem.groups@[remaining@[k] as int]@.len()
                                ==> best_dist <= self.problem.distances.dist_spec(
                                curr_vert as int,
                                self.problem.groups@[remaining@[k] as int]@[v] as int,
                            ),
                        best_dist < u64::MAX ==> best_dist == self.problem.distances.dist_spec(
                            curr_vert as int,
                            self.problem.groups@[remaining@[b_ri as int] as int]@[b_vert as int] as int,
                        ),
                        ri >= 1 ==> best_dist < u64::MAX,
                    decreases remaining@.len() - ri,
                {
                    let cand_group = remaining[ri];
                    let group_size = self.problem.groups[cand_group].len();
                    let mut vi: usize = 0;
                    while vi < group_size
                        invariant
                            (*self.problem).wf(),
                            n == self.problem.groups@.len(),
                            remaining@.len() >= 1,
                            ri < remaining@.len(),
                            cand_group == remaining@[ri as int],
                            cand_group < n,
                            group_size == self.problem.groups@[cand_group as int]@.len(),
                            vi <= group_size,
                            forall|k: int|
                                0 <= k < remaining@.len() ==> (#[trigger] remaining@[k]) < n,
                            b_ri < remaining@.len(),
                            b_vert < self.problem.groups@[remaining@[b_ri as int] as int]@.len(),
                            curr_vert < self.problem.vert_count,
                            forall|k: int, v: int|
                                #![trigger self.problem.groups@[remaining@[k] as int]@[v]]
                                0 <= k < ri && 0 <= v
                                    < self.problem.groups@[remaining@[k] as int]@.len()
                                    ==> best_dist <= self.problem.distances.dist_spec(
                                    curr_vert as int,
                                    self.problem.groups@[remaining@[k] as int]@[v] as int,
                                ),
                            forall|v: int|
                                0 <= v < vi ==> best_dist <= self.problem.distances.dist_spec(
                                    curr_vert as int,
                                    (#[trigger] self.problem.groups@[cand_group as int]@[v]) as int,
                                ),
                            best_dist < u64::MAX ==> best_dist
                                == self.problem.distances.dist_spec(
                                curr_vert as int,
                                self.problem.groups@[remaining@[b_ri as int] as int]@[b_vert as int] as int,
                            ),
                            ri >= 1 || vi >= 1 ==> best_dist < u64::MAX,
                        decreases group_size - vi,
                    {
                        let vert = self.problem.groups[cand_group][vi];
                        let dist = self.problem.distances.get(curr_vert, vert);
                        if dist < best_dist {
                            best_dist = dist;
                            b_ri = ri;
                            b_vert = vi;
                        }
                        vi = vi + 1;
                    }
                    proof {
                        assert forall|k: int, v: int|
                            #![trigger self.problem.groups@[remaining@[k] as int]@[v]]
                            0 <= k < ri + 1 && 0 <= v
                                < self.problem.groups@[remaining@[k] as int]@.len()
                            implies best_dist <= self.problem.distances.dist_spec(
                            curr_vert as int,
                            self.problem.groups@[remaining@[k] as int]@[v] as int,
                        ) by {
                            if k == ri {
                                assert(best_dist <= self.problem.distances.dist_spec(
                                    curr_vert as int,
                                    (self.problem.groups@[cand_group as int]@[v]) as int,
                                ));
                            }
                        }
                    }
                    ri = ri + 1;
                }
                best_ri = b_ri;
                best_vert = b_vert;
                proof {
                    assert(nearest_among(
                        *self.problem,
                        perm@[perm@.len() - 1],
                        (GroupVert { group: remaining@[best_ri as int], vert: best_vert }),
                        remaining@,
                    )) by {
                        assert(best_dist < u64::MAX);
                        assert forall|k: int|
                            0 <= k < remaining@.len() implies nearest_step(
                            *self.problem,
                            perm@[perm@.len() - 1],
                            (GroupVert { group: remaining@[best_ri as int], vert: best_vert }),
                            (#[trigger] remaining@[k]) as int,
                        ) by {
                            let prob = *self.problem;
                            let prev = perm@[perm@.len() - 1];
                            let nxt = GroupVert {
                                group: remaining@[best_ri as int],
                                vert: best_vert,
                            };
                            assert(visited_vertex(prob, prev) == curr_vert as int);
                            assert(visited_vertex(prob, nxt)
                                == prob.groups@[remaining@[best_ri as int] as int]@[best_vert as int] as int);
                            assert forall|v: int|
                                0 <= v < prob.groups@[remaining@[k] as int]@.len()
                                implies prob.distances.dist_spec(
                                visited_vertex(prob, prev),
                                visited_vertex(prob, nxt),
                            ) <= prob.distances.dist_spec(
                                visited_vertex(prob, prev),
                                (prob.groups@[remaining@[k] as int]@[v]) as int,
                            ) by {
                                assert(best_dist <= prob.distances.dist_spec(
                                    curr_vert as int,
                                    prob.groups@[remaining@[k] as int]@[v] as int,
                                ));
                            }
                        }
                    }
                }
            };
            let chosen_group = remaining[best_ri];
            let ghost pre_remaining = remaining@;
            let ghost pre_perm = perm@;
            remaining.remove(best_ri);
            perm.push(GroupVert { group: chosen_group, vert: best_vert });
            proof {
                assert forall|v: usize| v < n implies has_key(perm@, v as int)
                    || remaining@.contains(v) by {
                    if v == chosen_group {
                        assert(perm@[perm@.len() - 1].key_spec() == v);
                        assert(has_key(perm@, v as int));
                    } else if has_key(pre_perm, v as int) {
                        let w = choose|w: int|
                            0 <= w < pre_perm.len() && (#[trigger] pre_perm[w].key_spec())
                                == v as int;
                        assert(perm@[w].key_spec() == v);
                        assert(has_key(perm@, v as int));
                    } else {
                        assert(pre_remaining.contains(v));
                        let w = choose|w: int|
                            0 <= w < pre_remaining.len() && pre_remaining[w] == v;
                        if w < best_ri {
                            assert(remaining@[w] == v);
                        } else {
                            assert(w > best_ri);
                            assert(remaining@[w - 1] == v);
                        }
                        assert(remaining@.contains(v));
                    }
                }
                let ghost prob = *self.problem;
                let ghost nstop = (GroupVert { group: chosen_group, vert: best_vert });
                if pre_perm.len() >= 1 {
                    assert(nearest_among(
                        prob,
                        pre_perm[pre_perm.len() - 1],
                        nstop,
                        pre_remaining,
                    ));
                }
                assert forall|i: int, j: int|
                    #![trigger perm@[i], perm@[j]]
                    1 <= i <= j < perm@.len() implies nearest_step(
                    prob,
                    perm@[i - 1],
                    perm@[i],
                    perm@[j].group as int,
                ) by {
                    if j < perm@.len() - 1 {
                        assert(perm@[i - 1] == pre_perm[i - 1] && perm@[i] == pre_perm[i]
                            && perm@[j] == pre_perm[j]);
                        assert(nearest_step(
                            prob,
                            pre_perm[i - 1],
                            pre_perm[i],
                            pre_perm[j].group as int,
                        ));
                    } else {
                        assert(perm@[j] == nstop && nstop.group == chosen_group);
                        assert(pre_remaining[best_ri as int] == chosen_group);
                        if i < j {
                            assert(perm@[i - 1] == pre_perm[i - 1] && perm@[i] == pre_perm[i]);
                            assert(nearest_step(
                                prob,
                                pre_perm[i - 1],
                                pre_perm[i],
                                pre_remaining[best_ri as int] as int,
                            ));
                        } else {
                            assert(pre_perm.len() >= 1);
                            assert(perm@[i] == nstop);
                            assert(perm@[i - 1] == pre_perm[pre_perm.len() - 1]);
                            assert(nearest_step(
                                prob,
                                pre_perm[pre_perm.len() - 1],
                                nstop,
                                (pre_remaining[best_ri as int]) as int,
                            ));
                        }
                    }
                }
                assert forall|i: int, k: int|
                    #![trigger perm@[i], remaining@[k]]
                    1 <= i < perm@.len() && 0 <= k < remaining@.len() implies nearest_step(
                    prob,
                    perm@[i - 1],
                    perm@[i],
                    remaining@[k] as int,
                ) by {
                    let kp: int = if k < best_ri as int {
                        k
                    } else {
                        k + 1
                    };
                    assert(pre_remaining[kp] == remaining@[k]);
                    if i < perm@.len() - 1 {
                        assert(perm@[i - 1] == pre_perm[i - 1] && perm@[i] == pre_perm[i]);
                        assert(nearest_step(
                            prob,
                            pre_perm[i - 1],
                            pre_perm[i],
                            pre_remaining[kp] as int,
                        ));
                    } else {
                        assert(pre_perm.len() >= 1);
                        assert(perm@[i] == nstop);
                        assert(perm@[i - 1] == pre_perm[pre_perm.len() - 1]);
                        assert(nearest_step(
                            prob,
                            pre_perm[pre_perm.len() - 1],
                            nstop,
                            (pre_remaining[kp]) as int,
                        ));
                    }
                }
            }
        }
        proof {
            assert forall|v: int| 0 <= v < perm@.len() implies #[trigger] has_key(perm@, v) by {
                assert(has_key(perm@, v) || remaining@.contains(v as usize));
            }
            assert(key_perm(perm@));
            assert(greedy_tour(*self.problem, perm@));
        }
        let ghost gperm = perm@;
        let r = GtspPermutation { problem: Rc::clone(&self.problem), perm };
        proof {
            assert(r@.1 == gperm);
            assert(r@.0 == *self.problem);
            assert(greedy_tour(r@.0, r@.1));
        }
        r
    }
}

impl InitFunc<GtspPermutation> for InitHeuristicGtspPopulation {
    fn init(&self) -> (r: GtspPermutation)
        ensures
            r@.0 == self.problem_spec(),
            greedy_tour(r@.0, r@.1),
    {
        self.gen_perm()
    }
}

impl InitPopulation<GtspPermutation> for InitHeuristicGtspPopulation {
    closed spec fn popsize(&self) -> int {
        self.size as int
    }

    fn init_pop(&self) -> (r: Vec<GtspPermutation>)
        ensures
            forall|k: int| 0 <= k < r@.len() ==> (#[trigger] r@[k])@.0 == self.problem_spec(),
            forall|k: int| 0 <= k < r@.len() ==> greedy_tour((#[trigger] r@[k])@.0, r@[k]@.1),
    {
        proof {
            use_type_invariant(self);
        }
        let mut out: Vec<GtspPermutation> = Vec::new();
        let mut i: usize = 0;
        while i < self.size
            invariant
                i <= self.size,
                out@.len() == i,
                pop_inv(out@),
                forall|k: int| 0 <= k < out@.len() ==> (#[trigger] out@[k])@.0 == self.problem_spec(),
                forall|k: int| 0 <= k < out@.len() ==> greedy_tour((#[trigger] out@[k])@.0, out@[k]@.1),
            decreases self.size - i,
        {
            out.push(self.gen_perm());
            i = i + 1;
        }
        out
    }

    fn duplicate(&self) -> (r: Self)
        ensures
            r.problem_spec() == self.problem_spec(),
    {
        proof {
            use_type_invariant(self);
        }
        InitHeuristicGtspPopulation { problem: Rc::clone(&self.problem), size: self.size }
    }
}

/// Any one of the group-tour mutation operators, so that operators of
/// different kinds can stand together in one weighted combination.
#[derive(Clone)]
pub enum GtspPerturbation {
    MoveGroup(GtspMoveGroupPerturbation),
    SwapGroup(GtspSwapGroupPerturbation),
    ReverseGroup(GtspReverseGroupPerturbation),
    RandVert(GtspRandGroupVertPerturbation),
    RouletteVert(GtspRouletteWheelGroupVertPerturbation),
}

impl PerturbeMutOp<GtspPermutation> for GtspPerturbation {
    fn eval(&self, data: &mut GtspPermutation) {
        match self {
            GtspPerturbation::MoveGroup(op) => op.eval(data),
            GtspPerturbation::SwapGroup(op) => op.eval(data),
            GtspPerturbation::ReverseGroup(op) => op.eval(data),
            GtspPerturbation::RandVert(op) => op.eval(data),
            GtspPerturbation::RouletteVert(op) => op.eval(data),
        }
    }

    fn update(&mut self, _iter_diff: i64, _dim: usize) {
    }

    fn duplicate(&self) -> Self {
        match self {
            GtspPerturbation::MoveGroup(op) => GtspPerturbation::MoveGroup(op.duplicate()),
            GtspPerturbation::SwapGroup(op) => GtspPerturbation::SwapGroup(op.duplicate()),
            GtspPerturbation::ReverseGroup(op) => GtspPerturbation::ReverseGroup(op.duplicate()),
            GtspPerturbation::RandVert(op) => GtspPerturbation::RandVert(op.duplicate()),
            GtspPerturbation::RouletteVert(op) => GtspPerturbation::RouletteVert(op.duplicate()),
        }
    }
}

} // verus!
