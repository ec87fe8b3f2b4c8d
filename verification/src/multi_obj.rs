use vstd::prelude::*;

use std::cmp::Ordering;

use crate::opt_data::clone_vec_copy;
use crate::opt_traits::{
    dominates, pop_inv, sat_sub, Fitness, FitnessTransformer, OptData, Solution, Statistics,
};
use crate::sorting::{key_lt, sort_indices_by_fitness};

verus! {

/// Scale used to keep crowding distances as integers: each objective
/// contributes `|gap| * CROWDING_SCALE / range` for interior members.
pub const CROWDING_SCALE: u64 = 0x1_0000_0000;

/// A crowding distance: either infinite (front boundaries, always
/// preferred) or a finite accumulated value.
#[derive(Debug, Clone, Copy, PartialEq, Eq, Structural)]
pub struct Crowding {
    pub is_infinite: bool,
    pub value: u64,
}

/// `a` is strictly larger (more isolated, so better) than `b`.
pub open spec fn crowding_gt(a: Crowding, b: Crowding) -> bool {
    ||| (a.is_infinite && !b.is_infinite)
    ||| (!a.is_infinite && !b.is_infinite && a.value > b.value)
}

/// Two crowding distances are equally large.
pub open spec fn crowding_eq(a: Crowding, b: Crowding) -> bool {
    ||| (a.is_infinite && b.is_infinite)
    ||| (!a.is_infinite && !b.is_infinite && a.value == b.value)
}

/// The optimization fitness NSGA-II derives: the front index (lower is
/// better) and, within a front, the crowding distance (larger is better).
#[derive(Debug, Clone, Copy, PartialEq, Eq, Structural)]
pub struct NSGA2Fitness {
    pub front: usize,
    pub crowding_dist: Crowding,
}

impl View for NSGA2Fitness {
    type V = NSGA2Fitness;

    open spec fn view(&self) -> NSGA2Fitness {
        *self
    }
}

impl Fitness for NSGA2Fitness {
    open spec fn cmp_spec(a: NSGA2Fitness, b: NSGA2Fitness) -> Ordering {
        if a.front < b.front {
            Ordering::Less
        } else if a.front > b.front {
            Ordering::Greater
        } else if crowding_gt(a.crowding_dist, b.crowding_dist) {
            Ordering::Less
        } else if crowding_eq(a.crowding_dist, b.crowding_dist) {
            Ordering::Equal
        } else {
            Ordering::Greater
        }
    }

    open spec fn deterministic() -> bool {
        true
    }

    open spec fn totally_ordered() -> bool {
        true
    }

    proof fn cmp_flip(a: NSGA2Fitness, b: NSGA2Fitness) {
    }

    proof fn cmp_transitive(a: NSGA2Fitness, b: NSGA2Fitness, c: NSGA2Fitness) {
    }

    fn opt_cmp(f1: &NSGA2Fitness, f2: &NSGA2Fitness) -> (r: Ordering) {
        if f1.front < f2.front {
            Ordering::Less
        } else if f1.front > f2.front {
            Ordering::Greater
        } else {
            let gt = (f1.crowding_dist.is_infinite && !f2.crowding_dist.is_infinite) || (
            !f1.crowding_dist.is_infinite && !f2.crowding_dist.is_infinite
                && f1.crowding_dist.value > f2.crowding_dist.value);
            let eq = (f1.crowding_dist.is_infinite && f2.crowding_dist.is_infinite) || (
            !f1.crowding_dist.is_infinite && !f2.crowding_dist.is_infinite
                && f1.crowding_dist.value == f2.crowding_dist.value);
            if gt {
                Ordering::Less
            } else if eq {
                Ordering::Equal
            } else {
                Ordering::Greater
            }
        }
    }

    fn diff(_curr: &NSGA2Fitness, _prev: &NSGA2Fitness) -> i64 {
        i64::MAX
    }

    fn duplicate(&self) -> (r: NSGA2Fitness) {
        *self
    }
}

/// Exact dominance check over the objectives two vectors share.
fn dominates_exec(a: &Vec<i64>, b: &Vec<i64>) -> (r: bool)
    ensures
        r == dominates(a@, b@),
{
    let n = if a.len() <= b.len() {
        a.len()
    } else {
        b.len()
    };
    let mut some_better = false;
    let mut i: usize = 0;
    while i < n
        invariant
            i <= n,
            n <= a@.len(),
            n <= b@.len(),
            n == if a@.len() <= b@.len() {
                a@.len() as int
            } else {
                b@.len() as int
            },
            forall|k: int| 0 <= k < i ==> #[trigger] a@[k] <= b@[k],
            some_better == exists|k: int| 0 <= k < i && #[trigger] a@[k] < b@[k],
        decreases n - i,
    {
        if a[i] > b[i] {
            return false;
        }
        if a[i] < b[i] {
            some_better = true;
        }
        i = i + 1;
    }
    some_better
}

/// Member `i` of the set is dominated by some member of it.
pub open spec fn is_dominated(fs: Seq<Vec<i64>>, i: int) -> bool {
    exists|j: int| 0 <= j < fs.len() && dominates((#[trigger] fs[j])@, fs[i]@)
}

/// Whether some member of the set strictly dominates member `i`.
fn dominated_by_any(fitness_in: &Vec<Vec<i64>>, i: usize) -> (r: bool)
    requires
        i < fitness_in@.len(),
    ensures
        r == is_dominated(fitness_in@, i as int),
{
    let mut j: usize = 0;
    while j < fitness_in.len()
        invariant
            i < fitness_in@.len(),
            j <= fitness_in@.len(),
            forall|k: int|
                0 <= k < j ==> !dominates((#[trigger] fitness_in@[k])@, fitness_in@[i as int]@),
        decreases fitness_in@.len() - j,
    {
        if dominates_exec(&fitness_in[j], &fitness_in[i]) {
            return true;
        }
        j = j + 1;
    }
    false
}

/// The front index of every member, in order.
pub open spec fn front_seq(out: Seq<NSGA2Fitness>) -> Seq<usize> {
    Seq::new(out.len(), |k: int| out[k].front)
}

/// Member `i` is, within its front, weakly extreme in objective `m`:
/// no front mate is strictly smaller (or none strictly larger).
pub open spec fn weak_extreme(fs: Seq<Vec<i64>>, fronts: Seq<usize>, i: int, m: int) -> bool {
    ||| forall|j: int|
        0 <= j < fs.len() && fronts[j] == fronts[i] && m < (#[trigger] fs[j])@.len() ==> fs[i]@[m]
            <= fs[j]@[m]
    ||| forall|j: int|
        0 <= j < fs.len() && fronts[j] == fronts[i] && m < (#[trigger] fs[j])@.len() ==> fs[i]@[m]
            >= fs[j]@[m]
}

/// All objective vectors of the set share one dimension.
pub open spec fn uniform_dims(fs: Seq<Vec<i64>>) -> bool {
    forall|i: int, j: int|
        0 <= i < fs.len() && 0 <= j < fs.len() ==> (#[trigger] fs[i])@.len() == (
        #[trigger] fs[j])@.len()
}

/// Member `k` belongs to the second front: it is dominated, but only by
/// members that are themselves non-dominated.
pub open spec fn in_second_front(fs: Seq<Vec<i64>>, k: int) -> bool {
    &&& is_dominated(fs, k)
    &&& !(exists|j: int|
        0 <= j < fs.len() && is_dominated(fs, j) && dominates((#[trigger] fs[j])@, fs[k]@))
}

/// Member `t` is dominated by some member that `asg` still leaves
/// unassigned.
pub open spec fn dominated_among(fs: Seq<Vec<i64>>, asg: Seq<bool>, t: int) -> bool {
    exists|j: int| 0 <= j < fs.len() && !asg[j] && dominates((#[trigger] fs[j])@, fs[t]@)
}

/// Some assigned member carries the front value `f`.
pub open spec fn front_used(asg: Seq<bool>, fr: Seq<usize>, f: int) -> bool {
    exists|j: int| 0 <= j < fr.len() && #[trigger] asg[j] && (fr[j] as int) == f
}

/// Some member carries the front value `f`.
pub open spec fn front_value_used(fr: Seq<usize>, f: int) -> bool {
    exists|j: int| 0 <= j < fr.len() && ((#[trigger] fr[j]) as int) == f
}

/// Every front value used by an assigned member has every smaller value
/// used by some assigned member as well.
pub open spec fn used_below(asg: Seq<bool>, fr: Seq<usize>) -> bool {
    forall|k: int, f: int|
        0 <= k < fr.len() && asg[k] && 0 <= f < (#[trigger] fr[k]) as int ==> #[trigger] front_used(
            asg,
            fr,
            f,
        )
}

/// Every front value below `round` is used by some assigned member.
pub open spec fn rounds_inhabited(asg: Seq<bool>, fr: Seq<usize>, round: int) -> bool {
    forall|f: int| 0 <= f < round ==> #[trigger] front_used(asg, fr, f)
}

/// The used front values are contiguous from zero: every value below a
/// used one is used.
pub open spec fn fronts_contiguous(fr: Seq<usize>) -> bool {
    forall|i: int, f: int|
        0 <= i < fr.len() && 0 <= f < (#[trigger] fr[i]) as int ==> #[trigger] front_value_used(
            fr,
            f,
        )
}

proof fn lemma_used_below_at(asg: Seq<bool>, fr: Seq<usize>, k: int, f: int)
    requires
        used_below(asg, fr),
        0 <= k < fr.len(),
        asg[k],
        0 <= f < fr[k] as int,
    ensures
        front_used(asg, fr, f),
{
}

proof fn lemma_rounds_inhabited_at(asg: Seq<bool>, fr: Seq<usize>, round: int, f: int)
    requires
        rounds_inhabited(asg, fr, round),
        0 <= f < round,
    ensures
        front_used(asg, fr, f),
{
}

/// One assigned witness per front value below `round`, in order.
proof fn build_front_witnesses(asg: Seq<bool>, fr: Seq<usize>, round: int) -> (w: Seq<usize>)
    requires
        asg.len() == fr.len(),
        fr.len() <= usize::MAX,
        rounds_inhabited(asg, fr, round),
        round >= 0,
    ensures
        w.len() == round,
        forall|f: int|
            0 <= f < round ==> ((#[trigger] w[f]) as int) < fr.len() && asg[w[f] as int] && (
            fr[w[f] as int] as int) == f,
    decreases round,
{
    if round <= 0 {
        Seq::empty()
    } else {
        let prev = build_front_witnesses(asg, fr, round - 1);
        lemma_rounds_inhabited_at(asg, fr, round, round - 1);
        assert(front_used(asg, fr, round - 1));
        let j = choose|j: int| 0 <= j < fr.len() && #[trigger] asg[j] && (fr[j] as int) == round - 1;
        assert(0 <= j <= usize::MAX);
        let w = prev.push(j as usize);
        assert((j as usize) as int == j);
        assert forall|f: int|
            0 <= f < round implies ((#[trigger] w[f]) as int) < fr.len() && asg[w[f] as int] && (
        fr[w[f] as int] as int) == f by {
            if f < round - 1 {
                assert(w[f] == prev[f]);
            } else {
                assert(w[f] == j as usize);
            }
        }
        w
    }
}

/// The ascending positions among the first `c` members whose front index
/// is `f`.
pub open spec fn members_upto(fr: Seq<usize>, f: usize, c: int) -> Seq<int>
    decreases c,
{
    if c <= 0 {
        Seq::empty()
    } else {
        let p = members_upto(fr, f, c - 1);
        if fr[c - 1] == f {
            p.push(c - 1)
        } else {
            p
        }
    }
}

/// The objective-`m` column of the listed members, in order.
pub open spec fn col_of(fs: Seq<Vec<i64>>, mem: Seq<int>, m: int) -> Seq<i64> {
    Seq::new(
        mem.len(),
        |k: int|
            if m < fs[mem[k]]@.len() {
                fs[mem[k]]@[m]
            } else {
                0
            },
    )
}

/// The least objective-`m` value among the first `c` members, starting
/// from the largest representable value.
pub open spec fn col_lo(fs: Seq<Vec<i64>>, m: int, c: int) -> int
    decreases c,
{
    if c <= 0 {
        i64::MAX as int
    } else {
        let p = col_lo(fs, m, c - 1);
        if m < fs[c - 1]@.len() && (fs[c - 1]@[m] as int) < p {
            fs[c - 1]@[m] as int
        } else {
            p
        }
    }
}

/// The greatest objective-`m` value among the first `c` members, starting
/// from the least representable value.
pub open spec fn col_hi(fs: Seq<Vec<i64>>, m: int, c: int) -> int
    decreases c,
{
    if c <= 0 {
        i64::MIN as int
    } else {
        let p = col_hi(fs, m, c - 1);
        if m < fs[c - 1]@.len() && (fs[c - 1]@[m] as int) > p {
            fs[c - 1]@[m] as int
        } else {
            p
        }
    }
}

/// The whole set's objective-`m` range, zero when it does not spread.
pub open spec fn range_of(fs: Seq<Vec<i64>>, m: int) -> int {
    let lo = col_lo(fs, m, fs.len() as int);
    let hi = col_hi(fs, m, fs.len() as int);
    if hi > lo {
        if hi - lo > i64::MAX as int {
            i64::MAX as int
        } else {
            hi - lo
        }
    } else {
        0
    }
}

/// Which of three column entries is the middle under the sort order:
/// strictly by value, ties toward the smaller position.
pub open spec fn middle3(col: Seq<i64>) -> int {
    if key_lt::<i64>(col, 0, 1) {
        if key_lt::<i64>(col, 1, 2) {
            1
        } else if key_lt::<i64>(col, 0, 2) {
            2
        } else {
            0
        }
    } else {
        if key_lt::<i64>(col, 0, 2) {
            0
        } else if key_lt::<i64>(col, 1, 2) {
            2
        } else {
            1
        }
    }
}

/// The first of three column entries under the sort order.
pub open spec fn low3(col: Seq<i64>) -> int {
    if key_lt::<i64>(col, 0, 1) {
        if key_lt::<i64>(col, 0, 2) {
            0
        } else {
            2
        }
    } else {
        if key_lt::<i64>(col, 1, 2) {
            1
        } else {
            2
        }
    }
}

/// The last of three column entries under the sort order.
pub open spec fn high3(col: Seq<i64>) -> int {
    if key_lt::<i64>(col, 0, 1) {
        if key_lt::<i64>(col, 1, 2) {
            2
        } else {
            1
        }
    } else {
        if key_lt::<i64>(col, 0, 2) {
            2
        } else {
            0
        }
    }
}

/// The scaled share one objective hands the middle member of a
/// three-member front: the outer gap over the whole set's range.
pub open spec fn share3(fs: Seq<Vec<i64>>, mem: Seq<int>, m: int) -> int {
    let col = col_of(fs, mem, m);
    let lo3 = col[low3(col)];
    let hi3 = col[high3(col)];
    let gap = if hi3 >= lo3 {
        hi3 - lo3
    } else {
        lo3 - hi3
    };
    let gap64 = if gap > i64::MAX as int {
        i64::MAX as int
    } else {
        gap
    };
    let scaled = gap64 * (CROWDING_SCALE as int) / range_of(fs, m);
    if scaled > u64::MAX as int {
        u64::MAX as int
    } else {
        scaled
    }
}

/// A sort of exactly three entries places the middle entry second and the
/// extremes first and last.
proof fn lemma_sorted3(col: Seq<i64>, order: Seq<usize>)
    requires
        col.len() == 3,
        crate::sorting::is_index_perm(order, 3),
        forall|p: int, q: int|
            0 <= p < q < 3 ==> key_lt::<i64>(col, order[p] as int, order[q] as int),
    ensures
        order[1] as int == middle3(col),
        order[0] as int == low3(col),
        order[2] as int == high3(col),
{
    let a = order[0] as int;
    let b = order[1] as int;
    let c = order[2] as int;
    assert(a < 3 && b < 3 && c < 3);
    assert(a != b && a != c && b != c);
    assert(key_lt::<i64>(col, a, b) && key_lt::<i64>(col, b, c) && key_lt::<i64>(col, a, c));
    assert forall|x: int, y: int| 0 <= x < 3 && 0 <= y < 3 && x != y implies (key_lt::<i64>(
        col,
        x,
        y,
    ) <==> !key_lt::<i64>(col, y, x)) by {
        if !key_lt::<i64>(col, x, y) {
            crate::sorting::lemma_key_total::<i64>(col, x, y);
        }
        if !key_lt::<i64>(col, y, x) {
            crate::sorting::lemma_key_total::<i64>(col, y, x);
        }
        if key_lt::<i64>(col, x, y) && key_lt::<i64>(col, y, x) {
            assert(false);
        }
    }
}

/// The saturating crowding total member `i` of the three-member front
/// `mem` accumulates over the first `m` objectives.
pub open spec fn crowd3_upto(fs: Seq<Vec<i64>>, mem: Seq<int>, i: int, m: int) -> int
    decreases m,
{
    if m <= 0 {
        0
    } else {
        let p = crowd3_upto(fs, mem, i, m - 1);
        if range_of(fs, m - 1) > 0 && mem[middle3(col_of(fs, mem, m - 1))] == i {
            let sum = p + share3(fs, mem, m - 1);
            if sum > u64::MAX as int {
                u64::MAX as int
            } else {
                sum
            }
        } else {
            p
        }
    }
}

/// What the member listing guarantees: entries are the ascending
/// positions below `c` whose front index is `f`, and it misses none.
proof fn lemma_members_upto(fr: Seq<usize>, f: usize, c: int)
    requires
        0 <= c <= fr.len(),
    ensures
        forall|k: int|
            0 <= k < members_upto(fr, f, c).len() ==> 0 <= #[trigger] members_upto(fr, f, c)[k]
                < c && fr[members_upto(fr, f, c)[k]] == f,
        forall|i: int| 0 <= i < c && fr[i] == f ==> members_upto(fr, f, c).contains(i),
        forall|k1: int, k2: int|
            0 <= k1 < k2 < members_upto(fr, f, c).len() ==> members_upto(fr, f, c)[k1]
                < members_upto(fr, f, c)[k2],
    decreases c,
{
    if c > 0 {
        lemma_members_upto(fr, f, c - 1);
        let p = members_upto(fr, f, c - 1);
        let w = members_upto(fr, f, c);
        if fr[c - 1] == f {
            assert(w == p.push(c - 1));
            assert forall|i: int| 0 <= i < c && fr[i] == f implies w.contains(i) by {
                if i < c - 1 {
                    let t = choose|t: int| 0 <= t < p.len() && p[t] == i;
                    assert(w[t] == i);
                } else {
                    assert(w[w.len() - 1] == i);
                }
            }
        } else {
            assert(w == p);
            assert forall|i: int| 0 <= i < c && fr[i] == f implies w.contains(i) by {
                if i < c - 1 {
                    let t = choose|t: int| 0 <= t < p.len() && p[t] == i;
                    assert(w[t] == i);
                }
            }
        }
    }
}

/// The members marked assigned with front index 1 are exactly the second
/// front of the set.
pub open spec fn front1_exact(fs: Seq<Vec<i64>>, asg: Seq<bool>, fr: Seq<usize>) -> bool {
    forall|k: int|
        0 <= k < fs.len() ==> ((asg[k] && (#[trigger] fr[k]) == 1) <==> in_second_front(fs, k))
}

proof fn lemma_front1_exact_at(fs: Seq<Vec<i64>>, asg: Seq<bool>, fr: Seq<usize>, k: int)
    requires
        front1_exact(fs, asg, fr),
        0 <= k < fs.len(),
    ensures
        (asg[k] && fr[k] == 1) <==> in_second_front(fs, k),
{
}

proof fn lemma_dominates_irreflexive(a: Seq<i64>)
    ensures
        !dominates(a, a),
{
}

proof fn lemma_dominates_transitive(a: Seq<i64>, b: Seq<i64>, c: Seq<i64>)
    requires
        a.len() == b.len(),
        b.len() == c.len(),
        dominates(a, b),
        dominates(b, c),
    ensures
        dominates(a, c),
{
    let i0 = choose|i: int| 0 <= i < a.len() && #[trigger] a[i] < b[i];
    assert(a[i0] < c[i0]);
}

/// Every finite, non-empty set of members with one shared dimension has a
/// member that no other member of the set dominates.
proof fn lemma_minimal_exists(fs: Seq<Vec<i64>>, s: Set<int>, x: int)
    requires
        s.finite(),
        s.contains(x),
        forall|i: int| #[trigger] s.contains(i) ==> 0 <= i < fs.len(),
        uniform_dims(fs),
    ensures
        exists|m: int|
            #![trigger s.contains(m)]
            s.contains(m) && !(exists|j: int|
                #[trigger] s.contains(j) && dominates(fs[j]@, fs[m]@)),
    decreases s.len(),
{
    if exists|y: int| #[trigger] s.contains(y) && dominates(fs[y]@, fs[x]@) {
        let y = choose|y: int| #[trigger] s.contains(y) && dominates(fs[y]@, fs[x]@);
        lemma_dominates_irreflexive(fs[x]@);
        assert(y != x);
        let s2 = s.remove(x);
        assert(s2.contains(y));
        assert(s2.len() < s.len());
        lemma_minimal_exists(fs, s2, y);
        let m = choose|m: int|
            #![trigger s2.contains(m)]
            s2.contains(m) && !(exists|j: int|
                #[trigger] s2.contains(j) && dominates(fs[j]@, fs[m]@));
        assert forall|j: int| #[trigger] s.contains(j) implies !dominates(fs[j]@, fs[m]@) by {
            if j == x {
                if dominates(fs[x]@, fs[m]@) {
                    lemma_dominates_transitive(fs[y]@, fs[x]@, fs[m]@);
                    assert(s2.contains(y) && dominates(fs[y]@, fs[m]@));
                }
            } else {
                assert(s2.contains(j) ==> !dominates(fs[j]@, fs[m]@));
            }
        }
        assert(s.contains(m) && !(exists|j: int|
            #[trigger] s.contains(j) && dominates(fs[j]@, fs[m]@)));
    } else {
        assert(s.contains(x) && !(exists|j: int|
            #[trigger] s.contains(j) && dominates(fs[j]@, fs[x]@)));
    }
}

/// Derives front indices and crowding distances from the raw objective
/// vectors of a whole population.
#[derive(Clone)]
pub struct NSGA2FitnessTransformer {}

impl NSGA2FitnessTransformer {
    pub fn new() -> (r: Self) {
        NSGA2FitnessTransformer {  }
    }

    /// Non-dominated sorting with crowding distances.
    ///
    /// Front 0 is exactly the set of members no other member strictly
    /// dominates; later fronts repeat that on what remains. Within each
    /// front, a member weakly extreme in some objective (no front mate
    /// strictly below it, or none strictly above it) gets an infinite
    /// crowding distance; interior members accumulate their neighbours'
    /// normalized gap in each objective, and an objective whose range over
    /// the whole set is zero contributes nothing.
    pub fn derive(&self, fitness_in: &Vec<Vec<i64>>, fitness_out: &mut Vec<NSGA2Fitness>)
        ensures
            final(fitness_out)@.len() == fitness_in@.len(),
            forall|i: int|
                0 <= i < fitness_in@.len() ==> ((#[trigger] final(fitness_out)@[i]).front == 0
                    <==> !is_dominated(fitness_in@, i)),
            forall|i: int, m: int|
                0 <= i < fitness_in@.len() && 0 <= m < fitness_in@[i]@.len()
                    && #[trigger] weak_extreme(
                    fitness_in@,
                    front_seq(final(fitness_out)@),
                    i,
                    m,
                ) ==> final(fitness_out)@[i].crowding_dist.is_infinite,
            forall|i: int|
                0 <= i < fitness_in@.len() && (#[trigger] final(fitness_out)@[i]).crowding_dist.is_infinite
                    ==> exists|m: int|
                    0 <= m < fitness_in@[i]@.len() && weak_extreme(
                        fitness_in@,
                        front_seq(final(fitness_out)@),
                        i,
                        m,
                    ),
            uniform_dims(fitness_in@) ==> (forall|i: int|
                0 <= i < fitness_in@.len() ==> ((#[trigger] final(fitness_out)@[i]).front == 1
                    <==> in_second_front(fitness_in@, i))),
            uniform_dims(fitness_in@) ==> fronts_contiguous(front_seq(final(fitness_out)@)),
            uniform_dims(fitness_in@) ==> (forall|i: int|
                #![trigger final(fitness_out)@[i]]
                0 <= i < fitness_in@.len() && members_upto(
                    front_seq(final(fitness_out)@),
                    front_seq(final(fitness_out)@)[i],
                    fitness_in@.len() as int,
                ).len() == 3 ==> final(fitness_out)@[i].crowding_dist.value as int == crowd3_upto(
                    fitness_in@,
                    members_upto(
                        front_seq(final(fitness_out)@),
                        front_seq(final(fitness_out)@)[i],
                        fitness_in@.len() as int,
                    ),
                    i,
                    fitness_in@[0]@.len() as int,
                )),
    {
        let n = fitness_in.len();
        let mut fronts: Vec<usize> = Vec::new();
        let mut assigned: Vec<bool> = Vec::new();
        let mut z: usize = 0;
        while z < n
            invariant
                z <= n,
                fronts@.len() == z,
                assigned@.len() == z,
                forall|k: int| 0 <= k < z ==> !(#[trigger] assigned@[k]),
                forall|k: int| 0 <= k < z ==> (#[trigger] fronts@[k]) == 0,
            decreases n - z,
        {
            fronts.push(0);
            assigned.push(false);
            z = z + 1;
        }
        // front 0: exactly the members nothing dominates
        let mut i: usize = 0;
        while i < n
            invariant
                n == fitness_in@.len(),
                i <= n,
                fronts@.len() == n,
                assigned@.len() == n,
                forall|k: int|
                    0 <= k < i ==> (#[trigger] assigned@[k]) == !is_dominated(fitness_in@, k),
                forall|k: int| 0 <= k < n ==> (#[trigger] fronts@[k]) == 0,
                forall|k: int| i <= k < n ==> !(#[trigger] assigned@[k]),
            decreases n - i,
        {
            if !dominated_by_any(fitness_in, i) {
                assigned[i] = true;
            }
            i = i + 1;
        }
        let ghost front0 = assigned@;
        proof {
            assert(forall|k: int|
                0 <= k < n ==> (#[trigger] front0[k]) == !is_dominated(fitness_in@, k));
            assert(front0.len() == n);
            assert(used_below(assigned@, fronts@));
            if uniform_dims(fitness_in@) && n >= 1 {
                let s0 = Set::new(|t: int| 0 <= t < n);
                let rng0 = vstd::set_lib::set_int_range(0, n as int);
                vstd::set_lib::lemma_int_range(0, n as int);
                assert(s0.subset_of(rng0));
                vstd::set_lib::lemma_len_subset(s0, rng0);
                assert(s0.contains(0));
                lemma_minimal_exists(fitness_in@, s0, 0);
                let m0 = choose|m: int|
                    #![trigger s0.contains(m)]
                    s0.contains(m) && !(exists|j: int|
                        #[trigger] s0.contains(j) && dominates(fitness_in@[j]@, fitness_in@[m]@));
                assert(!is_dominated(fitness_in@, m0)) by {
                    if is_dominated(fitness_in@, m0) {
                        let j0 = choose|j: int|
                            0 <= j < fitness_in@.len() && dominates(
                                (#[trigger] fitness_in@[j])@,
                                fitness_in@[m0]@,
                            );
                        assert(s0.contains(j0));
                    }
                }
                assert(front0[m0] && assigned@[m0] && (fronts@[m0] as int) == 0);
                assert(front_used(assigned@, fronts@, 0));
                assert(rounds_inhabited(assigned@, fronts@, 1));
            }
        }
        // later fronts: peel the non-dominated members off what remains,
        // one round per front; a round that peels nothing closes by taking
        // everything left (defensive, cannot happen for finite strict
        // dominance)
        let mut round: usize = 1;
        while round < n
            invariant
                n == fitness_in@.len(),
                fronts@.len() == n,
                assigned@.len() == n,
                1 <= round,
                front0.len() == n,
                forall|k: int|
                    0 <= k < n ==> (#[trigger] front0[k]) == !is_dominated(fitness_in@, k),
                forall|k: int|
                    0 <= k < n ==> ((#[trigger] front0[k]) ==> assigned@[k] && fronts@[k] == 0),
                forall|k: int|
                    0 <= k < n && !front0[k] && (#[trigger] assigned@[k]) ==> fronts@[k] >= 1,
                round == 1 ==> assigned@ == front0 && (forall|k: int|
                    0 <= k < n ==> (#[trigger] fronts@[k]) == 0),
                uniform_dims(fitness_in@) && round >= 2 ==> front1_exact(
                    fitness_in@,
                    assigned@,
                    fronts@,
                ),
                uniform_dims(fitness_in@) ==> used_below(assigned@, fronts@),
                uniform_dims(fitness_in@) && (exists|t: int|
                    0 <= t < n && !(#[trigger] assigned@[t])) ==> rounds_inhabited(
                    assigned@,
                    fronts@,
                    round as int,
                ),
                forall|k: int|
                    0 <= k < n && (#[trigger] assigned@[k]) ==> (fronts@[k] as int) < round as int,
                n >= 2 ==> round <= n,
                n < 2 ==> round == 1,
            decreases n - round,
        {
            let ghost pre_asg = assigned@;
            let ghost pre_fr = fronts@;
            proof {
                if uniform_dims(fitness_in@) {
                    assert(used_below(pre_asg, pre_fr));
                    if exists|t: int| 0 <= t < n && !(#[trigger] pre_asg[t]) {
                        assert(rounds_inhabited(pre_asg, pre_fr, round as int));
                    }
                }
                if uniform_dims(fitness_in@) && round >= 2 {
                    assert(front1_exact(fitness_in@, pre_asg, pre_fr));
                    assert forall|k: int|
                        0 <= k < n implies (((#[trigger] pre_asg[k]) && pre_fr[k] == 1)
                        <==> in_second_front(fitness_in@, k)) by {
                        lemma_front1_exact_at(fitness_in@, pre_asg, pre_fr, k);
                    }
                }
            }
            let mut peel: Vec<bool> = Vec::new();
            let mut any_peel = false;
            let mut i2: usize = 0;
            while i2 < n
                invariant
                    n == fitness_in@.len(),
                    assigned@.len() == n,
                    assigned@ == pre_asg,
                    fronts@ == pre_fr,
                    i2 <= n,
                    peel@.len() == i2,
                    forall|t: int|
                        0 <= t < i2 ==> ((#[trigger] peel@[t]) <==> (!pre_asg[t]
                            && !dominated_among(fitness_in@, pre_asg, t))),
                    any_peel <==> (exists|t: int| 0 <= t < i2 && #[trigger] peel@[t]),
                decreases n - i2,
            {
                let mut flag = false;
                if !assigned[i2] {
                    let mut dominated = false;
                    let mut j2: usize = 0;
                    while j2 < n
                        invariant
                            n == fitness_in@.len(),
                            assigned@.len() == n,
                            assigned@ == pre_asg,
                            i2 < n,
                            j2 <= n,
                            dominated <==> (exists|j: int|
                                0 <= j < j2 && !pre_asg[j] && dominates(
                                    (#[trigger] fitness_in@[j])@,
                                    fitness_in@[i2 as int]@,
                                )),
                        decreases n - j2,
                    {
                        if !assigned[j2] && dominates_exec(&fitness_in[j2], &fitness_in[i2]) {
                            dominated = true;
                            proof {
                                assert(0 <= (j2 as int) < j2 + 1 && !pre_asg[j2 as int] && dominates(
                                    (fitness_in@[j2 as int])@,
                                    fitness_in@[i2 as int]@,
                                ));
                            }
                        }
                        j2 = j2 + 1;
                    }
                    flag = !dominated;
                    proof {
                        assert(dominated <==> dominated_among(fitness_in@, pre_asg, i2 as int));
                    }
                }
                let ghost pp = peel@;
                let ghost old_any = any_peel;
                peel.push(flag);
                if flag {
                    any_peel = true;
                }
                proof {
                    assert(peel@[i2 as int] == flag);
                    assert(forall|t: int| 0 <= t < i2 ==> #[trigger] peel@[t] == pp[t]);
                    if any_peel {
                        if old_any {
                            let t0 = choose|t: int| 0 <= t < i2 && #[trigger] pp[t];
                            assert(peel@[t0]);
                        } else {
                            assert(peel@[i2 as int]);
                        }
                    } else {
                        assert forall|t: int| 0 <= t < i2 + 1 implies !(#[trigger] peel@[t]) by {
                            if t < i2 {
                                assert(peel@[t] == pp[t]);
                                assert(!pp[t]);
                            }
                        }
                    }
                }
                i2 = i2 + 1;
            }
            if !any_peel {
                proof {
                    assert(uniform_dims(fitness_in@) ==> (forall|t: int|
                        0 <= t < n ==> #[trigger] pre_asg[t])) by {
                        if uniform_dims(fitness_in@) && (exists|t: int|
                            0 <= t < n && !(#[trigger] pre_asg[t])) {
                            let x = choose|t: int| 0 <= t < n && !(#[trigger] pre_asg[t]);
                            let s = Set::new(|t: int| 0 <= t < n && !pre_asg[t]);
                            let rng = vstd::set_lib::set_int_range(0, n as int);
                            vstd::set_lib::lemma_int_range(0, n as int);
                            assert(s.subset_of(rng));
                            vstd::set_lib::lemma_len_subset(s, rng);
                            assert(s.contains(x));
                            lemma_minimal_exists(fitness_in@, s, x);
                            let m = choose|m: int|
                                #![trigger s.contains(m)]
                                s.contains(m) && !(exists|j: int|
                                    #[trigger] s.contains(j) && dominates(
                                        fitness_in@[j]@,
                                        fitness_in@[m]@,
                                    ));
                            assert(!pre_asg[m]);
                            assert(!dominated_among(fitness_in@, pre_asg, m)) by {
                                if dominated_among(fitness_in@, pre_asg, m) {
                                    let j0 = choose|j: int|
                                        0 <= j < fitness_in@.len() && !pre_asg[j] && dominates(
                                            (#[trigger] fitness_in@[j])@,
                                            fitness_in@[m]@,
                                        );
                                    assert(s.contains(j0));
                                }
                            }
                            assert(peel@[m]);
                            assert(false);
                        }
                    }
                }
                let mut i3: usize = 0;
                while i3 < n
                    invariant
                        n == fitness_in@.len(),
                        fronts@.len() == n,
                        assigned@.len() == n,
                        peel@.len() == n,
                        i3 <= n,
                        1 <= round,
                        forall|k: int| 0 <= k < i3 ==> #[trigger] assigned@[k],
                        forall|k: int|
                            0 <= k < i3 ==> (#[trigger] fronts@[k]) == (if pre_asg[k] {
                                pre_fr[k]
                            } else {
                                round as usize
                            }),
                        forall|k: int| i3 <= k < n ==> (#[trigger] assigned@[k]) == pre_asg[k],
                        forall|k: int| i3 <= k < n ==> (#[trigger] fronts@[k]) == pre_fr[k],
                    decreases n - i3,
                {
                    if !assigned[i3] {
                        assigned[i3] = true;
                        fronts[i3] = round;
                    }
                    i3 = i3 + 1;
                }
            } else {
                let mut k2: usize = 0;
                while k2 < n
                    invariant
                        n == fitness_in@.len(),
                        fronts@.len() == n,
                        assigned@.len() == n,
                        peel@.len() == n,
                        k2 <= n,
                        1 <= round,
                        forall|t: int| 0 <= t < n ==> ((#[trigger] peel@[t]) ==> !pre_asg[t]),
                        forall|k: int|
                            0 <= k < k2 ==> (#[trigger] assigned@[k]) == (pre_asg[k] || peel@[k]),
                        forall|k: int|
                            0 <= k < k2 ==> (#[trigger] fronts@[k]) == (if peel@[k] {
                                round as usize
                            } else {
                                pre_fr[k]
                            }),
                        forall|k: int| k2 <= k < n ==> (#[trigger] assigned@[k]) == pre_asg[k],
                        forall|k: int| k2 <= k < n ==> (#[trigger] fronts@[k]) == pre_fr[k],
                    decreases n - k2,
                {
                    if peel[k2] {
                        assigned[k2] = true;
                        fronts[k2] = round;
                    }
                    k2 = k2 + 1;
                }
            }
            proof {
                assert forall|k: int| 0 <= k < n && #[trigger] front0[k] implies assigned@[k]
                    && fronts@[k] == 0 by {
                    assert(pre_asg[k] && pre_fr[k] == 0);
                }
                assert forall|k: int|
                    0 <= k < n && !front0[k] && #[trigger] assigned@[k] implies fronts@[k]
                    >= 1 by {
                    if !any_peel {
                        if !pre_asg[k] {
                            assert(fronts@[k] == round as usize);
                        } else {
                            assert(fronts@[k] == pre_fr[k]);
                        }
                    } else {
                        if peel@[k] {
                            assert(fronts@[k] == round as usize);
                        } else {
                            assert(assigned@[k] == pre_asg[k] && fronts@[k] == pre_fr[k]);
                        }
                    }
                }
                if uniform_dims(fitness_in@) {
                    assert forall|k: int|
                        0 <= k < n implies (((#[trigger] assigned@[k]) && fronts@[k] == 1)
                        <==> in_second_front(fitness_in@, k)) by {
                        if !any_peel {
                            assert(pre_asg[k]);
                            assert(assigned@[k] && fronts@[k] == pre_fr[k]);
                            if round >= 2 {
                                assert((pre_asg[k] && pre_fr[k] == 1) <==> in_second_front(
                                    fitness_in@,
                                    k,
                                ));
                            }
                            if round == 1 {
                                if in_second_front(fitness_in@, k) {
                                    assert(is_dominated(fitness_in@, k));
                                    assert(!front0[k]);
                                    assert(!pre_asg[k]);
                                }
                                assert(fronts@[k] == 0);
                            }
                        } else if round == 1 {
                            if peel@[k] {
                                assert(!pre_asg[k] && !dominated_among(fitness_in@, pre_asg, k));
                                assert(!front0[k]);
                                assert(is_dominated(fitness_in@, k));
                                assert(!(exists|j: int|
                                    0 <= j < fitness_in@.len() && is_dominated(fitness_in@, j)
                                        && dominates(
                                        (#[trigger] fitness_in@[j])@,
                                        fitness_in@[k]@,
                                    ))) by {
                                    if exists|j: int|
                                        0 <= j < fitness_in@.len() && is_dominated(fitness_in@, j)
                                            && dominates(
                                            (#[trigger] fitness_in@[j])@,
                                            fitness_in@[k]@,
                                        ) {
                                        let j1 = choose|j: int|
                                            0 <= j < fitness_in@.len() && is_dominated(
                                                fitness_in@,
                                                j,
                                            ) && dominates(
                                                (#[trigger] fitness_in@[j])@,
                                                fitness_in@[k]@,
                                            );
                                        assert(!front0[j1]);
                                        assert(!pre_asg[j1] && dominates(
                                            (fitness_in@[j1])@,
                                            fitness_in@[k]@,
                                        ));
                                        assert(dominated_among(fitness_in@, pre_asg, k));
                                    }
                                }
                                assert(in_second_front(fitness_in@, k));
                                assert(assigned@[k] && fronts@[k] == 1);
                            } else {
                                if in_second_front(fitness_in@, k) {
                                    assert(is_dominated(fitness_in@, k));
                                    assert(!front0[k]);
                                    assert(!pre_asg[k]);
                                    assert(dominated_among(fitness_in@, pre_asg, k));
                                    let j0 = choose|j: int|
                                        0 <= j < fitness_in@.len() && !pre_asg[j] && dominates(
                                            (#[trigger] fitness_in@[j])@,
                                            fitness_in@[k]@,
                                        );
                                    assert(!front0[j0]);
                                    assert(is_dominated(fitness_in@, j0));
                                    assert(false);
                                }
                                assert(fronts@[k] == pre_fr[k]);
                                assert(fronts@[k] == 0);
                            }
                        } else {
                            assert((pre_asg[k] && pre_fr[k] == 1) <==> in_second_front(
                                fitness_in@,
                                k,
                            ));
                            if peel@[k] {
                                assert(fronts@[k] == round as usize && round >= 2);
                                assert(!pre_asg[k]);
                                assert(!(pre_asg[k] && pre_fr[k] == 1));
                                assert(!in_second_front(fitness_in@, k));
                            } else {
                                assert(assigned@[k] == pre_asg[k] && fronts@[k] == pre_fr[k]);
                                assert((assigned@[k] && fronts@[k] == 1) <==> (pre_asg[k]
                                    && pre_fr[k] == 1));
                            }
                        }
                    }
                    assert(front1_exact(fitness_in@, assigned@, fronts@));
                }
                if uniform_dims(fitness_in@) {
                    assert forall|k: int, f: int|
                        0 <= k < n && assigned@[k] && 0 <= f < (#[trigger] fronts@[k]) as int
                        implies #[trigger] front_used(assigned@, fronts@, f) by {
                        if pre_asg[k] {
                            assert(fronts@[k] == pre_fr[k]);
                            lemma_used_below_at(pre_asg, pre_fr, k, f);
                            let j = choose|j: int|
                                0 <= j < pre_fr.len() && #[trigger] pre_asg[j] && (pre_fr[
                                    j
                                ] as int) == f;
                            assert(assigned@[j] && fronts@[j] == pre_fr[j]);
                            assert(front_used(assigned@, fronts@, f));
                        } else {
                            assert((fronts@[k] as int) == round as int);
                            assert(rounds_inhabited(pre_asg, pre_fr, round as int));
                            lemma_rounds_inhabited_at(pre_asg, pre_fr, round as int, f);
                            let j = choose|j: int|
                                0 <= j < pre_fr.len() && #[trigger] pre_asg[j] && (pre_fr[
                                    j
                                ] as int) == f;
                            assert(assigned@[j] && fronts@[j] == pre_fr[j]);
                            assert(front_used(assigned@, fronts@, f));
                        }
                    }
                    assert(used_below(assigned@, fronts@));
                    if exists|t: int| 0 <= t < n && !(#[trigger] assigned@[t]) {
                        let u = choose|t: int| 0 <= t < n && !(#[trigger] assigned@[t]);
                        assert(!pre_asg[u]);
                        assert(rounds_inhabited(pre_asg, pre_fr, round as int));
                        assert forall|f: int|
                            0 <= f < round as int + 1 implies #[trigger] front_used(
                            assigned@,
                            fronts@,
                            f,
                        ) by {
                            if f < round as int {
                                lemma_rounds_inhabited_at(pre_asg, pre_fr, round as int, f);
                                let j = choose|j: int|
                                    0 <= j < pre_fr.len() && #[trigger] pre_asg[j] && (pre_fr[
                                        j
                                    ] as int) == f;
                                assert(assigned@[j] && fronts@[j] == pre_fr[j]);
                                assert(front_used(assigned@, fronts@, f));
                            } else {
                                if !any_peel {
                                    assert(pre_asg[u]);
                                }
                                let t0 = choose|t: int| 0 <= t < n && #[trigger] peel@[t];
                                assert(assigned@[t0] && (fronts@[t0] as int) == round as int);
                                assert(front_used(assigned@, fronts@, f));
                            }
                        }
                        assert(rounds_inhabited(assigned@, fronts@, round as int + 1));
                    }
                }
            }
            round = round + 1;
        }
        proof {
            if uniform_dims(fitness_in@) && n >= 2 {
                assert(round >= 2);
                assert(front1_exact(fitness_in@, assigned@, fronts@));
            }
            if uniform_dims(fitness_in@) && (exists|t: int|
                0 <= t < n && !(#[trigger] assigned@[t])) {
                let u = choose|t: int| 0 <= t < n && !(#[trigger] assigned@[t]);
                assert(rounds_inhabited(assigned@, fronts@, round as int));
                let w = build_front_witnesses(assigned@, fronts@, round as int);
                let w2 = w.push(u as usize);
                assert((u as usize) as int == u);
                assert forall|a: int, b: int| 0 <= a < b < w2.len() implies w2[a] != w2[b] by {
                    if b < w.len() {
                        assert(w2[a] == w[a] && w2[b] == w[b]);
                        assert((fronts@[w[a] as int] as int) == a && (fronts@[w[b] as int] as int)
                            == b);
                    } else {
                        assert(w2[b] == u as usize && w2[a] == w[a]);
                        assert(assigned@[w[a] as int] && !assigned@[u]);
                    }
                }
                assert forall|a: int| 0 <= a < w2.len() implies (#[trigger] w2[a]) < n by {
                    if a < w.len() {
                        assert(w2[a] == w[a]);
                        assert((w[a] as int) < fronts@.len());
                    } else {
                        assert(w2[a] == u as usize);
                    }
                }
                crate::permutation::lemma_distinct_bounded_len(w2, n as int);
                assert(w2.len() == round as int + 1);
                assert(round as int >= n);
                assert(false);
            }
            if uniform_dims(fitness_in@) {
                assert forall|k: int| 0 <= k < n implies #[trigger] assigned@[k] by {
                    if !assigned@[k] {
                        assert(0 <= k < n && !assigned@[k]);
                    }
                }
                assert forall|k: int|
                    0 <= k < n implies ((#[trigger] fronts@[k]) as int) < n by {
                    assert(assigned@[k]);
                    assert((fronts@[k] as int) < round as int);
                }
            }
        }
        // whatever is still unassigned joins one final front
        let mut i4: usize = 0;
        while i4 < n
            invariant
                n == fitness_in@.len(),
                fronts@.len() == n,
                assigned@.len() == n,
                i4 <= n,
                forall|k: int|
                    0 <= k < n ==> ((#[trigger] front0[k]) ==> assigned@[k] && fronts@[k] == 0),
                forall|k: int|
                    0 <= k < n && !front0[k] && (#[trigger] assigned@[k]) ==> fronts@[k] >= 1,
                forall|k: int| 0 <= k < i4 ==> (#[trigger] assigned@[k]),
                uniform_dims(fitness_in@) && n >= 2 ==> front1_exact(
                    fitness_in@,
                    assigned@,
                    fronts@,
                ),
                uniform_dims(fitness_in@) ==> forall|k: int|
                    0 <= k < n ==> #[trigger] assigned@[k],
                uniform_dims(fitness_in@) ==> used_below(assigned@, fronts@),
                uniform_dims(fitness_in@) ==> forall|k: int|
                    0 <= k < n ==> ((#[trigger] fronts@[k]) as int) < n,
            decreases n - i4,
        {
            let ghost sw_asg = assigned@;
            let ghost sw_fr = fronts@;
            if !assigned[i4] {
                assigned[i4] = true;
                fronts[i4] = if n < usize::MAX {
                    n
                } else {
                    usize::MAX
                };
                proof {
                    assert(!front0[i4 as int]);
                    if uniform_dims(fitness_in@) && n >= 2 {
                        assert(front1_exact(fitness_in@, sw_asg, sw_fr));
                        assert(!(sw_asg[i4 as int] && sw_fr[i4 as int] == 1));
                        assert(!in_second_front(fitness_in@, i4 as int));
                        assert forall|k: int|
                            0 <= k < n implies (((#[trigger] assigned@[k]) && fronts@[k] == 1)
                            <==> in_second_front(fitness_in@, k)) by {
                            if k == i4 as int {
                                assert(fronts@[k] == n && n >= 2);
                            } else {
                                assert(assigned@[k] == sw_asg[k] && fronts@[k] == sw_fr[k]);
                                assert((sw_asg[k] && sw_fr[k] == 1) <==> in_second_front(
                                    fitness_in@,
                                    k,
                                ));
                            }
                        }
                        assert(front1_exact(fitness_in@, assigned@, fronts@));
                    }
                }
            }
            i4 = i4 + 1;
        }
        // crowding values: per front and objective, interior members in the
        // sorted order of that objective accumulate their neighbours'
        // normalized gap
        let mut values: Vec<u64> = Vec::new();
        let mut v0: usize = 0;
        while v0 < n
            invariant
                v0 <= n,
                values@.len() == v0,
                forall|k: int| 0 <= k < v0 ==> (#[trigger] values@[k]) == 0,
            decreases n - v0,
        {
            values.push(0);
            v0 = v0 + 1;
        }
        let dim = if n > 0 {
            fitness_in[0].len()
        } else {
            0
        };
        let mut fr: usize = 0;
        while fr < n
            invariant
                n == fitness_in@.len(),
                fronts@.len() == n,
                values@.len() == n,
                fr <= n,
                n >= 1 ==> dim == fitness_in@[0]@.len(),
                uniform_dims(fitness_in@) ==> forall|k: int|
                    0 <= k < n ==> ((#[trigger] fronts@[k]) as int) < n,
                uniform_dims(fitness_in@) ==> (forall|i: int|
                    #![trigger values@[i]]
                    0 <= i < n && (fronts@[i] as int) >= fr as int ==> values@[i] == 0),
                uniform_dims(fitness_in@) ==> (forall|i: int|
                    #![trigger values@[i]]
                    0 <= i < n && (fronts@[i] as int) < fr as int && members_upto(
                        fronts@,
                        fronts@[i],
                        n as int,
                    ).len() == 3 ==> values@[i] as int == crowd3_upto(
                        fitness_in@,
                        members_upto(fronts@, fronts@[i], n as int),
                        i,
                        dim as int,
                    )),
            decreases n - fr,
        {
            let ghost memg = members_upto(fronts@, fr, n as int);
            proof {
                lemma_members_upto(fronts@, fr, n as int);
            }
            let mut members: Vec<usize> = Vec::new();
            let mut c1: usize = 0;
            while c1 < n
                invariant
                    n == fitness_in@.len(),
                    fronts@.len() == n,
                    c1 <= n,
                    members@.len() == members_upto(fronts@, fr, c1 as int).len(),
                    forall|k: int|
                        0 <= k < members@.len() ==> (#[trigger] members@[k]) as int
                            == members_upto(fronts@, fr, c1 as int)[k],
                    forall|k: int| 0 <= k < members@.len() ==> (#[trigger] members@[k]) < n,
                decreases n - c1,
            {
                if fronts[c1] == fr {
                    members.push(c1);
                }
                c1 = c1 + 1;
            }
            proof {
                assert(members@.len() == memg.len());
                assert(forall|k: int|
                    0 <= k < members@.len() ==> (#[trigger] members@[k]) as int == memg[k]);
            }
            let mut m: usize = 0;
            while m < dim
                invariant
                    n == fitness_in@.len(),
                    fronts@.len() == n,
                    values@.len() == n,
                    fr < n,
                    m <= dim,
                    n >= 1 ==> dim == fitness_in@[0]@.len(),
                    memg == members_upto(fronts@, fr, n as int),
                    members@.len() == memg.len(),
                    forall|k: int|
                        0 <= k < members@.len() ==> (#[trigger] members@[k]) as int == memg[k],
                    forall|k: int| 0 <= k < members@.len() ==> (#[trigger] members@[k]) < n,
                    forall|k: int| 0 <= k < memg.len() ==> fronts@[#[trigger] memg[k]] == fr,
                    uniform_dims(fitness_in@) ==> forall|k: int|
                        0 <= k < n ==> ((#[trigger] fronts@[k]) as int) < n,
                    uniform_dims(fitness_in@) ==> (forall|i: int|
                        #![trigger values@[i]]
                        0 <= i < n && (fronts@[i] as int) > fr as int ==> values@[i] == 0),
                    uniform_dims(fitness_in@) ==> (forall|i: int|
                        #![trigger values@[i]]
                        0 <= i < n && (fronts@[i] as int) < fr as int && members_upto(
                            fronts@,
                            fronts@[i],
                            n as int,
                        ).len() == 3 ==> values@[i] as int == crowd3_upto(
                            fitness_in@,
                            members_upto(fronts@, fronts@[i], n as int),
                            i,
                            dim as int,
                        )),
                    uniform_dims(fitness_in@) && memg.len() == 3 ==> (forall|k: int|
                        0 <= k < 3 ==> values@[#[trigger] memg[k]] as int == crowd3_upto(
                            fitness_in@,
                            memg,
                            memg[k],
                            m as int,
                        )),
                decreases dim - m,
            {
                let mut col: Vec<i64> = Vec::new();
                let mut c2: usize = 0;
                while c2 < members.len()
                    invariant
                        n == fitness_in@.len(),
                        c2 <= members@.len(),
                        col@.len() == c2,
                        members@.len() == memg.len(),
                        forall|k: int|
                            0 <= k < members@.len() ==> (#[trigger] members@[k]) as int == memg[k],
                        forall|k: int| 0 <= k < members@.len() ==> (#[trigger] members@[k]) < n,
                        forall|k: int|
                            0 <= k < c2 ==> (#[trigger] col@[k]) == col_of(
                                fitness_in@,
                                memg,
                                m as int,
                            )[k],
                    decreases members@.len() - c2,
                {
                    let mi = members[c2];
                    let v: i64 = if m < fitness_in[mi].len() {
                        fitness_in[mi][m]
                    } else {
                        0
                    };
                    col.push(v);
                    c2 = c2 + 1;
                }
                proof {
                    assert(col@ =~= col_of(fitness_in@, memg, m as int));
                }
                // global range of this objective
                let mut lo: i64 = i64::MAX;
                let mut hi: i64 = i64::MIN;
                let mut c3: usize = 0;
                while c3 < n
                    invariant
                        n == fitness_in@.len(),
                        c3 <= n,
                        lo as int == col_lo(fitness_in@, m as int, c3 as int),
                        hi as int == col_hi(fitness_in@, m as int, c3 as int),
                    decreases n - c3,
                {
                    if m < fitness_in[c3].len() {
                        let v = fitness_in[c3][m];
                        if v < lo {
                            lo = v;
                        }
                        if v > hi {
                            hi = v;
                        }
                    }
                    c3 = c3 + 1;
                }
                let range: u64 = if hi > lo {
                    sat_sub(hi, lo) as u64
                } else {
                    0
                };
                proof {
                    assert(range as int == range_of(fitness_in@, m as int));
                }
                let order = sort_indices_by_fitness::<i64>(&col);
                let ghost mid: int = if memg.len() == 3 {
                    memg[middle3(col_of(fitness_in@, memg, m as int))]
                } else {
                    0int
                };
                proof {
                    if memg.len() == 3 {
                        lemma_sorted3(col@, order@);
                        assert(0 <= middle3(col@) < 3);
                        assert(mid == memg[middle3(col@)]);
                        assert((members@[middle3(col@)] as int) == memg[middle3(col@)]);
                        assert(members@[middle3(col@)] < n);
                        assert(0 <= mid < n);
                    }
                }
                let ghost vals_pre = values@;
                if members.len() >= 3 && range > 0 {
                    let mut k3: usize = 1;
                    while k3 < members.len() - 1
                        invariant
                            n == fitness_in@.len(),
                            fronts@.len() == n,
                            values@.len() == n,
                            vals_pre.len() == n,
                            col@.len() == members@.len(),
                            col@ == col_of(fitness_in@, memg, m as int),
                            order@.len() == col@.len(),
                            members@.len() == memg.len(),
                            forall|k: int|
                                0 <= k < members@.len() ==> (#[trigger] members@[k]) as int
                                    == memg[k],
                            forall|k: int| 0 <= k < memg.len() ==> fronts@[#[trigger] memg[k]] == fr,
                            forall|k: int|
                                0 <= k < order@.len() ==> (#[trigger] order@[k]) < col@.len(),
                            forall|k: int|
                                0 <= k < members@.len() ==> (#[trigger] members@[k]) < n,
                            1 <= k3,
                            3 <= members@.len(),
                            range > 0,
                            range as int == range_of(fitness_in@, m as int),
                            forall|i: int|
                                #![trigger values@[i]]
                                0 <= i < n && (fronts@[i] as int) != fr as int ==> values@[i]
                                    == vals_pre[i],
                            memg.len() == 3 ==> order@[1] as int == middle3(col@) && order@[
                                0
                            ] as int == low3(col@) && order@[2] as int == high3(col@),
                            memg.len() == 3 ==> mid == memg[middle3(col@)] && 0 <= mid < n,
                            memg.len() == 3 ==> (k3 == 1 || k3 == 2),
                            memg.len() == 3 && k3 == 1 ==> values@ == vals_pre,
                            memg.len() == 3 && k3 == 2 ==> (forall|i: int|
                                #![trigger values@[i]]
                                0 <= i < n && i != mid ==> values@[i] == vals_pre[i]),
                            memg.len() == 3 && k3 == 2 ==> values@[mid] as int == (if vals_pre[
                                mid
                            ] as int + share3(fitness_in@, memg, m as int) > u64::MAX as int {
                                u64::MAX as int
                            } else {
                                vals_pre[mid] as int + share3(fitness_in@, memg, m as int)
                            }),
                        decreases members@.len() - k3,
                    {
                        let prev = col[order[k3 - 1]];
                        let next = col[order[k3 + 1]];
                        let gap: u64 = if next >= prev {
                            sat_sub(next, prev) as u64
                        } else {
                            sat_sub(prev, next) as u64
                        };
                        let share128: u128 = (gap as u128) * (CROWDING_SCALE as u128) / (
                        range as u128);
                        let share: u64 = if share128 > u64::MAX as u128 {
                            u64::MAX
                        } else {
                            share128 as u64
                        };
                        let target = members[order[k3]];
                        let nv = values[target].saturating_add(share);
                        proof {
                            if memg.len() == 3 {
                                assert(k3 == 1);
                                assert(target as int == memg[order@[1] as int]);
                                assert(target as int == mid);
                                assert(prev == col@[low3(col@)] && next == col@[high3(col@)]);
                                assert(share as int == share3(fitness_in@, memg, m as int));
                            }
                        }
                        values[target] = nv;
                        k3 = k3 + 1;
                    }
                    proof {
                        if memg.len() == 3 {
                            assert forall|i: int|
                                #![trigger values@[i]]
                                0 <= i < n && i != mid implies values@[i] == vals_pre[i] by {}
                            assert(values@[mid] as int == (if vals_pre[mid] as int + share3(
                                fitness_in@,
                                memg,
                                m as int,
                            ) > u64::MAX as int {
                                u64::MAX as int
                            } else {
                                vals_pre[mid] as int + share3(fitness_in@, memg, m as int)
                            }));
                        }
                    }
                }
                proof {
                    if uniform_dims(fitness_in@) && memg.len() == 3 {
                        assert forall|k: int|
                            0 <= k < 3 implies values@[#[trigger] memg[k]] as int == crowd3_upto(
                            fitness_in@,
                            memg,
                            memg[k],
                            m as int + 1,
                        ) by {
                            assert((members@[k] as int) == memg[k] && members@[k] < n);
                            if range > 0 {
                                if memg[k] == mid {
                                    assert(vals_pre[mid] as int == crowd3_upto(
                                        fitness_in@,
                                        memg,
                                        memg[k],
                                        m as int,
                                    ));
                                } else {
                                    assert(values@[memg[k]] == vals_pre[memg[k]]);
                                }
                            } else {
                                assert(range_of(fitness_in@, m as int) == 0);
                            }
                        }
                    }
                }
                m = m + 1;
            }
            fr = fr + 1;
        }
        // assemble, then give every weakly extreme member of a front an
        // infinite crowding distance
        let mut out: Vec<NSGA2Fitness> = Vec::new();
        let mut b: usize = 0;
        while b < n
            invariant
                n == fitness_in@.len(),
                fronts@.len() == n,
                values@.len() == n,
                b <= n,
                out@.len() == b,
                forall|k: int| 0 <= k < b ==> (#[trigger] out@[k]).front == fronts@[k],
                forall|k: int| 0 <= k < b ==> !(#[trigger] out@[k]).crowding_dist.is_infinite,
                forall|k: int|
                    0 <= k < b ==> (#[trigger] out@[k]).crowding_dist.value == values@[k],
            decreases n - b,
        {
            out.push(
                NSGA2Fitness {
                    front: fronts[b],
                    crowding_dist: Crowding { is_infinite: false, value: values[b] },
                },
            );
            b = b + 1;
        }
        let mut e: usize = 0;
        while e < n
            invariant
                n == fitness_in@.len(),
                fronts@.len() == n,
                out@.len() == n,
                e <= n,
                forall|k: int| 0 <= k < n ==> (#[trigger] out@[k]).front == fronts@[k],
                forall|k: int|
                    0 <= k < e && 0 <= k < n && (exists|m: int|
                        0 <= m < fitness_in@[k]@.len() && weak_extreme(
                            fitness_in@,
                            fronts@,
                            k,
                            m,
                        )) ==> (#[trigger] out@[k]).crowding_dist.is_infinite,
                forall|k: int| e <= k < n ==> !(#[trigger] out@[k]).crowding_dist.is_infinite,
                forall|k: int|
                    0 <= k < e && (#[trigger] out@[k]).crowding_dist.is_infinite ==> exists|m: int|
                        0 <= m < fitness_in@[k]@.len() && weak_extreme(fitness_in@, fronts@, k, m),
                values@.len() == n,
                forall|k: int|
                    0 <= k < n ==> (#[trigger] out@[k]).crowding_dist.value == values@[k],
            decreases n - e,
        {
            let mut m2: usize = 0;
            let mut found = false;
            let ghost mut wm: int = 0;
            while m2 < fitness_in[e].len()
                invariant
                    n == fitness_in@.len(),
                    fronts@.len() == n,
                    e < n,
                    m2 <= fitness_in@[e as int]@.len(),
                    found ==> 0 <= wm < fitness_in@[e as int]@.len() && weak_extreme(
                        fitness_in@,
                        fronts@,
                        e as int,
                        wm,
                    ),
                    !found ==> forall|m: int|
                        0 <= m < m2 ==> !weak_extreme(fitness_in@, fronts@, e as int, m),
                decreases fitness_in@[e as int]@.len() - m2,
            {
                let mut no_smaller = true;
                let mut no_larger = true;
                let mut j3: usize = 0;
                while j3 < n
                    invariant
                        n == fitness_in@.len(),
                        fronts@.len() == n,
                        e < n,
                        m2 < fitness_in@[e as int]@.len(),
                        j3 <= n,
                        no_smaller == forall|j: int|
                            0 <= j < j3 && fronts@[j] == fronts@[e as int] && m2 < (
                            #[trigger] fitness_in@[j])@.len() ==> fitness_in@[e as int]@[m2 as int]
                                <= fitness_in@[j]@[m2 as int],
                        no_larger == forall|j: int|
                            0 <= j < j3 && fronts@[j] == fronts@[e as int] && m2 < (
                            #[trigger] fitness_in@[j])@.len() ==> fitness_in@[e as int]@[m2 as int]
                                >= fitness_in@[j]@[m2 as int],
                    decreases n - j3,
                {
                    if fronts[j3] == fronts[e] && m2 < fitness_in[j3].len() {
                        if fitness_in[j3][m2] < fitness_in[e][m2] {
                            no_smaller = false;
                        }
                        if fitness_in[j3][m2] > fitness_in[e][m2] {
                            no_larger = false;
                        }
                    }
                    j3 = j3 + 1;
                }
                if no_smaller || no_larger {
                    found = true;
                    proof {
                        wm = m2 as int;
                        assert(weak_extreme(fitness_in@, fronts@, e as int, m2 as int));
                    }
                } else {
                    proof {
                        assert(!weak_extreme(fitness_in@, fronts@, e as int, m2 as int));
                    }
                }
                m2 = m2 + 1;
            }
            if found {
                let old_front = out[e].front;
                let old_value = out[e].crowding_dist.value;
                out[e] = NSGA2Fitness {
                    front: old_front,
                    crowding_dist: Crowding { is_infinite: true, value: old_value },
                };
            }
            proof {
                if !found {
                    assert forall|m: int|
                        0 <= m < fitness_in@[e as int]@.len() implies !weak_extreme(
                        fitness_in@,
                        fronts@,
                        e as int,
                        m,
                    ) by {
                    }
                }
            }
            e = e + 1;
        }
        *fitness_out = out;
        proof {
            assert(front_seq(final(fitness_out)@) =~= fronts@);
            assert forall|i: int|
                0 <= i < fitness_in@.len() && (#[trigger] final(fitness_out)@[i]).crowding_dist.is_infinite
                    implies exists|m: int|
                0 <= m < fitness_in@[i]@.len() && weak_extreme(
                    fitness_in@,
                    front_seq(final(fitness_out)@),
                    i,
                    m,
                ) by {
                let m0 = choose|m: int|
                    0 <= m < fitness_in@[i]@.len() && weak_extreme(fitness_in@, fronts@, i, m);
                assert(weak_extreme(fitness_in@, front_seq(final(fitness_out)@), i, m0));
            }
            assert forall|i: int|
                0 <= i < fitness_in@.len() implies ((#[trigger] final(fitness_out)@[i]).front == 0
                <==> !is_dominated(fitness_in@, i)) by {
                assert(final(fitness_out)@[i].front == fronts@[i]);
                assert(front0[i] == !is_dominated(fitness_in@, i));
                if front0[i] {
                    assert(fronts@[i] == 0);
                } else {
                    assert(assigned@[i]);
                    assert(fronts@[i] >= 1);
                }
            }
            if uniform_dims(fitness_in@) {
                assert forall|i: int|
                    0 <= i < fitness_in@.len() implies ((#[trigger] final(fitness_out)@[i]).front
                    == 1 <==> in_second_front(fitness_in@, i)) by {
                    assert(final(fitness_out)@[i].front == fronts@[i]);
                    if n >= 2 {
                        assert(front1_exact(fitness_in@, assigned@, fronts@));
                        assert(assigned@[i]);
                        assert((assigned@[i] && fronts@[i] == 1) <==> in_second_front(
                            fitness_in@,
                            i,
                        ));
                    } else {
                        assert(n == 1 && i == 0);
                        assert(!is_dominated(fitness_in@, 0)) by {
                            if is_dominated(fitness_in@, 0) {
                                let j = choose|j: int|
                                    0 <= j < fitness_in@.len() && dominates(
                                        (#[trigger] fitness_in@[j])@,
                                        fitness_in@[0]@,
                                    );
                                assert(j == 0);
                                lemma_dominates_irreflexive(fitness_in@[0]@);
                            }
                        }
                        assert(front0[0]);
                        assert(fronts@[0] == 0);
                        assert(!in_second_front(fitness_in@, 0));
                    }
                }
                assert forall|i: int, f: int|
                    0 <= i < n && 0 <= f < (#[trigger] front_seq(final(fitness_out)@)[i]) as int
                    implies #[trigger] front_value_used(front_seq(final(fitness_out)@), f) by {
                    assert(front_seq(final(fitness_out)@)[i] == fronts@[i]);
                    assert(assigned@[i]);
                    lemma_used_below_at(assigned@, fronts@, i, f);
                    let j = choose|j: int|
                        0 <= j < fronts@.len() && #[trigger] assigned@[j] && (fronts@[j] as int)
                            == f;
                    assert((front_seq(final(fitness_out)@)[j] as int) == f);
                    assert(front_value_used(front_seq(final(fitness_out)@), f));
                }
                assert(fronts_contiguous(front_seq(final(fitness_out)@)));
                assert forall|i: int|
                    0 <= i < n && members_upto(
                        front_seq(final(fitness_out)@),
                        front_seq(final(fitness_out)@)[i],
                        n as int,
                    ).len() == 3 implies (#[trigger] final(fitness_out)@[i]).crowding_dist.value
                    as int == crowd3_upto(
                    fitness_in@,
                    members_upto(
                        front_seq(final(fitness_out)@),
                        front_seq(final(fitness_out)@)[i],
                        n as int,
                    ),
                    i,
                    fitness_in@[0]@.len() as int,
                ) by {
                    assert(front_seq(final(fitness_out)@) =~= fronts@);
                    assert(front_seq(final(fitness_out)@)[i] == fronts@[i]);
                    assert((fronts@[i] as int) < n);
                    assert(values@[i] as int == crowd3_upto(
                        fitness_in@,
                        members_upto(fronts@, fronts@[i], n as int),
                        i,
                        dim as int,
                    ));
                    assert(final(fitness_out)@[i].crowding_dist.value == values@[i]);
                    assert(dim == fitness_in@[0]@.len());
                }
            }
        }
    }
}

impl<T: OptData> FitnessTransformer<T, Vec<i64>, NSGA2Fitness> for NSGA2FitnessTransformer {
    fn transform(
        &mut self,
        _population: &Vec<T>,
        fitness_in: &Vec<Vec<i64>>,
        fitness_out: &mut Vec<NSGA2Fitness>,
    )
        ensures
            forall|i: int|
                0 <= i < fitness_in@.len() ==> ((#[trigger] final(fitness_out)@[i]).front == 0
                    <==> !is_dominated(fitness_in@, i)),
            forall|i: int, m: int|
                0 <= i < fitness_in@.len() && 0 <= m < fitness_in@[i]@.len()
                    && #[trigger] weak_extreme(
                    fitness_in@,
                    front_seq(final(fitness_out)@),
                    i,
                    m,
                ) ==> final(fitness_out)@[i].crowding_dist.is_infinite,
            forall|i: int|
                0 <= i < fitness_in@.len() && (#[trigger] final(fitness_out)@[i]).crowding_dist.is_infinite
                    ==> exists|m: int|
                    0 <= m < fitness_in@[i]@.len() && weak_extreme(
                        fitness_in@,
                        front_seq(final(fitness_out)@),
                        i,
                        m,
                    ),
            uniform_dims(fitness_in@) ==> (forall|i: int|
                0 <= i < fitness_in@.len() ==> ((#[trigger] final(fitness_out)@[i]).front == 1
                    <==> in_second_front(fitness_in@, i))),
            uniform_dims(fitness_in@) ==> fronts_contiguous(front_seq(final(fitness_out)@)),
            uniform_dims(fitness_in@) ==> (forall|i: int|
                #![trigger final(fitness_out)@[i]]
                0 <= i < fitness_in@.len() && members_upto(
                    front_seq(final(fitness_out)@),
                    front_seq(final(fitness_out)@)[i],
                    fitness_in@.len() as int,
                ).len() == 3 ==> final(fitness_out)@[i].crowding_dist.value as int == crowd3_upto(
                    fitness_in@,
                    members_upto(
                        front_seq(final(fitness_out)@),
                        front_seq(final(fitness_out)@)[i],
                        fitness_in@.len() as int,
                    ),
                    i,
                    fitness_in@[0]@.len() as int,
                )),
    {
        self.derive(fitness_in, fitness_out);
    }
}

/// The positions, in ascending order, of the members of a set that no
/// member dominates, looking at the first `m` positions.
pub open spec fn front_positions(fs: Seq<Vec<i64>>, m: int) -> Seq<int>
    decreases m,
{
    if m <= 0 {
        Seq::empty()
    } else {
        let p = front_positions(fs, m - 1);
        if !is_dominated(fs, m - 1) {
            p.push(m - 1)
        } else {
            p
        }
    }
}

/// The snapshot a multi-objective run keeps: the members of the current
/// non-dominated front, with their raw objective vectors.
pub struct MultiObjSolution<T: OptData> {
    pub opt_front: Vec<T>,
    pub fitness: Vec<Vec<i64>>,
}

impl<T: OptData> MultiObjSolution<T> {
    /// Extracts, in population order, exactly the members whose fitness no
    /// member of the set dominates, with their objective vectors.
    pub fn pareto_snapshot(population: &Vec<T>, fitness_in: &Vec<Vec<i64>>) -> (r: Self)
        requires
            population@.len() == fitness_in@.len(),
            pop_inv(population@),
        ensures
            r.opt_front@.len() == front_positions(
                fitness_in@,
                fitness_in@.len() as int,
            ).len(),
            r.fitness@.len() == r.opt_front@.len(),
            pop_inv(r.opt_front@),
            forall|k: int|
                #![trigger r.opt_front@[k]]
                0 <= k < r.opt_front@.len() ==> {
                    let src = front_positions(fitness_in@, fitness_in@.len() as int)[k];
                    &&& r.opt_front@[k]@ == population@[src]@
                    &&& r.fitness@[k]@ == fitness_in@[src]@
                },
    {
        let mut opt_front: Vec<T> = Vec::new();
        let mut fitness: Vec<Vec<i64>> = Vec::new();
        let mut i: usize = 0;
        while i < population.len()
            invariant
                population@.len() == fitness_in@.len(),
                pop_inv(population@),
                i <= population@.len(),
                opt_front@.len() == fitness@.len(),
                pop_inv(opt_front@),
                opt_front@.len() == front_positions(fitness_in@, i as int).len(),
                forall|k: int|
                    #![trigger opt_front@[k]]
                    0 <= k < opt_front@.len() ==> {
                        let src = front_positions(fitness_in@, i as int)[k];
                        &&& 0 <= src < fitness_in@.len()
                        &&& opt_front@[k]@ == population@[src]@
                        &&& fitness@[k]@ == fitness_in@[src]@
                    },
                forall|k: int|
                    #![trigger front_positions(fitness_in@, i as int)[k]]
                    0 <= k < front_positions(fitness_in@, i as int).len() ==> 0 <= front_positions(
                        fitness_in@,
                        i as int,
                    )[k] < fitness_in@.len(),
            decreases population@.len() - i,
        {
            if !dominated_by_any(fitness_in, i) {
                opt_front.push(population[i].duplicate());
                fitness.push(clone_vec_copy(&fitness_in[i]));
            }
            i = i + 1;
        }
        MultiObjSolution { opt_front, fitness }
    }
}

impl<T: OptData> Solution<T, Vec<i64>, NSGA2Fitness> for MultiObjSolution<T> {
    #[verifier::rlimit(60)]
    fn from_population(
        population: &Vec<T>,
        fitness_in: &Vec<Vec<i64>>,
        _fitness_opt: &Vec<NSGA2Fitness>,
    ) -> (r: Self)
        ensures
            r.opt_front@.len() == front_positions(fitness_in@, fitness_in@.len() as int).len(),
            r.fitness@.len() == r.opt_front@.len(),
            forall|k: int|
                #![trigger r.opt_front@[k]]
                0 <= k < r.opt_front@.len() ==> r.opt_front@[k]@ == population@[front_positions(
                    fitness_in@,
                    fitness_in@.len() as int,
                )[k]]@ && r.fitness@[k]@ == fitness_in@[front_positions(
                    fitness_in@,
                    fitness_in@.len() as int,
                )[k]]@,
    {
        let r = MultiObjSolution::pareto_snapshot(population, fitness_in);
        proof {
            assert forall|k: int|
                #![trigger r.opt_front@[k]]
                0 <= k < r.opt_front@.len() implies {
                let src = front_positions(fitness_in@, fitness_in@.len() as int)[k];
                &&& r.opt_front@[k]@ == population@[src]@
                &&& r.fitness@[k]@ == fitness_in@[src]@
            } by {
                let src = front_positions(fitness_in@, fitness_in@.len() as int)[k];
                assert(r.opt_front@[k]@ == population@[src]@);
                assert(r.fitness@[k]@ == fitness_in@[src]@);
            }
        }
        r
    }

    fn diff(&self, _other: &Self) -> i64 {
        i64::MAX
    }

    fn is_better(&self, _other: &Self) -> bool {
        // the improvement magnitude of a front snapshot is taken as
        // unbounded, so a newer snapshot always replaces the best one
        true
    }

    fn duplicate(&self) -> Self {
        let mut opt_front: Vec<T> = Vec::new();
        let mut i: usize = 0;
        while i < self.opt_front.len()
            decreases self.opt_front@.len() - i,
        {
            opt_front.push(self.opt_front[i].duplicate());
            i = i + 1;
        }
        let mut fitness: Vec<Vec<i64>> = Vec::new();
        let mut j: usize = 0;
        while j < self.fitness.len()
            decreases self.fitness@.len() - j,
        {
            fitness.push(clone_vec_copy(&self.fitness[j]));
            j = j + 1;
        }
        MultiObjSolution { opt_front, fitness }
    }
}

/// One non-dominated-front snapshot per generation.
pub struct MultiObjStatistics<T: OptData> {
    pub solutions: Vec<MultiObjSolution<T>>,
}

impl<T: OptData> Statistics<T, Vec<i64>, NSGA2Fitness> for MultiObjStatistics<T> {
    open spec fn records(&self) -> int {
        self.solutions@.len() as int
    }

    fn new() -> (r: Self) {
        MultiObjStatistics { solutions: Vec::new() }
    }

    fn report_iter(
        &mut self,
        _iter: usize,
        population: &Vec<T>,
        fitness_in: &Vec<Vec<i64>>,
        fitness_opt: &Vec<NSGA2Fitness>,
    ) {
        let solution = MultiObjSolution::from_population(population, fitness_in, fitness_opt);
        self.solutions.push(solution);
    }
}

} // verus!
