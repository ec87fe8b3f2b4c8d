use vstd::prelude::*;

use std::rc::Rc;

use crate::gtsp::{
    GtspCycleCrossover, GtspFitness, GtspGeneralCrossover, GtspMoveGroupPerturbation,
    GtspOrderCrossover, GtspPermutation, GtspPerturbation, GtspProblem,
    GtspRandGroupVertPerturbation, GtspReverseGroupPerturbation,
    GtspRouletteWheelGroupVertPerturbation, GtspSwapGroupPerturbation,
    InitRandomGtspPopulation,
};
use crate::opt_data::non_increasing;
use crate::opt_search::{evolutionary_search, local_search};
use crate::opt_traits::{Crossover, FitnessFunc, OptData, ReplacementStrategy};
use crate::perturbe::{CombinePerturbeMutOps, ProbPerturbeMutOp};
use crate::prob::Prob;
use crate::replacement::TruncationReplacementStrategy;
use crate::selection::RankSelection;
use crate::termination::MaxIterTerminationCond;
use crate::tsp_stats::merge_series;

verus! {

/// A weighted pair of the usual per-stop resample and one structural local
/// move, the mutation every group-tour experiment uses.
fn combined_op(groups_count: usize, num: u64, den: u64, second: GtspPerturbation) -> (r:
    CombinePerturbeMutOps<GtspPermutation, GtspPerturbation>)
    requires
        1 <= groups_count,
        1 <= den,
        num <= den,
{
    let mut mut_ops: Vec<ProbPerturbeMutOp<GtspPermutation, GtspPerturbation>> = Vec::new();
    mut_ops.push(
        ProbPerturbeMutOp::new(
            Prob::new(num, den),
            GtspPerturbation::RandVert(GtspRandGroupVertPerturbation::new(groups_count)),
        ),
    );
    mut_ops.push(ProbPerturbeMutOp::new(Prob::new(num, den), second));
    CombinePerturbeMutOps { mut_ops }
}

/// One hill-climbing run over a group tour; the recorded series never
/// increases.
fn run_gtsp_local(
    problem: &Rc<GtspProblem>,
    op: CombinePerturbeMutOps<GtspPermutation, GtspPerturbation>,
    num_iters: usize,
) -> (r: Vec<i64>)
    requires
        (**problem).wf(),
    ensures
        non_increasing(r@),
        r@.len() == num_iters + 1,
{
    let mut fitness = GtspFitness {  };
    let init = InitRandomGtspPopulation::new(Rc::clone(problem), 1);
    let termination_cond = MaxIterTerminationCond { n_iters: num_iters };
    let (_, stats) = local_search(&mut fitness, init, op, &termination_cond);
    stats.fitness
}

/// One generational run over group tours; the recorded best-so-far series
/// never increases.
fn run_gtsp_evo<CrossoverT: Crossover<GtspPermutation>>(
    problem: &Rc<GtspProblem>,
    crossover: &CrossoverT,
    op: CombinePerturbeMutOps<GtspPermutation, GtspPerturbation>,
    num_iters: usize,
    population_size: usize,
) -> (r: Vec<i64>)
    requires
        (**problem).wf(),
        1 <= population_size,
    ensures
        non_increasing(r@),
        r@.len() == num_iters + 1,
{
    let mut fitness = GtspFitness {  };
    let init = InitRandomGtspPopulation::new(Rc::clone(problem), population_size);
    let termination_cond = MaxIterTerminationCond { n_iters: num_iters };
    let selection = RankSelection { select_count: population_size / 2 };
    let replacement_strategy = TruncationReplacementStrategy {};
    let res = evolutionary_search(
        &mut fitness,
        init,
        &selection,
        crossover,
        op,
        &replacement_strategy,
        &termination_cond,
    );
    match res {
        Ok(pair) => pair.1.fitness,
        Err(_) => {
            proof {
                assert(forall|j: int, o: int| #[trigger] ReplacementStrategy::<
                    GtspPermutation,
                    i64,
                    i64,
                >::pre(&replacement_strategy, j, o));
                assert(false);
            }
            vstd::pervasive::unreached()
        },
    }
}

/// Folds one run's series into the per-method accumulators: the first
/// repetition starts them, later ones are added on.
fn fold_series(per_method: &mut Vec<Vec<i64>>, m: usize, series: Vec<i64>, first: bool)
    requires
        first ==> old(per_method)@.len() == m as int,
        !first ==> m < old(per_method)@.len(),
        non_increasing(series@),
        forall|q: int|
            0 <= q < old(per_method)@.len() ==> non_increasing((#[trigger] old(per_method)@[q])@),
    ensures
        final(per_method)@.len() == (if first {
            old(per_method)@.len() as int + 1
        } else {
            old(per_method)@.len() as int
        }),
        forall|q: int|
            0 <= q < final(per_method)@.len() ==> non_increasing((#[trigger] final(per_method)@[q])@),
        forall|q: int|
            0 <= q < old(per_method)@.len() && q != m as int ==> #[trigger] final(per_method)@[q]
                == old(per_method)@[q],
        first ==> final(per_method)@[m as int]@ == series@,
        !first ==> final(per_method)@[m as int]@.len() == old(per_method)@[m as int]@.len(),
{
    if first {
        per_method.push(series);
    } else {
        merge_series(per_method, m, series);
    }
}

/// The methods the default-parameter comparison runs: three local searches
/// (move, swap, reverse) and two generational searches (cycle and order
/// composite crossover).
pub const GTSP_DEFAULT_METHOD_COUNT: usize = 5;

/// Runs the five default group-tour methods on each problem, with that
/// problem's own iteration budget, and accumulates the recorded
/// best-so-far series per method over the repetitions; the caller averages
/// and plots them. Every returned series never increases.
pub fn gtsp_basic_stats_default_params(
    problems: &Vec<Rc<GtspProblem>>,
    max_iters: &Vec<usize>,
    num_repetitions: usize,
    population_size: usize,
) -> (r: Vec<Vec<Vec<i64>>>)
    requires
        problems@.len() == max_iters@.len(),
        forall|p: int| 0 <= p < problems@.len() ==> (*(#[trigger] problems@[p])).wf(),
        1 <= population_size,
    ensures
        r@.len() == problems@.len(),
        forall|p: int| 0 <= p < r@.len() ==> (#[trigger] r@[p])@.len() == GTSP_DEFAULT_METHOD_COUNT,
        num_repetitions >= 1 ==> (forall|p: int, m: int|
            #![trigger r@[p]@[m]]
            0 <= p < r@.len() && 0 <= m < r@[p]@.len() ==> r@[p]@[m]@.len() == max_iters@[p] + 1),
        forall|p: int, m: int|
            #![trigger r@[p]@[m]]
            0 <= p < r@.len() && 0 <= m < r@[p]@.len() ==> non_increasing(r@[p]@[m]@),
{
    let mut out: Vec<Vec<Vec<i64>>> = Vec::new();
    let mut p: usize = 0;
    while p < problems.len()
        invariant
            problems@.len() == max_iters@.len(),
            forall|q: int| 0 <= q < problems@.len() ==> (*(#[trigger] problems@[q])).wf(),
            1 <= population_size,
            p <= problems@.len(),
            out@.len() == p,
            forall|q: int| 0 <= q < p ==> (#[trigger] out@[q])@.len() == GTSP_DEFAULT_METHOD_COUNT,
            num_repetitions >= 1 ==> (forall|q: int, m: int|
                #![trigger out@[q]@[m]]
                0 <= q < p && 0 <= m < out@[q]@.len() ==> out@[q]@[m]@.len() == max_iters@[q]
                    + 1),
            forall|q: int, m: int|
                #![trigger out@[q]@[m]]
                0 <= q < p && 0 <= m < out@[q]@.len() ==> non_increasing(out@[q]@[m]@),
        decreases problems@.len() - p,
    {
        let problem = &problems[p];
        let num_iters = max_iters[p];
        let groups_count = problem.groups.len();
        let mut per_method: Vec<Vec<i64>> = Vec::new();
        let mut rep: usize = 0;
        while rep < num_repetitions
            invariant
                (**problem).wf(),
                1 <= population_size,
                1 <= groups_count,
                rep <= num_repetitions,
                per_method@.len() == 0 || per_method@.len() == GTSP_DEFAULT_METHOD_COUNT,
                rep == 0 ==> per_method@.len() == 0,
                rep >= 1 ==> per_method@.len() == GTSP_DEFAULT_METHOD_COUNT,
                forall|m: int|
                    0 <= m < per_method@.len() ==> (#[trigger] per_method@[m])@.len() == num_iters
                        + 1,
                forall|m: int|
                    0 <= m < per_method@.len() ==> non_increasing((#[trigger] per_method@[m])@),
            decreases num_repetitions - rep,
        {
            let first = per_method.len() == 0;
            let s1 = run_gtsp_local(
                problem,
                combined_op(
                    groups_count,
                    1,
                    2,
                    GtspPerturbation::MoveGroup(GtspMoveGroupPerturbation {  }),
                ),
                num_iters,
            );
            fold_series(&mut per_method, 0, s1, first);
            let s2 = run_gtsp_local(
                problem,
                combined_op(
                    groups_count,
                    1,
                    2,
                    GtspPerturbation::SwapGroup(GtspSwapGroupPerturbation {  }),
                ),
                num_iters,
            );
            fold_series(&mut per_method, 1, s2, first);
            let s3 = run_gtsp_local(
                problem,
                combined_op(
                    groups_count,
                    1,
                    2,
                    GtspPerturbation::ReverseGroup(GtspReverseGroupPerturbation {  }),
                ),
                num_iters,
            );
            fold_series(&mut per_method, 2, s3, first);
            let s4 = run_gtsp_evo(
                problem,
                &GtspCycleCrossover::new(),
                combined_op(
                    groups_count,
                    1,
                    2,
                    GtspPerturbation::ReverseGroup(GtspReverseGroupPerturbation {  }),
                ),
                num_iters,
                population_size,
            );
            fold_series(&mut per_method, 3, s4, first);
            let s5 = run_gtsp_evo(
                problem,
                &GtspOrderCrossover::new(),
                combined_op(
                    groups_count,
                    1,
                    2,
                    GtspPerturbation::ReverseGroup(GtspReverseGroupPerturbation {  }),
                ),
                num_iters,
                population_size,
            );
            fold_series(&mut per_method, 4, s5, first);
            rep = rep + 1;
        }
        while per_method.len() < GTSP_DEFAULT_METHOD_COUNT
            invariant
                per_method@.len() <= GTSP_DEFAULT_METHOD_COUNT,
                forall|m: int|
                    0 <= m < per_method@.len() ==> non_increasing((#[trigger] per_method@[m])@),
                num_repetitions >= 1 ==> per_method@.len() == GTSP_DEFAULT_METHOD_COUNT && (forall|m: int|
                    0 <= m < per_method@.len() ==> (#[trigger] per_method@[m])@.len() == num_iters
                        + 1),
            decreases GTSP_DEFAULT_METHOD_COUNT - per_method@.len(),
        {
            per_method.push(Vec::new());
        }
        out.push(per_method);
        p = p + 1;
    }
    out
}

/// The methods the local-search comparison runs: move, swap, reverse, and
/// a tuned weighted combination.
pub const GTSP_LOCAL_METHOD_COUNT: usize = 4;

/// Runs the four local group-tour methods on each problem and accumulates
/// their best-so-far series over the repetitions. Every returned series
/// never increases.
pub fn gtsp_local_search_stats(
    problems: &Vec<Rc<GtspProblem>>,
    max_iters: &Vec<usize>,
    num_repetitions: usize,
) -> (r: Vec<Vec<Vec<i64>>>)
    requires
        problems@.len() == max_iters@.len(),
        forall|p: int| 0 <= p < problems@.len() ==> (*(#[trigger] problems@[p])).wf(),
    ensures
        r@.len() == problems@.len(),
        forall|p: int| 0 <= p < r@.len() ==> (#[trigger] r@[p])@.len() == GTSP_LOCAL_METHOD_COUNT,
        num_repetitions >= 1 ==> (forall|p: int, m: int|
            #![trigger r@[p]@[m]]
            0 <= p < r@.len() && 0 <= m < r@[p]@.len() ==> r@[p]@[m]@.len() == max_iters@[p] + 1),
        forall|p: int, m: int|
            #![trigger r@[p]@[m]]
            0 <= p < r@.len() && 0 <= m < r@[p]@.len() ==> non_increasing(r@[p]@[m]@),
{
    let mut out: Vec<Vec<Vec<i64>>> = Vec::new();
    let mut p: usize = 0;
    while p < problems.len()
        invariant
            problems@.len() == max_iters@.len(),
            forall|q: int| 0 <= q < problems@.len() ==> (*(#[trigger] problems@[q])).wf(),
            p <= problems@.len(),
            out@.len() == p,
            forall|q: int| 0 <= q < p ==> (#[trigger] out@[q])@.len() == GTSP_LOCAL_METHOD_COUNT,
            num_repetitions >= 1 ==> (forall|q: int, m: int|
                #![trigger out@[q]@[m]]
                0 <= q < p && 0 <= m < out@[q]@.len() ==> out@[q]@[m]@.len() == max_iters@[q]
                    + 1),
            forall|q: int, m: int|
                #![trigger out@[q]@[m]]
                0 <= q < p && 0 <= m < out@[q]@.len() ==> non_increasing(out@[q]@[m]@),
        decreases problems@.len() - p,
    {
        let problem = &problems[p];
        let num_iters = max_iters[p];
        let groups_count = problem.groups.len();
        let mut per_method: Vec<Vec<i64>> = Vec::new();
        let mut rep: usize = 0;
        while rep < num_repetitions
            invariant
                (**problem).wf(),
                1 <= groups_count,
                rep <= num_repetitions,
                per_method@.len() == 0 || per_method@.len() == GTSP_LOCAL_METHOD_COUNT,
                rep == 0 ==> per_method@.len() == 0,
                rep >= 1 ==> per_method@.len() == GTSP_LOCAL_METHOD_COUNT,
                forall|m: int|
                    0 <= m < per_method@.len() ==> (#[trigger] per_method@[m])@.len() == num_iters
                        + 1,
                forall|m: int|
                    0 <= m < per_method@.len() ==> non_increasing((#[trigger] per_method@[m])@),
            decreases num_repetitions - rep,
        {
            let first = per_method.len() == 0;
            let s1 = run_gtsp_local(
                problem,
                combined_op(
                    groups_count,
                    1,
                    2,
                    GtspPerturbation::MoveGroup(GtspMoveGroupPerturbation {  }),
                ),
                num_iters,
            );
            fold_series(&mut per_method, 0, s1, first);
            let s2 = run_gtsp_local(
                problem,
                combined_op(
                    groups_count,
                    1,
                    2,
                    GtspPerturbation::SwapGroup(GtspSwapGroupPerturbation {  }),
                ),
                num_iters,
            );
            fold_series(&mut per_method, 1, s2, first);
            let s3 = run_gtsp_local(
                problem,
                combined_op(
                    groups_count,
                    1,
                    2,
                    GtspPerturbation::ReverseGroup(GtspReverseGroupPerturbation {  }),
                ),
                num_iters,
            );
            fold_series(&mut per_method, 2, s3, first);
            let s4 = run_gtsp_local(
                problem,
                combined_op(
                    groups_count,
                    9,
                    10,
                    GtspPerturbation::ReverseGroup(GtspReverseGroupPerturbation {  }),
                ),
                num_iters,
            );
            fold_series(&mut per_method, 3, s4, first);
            rep = rep + 1;
        }
        while per_method.len() < GTSP_LOCAL_METHOD_COUNT
            invariant
                per_method@.len() <= GTSP_LOCAL_METHOD_COUNT,
                forall|m: int|
                    0 <= m < per_method@.len() ==> non_increasing((#[trigger] per_method@[m])@),
                num_repetitions >= 1 ==> per_method@.len() == GTSP_LOCAL_METHOD_COUNT && (forall|m: int|
                    0 <= m < per_method@.len() ==> (#[trigger] per_method@[m])@.len() == num_iters
                        + 1),
            decreases GTSP_LOCAL_METHOD_COUNT - per_method@.len(),
        {
            per_method.push(Vec::new());
        }
        out.push(per_method);
        p = p + 1;
    }
    out
}

/// The methods the generational comparison runs: cycle and order composite
/// crossover, each with a move-based and a reverse-based mutation.
pub const GTSP_EVO_METHOD_COUNT: usize = 4;

/// Runs the four generational group-tour configurations on each problem
/// and accumulates their best-so-far series over the repetitions. Every
/// returned series never increases.
pub fn gtsp_evolutionary_search_stats(
    problems: &Vec<Rc<GtspProblem>>,
    max_iters: &Vec<usize>,
    num_repetitions: usize,
    population_size: usize,
) -> (r: Vec<Vec<Vec<i64>>>)
    requires
        problems@.len() == max_iters@.len(),
        forall|p: int| 0 <= p < problems@.len() ==> (*(#[trigger] problems@[p])).wf(),
        1 <= population_size,
    ensures
        r@.len() == problems@.len(),
        forall|p: int| 0 <= p < r@.len() ==> (#[trigger] r@[p])@.len() == GTSP_EVO_METHOD_COUNT,
        num_repetitions >= 1 ==> (forall|p: int, m: int|
            #![trigger r@[p]@[m]]
            0 <= p < r@.len() && 0 <= m < r@[p]@.len() ==> r@[p]@[m]@.len() == max_iters@[p] + 1),
        forall|p: int, m: int|
            #![trigger r@[p]@[m]]
            0 <= p < r@.len() && 0 <= m < r@[p]@.len() ==> non_increasing(r@[p]@[m]@),
{
    let mut out: Vec<Vec<Vec<i64>>> = Vec::new();
    let mut p: usize = 0;
    while p < problems.len()
        invariant
            problems@.len() == max_iters@.len(),
            forall|q: int| 0 <= q < problems@.len() ==> (*(#[trigger] problems@[q])).wf(),
            1 <= population_size,
            p <= problems@.len(),
            out@.len() == p,
            forall|q: int| 0 <= q < p ==> (#[trigger] out@[q])@.len() == GTSP_EVO_METHOD_COUNT,
            num_repetitions >= 1 ==> (forall|q: int, m: int|
                #![trigger out@[q]@[m]]
                0 <= q < p && 0 <= m < out@[q]@.len() ==> out@[q]@[m]@.len() == max_iters@[q]
                    + 1),
            forall|q: int, m: int|
                #![trigger out@[q]@[m]]
                0 <= q < p && 0 <= m < out@[q]@.len() ==> non_increasing(out@[q]@[m]@),
        decreases problems@.len() - p,
    {
        let problem = &problems[p];
        let num_iters = max_iters[p];
        let groups_count = problem.groups.len();
        let mut per_method: Vec<Vec<i64>> = Vec::new();
        let mut rep: usize = 0;
        while rep < num_repetitions
            invariant
                (**problem).wf(),
                1 <= population_size,
                1 <= groups_count,
                rep <= num_repetitions,
                per_method@.len() == 0 || per_method@.len() == GTSP_EVO_METHOD_COUNT,
                rep == 0 ==> per_method@.len() == 0,
                rep >= 1 ==> per_method@.len() == GTSP_EVO_METHOD_COUNT,
                forall|m: int|
                    0 <= m < per_method@.len() ==> (#[trigger] per_method@[m])@.len() == num_iters
                        + 1,
                forall|m: int|
                    0 <= m < per_method@.len() ==> non_increasing((#[trigger] per_method@[m])@),
            decreases num_repetitions - rep,
        {
            let first = per_method.len() == 0;
            let s1 = run_gtsp_evo(
                problem,
                &GtspCycleCrossover::new(),
                combined_op(
                    groups_count,
                    1,
                    2,
                    GtspPerturbation::MoveGroup(GtspMoveGroupPerturbation {  }),
                ),
                num_iters,
                population_size,
            );
            fold_series(&mut per_method, 0, s1, first);
            let s2 = run_gtsp_evo(
                problem,
                &GtspCycleCrossover::new(),
                combined_op(
                    groups_count,
                    1,
                    2,
                    GtspPerturbation::ReverseGroup(GtspReverseGroupPerturbation {  }),
                ),
                num_iters,
                population_size,
            );
            fold_series(&mut per_method, 1, s2, first);
            let s3 = run_gtsp_evo(
                problem,
                &GtspOrderCrossover::new(),
                combined_op(
                    groups_count,
                    1,
                    2,
                    GtspPerturbation::MoveGroup(GtspMoveGroupPerturbation {  }),
                ),
                num_iters,
                population_size,
            );
            fold_series(&mut per_method, 2, s3, first);
            let s4 = run_gtsp_evo(
                problem,
                &GtspOrderCrossover::new(),
                combined_op(
                    groups_count,
                    1,
                    2,
                    GtspPerturbation::ReverseGroup(GtspReverseGroupPerturbation {  }),
                ),
                num_iters,
                population_size,
            );
            fold_series(&mut per_method, 3, s4, first);
            rep = rep + 1;
        }
        while per_method.len() < GTSP_EVO_METHOD_COUNT
            invariant
                per_method@.len() <= GTSP_EVO_METHOD_COUNT,
                forall|m: int|
                    0 <= m < per_method@.len() ==> non_increasing((#[trigger] per_method@[m])@),
                num_repetitions >= 1 ==> per_method@.len() == GTSP_EVO_METHOD_COUNT && (forall|m: int|
                    0 <= m < per_method@.len() ==> (#[trigger] per_method@[m])@.len() == num_iters
                        + 1),
            decreases GTSP_EVO_METHOD_COUNT - per_method@.len(),
        {
            per_method.push(Vec::new());
        }
        out.push(per_method);
        p = p + 1;
    }
    out
}

/// The tuned configurations: the general composite crossover with the
/// roulette-biased vertex resample, against the plain one.
pub const GTSP_OPTIMIZED_METHOD_COUNT: usize = 2;

/// Runs the tuned group-tour configurations on each problem and
/// accumulates their best-so-far series over the repetitions. Every
/// returned series never increases.
pub fn gtsp_stats_optimized_params(
    problems: &Vec<Rc<GtspProblem>>,
    max_iters: &Vec<usize>,
    num_repetitions: usize,
    population_size: usize,
) -> (r: Vec<Vec<Vec<i64>>>)
    requires
        problems@.len() == max_iters@.len(),
        forall|p: int| 0 <= p < problems@.len() ==> (*(#[trigger] problems@[p])).wf(),
        1 <= population_size,
    ensures
        r@.len() == problems@.len(),
        forall|p: int| 0 <= p < r@.len() ==> (#[trigger] r@[p])@.len() == GTSP_OPTIMIZED_METHOD_COUNT,
        num_repetitions >= 1 ==> (forall|p: int, m: int|
            #![trigger r@[p]@[m]]
            0 <= p < r@.len() && 0 <= m < r@[p]@.len() ==> r@[p]@[m]@.len() == max_iters@[p] + 1),
        forall|p: int, m: int|
            #![trigger r@[p]@[m]]
            0 <= p < r@.len() && 0 <= m < r@[p]@.len() ==> non_increasing(r@[p]@[m]@),
{
    let mut out: Vec<Vec<Vec<i64>>> = Vec::new();
    let mut p: usize = 0;
    while p < problems.len()
        invariant
            problems@.len() == max_iters@.len(),
            forall|q: int| 0 <= q < problems@.len() ==> (*(#[trigger] problems@[q])).wf(),
            1 <= population_size,
            p <= problems@.len(),
            out@.len() == p,
            forall|q: int| 0 <= q < p ==> (#[trigger] out@[q])@.len() == GTSP_OPTIMIZED_METHOD_COUNT,
            num_repetitions >= 1 ==> (forall|q: int, m: int|
                #![trigger out@[q]@[m]]
                0 <= q < p && 0 <= m < out@[q]@.len() ==> out@[q]@[m]@.len() == max_iters@[q]
                    + 1),
            forall|q: int, m: int|
                #![trigger out@[q]@[m]]
                0 <= q < p && 0 <= m < out@[q]@.len() ==> non_increasing(out@[q]@[m]@),
        decreases problems@.len() - p,
    {
        let problem = &problems[p];
        let num_iters = max_iters[p];
        let groups_count = problem.groups.len();
        let general = GtspGeneralCrossover {
            city_prob: Prob::new(2, 5),
            cycle_prob: Prob::new(1, 5),
            order_prob: Prob::new(1, 5),
        };
        let mut per_method: Vec<Vec<i64>> = Vec::new();
        let mut rep: usize = 0;
        while rep < num_repetitions
            invariant
                (**problem).wf(),
                1 <= population_size,
                1 <= groups_count,
                rep <= num_repetitions,
                per_method@.len() == 0 || per_method@.len() == GTSP_OPTIMIZED_METHOD_COUNT,
                rep == 0 ==> per_method@.len() == 0,
                rep >= 1 ==> per_method@.len() == GTSP_OPTIMIZED_METHOD_COUNT,
                forall|m: int|
                    0 <= m < per_method@.len() ==> (#[trigger] per_method@[m])@.len() == num_iters
                        + 1,
                forall|m: int|
                    0 <= m < per_method@.len() ==> non_increasing((#[trigger] per_method@[m])@),
            decreases num_repetitions - rep,
        {
            let first = per_method.len() == 0;
            let general1 = GtspGeneralCrossover {
                city_prob: Prob::new(2, 5),
                cycle_prob: Prob::new(1, 5),
                order_prob: Prob::new(1, 5),
            };
            let mut roulette_ops: Vec<ProbPerturbeMutOp<GtspPermutation, GtspPerturbation>> =
                Vec::new();
            roulette_ops.push(
                ProbPerturbeMutOp::new(
                    Prob::new(9, 10),
                    GtspPerturbation::RouletteVert(
                        GtspRouletteWheelGroupVertPerturbation::new(groups_count),
                    ),
                ),
            );
            roulette_ops.push(
                ProbPerturbeMutOp::new(
                    Prob::new(1, 2),
                    GtspPerturbation::ReverseGroup(GtspReverseGroupPerturbation {  }),
                ),
            );
            let s1 = run_gtsp_evo(
                problem,
                &general1,
                CombinePerturbeMutOps { mut_ops: roulette_ops },
                num_iters,
                population_size,
            );
            fold_series(&mut per_method, 0, s1, first);
            let general2 = GtspGeneralCrossover {
                city_prob: Prob::new(2, 5),
                cycle_prob: Prob::new(1, 5),
                order_prob: Prob::new(1, 5),
            };
            let s2 = run_gtsp_evo(
                problem,
                &general2,
                combined_op(
                    groups_count,
                    1,
                    2,
                    GtspPerturbation::ReverseGroup(GtspReverseGroupPerturbation {  }),
                ),
                num_iters,
                population_size,
            );
            fold_series(&mut per_method, 1, s2, first);
            rep = rep + 1;
        }
        while per_method.len() < GTSP_OPTIMIZED_METHOD_COUNT
            invariant
                per_method@.len() <= GTSP_OPTIMIZED_METHOD_COUNT,
                forall|m: int|
                    0 <= m < per_method@.len() ==> non_increasing((#[trigger] per_method@[m])@),
                num_repetitions >= 1 ==> per_method@.len() == GTSP_OPTIMIZED_METHOD_COUNT && (forall|m: int|
                    0 <= m < per_method@.len() ==> (#[trigger] per_method@[m])@.len() == num_iters
                        + 1),
            decreases GTSP_OPTIMIZED_METHOD_COUNT - per_method@.len(),
        {
            per_method.push(Vec::new());
        }
        out.push(per_method);
        p = p + 1;
    }
    out
}

/// Runs one generational group-tour search and hands back the best tour
/// found with its length, for the caller to draw.
pub fn gtsp_viz_gen_solution(problem: &Rc<GtspProblem>, num_iters: usize, population_size: usize)
    -> (r: (GtspPermutation, i64))
    requires
        (**problem).wf(),
        1 <= population_size,
    ensures
        r.0.inv(),
        r.1 == (GtspFitness {  }).eval_spec(r.0@),
{
    let mut fitness = GtspFitness {  };
    let init = InitRandomGtspPopulation::new(Rc::clone(problem), population_size);
    let termination_cond = MaxIterTerminationCond { n_iters: num_iters };
    let selection = RankSelection { select_count: population_size / 2 };
    let replacement_strategy = TruncationReplacementStrategy {};
    let groups_count = problem.groups.len();
    let res = evolutionary_search(
        &mut fitness,
        init,
        &selection,
        &GtspOrderCrossover::new(),
        combined_op(
            groups_count,
            1,
            2,
            GtspPerturbation::MoveGroup(GtspMoveGroupPerturbation {  }),
        ),
        &replacement_strategy,
        &termination_cond,
    );
    match res {
        Ok(pair) => (pair.0.value, pair.0.fitness),
        Err(_) => {
            proof {
                assert(forall|j: int, o: int| #[trigger] ReplacementStrategy::<
                    GtspPermutation,
                    i64,
                    i64,
                >::pre(&replacement_strategy, j, o));
                assert(false);
            }
            vstd::pervasive::unreached()
        },
    }
}

} // verus!
