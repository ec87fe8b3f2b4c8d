use vstd::prelude::*;

use crate::opt_data::non_increasing;
use crate::opt_traits::{sat_add, sat_add_spec, InitPopulation, OptData, ReplacementStrategy};
use crate::opt_search::{evolutionary_search, local_search};
use crate::replacement::TruncationReplacementStrategy;
use crate::selection::TournamentSelection;
use crate::termination::MaxIterTerminationCond;
use crate::tsp::{
    tour_len_partial, DistanceHalfMatrix, InitTspPopulation, TspCycleCrossover, TspFitness,
    TspMovePerturbation, TspOrderCrossover, TspPermutation, TspReversePerturbation,
    TspSwapPerturbation,
};

verus! {

/// Adds a recorded series onto an accumulator, entry by entry and clamped
/// into range; two non-increasing series stay non-increasing.
pub fn accumulate_series(acc: &mut Vec<i64>, series: &Vec<i64>)
    requires
        old(acc)@.len() == series@.len(),
    ensures
        final(acc)@.len() == old(acc)@.len(),
        non_increasing(old(acc)@) && non_increasing(series@) ==> non_increasing(final(acc)@),
{
    let n = acc.len();
    let mut i: usize = 0;
    while i < n
        invariant
            n == acc@.len(),
            n == old(acc)@.len(),
            n == series@.len(),
            i <= n,
            forall|k: int|
                i <= k < n ==> #[trigger] acc@[k] == old(acc)@[k],
            forall|k: int|
                0 <= k < i ==> #[trigger] acc@[k] as int == sat_add_spec(
                    old(acc)@[k] as int,
                    series@[k] as int,
                ),
        decreases n - i,
    {
        let v = sat_add(acc[i], series[i]);
        acc[i] = v;
        i = i + 1;
    }
}

/// The methods the tour comparison runs: three local searches (move, swap,
/// reverse) and two evolutionary searches (cycle and order crossover).
pub const COMPARISON_METHOD_COUNT: usize = 5;

/// Runs the five standard tour-search methods on each problem instance,
/// repeats each run, and accumulates the recorded best-so-far fitness
/// series per method; the caller averages and plots them. Every returned
/// series never increases.
pub fn create_comparison_graphs(
    problems: &Vec<DistanceHalfMatrix>,
    num_repetitions: usize,
    num_iters: usize,
    population_size: usize,
) -> (r: Vec<Vec<Vec<i64>>>)
    requires
        forall|p: int| 0 <= p < problems@.len() ==> (#[trigger] problems@[p]).wf(),
        1 <= population_size,
    ensures
        r@.len() == problems@.len(),
        forall|p: int|
            0 <= p < r@.len() ==> (#[trigger] r@[p])@.len() == COMPARISON_METHOD_COUNT,
        forall|p: int, m: int|
            #![trigger r@[p]@[m]]
            0 <= p < r@.len() && 0 <= m < r@[p]@.len() ==> non_increasing(r@[p]@[m]@),
        num_repetitions >= 1 ==> (forall|p: int, m: int|
            #![trigger r@[p]@[m]]
            0 <= p < r@.len() && 0 <= m < r@[p]@.len() ==> r@[p]@[m]@.len() == num_iters + 1),
{
    let mut out: Vec<Vec<Vec<i64>>> = Vec::new();
    let mut p: usize = 0;
    while p < problems.len()
        invariant
            forall|q: int| 0 <= q < problems@.len() ==> (#[trigger] problems@[q]).wf(),
            1 <= population_size,
            p <= problems@.len(),
            out@.len() == p,
            forall|q: int|
                0 <= q < p ==> (#[trigger] out@[q])@.len() == COMPARISON_METHOD_COUNT,
            forall|q: int, m: int|
                #![trigger out@[q]@[m]]
                0 <= q < p && 0 <= m < out@[q]@.len() ==> non_increasing(out@[q]@[m]@),
            num_repetitions >= 1 ==> (forall|q: int, m: int|
                #![trigger out@[q]@[m]]
                0 <= q < p && 0 <= m < out@[q]@.len() ==> out@[q]@[m]@.len() == num_iters + 1),
        decreases problems@.len() - p,
    {
        let dm = problems[p].clone();
        let vert_count = dm.vert_count();
        let mut fitness = TspFitness::new(dm);
        let termination_cond = MaxIterTerminationCond { n_iters: num_iters };
        let selection = TournamentSelection {
            select_count: vert_count / 2,
            rounds_count: 8,
        };
        let replacement_strategy = TruncationReplacementStrategy {};
        let init_population = InitTspPopulation::new(population_size, vert_count);
        let mut per_method: Vec<Vec<i64>> = Vec::new();
        let mut rep: usize = 0;
        while rep < num_repetitions
            invariant
                1 <= population_size,
                init_population.popsize() == population_size as int,
                termination_cond.n_iters == num_iters,
                rep <= num_repetitions,
                per_method@.len() == 0 || per_method@.len() == COMPARISON_METHOD_COUNT,
                rep == 0 ==> per_method@.len() == 0,
                rep >= 1 ==> per_method@.len() == COMPARISON_METHOD_COUNT,
                forall|m: int|
                    0 <= m < per_method@.len() ==> non_increasing((#[trigger] per_method@[m])@),
                forall|m: int|
                    0 <= m < per_method@.len() ==> (#[trigger] per_method@[m])@.len() == num_iters
                        + 1,
            decreases num_repetitions - rep,
        {
            let (_, stats1) = local_search(
                &mut fitness,
                init_population.duplicate(),
                TspMovePerturbation {  },
                &termination_cond,
            );
            let (_, stats2) = local_search(
                &mut fitness,
                init_population.duplicate(),
                TspSwapPerturbation {  },
                &termination_cond,
            );
            let (_, stats3) = local_search(
                &mut fitness,
                init_population.duplicate(),
                TspReversePerturbation {  },
                &termination_cond,
            );
            let r4 = evolutionary_search(
                &mut fitness,
                init_population.duplicate(),
                &selection,
                &TspCycleCrossover {  },
                TspMovePerturbation {  },
                &replacement_strategy,
                &termination_cond,
            );
            let stats4 = match r4 {
                Ok(pair) => pair.1,
                Err(_) => {
                    proof {
                        assert(forall|j: int, o: int| #[trigger] ReplacementStrategy::<
                            TspPermutation,
                            i64,
                            i64,
                        >::pre(&replacement_strategy, j, o));
                        assert(false);
                    }
                    vstd::pervasive::unreached()
                },
            };
            let r5 = evolutionary_search(
                &mut fitness,
                init_population.duplicate(),
                &selection,
                &TspOrderCrossover {  },
                TspMovePerturbation {  },
                &replacement_strategy,
                &termination_cond,
            );
            let stats5 = match r5 {
                Ok(pair) => pair.1,
                Err(_) => {
                    proof {
                        assert(forall|j: int, o: int| #[trigger] ReplacementStrategy::<
                            TspPermutation,
                            i64,
                            i64,
                        >::pre(&replacement_strategy, j, o));
                        assert(false);
                    }
                    vstd::pervasive::unreached()
                },
            };
            if per_method.len() == 0 {
                per_method.push(stats1.fitness);
                per_method.push(stats2.fitness);
                per_method.push(stats3.fitness);
                per_method.push(stats4.fitness);
                per_method.push(stats5.fitness);
            } else {
                merge_series(&mut per_method, 0, stats1.fitness);
                merge_series(&mut per_method, 1, stats2.fitness);
                merge_series(&mut per_method, 2, stats3.fitness);
                merge_series(&mut per_method, 3, stats4.fitness);
                merge_series(&mut per_method, 4, stats5.fitness);
            }
            rep = rep + 1;
        }
        while per_method.len() < COMPARISON_METHOD_COUNT
            invariant
                per_method@.len() <= COMPARISON_METHOD_COUNT,
                forall|m: int|
                    0 <= m < per_method@.len() ==> non_increasing((#[trigger] per_method@[m])@),
                num_repetitions >= 1 ==> per_method@.len() == COMPARISON_METHOD_COUNT && (
                forall|m: int|
                    0 <= m < per_method@.len() ==> (#[trigger] per_method@[m])@.len() == num_iters
                        + 1),
            decreases COMPARISON_METHOD_COUNT - per_method@.len(),
        {
            per_method.push(Vec::new());
        }
        out.push(per_method);
        p = p + 1;
    }
    out
}

/// Adds one run's series onto the accumulated series of its method; a run
/// whose series came out with a different length is dropped, so the
/// accumulator always stays aligned.
pub fn merge_series(per_method: &mut Vec<Vec<i64>>, m: usize, series: Vec<i64>)
    requires
        m < old(per_method)@.len(),
    ensures
        final(per_method)@.len() == old(per_method)@.len(),
        forall|q: int|
            0 <= q < old(per_method)@.len() && q != m as int ==> #[trigger] final(per_method)@[q]
                == old(per_method)@[q],
        final(per_method)@[m as int]@.len() == old(per_method)@[m as int]@.len(),
        non_increasing(old(per_method)@[m as int]@) && non_increasing(series@)
            ==> non_increasing(final(per_method)@[m as int]@),
{
    let ghost pre = per_method@;
    if per_method[m].len() == series.len() {
        let mut acc = per_method.remove(m);
        accumulate_series(&mut acc, &series);
        per_method.insert(m, acc);
        proof {
            assert forall|q: int|
                0 <= q < pre.len() && q != m as int implies #[trigger] final(per_method)@[q]
                == pre[q] by {
            }
        }
    }
}

/// Two distance tables that agree pairwise give every tour the same
/// length.
proof fn lemma_tour_len_same_table(d1: DistanceHalfMatrix, d2: DistanceHalfMatrix, s: Seq<usize>, m: int)
    requires
        forall|a: int, b: int| #[trigger] d1.dist_spec(a, b) == d2.dist_spec(a, b),
    ensures
        tour_len_partial(d1, s, m) == tour_len_partial(d2, s, m),
    decreases m,
{
    if m > 0 {
        lemma_tour_len_same_table(d1, d2, s, m - 1);
    }
}

/// Runs one evolutionary tour search and hands back the best tour found
/// with its length, for the caller to draw; the length is the exact tour
/// length of the returned tour under the given table.
pub fn create_vizualization_graphs(
    problem: &DistanceHalfMatrix,
    num_iters: usize,
    population_size: usize,
) -> (r: (TspPermutation, i64))
    requires
        problem.wf(),
        1 <= population_size,
    ensures
        r.0.inv(),
        r.1 == tour_len_partial(*problem, r.0@, r.0@.len() as int) as i64,
{
    let dm = problem.clone();
    let vert_count = dm.vert_count();
    let mut fitness = TspFitness::new(dm);
    let selection = TournamentSelection { select_count: vert_count / 2, rounds_count: 8 };
    let replacement_strategy = TruncationReplacementStrategy {};
    let init_population = InitTspPopulation::new(population_size, vert_count);
    let termination_cond = MaxIterTerminationCond { n_iters: num_iters };
    let res = evolutionary_search(
        &mut fitness,
        init_population,
        &selection,
        &TspCycleCrossover {  },
        TspMovePerturbation {  },
        &replacement_strategy,
        &termination_cond,
    );
    match res {
        Ok(pair) => {
            proof {
                lemma_tour_len_same_table(
                    fitness.dist_table(),
                    *problem,
                    pair.0.value@,
                    pair.0.value@.len() as int,
                );
            }
            (pair.0.value, pair.0.fitness)
        },
        Err(_) => {
            proof {
                assert(forall|j: int, o: int| #[trigger] ReplacementStrategy::<
                    TspPermutation,
                    i64,
                    i64,
                >::pre(&replacement_strategy, j, o));
                assert(false);
            }
            vstd::pervasive::unreached()
        },
    }
}

} // verus!
