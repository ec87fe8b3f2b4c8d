use vstd::prelude::*;

use crate::opt_data::{
    find_best_fitness, non_increasing, BSFSingleObjSolution, BSFSingleObjStatistics,
    IterSingleObjStatistics,
};
use crate::opt_traits::{
    pop_inv, sat_sub, Crossover, Fitness, FitnessFunc, FitnessTransformer, GeneralFitnessFunc,
    InitFunc, InitPopulation, OptData, PerturbeMutOp, ReplacementStrategy, Selection, Solution,
    Statistics, TerminationCond,
};

verus! {

/// A configuration error detected while a search loop was running; the loop
/// fails fast instead of carrying on with misaligned populations.
#[derive(Debug, Clone, Copy, PartialEq, Eq, Structural)]
pub enum SearchError {
    /// The replacement strategy's precondition did not hold for the joined
    /// population it was about to trim.
    ReplacementPrecondition,
}

/// Evaluates a whole population to its raw scalar fitness sequence.
pub fn evaluate_population<T: OptData, FitnessFuncT: FitnessFunc<T>>(
    fitness_func: &mut FitnessFuncT,
    population: &Vec<T>,
    fitness: &mut Vec<i64>,
)
    requires
        pop_inv(population@),
    ensures
        *final(fitness_func) == *old(fitness_func),
        final(fitness)@.len() == population@.len(),
        forall|i: int|
            0 <= i < population@.len() ==> final(fitness)@[i] == old(fitness_func).eval_spec(
                #[trigger] population@[i]@,
            ),
{
    fitness.clear();
    let mut i: usize = 0;
    while i < population.len()
        invariant
            *fitness_func == *old(fitness_func),
            i <= population@.len(),
            fitness@.len() == i,
            pop_inv(population@),
            forall|k: int|
                0 <= k < i ==> fitness@[k] == old(fitness_func).eval_spec(
                    #[trigger] population@[k]@,
                ),
        decreases population@.len() - i,
    {
        let v = fitness_func.eval(&population[i]);
        fitness.push(v);
        i = i + 1;
    }
}

/// Single-candidate hill climbing: perturb the current candidate, keep the
/// perturbed one only when it is strictly better, and record the current
/// fitness once per iteration.
///
/// The recorded series never increases, its last entry is the returned
/// fitness, and the returned fitness is the exact objective value of the
/// returned candidate.
pub fn local_search<
    T: OptData,
    FitnessFuncT: FitnessFunc<T>,
    InitFuncT: InitFunc<T>,
    PerturbeMutOpT: PerturbeMutOp<T>,
    TerminationCondT: TerminationCond<T>,
>(
    fitness: &mut FitnessFuncT,
    init_func: InitFuncT,
    perturbe_mut_op: PerturbeMutOpT,
    termination_cond: &TerminationCondT,
) -> (r: (BSFSingleObjSolution<T>, IterSingleObjStatistics))
    ensures
        *final(fitness) == *old(fitness),
        r.1.fitness@.len() >= 1,
        r.1.fitness@.len() <= termination_cond.max_iters() + 1,
        (forall|i: int, d: int|
            #[trigger] termination_cond.should_stop(i, d) <==> i >= termination_cond.max_iters())
            ==> r.1.fitness@.len() == termination_cond.max_iters() + 1,
        non_increasing(r.1.fitness@),
        r.0.fitness == r.1.fitness@.last(),
        r.0.fitness <= r.1.fitness@[0],
        r.0.value.inv(),
        r.0.fitness == old(fitness).eval_spec(r.0.value@),
{
    let mut op = perturbe_mut_op;
    let mut stats = IterSingleObjStatistics { fitness: Vec::new() };
    let mut iter: usize = 0;
    let mut diff: i64 = i64::MAX;
    let mut curr_value = init_func.init();
    let mut curr_fitness = fitness.eval(&curr_value);
    stats.fitness.push(curr_fitness);
    while !termination_cond.eval(iter, diff)
        invariant
            iter <= termination_cond.max_iters(),
            *fitness == *old(fitness),
            curr_value.inv(),
            curr_fitness == old(fitness).eval_spec(curr_value@),
            stats.fitness@.len() == iter + 1,
            non_increasing(stats.fitness@),
            stats.fitness@.last() == curr_fitness,
        decreases termination_cond.max_iters() - iter,
    {
        proof {
            if iter >= termination_cond.max_iters() {
                termination_cond.stops(iter as int, diff as int);
            }
        }
        let mut next_value = curr_value.duplicate();
        op.eval(&mut next_value);
        let next_fitness = fitness.eval(&next_value);
        diff = sat_sub(next_fitness, curr_fitness);
        let is_better = next_fitness < curr_fitness;
        op.update(diff, curr_value.dim());
        if is_better {
            curr_value = next_value;
            curr_fitness = next_fitness;
        }
        stats.fitness.push(curr_fitness);
        iter = iter + 1;
    }
    (BSFSingleObjSolution { value: curr_value, fitness: curr_fitness }, stats)
}

/// Local search behind the evolutionary-search parameter list: the
/// population-level strategies are accepted and ignored, so one driver can
/// run both kinds of search.
pub fn local_search_evolutionary_api<
    T: OptData,
    FitnessFuncT: FitnessFunc<T>,
    InitPopulationT: InitPopulation<T>,
    SelectionT: Selection<T, i64>,
    CrossoverT: Crossover<T>,
    PerturbeMutOpT: PerturbeMutOp<T>,
    ReplacementStrategyT: ReplacementStrategy<T, i64, i64>,
    TerminationCondT: TerminationCond<T>,
>(
    fitness_func: &mut FitnessFuncT,
    init_population: InitPopulationT,
    _selection: &SelectionT,
    _crossover: &CrossoverT,
    perturbe_mut_op: PerturbeMutOpT,
    _replacement_strategy: &ReplacementStrategyT,
    termination_cond: &TerminationCondT,
) -> (r: (BSFSingleObjSolution<T>, IterSingleObjStatistics))
    ensures
        r.1.fitness@.len() >= 1,
        non_increasing(r.1.fitness@),
        r.0.fitness == r.1.fitness@.last(),
        r.0.value.inv(),
{
    local_search(fitness_func, init_population, perturbe_mut_op, termination_cond)
}

/// Mutates every candidate of a population in place.
fn mutate<T: OptData, PerturbeMutOpT: PerturbeMutOp<T>>(
    population: &mut Vec<T>,
    perturbe_mut_op: &PerturbeMutOpT,
)
    requires
        pop_inv(old(population)@),
    ensures
        final(population)@.len() == old(population)@.len(),
        pop_inv(final(population)@),
{
    let mut i: usize = 0;
    while i < population.len()
        invariant
            i <= population@.len(),
            population@.len() == old(population)@.len(),
            pop_inv(population@),
        decreases population@.len() - i,
    {
        let mut value = population[i].duplicate();
        perturbe_mut_op.eval(&mut value);
        population[i] = value;
        i = i + 1;
    }
}

/// Appends the offspring candidates and their fitness values onto the old
/// population, so replacement sees "old followed by new".
fn join_populations<T: OptData, F: Fitness>(
    population: &mut Vec<T>,
    fitness: &mut Vec<F>,
    offsprings: &mut Vec<T>,
    offsprings_fitness: &mut Vec<F>,
)
    ensures
        final(population)@ == old(population)@ + old(offsprings)@,
        final(fitness)@ == old(fitness)@ + old(offsprings_fitness)@,
        final(offsprings)@.len() == 0,
        final(offsprings_fitness)@.len() == 0,
{
    population.append(offsprings);
    fitness.append(offsprings_fitness);
}

/// Generational population loop over a scalar objective: select parents,
/// recombine, mutate, evaluate, join, replace, and track the best candidate
/// ever seen. The recorded best-so-far series never increases.
///
/// Fails fast with a `SearchError` when the replacement strategy's
/// precondition does not hold for the joined population; a strategy whose
/// precondition always holds never fails.
pub fn evolutionary_search<
    T: OptData,
    FitnessFuncT: FitnessFunc<T>,
    InitPopulationT: InitPopulation<T>,
    SelectionT: Selection<T, i64>,
    CrossoverT: Crossover<T>,
    PerturbeMutOpT: PerturbeMutOp<T>,
    ReplacementStrategyT: ReplacementStrategy<T, i64, i64>,
    TerminationCondT: TerminationCond<T>,
>(
    fitness_func: &mut FitnessFuncT,
    init_population: InitPopulationT,
    selection: &SelectionT,
    crossover: &CrossoverT,
    perturbe_mut_op: PerturbeMutOpT,
    replacement_strategy: &ReplacementStrategyT,
    termination_cond: &TerminationCondT,
) -> (r: Result<(BSFSingleObjSolution<T>, BSFSingleObjStatistics), SearchError>)
    requires
        init_population.popsize() >= 1,
    ensures
        (forall|j: int, o: int| replacement_strategy.pre(j, o)) ==> r is Ok,
        *final(fitness_func) == *old(fitness_func),
        r matches Ok(p) ==> {
            &&& non_increasing(p.1.fitness@)
            &&& p.1.fitness@.len() >= 1
            &&& p.1.fitness@.len() <= termination_cond.max_iters() + 1
            &&& ((forall|i: int, d: int|
                #[trigger] termination_cond.should_stop(i, d) <==> i
                    >= termination_cond.max_iters()) ==> p.1.fitness@.len()
                == termination_cond.max_iters() + 1)
            &&& p.0.fitness == p.1.fitness@.last()
            &&& p.0.value.inv()
            &&& p.0.fitness == old(fitness_func).eval_spec(p.0.value@)
        },
{
    let mut op = perturbe_mut_op;
    let mut population = InitPopulation::init_pop(&init_population);
    let mut fitness: Vec<i64> = Vec::new();
    let mut fitness2: Vec<i64> = Vec::new();
    let mut parents_indices: Vec<usize> = Vec::new();
    let mut offsprings: Vec<T> = Vec::new();
    let mut offsprings_fitness: Vec<i64> = Vec::new();
    evaluate_population(fitness_func, &population, &mut fitness);
    let mut iter: usize = 0;
    let mut diff: i64 = i64::MAX;
    let mut best_index = find_best_fitness(&fitness);
    let mut best_value = population[best_index].duplicate();
    let mut best_fitness = fitness[best_index];
    let mut stats = BSFSingleObjStatistics { fitness: Vec::new() };
    stats.fitness.push(best_fitness);
    while !termination_cond.eval(iter, diff)
        invariant
            iter <= termination_cond.max_iters(),
            *fitness_func == *old(fitness_func),
            population@.len() >= 1,
            population@.len() == fitness@.len(),
            pop_inv(population@),
            forall|i: int|
                0 <= i < fitness@.len() ==> fitness@[i] == old(fitness_func).eval_spec(
                    (#[trigger] population@[i])@,
                ),
            best_value.inv(),
            best_fitness == old(fitness_func).eval_spec(best_value@),
            stats.fitness@.len() == iter + 1,
            non_increasing(stats.fitness@),
            stats.fitness@.last() == best_fitness,
        decreases termination_cond.max_iters() - iter,
    {
        proof {
            if iter >= termination_cond.max_iters() {
                termination_cond.stops(iter as int, diff as int);
            }
        }
        selection.select(&fitness, &mut parents_indices);
        crossover.crossover(&population, &parents_indices, &mut offsprings);
        mutate(&mut offsprings, &op);
        evaluate_population(fitness_func, &offsprings, &mut offsprings_fitness);
        let prev_best_fitness = best_fitness;
        let offsprings_from = population.len();
        let ghost pre_pop = population@;
        let ghost pre_fit = fitness@;
        let ghost pre_off = offsprings@;
        let ghost pre_off_fit = offsprings_fitness@;
        join_populations(&mut population, &mut fitness, &mut offsprings, &mut offsprings_fitness);
        proof {
            assert forall|i: int|
                0 <= i < fitness@.len() implies fitness@[i] == old(fitness_func).eval_spec(
                (#[trigger] population@[i])@,
            ) by {
                if i < pre_pop.len() {
                    assert(population@[i] == pre_pop[i]);
                    assert(fitness@[i] == pre_fit[i]);
                } else {
                    assert(population@[i] == pre_off[i - pre_pop.len()]);
                    assert(fitness@[i] == pre_off_fit[i - pre_fit.len()]);
                }
            }
        }
        if !replacement_strategy.pre_check(population.len(), offsprings_from) {
            return Err(SearchError::ReplacementPrecondition);
        }
        fitness2.clear();
        let mut ci: usize = 0;
        while ci < fitness.len()
            invariant
                ci <= fitness@.len(),
                fitness2@ =~= fitness@.subrange(0, ci as int),
            decreases fitness@.len() - ci,
        {
            fitness2.push(fitness[ci]);
            ci = ci + 1;
        }
        proof {
            assert(fitness2@ =~= fitness@);
        }
        let ghost joined_pop = population@;
        let ghost joined_fit = fitness@;
        let ghost joined_opt = fitness2@;
        replacement_strategy.replace(&mut population, &mut fitness, &mut fitness2, offsprings_from);
        proof {
            assert forall|i: int|
                0 <= i < fitness@.len() implies fitness@[i] == old(fitness_func).eval_spec(
                (#[trigger] population@[i])@,
            ) by {
                assert(crate::opt_traits::row_drawn_from(
                    population@,
                    fitness@,
                    fitness2@,
                    joined_pop,
                    joined_fit,
                    joined_opt,
                    i,
                ));
                let t = choose|t: int|
                    #![trigger joined_pop[t]]
                    {
                        &&& 0 <= t < joined_pop.len()
                        &&& population@[i]@ == joined_pop[t]@
                        &&& fitness@[i]@ == joined_fit[t]@
                        &&& fitness2@[i]@ == joined_opt[t]@
                    };
                assert(joined_fit[t] == old(fitness_func).eval_spec(joined_pop[t]@));
            }
        }
        let curr_best_index = find_best_fitness(&fitness);
        let curr_best_fitness = fitness[curr_best_index];
        if curr_best_fitness < best_fitness {
            best_fitness = curr_best_fitness;
            best_value = population[curr_best_index].duplicate();
        }
        diff = sat_sub(curr_best_fitness, prev_best_fitness);
        op.update(diff, population[0].dim());
        stats.fitness.push(best_fitness);
        iter = iter + 1;
    }
    Ok((BSFSingleObjSolution { value: best_value, fitness: best_fitness }, stats))
}

/// The fully general population loop: generic over the raw fitness, the
/// optimization fitness derived from it by the transformer (re-derived after
/// the join and again after replacement, because rank and crowding are
/// relative to the whole set), and the solution and statistics trackers.
///
/// One statistics record is appended per generation. The loop fails fast
/// with a `SearchError` when the replacement strategy's precondition does
/// not hold; a strategy whose precondition always holds never fails.
pub fn general_evolutionary_search<
    T: OptData,
    FIn: Fitness,
    FOpt: Fitness,
    FitnessFuncT: GeneralFitnessFunc<T, FIn>,
    InitPopulationT: InitPopulation<T>,
    SelectionT: Selection<T, FOpt>,
    CrossoverT: Crossover<T>,
    PerturbeMutOpT: PerturbeMutOp<T>,
    ReplacementStrategyT: ReplacementStrategy<T, FIn, FOpt>,
    TerminationCondT: TerminationCond<T>,
    FitnessTransformerT: FitnessTransformer<T, FIn, FOpt>,
    SolutionT: Solution<T, FIn, FOpt>,
    StatisticsT: Statistics<T, FIn, FOpt>,
>(
    fitness_func: &mut FitnessFuncT,
    init_population: InitPopulationT,
    selection: &SelectionT,
    crossover: &CrossoverT,
    perturbe_mut_op: PerturbeMutOpT,
    replacement_strategy: &ReplacementStrategyT,
    termination_cond: &TerminationCondT,
    fitness_transformer: FitnessTransformerT,
) -> (r: Result<(SolutionT, StatisticsT), SearchError>)
    requires
        init_population.popsize() >= 1,
    ensures
        (forall|j: int, o: int| replacement_strategy.pre(j, o)) ==> r is Ok,
        r matches Ok(p) ==> p.1.records() <= termination_cond.max_iters() as int,
        (forall|i: int, d: int|
            #[trigger] termination_cond.should_stop(i, d) <==> i >= termination_cond.max_iters())
            ==> (r matches Ok(p) ==> p.1.records() == termination_cond.max_iters() as int),
{
    let mut op = perturbe_mut_op;
    let mut transformer = fitness_transformer;
    let mut population = InitPopulation::init_pop(&init_population);
    let mut fitness: Vec<FIn> = Vec::new();
    let mut opt_fitness: Vec<FOpt> = Vec::new();
    let mut parents_indices: Vec<usize> = Vec::new();
    let mut offsprings: Vec<T> = Vec::new();
    let mut offsprings_fitness: Vec<FIn> = Vec::new();
    fitness_func.eval_population(&population, &mut fitness);
    transformer.transform(&population, &fitness, &mut opt_fitness);
    let mut iter: usize = 0;
    let mut diff: i64 = i64::MAX;
    let mut prev_iter_solution = SolutionT::from_population(&population, &fitness, &opt_fitness);
    let mut best_solution = prev_iter_solution.duplicate();
    let mut stats = StatisticsT::new();
    while !termination_cond.eval(iter, diff)
        invariant
            iter <= termination_cond.max_iters(),
            population@.len() >= 1,
            population@.len() == fitness@.len(),
            population@.len() == opt_fitness@.len(),
            pop_inv(population@),
            stats.records() == iter as int,
        decreases termination_cond.max_iters() - iter,
    {
        proof {
            if iter >= termination_cond.max_iters() {
                termination_cond.stops(iter as int, diff as int);
            }
        }
        selection.select(&opt_fitness, &mut parents_indices);
        crossover.crossover(&population, &parents_indices, &mut offsprings);
        mutate(&mut offsprings, &op);
        fitness_func.eval_population(&offsprings, &mut offsprings_fitness);
        let offsprings_from = population.len();
        join_populations(&mut population, &mut fitness, &mut offsprings, &mut offsprings_fitness);
        transformer.transform(&population, &fitness, &mut opt_fitness);
        if !replacement_strategy.pre_check(population.len(), offsprings_from) {
            return Err(SearchError::ReplacementPrecondition);
        }
        replacement_strategy.replace(&mut population, &mut fitness, &mut opt_fitness, offsprings_from);
        transformer.transform(&population, &fitness, &mut opt_fitness);
        let curr_solution = SolutionT::from_population(&population, &fitness, &opt_fitness);
        diff = curr_solution.diff(&prev_iter_solution);
        if curr_solution.is_better(&best_solution) {
            best_solution = curr_solution.duplicate();
        }
        prev_iter_solution = curr_solution;
        op.update(diff, population[0].dim());
        stats.report_iter(iter, &population, &fitness, &opt_fitness);
        iter = iter + 1;
    }
    Ok((best_solution, stats))
}

} // verus!
