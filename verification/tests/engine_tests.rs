use eoa::crossover::{one_point_crossover_at, OnePointCrossover};
use eoa::funcs::OneMaxFunc;
use eoa::init::{InitPopulationFromValues, InitRandomNaiveBitVecPopulation};
use eoa::opt_data::{find_best_fitness, NaiveBitVec};
use eoa::opt_search::{evolutionary_search, local_search};
use eoa::opt_traits::{Crossover, ReplacementStrategy, Selection};
use eoa::perturbe::BasicNaiveBitPerturbeMutOp;
use eoa::prob::Prob;
use eoa::replacement::{
    GenerationalReplacementStrategy, RandomReplacementStrategy, TruncationReplacementStrategy,
};
use eoa::selection::{
    IdentitySelection, RandomSelection, RankSelection, RouletteWheelSelection, TournamentSelection,
};
use eoa::termination::MaxIterTerminationCond;

fn bitvec(bits: &[u8]) -> NaiveBitVec {
    NaiveBitVec { bits: bits.to_vec() }
}

fn joined_population() -> (Vec<NaiveBitVec>, Vec<i64>, Vec<i64>) {
    let population = vec![
        bitvec(&[1, 1]),
        bitvec(&[0, 0]),
        bitvec(&[1, 0]),
        bitvec(&[0, 1]),
    ];
    let fitness_in: Vec<i64> = vec![5, 1, 4, 2];
    let fitness_opt: Vec<i64> = vec![5, 1, 4, 2];
    (population, fitness_in, fitness_opt)
}

#[test]
fn replacement_preserves_population_size() {
    // every strategy trims the joined sequences back to the size the
    // generation started with
    let (mut p1, mut fi1, mut fo1) = joined_population();
    TruncationReplacementStrategy {}.replace(&mut p1, &mut fi1, &mut fo1, 2);
    assert_eq!(p1.len(), 2);
    assert_eq!(fi1.len(), 2);
    assert_eq!(fo1.len(), 2);

    let (mut p2, mut fi2, mut fo2) = joined_population();
    GenerationalReplacementStrategy {}.replace(&mut p2, &mut fi2, &mut fo2, 2);
    assert_eq!(p2.len(), 2);
    assert_eq!(fi2.len(), 2);
    assert_eq!(fo2.len(), 2);

    let (mut p3, mut fi3, mut fo3) = joined_population();
    RandomReplacementStrategy { select_offspring_prob: Prob::half() }
        .replace(&mut p3, &mut fi3, &mut fo3, 2);
    assert_eq!(p3.len(), 2);
    assert_eq!(fi3.len(), 2);
    assert_eq!(fo3.len(), 2);
}

#[test]
fn truncation_keeps_the_best_sorted() {
    let (mut p, mut fi, mut fo) = joined_population();
    TruncationReplacementStrategy::replace_sorted(&mut p, &mut fi, &mut fo, 2);
    assert_eq!(fo, vec![1, 2]);
    assert_eq!(fi, vec![1, 2]);
    assert_eq!(p[0].bits, vec![0, 0]);
    assert_eq!(p[1].bits, vec![0, 1]);
}

#[test]
fn one_point_split_mixes_prefix_and_suffix() {
    let parent1: Vec<u8> = vec![1, 1, 1, 1];
    let parent2: Vec<u8> = vec![0, 0, 0, 0];
    let mut o1: Vec<u8> = Vec::new();
    let mut o2: Vec<u8> = Vec::new();
    one_point_crossover_at(&parent1, &parent2, 2, &mut o1, &mut o2);
    assert_eq!(o1, vec![1, 1, 0, 0]);
    assert_eq!(o2, vec![0, 0, 1, 1]);
}

#[test]
fn one_point_population_crossover_pairs_parents() {
    let population = vec![bitvec(&[1, 1, 1, 1]), bitvec(&[0, 0, 0, 0])];
    let parents = vec![0, 1, 0];
    let mut offsprings: Vec<NaiveBitVec> = Vec::new();
    OnePointCrossover {}.crossover(&population, &parents, &mut offsprings);
    // the trailing unpaired parent is dropped
    assert_eq!(offsprings.len(), 2);
    for o in &offsprings {
        assert_eq!(o.bits.len(), 4);
        for b in &o.bits {
            assert!(*b <= 1);
        }
    }
}

#[test]
fn local_search_series_never_increases() {
    let mut fitness = OneMaxFunc {};
    let init = InitRandomNaiveBitVecPopulation::new(1, 16);
    let termination = MaxIterTerminationCond { n_iters: 40 };
    let (solution, stats) =
        local_search(&mut fitness, init, BasicNaiveBitPerturbeMutOp {}, &termination);
    assert_eq!(stats.fitness.len(), 41);
    for w in stats.fitness.windows(2) {
        assert!(w[0] >= w[1]);
    }
    assert_eq!(solution.fitness, *stats.fitness.last().unwrap());
    assert!(solution.fitness <= stats.fitness[0]);
}

#[test]
fn evolutionary_search_runs_to_completion() {
    let mut fitness = OneMaxFunc {};
    let init = InitRandomNaiveBitVecPopulation::new(8, 12);
    let termination = MaxIterTerminationCond { n_iters: 30 };
    let selection = TournamentSelection { select_count: 8, rounds_count: 3 };
    let replacement = TruncationReplacementStrategy {};
    let result = evolutionary_search(
        &mut fitness,
        init,
        &selection,
        &OnePointCrossover {},
        BasicNaiveBitPerturbeMutOp {},
        &replacement,
        &termination,
    );
    let (solution, stats) = result.expect("elitist replacement never fails");
    assert_eq!(stats.fitness.len(), 31);
    for w in stats.fitness.windows(2) {
        assert!(w[0] >= w[1]);
    }
    assert_eq!(solution.fitness, *stats.fitness.last().unwrap());
}

#[test]
fn selection_returns_indices_in_bounds() {
    let fitness: Vec<i64> = vec![3, 1, 2];
    let mut parents: Vec<usize> = Vec::new();

    Selection::<NaiveBitVec, i64>::select(
        &TournamentSelection { select_count: 5, rounds_count: 2 },
        &fitness,
        &mut parents,
    );
    assert_eq!(parents.len(), 5);
    assert!(parents.iter().all(|&i| i < 3));

    Selection::<NaiveBitVec, i64>::select(
        &RandomSelection { select_count: 4 },
        &fitness,
        &mut parents,
    );
    assert_eq!(parents.len(), 4);
    assert!(parents.iter().all(|&i| i < 3));

    Selection::<NaiveBitVec, i64>::select(&IdentitySelection {}, &fitness, &mut parents);
    assert_eq!(parents, vec![0, 1, 2]);
}

#[test]
fn rank_selection_keeps_the_fittest() {
    let fitness: Vec<i64> = vec![3, 1, 2];
    let mut parents: Vec<usize> = Vec::new();
    Selection::<NaiveBitVec, i64>::select(
        &RankSelection { select_count: 2 },
        &fitness,
        &mut parents,
    );
    assert_eq!(parents, vec![1, 2]);
}

#[test]
fn roulette_wheel_covers_equal_weights() {
    let fitness: Vec<i64> = vec![1, 1, 1, 1];
    let mut parents: Vec<usize> = Vec::new();
    Selection::<NaiveBitVec, i64>::select(
        &RouletteWheelSelection { select_count: 4 },
        &fitness,
        &mut parents,
    );
    assert_eq!(parents, vec![0, 1, 2, 3]);
}

#[test]
fn roulette_wheel_rejects_negative_fitness() {
    let fitness: Vec<i64> = vec![1, -1, 1];
    let mut parents: Vec<usize> = Vec::new();
    Selection::<NaiveBitVec, i64>::select(
        &RouletteWheelSelection { select_count: 3 },
        &fitness,
        &mut parents,
    );
    // a sequence with negative entries is degenerate: nothing is selected
    assert!(parents.is_empty());
}

#[test]
fn find_best_fitness_picks_the_minimum() {
    let fitness: Vec<i64> = vec![4, 2, 7, 2];
    assert_eq!(find_best_fitness(&fitness), 1);
}

#[test]
fn init_from_values_replays_the_population() {
    let init = InitPopulationFromValues::new(vec![bitvec(&[1, 0]), bitvec(&[0, 1])]);
    let mut fitness = OneMaxFunc {};
    let termination = MaxIterTerminationCond { n_iters: 5 };
    let (solution, _) =
        local_search(&mut fitness, init, BasicNaiveBitPerturbeMutOp {}, &termination);
    assert_eq!(solution.value.bits.len(), 2);
}

#[test]
fn roulette_wheel_selects_proportionally() {
    // cumulative weights 3 and 1 with four equally spaced pointers always
    // land three times in the first slot and once in the second
    let fitness: Vec<i64> = vec![3, 1];
    let mut parents: Vec<usize> = Vec::new();
    Selection::<NaiveBitVec, i64>::select(
        &RouletteWheelSelection { select_count: 4 },
        &fitness,
        &mut parents,
    );
    assert_eq!(parents, vec![0, 0, 0, 1]);
}

struct OnesZerosPair;

impl eoa::opt_traits::GeneralFitnessFunc<NaiveBitVec, Vec<i64>> for OnesZerosPair {
    fn eval_general(&self, data: &NaiveBitVec, out: &mut Vec<i64>) {
        out.clear();
        let ones = data.bits.iter().filter(|&&b| b == 1).count() as i64;
        out.push(ones);
        out.push(data.bits.len() as i64 - ones);
    }

    fn eval_population(&mut self, population: &Vec<NaiveBitVec>, fitness: &mut Vec<Vec<i64>>) {
        fitness.clear();
        for p in population {
            let mut f = Vec::new();
            self.eval_general(p, &mut f);
            fitness.push(f);
        }
    }
}

#[test]
fn general_search_records_one_entry_per_generation() {
    let mut fitness_func = OnesZerosPair;
    let init = InitRandomNaiveBitVecPopulation::new(6, 10);
    let termination = MaxIterTerminationCond { n_iters: 12 };
    let selection = TournamentSelection { select_count: 6, rounds_count: 2 };
    let replacement = TruncationReplacementStrategy {};
    let result: Result<
        (
            eoa::multi_obj::MultiObjSolution<NaiveBitVec>,
            eoa::multi_obj::MultiObjStatistics<NaiveBitVec>,
        ),
        _,
    > = eoa::opt_search::general_evolutionary_search(
        &mut fitness_func,
        init,
        &selection,
        &OnePointCrossover {},
        BasicNaiveBitPerturbeMutOp {},
        &replacement,
        &termination,
        eoa::multi_obj::NSGA2FitnessTransformer::new(),
    );
    let (_, stats) = result.expect("truncation replacement never fails");
    assert_eq!(stats.solutions.len(), 12);
}

#[test]
fn swap_perturbation_is_one_transposition() {
    for _ in 0..20 {
        let before: Vec<usize> = vec![4, 1, 3, 0, 2, 5];
        let mut after = before.clone();
        eoa::tsp::tsp_swap_perturbation(&mut after);
        assert_eq!(after.len(), before.len());
        let changed: Vec<usize> = (0..before.len()).filter(|&i| after[i] != before[i]).collect();
        assert!(changed.len() == 0 || changed.len() == 2);
        if changed.len() == 2 {
            let (a, b) = (changed[0], changed[1]);
            assert_eq!(after[a], before[b]);
            assert_eq!(after[b], before[a]);
        }
    }
}
