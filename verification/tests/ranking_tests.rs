use std::cmp::Ordering;

use eoa::constrained::{StochasticRankFitness, StochasticRankSolution};
use eoa::opt_data::NaiveBitVec;
use eoa::multi_obj::{Crowding, NSGA2Fitness, NSGA2FitnessTransformer};
use eoa::opt_traits::Fitness;
use eoa::selection::RouletteWheelSelection;
use eoa::prob::Prob;

fn ranked(fitness: i64, violations: i64, num: u64, den: u64) -> StochasticRankFitness {
    StochasticRankFitness { fitness, violations, prob: Prob::new(num, den) }
}

#[test]
fn feasible_pairs_compare_by_objective_alone() {
    // whatever the configured probability, two feasible candidates are
    // ranked by their plain objective values
    for (num, den) in [(0, 1), (1, 2), (1, 1)] {
        let a = ranked(1, 0, num, den);
        let b = ranked(2, -3, num, den);
        assert_eq!(StochasticRankFitness::ranked_cmp(&a, &b), Ordering::Less);
        assert_eq!(StochasticRankFitness::ranked_cmp(&b, &a), Ordering::Greater);
        assert_eq!(StochasticRankFitness::ranked_cmp(&a, &a), Ordering::Equal);
    }
}

#[test]
fn infeasible_pairs_use_one_of_the_two_orders() {
    let a = ranked(1, 5, 1, 2);
    let b = ranked(2, 3, 1, 2);
    for _ in 0..20 {
        let r = StochasticRankFitness::ranked_cmp(&a, &b);
        // by objective `a` is less, by violations `a` is greater
        assert!(r == Ordering::Less || r == Ordering::Greater);
    }
}

#[test]
fn infeasible_pair_with_probability_one_uses_the_objective() {
    let a = ranked(1, 5, 1, 1);
    let b = ranked(2, 3, 1, 1);
    assert_eq!(StochasticRankFitness::ranked_cmp(&a, &b), Ordering::Less);
    let c = ranked(1, 5, 0, 1);
    let d = ranked(2, 3, 0, 1);
    assert_eq!(StochasticRankFitness::ranked_cmp(&c, &d), Ordering::Greater);
}

#[test]
fn front_zero_is_the_non_dominated_set() {
    let fitness_in: Vec<Vec<i64>> = vec![
        vec![0, 5],
        vec![5, 0],
        vec![2, 2],
        vec![4, 4],
    ];
    let mut out: Vec<NSGA2Fitness> = Vec::new();
    NSGA2FitnessTransformer::new().derive(&fitness_in, &mut out);
    assert_eq!(out.len(), 4);
    assert_eq!(out[0].front, 0);
    assert_eq!(out[1].front, 0);
    assert_eq!(out[2].front, 0);
    assert_eq!(out[3].front, 1);
}

#[test]
fn front_boundaries_get_infinite_crowding() {
    let fitness_in: Vec<Vec<i64>> = vec![
        vec![0, 5],
        vec![5, 0],
        vec![2, 2],
        vec![4, 4],
    ];
    let mut out: Vec<NSGA2Fitness> = Vec::new();
    NSGA2FitnessTransformer::new().derive(&fitness_in, &mut out);
    // the extremes of front 0 in either objective
    assert!(out[0].crowding_dist.is_infinite);
    assert!(out[1].crowding_dist.is_infinite);
    // the interior member of front 0 stays finite
    assert!(!out[2].crowding_dist.is_infinite);
    // the only member of its front is its own boundary
    assert!(out[3].crowding_dist.is_infinite);
}

#[test]
fn nsga2_order_prefers_lower_fronts_then_spacing() {
    let a = NSGA2Fitness { front: 0, crowding_dist: Crowding { is_infinite: true, value: 0 } };
    let b = NSGA2Fitness { front: 0, crowding_dist: Crowding { is_infinite: false, value: 9 } };
    let c = NSGA2Fitness { front: 1, crowding_dist: Crowding { is_infinite: true, value: 0 } };
    assert_eq!(NSGA2Fitness::opt_cmp(&a, &b), Ordering::Less);
    assert_eq!(NSGA2Fitness::opt_cmp(&b, &a), Ordering::Greater);
    assert_eq!(NSGA2Fitness::opt_cmp(&a, &c), Ordering::Less);
    assert_eq!(NSGA2Fitness::opt_cmp(&c, &b), Ordering::Greater);
    assert_eq!(NSGA2Fitness::opt_cmp(&a, &a), Ordering::Equal);
}

#[test]
fn pareto_comparison_flags_dominance() {
    let a: Vec<i64> = vec![1, 1];
    let b: Vec<i64> = vec![2, 2];
    let c: Vec<i64> = vec![0, 3];
    assert_eq!(<Vec<i64> as Fitness>::opt_cmp(&a, &b), Ordering::Less);
    assert_eq!(<Vec<i64> as Fitness>::opt_cmp(&b, &a), Ordering::Greater);
    // incomparable points both report a worse coordinate first
    assert_eq!(<Vec<i64> as Fitness>::opt_cmp(&a, &c), Ordering::Greater);
    assert_eq!(<Vec<i64> as Fitness>::opt_cmp(&c, &a), Ordering::Greater);
    assert_eq!(<Vec<i64> as Fitness>::opt_cmp(&a, &a), Ordering::Equal);
}

#[test]
fn sus_gives_each_member_its_proportional_slots() {
    // weights 1, 1, 2 with four picks: the pointers are spaced a quarter
    // of the wheel apart, so whatever the phase, the heavy member gets
    // exactly two slots and the light ones one each
    let selection = RouletteWheelSelection { select_count: 4 };
    let fitness: Vec<i64> = vec![1, 1, 2];
    for _ in 0..20 {
        let mut picked: Vec<usize> = Vec::new();
        selection.sus_select(&fitness, &mut picked);
        assert_eq!(picked, vec![0, 1, 2, 2]);
    }
}

#[test]
fn fronts_are_contiguous_from_zero() {
    // three strict layers: each point of a layer dominates the next layer
    let fitness_in: Vec<Vec<i64>> = vec![
        vec![0, 0],
        vec![5, 5],
        vec![1, 1],
        vec![3, 3],
    ];
    let mut out: Vec<NSGA2Fitness> = Vec::new();
    NSGA2FitnessTransformer::new().derive(&fitness_in, &mut out);
    let mut fronts: Vec<usize> = out.iter().map(|f| f.front).collect();
    fronts.sort();
    assert_eq!(fronts, vec![0, 1, 2, 3]);
}

#[test]
fn best_constrained_takes_the_first_minimizer() {
    let population = vec![
        NaiveBitVec { bits: vec![0, 0] },
        NaiveBitVec { bits: vec![0, 1] },
        NaiveBitVec { bits: vec![1, 0] },
        NaiveBitVec { bits: vec![1, 1] },
    ];
    let fitness_in: Vec<i64> = vec![9, 4, 4, 7];
    let fitness_opt = vec![
        ranked(9, 2, 1, 2),
        ranked(4, 0, 1, 2),
        ranked(4, 0, 1, 2),
        ranked(7, 0, 1, 2),
    ];
    let best = StochasticRankSolution::best_constrained(&population, &fitness_in, &fitness_opt);
    // members 1 and 2 tie on (violations, fitness); the earlier one wins
    assert_eq!(best.fitness, 4);
    assert_eq!(best.violations, 0);
    assert_eq!(best.data.bits, vec![0, 1]);
}

#[test]
fn interior_member_accumulates_the_exact_scaled_gaps() {
    // front 0 is (0,5), (5,0), (2,2); the interior member spans the whole
    // range in both objectives, so it accumulates 1.0 + 1.0, scaled
    let fitness_in: Vec<Vec<i64>> = vec![
        vec![0, 5],
        vec![5, 0],
        vec![2, 2],
        vec![4, 4],
    ];
    let mut out: Vec<NSGA2Fitness> = Vec::new();
    NSGA2FitnessTransformer::new().derive(&fitness_in, &mut out);
    assert!(!out[2].crowding_dist.is_infinite);
    assert_eq!(out[2].crowding_dist.value, 2 * eoa::multi_obj::CROWDING_SCALE);
}
