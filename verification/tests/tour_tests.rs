use std::rc::Rc;

use eoa::gtsp::{
    GroupVert, GtspCycleCrossover, GtspFitness, GtspOrderCrossover, GtspPermutation, GtspProblem,
    GtspRandGroupVertPerturbation, GtspSwapGroupPerturbation, InitHeuristicGtspPopulation,
    InitRandomGtspPopulation,
};
use eoa::opt_search::local_search;
use eoa::opt_traits::{Crossover, FitnessFunc, InitPopulation, PerturbeMutOp};
use eoa::permutation::{cycle_crossover_keyed, order_crossover_keyed};
use eoa::termination::MaxIterTerminationCond;
use eoa::tsp::{
    DistanceHalfMatrix, InitTspPopulation, TspCycleCrossover, TspFitness, TspOrderCrossover,
    TspPermutation, TspSwapPerturbation,
};

fn assert_is_permutation(v: &[usize]) {
    let mut sorted = v.to_vec();
    sorted.sort();
    let expected: Vec<usize> = (0..v.len()).collect();
    assert_eq!(sorted, expected);
}

#[test]
fn cycle_crossover_keeps_permutations() {
    let p1: Vec<usize> = vec![0, 1, 2, 3, 4, 5, 6, 7];
    let p2: Vec<usize> = vec![3, 7, 0, 1, 6, 5, 2, 4];
    for _ in 0..20 {
        let mut o1: Vec<usize> = Vec::new();
        let mut o2: Vec<usize> = Vec::new();
        cycle_crossover_keyed(&p1, &p2, &mut o1, &mut o2);
        assert_is_permutation(&o1);
        assert_is_permutation(&o2);
    }
}

#[test]
fn order_crossover_keeps_permutations() {
    let p1: Vec<usize> = vec![4, 0, 3, 1, 2, 6, 5];
    let p2: Vec<usize> = vec![6, 5, 4, 3, 2, 1, 0];
    for _ in 0..20 {
        let mut o1: Vec<usize> = Vec::new();
        let mut o2: Vec<usize> = Vec::new();
        order_crossover_keyed(&p1, &p2, &mut o1, &mut o2);
        assert_is_permutation(&o1);
        assert_is_permutation(&o2);
    }
}

#[test]
fn tour_crossover_offspring_are_tours() {
    let population = vec![
        TspPermutation { vert_perm: vec![0, 1, 2, 3, 4] },
        TspPermutation { vert_perm: vec![4, 2, 0, 3, 1] },
    ];
    let parents = vec![0, 1];
    for _ in 0..10 {
        let mut offsprings: Vec<TspPermutation> = Vec::new();
        TspCycleCrossover {}.crossover(&population, &parents, &mut offsprings);
        assert_eq!(offsprings.len(), 2);
        for o in &offsprings {
            assert_is_permutation(&o.vert_perm);
        }
        TspOrderCrossover {}.crossover(&population, &parents, &mut offsprings);
        assert_eq!(offsprings.len(), 2);
        for o in &offsprings {
            assert_is_permutation(&o.vert_perm);
        }
    }
}

#[test]
fn half_matrix_is_symmetric_and_exact() {
    let dm = DistanceHalfMatrix::from(3, vec![0, 2, 0, 5, 3, 0]);
    assert_eq!(dm.get(0, 1), 2);
    assert_eq!(dm.get(1, 0), 2);
    assert_eq!(dm.get(0, 2), 5);
    assert_eq!(dm.get(2, 0), 5);
    assert_eq!(dm.get(1, 2), 3);
    assert_eq!(dm.get(2, 1), 3);
    assert_eq!(dm.get(0, 0), 0);

    let mut dm2 = DistanceHalfMatrix::new(3);
    assert_eq!(dm2.get(0, 1), 0);
    dm2.set(0, 1, 7);
    assert_eq!(dm2.get(1, 0), 7);
    assert_eq!(dm2.get(0, 2), 0);
}

#[test]
fn tour_length_sums_the_cycle() {
    let dm = DistanceHalfMatrix::from(3, vec![0, 2, 0, 5, 3, 0]);
    let fitness = TspFitness::new(dm);
    let tour = TspPermutation { vert_perm: vec![0, 1, 2] };
    // 0 -> 1 -> 2 -> 0: lengths 2 + 3 + 5
    assert_eq!(fitness.eval(&tour), 10);
}

#[test]
fn local_tour_search_never_gets_worse() {
    let dm = DistanceHalfMatrix::from(3, vec![0, 2, 0, 5, 3, 0]);
    let mut fitness = TspFitness::new(dm);
    let init = InitTspPopulation::new(1, 3);
    let termination = MaxIterTerminationCond { n_iters: 50 };
    let (solution, stats) =
        local_search(&mut fitness, init, TspSwapPerturbation {}, &termination);
    assert_eq!(stats.fitness.len(), 51);
    for w in stats.fitness.windows(2) {
        assert!(w[0] >= w[1]);
    }
    // the final tour is never longer than the initial random tour
    assert!(solution.fitness <= stats.fitness[0]);
    // every 3-vertex round trip over this table has the same total length
    assert_eq!(solution.fitness, 10);
}

fn small_gtsp_problem() -> Rc<GtspProblem> {
    let distances = DistanceHalfMatrix::from(
        6,
        vec![
            0, //
            4, 0, //
            1, 9, 0, //
            3, 2, 8, 0, //
            7, 6, 5, 2, 0, //
            9, 1, 3, 4, 6, 0,
        ],
    );
    Rc::new(GtspProblem {
        vert_count: 6,
        best_known: 0,
        groups: vec![vec![0, 1], vec![2, 3], vec![4, 5]],
        distances,
    })
}

fn assert_group_tour(problem: &GtspProblem, perm: &[GroupVert]) {
    assert_eq!(perm.len(), problem.groups.len());
    let mut seen = vec![false; problem.groups.len()];
    for s in perm {
        assert!(s.group < problem.groups.len());
        assert!(!seen[s.group], "a group is visited twice");
        seen[s.group] = true;
        assert!(s.vert < problem.groups[s.group].len());
    }
}

#[test]
fn group_crossover_visits_every_group_once() {
    let problem = small_gtsp_problem();
    let population = vec![
        GtspPermutation {
            problem: Rc::clone(&problem),
            perm: vec![
                GroupVert { group: 0, vert: 0 },
                GroupVert { group: 1, vert: 1 },
                GroupVert { group: 2, vert: 0 },
            ],
        },
        GtspPermutation {
            problem: Rc::clone(&problem),
            perm: vec![
                GroupVert { group: 2, vert: 1 },
                GroupVert { group: 0, vert: 1 },
                GroupVert { group: 1, vert: 0 },
            ],
        },
    ];
    let parents = vec![0, 1];
    for _ in 0..20 {
        let mut offsprings: Vec<GtspPermutation> = Vec::new();
        GtspCycleCrossover::new().crossover(&population, &parents, &mut offsprings);
        assert_eq!(offsprings.len(), 2);
        for o in &offsprings {
            assert_group_tour(&problem, &o.perm);
        }
        GtspOrderCrossover::new().crossover(&population, &parents, &mut offsprings);
        assert_eq!(offsprings.len(), 2);
        for o in &offsprings {
            assert_group_tour(&problem, &o.perm);
        }
    }
}

#[test]
fn group_perturbations_keep_tours_valid() {
    let problem = small_gtsp_problem();
    let mut tour = GtspPermutation {
        problem: Rc::clone(&problem),
        perm: vec![
            GroupVert { group: 1, vert: 0 },
            GroupVert { group: 0, vert: 1 },
            GroupVert { group: 2, vert: 0 },
        ],
    };
    let swap = GtspSwapGroupPerturbation {};
    let resample = GtspRandGroupVertPerturbation::new(3);
    for _ in 0..30 {
        swap.eval(&mut tour);
        resample.eval(&mut tour);
        assert_group_tour(&problem, &tour.perm);
    }
}

#[test]
fn group_tour_length_sums_chosen_vertices() {
    let problem = small_gtsp_problem();
    let tour = GtspPermutation {
        problem: Rc::clone(&problem),
        perm: vec![
            GroupVert { group: 0, vert: 0 },
            GroupVert { group: 1, vert: 0 },
            GroupVert { group: 2, vert: 0 },
        ],
    };
    // vertices 0 -> 2 -> 4 -> 0: lengths 1 + 5 + 7
    assert_eq!(GtspFitness {}.eval(&tour), 13);
}

#[test]
fn heuristic_init_builds_valid_tours() {
    let problem = small_gtsp_problem();
    let init = InitHeuristicGtspPopulation::new(Rc::clone(&problem), 3);
    let population = init.init_pop();
    assert_eq!(population.len(), 3);
    for tour in &population {
        assert_group_tour(&problem, &tour.perm);
    }
}

#[test]
fn random_init_builds_valid_tours() {
    let problem = small_gtsp_problem();
    let init = InitRandomGtspPopulation::new(Rc::clone(&problem), 3);
    let population = init.init_pop();
    assert_eq!(population.len(), 3);
    for tour in &population {
        assert_group_tour(&problem, &tour.perm);
    }
}

#[test]
fn metric_check_matches_triangle_inequality() {
    let dm = DistanceHalfMatrix::from(3, vec![0, 5, 0, 5, 5, 0]);
    assert!(eoa::tsp::are_distances_a_metric(&dm));
    // going from 0 to 2 directly costs 100, the detour over 1 only 2 + 3
    let dm2 = DistanceHalfMatrix::from(3, vec![0, 2, 0, 100, 3, 0]);
    assert!(!eoa::tsp::are_distances_a_metric(&dm2));
}

#[test]
fn heuristic_init_takes_nearest_vertex_steps() {
    let problem = small_gtsp_problem();
    let init = InitHeuristicGtspPopulation::new(Rc::clone(&problem), 4);
    for tour in init.init_pop() {
        assert_group_tour(&problem, &tour.perm);
        for i in 1..tour.perm.len() {
            let prev = tour.perm[i - 1];
            let prev_vert = problem.groups[prev.group][prev.vert];
            let curr = tour.perm[i];
            let step = problem.distances.get(prev_vert, problem.groups[curr.group][curr.vert]);
            for later in &tour.perm[i..] {
                for &w in &problem.groups[later.group] {
                    assert!(step <= problem.distances.get(prev_vert, w));
                }
            }
        }
    }
}

#[test]
fn cycle_crossover_swaps_one_closed_cycle() {
    let p1: Vec<usize> = vec![0, 1, 2, 3, 4, 5, 6, 7];
    let p2: Vec<usize> = vec![3, 7, 0, 1, 6, 5, 2, 4];
    for _ in 0..20 {
        let mut o1: Vec<usize> = Vec::new();
        let mut o2: Vec<usize> = Vec::new();
        cycle_crossover_keyed(&p1, &p2, &mut o1, &mut o2);
        let swapped: Vec<usize> = (0..p1.len()).filter(|&i| o1[i] != p1[i]).collect();
        for &i in &swapped {
            assert_eq!(o1[i], p2[i]);
            assert_eq!(o2[i], p1[i]);
        }
        // the swapped positions close one cycle: within them, p2's value at
        // each position is p1's value at another swapped position, and
        // following those links visits every swapped position once
        if !swapped.is_empty() {
            let mut pos_of_p1 = vec![usize::MAX; p1.len() + 8];
            for &i in &swapped {
                pos_of_p1[p1[i]] = i;
            }
            let start = swapped[0];
            let mut seen = vec![false; p1.len()];
            let mut current = start;
            let mut steps = 0;
            loop {
                assert!(!seen[current], "a position repeats before the cycle closes");
                seen[current] = true;
                steps += 1;
                let next = pos_of_p1[p2[current]];
                assert!(next != usize::MAX, "the cycle leaves the swapped set");
                if next == start {
                    break;
                }
                current = next;
            }
            assert_eq!(steps, swapped.len(), "the swapped set is one single cycle");
        }
    }
}
