use std::rc::Rc;

use eoa::gtsp::GtspProblem;
use eoa::gtsp_stats::{
    gtsp_basic_stats_default_params, gtsp_evolutionary_search_stats, gtsp_local_search_stats,
    gtsp_stats_optimized_params, gtsp_viz_gen_solution, GTSP_DEFAULT_METHOD_COUNT,
    GTSP_EVO_METHOD_COUNT, GTSP_LOCAL_METHOD_COUNT, GTSP_OPTIMIZED_METHOD_COUNT,
};
use eoa::tsp::DistanceHalfMatrix;
use eoa::tsp_stats::{
    create_comparison_graphs, create_vizualization_graphs, COMPARISON_METHOD_COUNT,
};

fn small_distances() -> DistanceHalfMatrix {
    DistanceHalfMatrix::from(
        4,
        vec![
            0, //
            3, 0, //
            1, 7, 0, //
            9, 2, 5, 0,
        ],
    )
}

fn small_gtsp() -> Rc<GtspProblem> {
    Rc::new(GtspProblem {
        vert_count: 4,
        best_known: 0,
        groups: vec![vec![0, 1], vec![2, 3]],
        distances: small_distances(),
    })
}

fn assert_series_block(block: &Vec<Vec<Vec<i64>>>, problems: usize, methods: usize) {
    assert_eq!(block.len(), problems);
    for per_method in block {
        assert_eq!(per_method.len(), methods);
        for series in per_method {
            for w in series.windows(2) {
                assert!(w[0] >= w[1], "an accumulated series increased");
            }
        }
    }
}

#[test]
fn tour_comparison_series_shrink() {
    let problems = vec![small_distances()];
    let r = create_comparison_graphs(&problems, 2, 10, 4);
    assert_series_block(&r, 1, COMPARISON_METHOD_COUNT);
}

#[test]
fn tour_visualization_returns_a_tour() {
    let dm = small_distances();
    let (tour, _len) = create_vizualization_graphs(&dm, 10, 4);
    let mut sorted = tour.vert_perm.clone();
    sorted.sort();
    assert_eq!(sorted, vec![0, 1, 2, 3]);
}

#[test]
fn group_default_series_shrink() {
    let problems = vec![small_gtsp()];
    let iters = vec![8];
    let r = gtsp_basic_stats_default_params(&problems, &iters, 2, 4);
    assert_series_block(&r, 1, GTSP_DEFAULT_METHOD_COUNT);
}

#[test]
fn group_local_series_shrink() {
    let problems = vec![small_gtsp()];
    let iters = vec![8];
    let r = gtsp_local_search_stats(&problems, &iters, 2);
    assert_series_block(&r, 1, GTSP_LOCAL_METHOD_COUNT);
}

#[test]
fn group_evolutionary_series_shrink() {
    let problems = vec![small_gtsp()];
    let iters = vec![8];
    let r = gtsp_evolutionary_search_stats(&problems, &iters, 2, 4);
    assert_series_block(&r, 1, GTSP_EVO_METHOD_COUNT);
}

#[test]
fn group_optimized_series_shrink() {
    let problems = vec![small_gtsp()];
    let iters = vec![8];
    let r = gtsp_stats_optimized_params(&problems, &iters, 2, 4);
    assert_series_block(&r, 1, GTSP_OPTIMIZED_METHOD_COUNT);
}

#[test]
fn group_visualization_returns_a_valid_tour() {
    let problem = small_gtsp();
    let (tour, _len) = gtsp_viz_gen_solution(&problem, 8, 4);
    assert_eq!(tour.perm.len(), 2);
    assert_ne!(tour.perm[0].group, tour.perm[1].group);
}

#[test]
fn comparison_series_span_the_iteration_budget() {
    let dm = DistanceHalfMatrix::from(3, vec![0, 2, 0, 5, 3, 0]);
    let blocks = eoa::tsp_stats::create_comparison_graphs(&vec![dm], 1, 2, 4);
    assert_eq!(blocks.len(), 1);
    assert_eq!(blocks[0].len(), 5);
    for series in &blocks[0] {
        assert_eq!(series.len(), 3);
    }
}
