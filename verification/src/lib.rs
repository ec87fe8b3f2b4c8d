//! A generic engine for metaheuristic optimization: local and evolutionary
//! search over pluggable candidate representations, fitness orders,
//! selection, crossover, mutation, replacement and termination strategies;
//! with constrained optimization by stochastic ranking, multi-objective
//! optimization by non-dominated sorting with crowding distances, and a
//! permutation domain (tours and group tours) as a worked instantiation.
//!
//! Fitness values, distances and probabilities are kept as integers and
//! exact ratios, so every algorithm here carries a machine-checked
//! contract; randomness enters only through a thread-local generator
//! behind two small trusted draws.

mod rng;

pub mod bit_array;
pub mod constrained;
pub mod crossover;
pub mod funcs;
pub mod gtsp;
pub mod gtsp_stats;
pub mod init;
pub mod multi_obj;
pub mod opt_data;
pub mod opt_search;
pub mod opt_traits;
pub mod permutation;
pub mod perturbe;
pub mod prob;
pub mod replacement;
pub mod selection;
pub mod sorting;
pub mod termination;
pub mod tsp;
pub mod tsp_stats;
