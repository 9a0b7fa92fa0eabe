//! Core evolutionary engine of a NEAT (NeuroEvolution of Augmenting
//! Topologies) implementation: a gene pool that registers structural
//! innovations, genomes that evaluate as feed-forward networks and mutate
//! structurally, speciation by topological distance, and reproduction with
//! explicit fitness sharing.
//!
//! All scalar quantities (weights, biases, fitness values, probabilities,
//! distance coefficients) are fixed-point integers scaled by
//! [`fixed::SCALE`]; node depths are exact fractions of
//! [`gene_pool::DEPTH_ONE`], so the depth ordering that guarantees
//! acyclicity is decided exactly.

pub mod activation;
pub mod config_util;
pub mod genome;
pub mod fixed;
pub mod gene_pool;
pub mod interchange;
pub mod key_index;
pub mod organism;
pub mod species;
pub mod pair_map;
pub mod population;
pub mod reproduction;
pub mod rng;

use vstd::prelude::*;

verus! {

} // verus!
