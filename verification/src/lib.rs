//! NEAT-style neuroevolution with gated recurrent connections.
//!
//! Genomes describe layered sparse connection graphs; networks are built
//! from genomes and evaluated feed-forward; a trainer evolves a population
//! through fitness-based selection, speciation by structural distance and
//! innovation-number bookkeeping.
//!
//! All numeric values (weights, biases, fitness scores, activations) are
//! fixed-point integers: an `i64` counts units of `1/SCALE`. Arithmetic
//! saturates at `±LIMIT`, so evaluation and training are deterministic and
//! every operation is specified exactly.

pub mod error;
pub mod fixed;
pub mod rng;
pub mod genome;
pub mod innovation;
pub mod network;
pub mod species;
pub mod train;
