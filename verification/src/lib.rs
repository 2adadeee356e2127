//! Discrete-time simulation of a sparse leaky-integrate-and-fire (LIF)
//! spiking neural network, together with the derivation of 2-D screen
//! coordinates for drawing it.
//!
//! The crate keeps every per-neuron and per-synapse quantity in parallel,
//! index-aligned arrays: a compressed-sparse-row triple (`out_offset`,
//! `receiver`, `weight`) describes the fixed wiring, while membrane
//! potentials, refractory counters, spike flags and synapse arming flags
//! evolve one discrete step at a time under [`Model::tick`].
//!
//! Real-valued quantities (potentials, thresholds, weights, coordinates) are
//! carried as IEEE-754 binary32 bit patterns in `u32` values.  The arithmetic
//! on those patterns is delegated to a software implementation of binary32
//! (`rustc_apfloat`), and the contracts of the simulation describe each
//! result exactly in terms of those operations.

pub mod fbits;
pub mod sim;
mod model;
pub mod dot;
pub mod report;
pub mod render;

pub use model::Model;
pub use model::SnnError;
pub use sim::ModelGhost;
