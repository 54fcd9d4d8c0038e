//! A genetic-algorithm engine that searches a bounded interval for the input
//! maximising a fitness function of one 32-bit float.
//!
//! Every float is held as its IEEE-754 binary32 bit pattern (`u32`); the
//! comparisons and classifications the algorithm needs are defined over those
//! bits in `float_bits`.

pub mod float_bits;
pub mod individual;
pub mod population;
pub mod optimizer;

pub use individual::Individual;
pub use optimizer::{optimize, OptimizationTask};
pub use population::{Population, PopulationParams};
