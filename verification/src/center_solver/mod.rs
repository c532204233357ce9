//! Center solving for NxN cubes: orbit decomposition, parity resolution and commutators.

pub mod permutation;
pub mod orbit;
pub mod commutator;
pub mod gf2;
pub mod center;
