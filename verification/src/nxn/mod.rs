//! The NxN solver that works on facelet states: centers, edges, parity and formulas.

pub mod state;
pub mod formulas;
pub mod edges;
pub mod orbit;
pub mod centers;
pub mod solver;
pub mod parity;
