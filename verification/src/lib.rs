//! Logic of an NxN Rubik's cube: facelet grids, slice rotations, move parsing, center orbits,
//! parity resolution, commutator search, and the move text of the reduction method.

pub mod cube;
pub mod text;
pub mod center_solver;
pub mod moves;
pub mod state;
pub mod reduction;
pub mod nxn;
pub mod hand_tracker;
pub mod orientation;
pub mod helpers;
pub mod commutator_solver;
pub mod kociemba;
pub mod lbl_3x3;
pub mod macro_solver;

pub use cube::{Cube, CubeError, Face};
