//! Lattice-Boltzmann simulation kernel: velocity sets, grid index arithmetic,
//! geometry predicates, boundary handling and the per-step solver pipeline.

pub mod error;
pub mod velocity;
pub mod grid;
pub mod geometry;
pub mod boundary;
pub mod solver;
pub mod collision;
