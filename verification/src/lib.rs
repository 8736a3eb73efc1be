//! Debye scattering curves of point lattices.
//!
//! A lattice of grid sites is generated for a cube or a sphere, the squared
//! distances of all ordered pairs of its points are tabulated once, and for
//! every scattering-vector magnitude `q` of a linear grid the interference
//! kernel is summed over all pairs.
//!
//! The library owns the structure of that computation: which sites exist and
//! in which order, which pairs are tabulated, which terms are summed and in
//! which order, and which inputs are rejected. Arithmetic on coordinates and
//! intensities is supplied by the caller as functions over a scalar type of
//! its own choice; scalar parameters that must be classified exactly arrive
//! as IEEE 754 binary64 bit patterns.
pub mod binary64;
pub mod curve;
pub mod determinism;
pub mod error;
pub mod kernel;
pub mod lattice;
pub mod matrix;
mod parallel;
pub mod shape;
