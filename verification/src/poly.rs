//! Polynomial representations.

pub mod laws;
pub mod multilinear;
