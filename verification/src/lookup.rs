//! The lookup argument: precomputed table, prover and verifier.

pub mod precomputation;
pub mod prover;
pub mod verification;
