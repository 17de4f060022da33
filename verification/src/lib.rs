//! A lookup-argument prover and verifier.
//!
//! Given a public table `T` of field elements of size `2^n` and a witness
//! vector `W` of size `2^m`, the prover convinces the verifier that every
//! element of `W` appears in `T`. The protocol encodes each witness element
//! by the bits of its position in `T`, commits to those bit columns, and runs
//! a multilinear sum-check binding (a) each committed column to Boolean
//! values and (b) the table evaluation at the bit-indexed row to the witness
//! value.

pub mod field;
pub mod lookup;
pub mod pcs;
pub mod poly;
pub mod sumcheck;
pub mod transcript;
pub mod utils;
