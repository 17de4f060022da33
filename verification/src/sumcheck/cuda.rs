//! The device-offloaded sum-check backend's host side. Producing a proof
//! needs a GPU driver and loaded kernels, which this crate does not ship;
//! the verifier below is the same check as the other backends', so proofs
//! from a device prover that follows the shared transcript specification
//! are accepted here.

use vstd::prelude::*;
use crate::field::{Fp, P};
use crate::sumcheck::sumcheck_verify_core;
use crate::transcript::Transcript;
use crate::utils::ProtocolError;

verus! {

/// The device-offloaded sum-check backend.
#[derive(Clone, Debug)]
pub struct CudaSumcheck;

/// Prover parameters: the variable count and the round-polynomial degree.
#[derive(Clone, Debug)]
pub struct CudaSumcheckProverParam {
    pub num_vars: usize,
    pub max_degree: usize,
}

/// Verifier parameters: the variable count and the round-polynomial degree.
#[derive(Clone, Debug)]
pub struct CudaSumcheckVerifierParam {
    pub num_vars: usize,
    pub max_degree: usize,
}

impl CudaSumcheck {
    /// Builds prover parameters.
    pub fn generate_pp(num_vars: usize, max_degree: usize) -> (r: Result<
        CudaSumcheckProverParam,
        ProtocolError,
    >)
        ensures
            r is Ok,
            r matches Ok(pp) ==> pp.num_vars == num_vars && pp.max_degree == max_degree,
    {
        Ok(CudaSumcheckProverParam { num_vars, max_degree })
    }

    /// Builds verifier parameters.
    pub fn generate_vp(num_vars: usize, max_degree: usize) -> (r: Result<
        CudaSumcheckVerifierParam,
        ProtocolError,
    >)
        ensures
            r is Ok,
            r matches Ok(vp) ==> vp.num_vars == num_vars && vp.max_degree == max_degree,
    {
        Ok(CudaSumcheckVerifierParam { num_vars, max_degree })
    }

    /// Verifies a sum-check proof; the same checks as the other backends.
    pub fn verify(
        vp: &CudaSumcheckVerifierParam,
        _degree: usize,
        sum: Fp,
        num_polys: usize,
        transcript: &mut Transcript,
    ) -> (r: Result<(Fp, Vec<Fp>, Vec<Fp>), ProtocolError>)
        requires
            vp.num_vars >= 1,
            1 <= vp.max_degree,
            vp.max_degree as int + 1 < P as int,
            sum.wf(),
        ensures
            crate::sumcheck::sumcheck_verify_ensures(
                vp.num_vars,
                vp.max_degree,
                sum,
                num_polys,
                *old(transcript),
                *final(transcript),
                r,
            ),
    {
        sumcheck_verify_core(vp.num_vars, vp.max_degree, sum, num_polys, transcript)
    }
}

} // verus!
