//! The thread-parallel sum-check backend: the per-polynomial values inside
//! each round step are computed across worker threads. It is held to the
//! same transcript specification as the serial backend, so the two produce
//! byte-identical proofs.

use rayon::iter::{IntoParallelRefIterator, ParallelIterator};
use vstd::prelude::*;
use crate::field::{residues, fp_seq_wf, Fp, P, lemma_reduce_id};
use crate::poly::multilinear::bind_top;
use crate::sumcheck::{
    eval_one, pair_count, point_vals, round_msg, round_sum, sumcheck_prove_core,
    sumcheck_verify_core, CombineFunction, EvalTable, VirtualPolynomial,
};
use crate::transcript::Transcript;
use crate::utils::ProtocolError;

verus! {

/// Relies on rayon's `par_iter().map(..).collect()`: one result per table,
/// in the input order; each result comes from the verified `eval_one`.
#[verifier::external_body]
fn par_evals_at_sample(polys: &Vec<EvalTable>, i: usize, kf: Fp) -> (r: Vec<Fp>)
    requires
        forall|p: int| 0 <= p < polys.len() ==> (#[trigger] polys@[p]).wf(),
        forall|p: int| 0 <= p < polys.len() ==> i < (#[trigger] polys@[p]).table.len(),
        kf.wf(),
    ensures
        r.len() == polys.len(),
        forall|p: int|
            0 <= p < r.len() ==> (#[trigger] r@[p]).wf() && r@[p].as_int() == bind_top(
                polys@[p].ev(),
                kf.as_int(),
            )[i as int],
{
    polys.par_iter().map(|t| eval_one(t, i, kf)).collect()
}

/// One round's message, with the per-polynomial values computed in
/// parallel.
pub(crate) fn compute_round_poly_par(
    vp: &VirtualPolynomial,
    max_degree: usize,
    combine: &CombineFunction,
) -> (r: Vec<Fp>)
    requires
        vp.wf(),
        combine.wf(),
        combine@.arity_ok(vp.polys.len() as int),
        max_degree as int + 1 < P as int,
    ensures
        r.len() == max_degree + 1,
        fp_seq_wf(r@),
        residues(r@) == round_msg(combine@, vp.tables(), max_degree as nat),
{
    let size = vp.polys[0].size();
    proof {
        assert(vp.polys@[0].wf());
        assert(vp.tables()[0].len() == 2 * vp.polys@[0].table.len());
    }
    let mut r: Vec<Fp> = Vec::new();
    let mut k: usize = 0;
    while k < max_degree + 1
        invariant
            k <= max_degree + 1,
            max_degree as int + 1 < P as int,
            vp.wf(),
            combine.wf(),
            combine@.arity_ok(vp.polys.len() as int),
            size == vp.polys@[0].table.len(),
            r.len() == k,
            fp_seq_wf(r@),
            forall|t: int|
                0 <= t < k ==> (#[trigger] r@[t]).as_int() == round_msg(
                    combine@,
                    vp.tables(),
                    max_degree as nat,
                )[t],
        decreases max_degree + 1 - k,
    {
        let kf = Fp::from_u64(k as u64);
        proof {
            lemma_reduce_id(k as int);
        }
        let mut acc = Fp::zero();
        let mut i: usize = 0;
        while i < size
            invariant
                i <= size,
                vp.wf(),
                combine.wf(),
                combine@.arity_ok(vp.polys.len() as int),
                size == vp.polys@[0].table.len(),
                kf.wf(),
                kf.as_int() == k as int,
                acc.wf(),
                acc.as_int() == round_sum(combine@, vp.tables(), k as int, i as nat),
            decreases size - i,
        {
            proof {
                assert forall|p: int| 0 <= p < vp.polys.len() implies i < (
                #[trigger] vp.polys@[p]).table.len() by {
                    assert(vp.polys@[p].wf());
                }
            }
            let vals = par_evals_at_sample(&vp.polys, i, kf);
            proof {
                assert(fp_seq_wf(vals@));
                assert(residues(vals@) =~= point_vals(vp.tables(), i as int, kf.as_int()));
            }
            let contribution = combine.evaluate(&vals);
            acc = acc.fadd(contribution);
            i = i + 1;
        }
        r.push(acc);
        proof {
            assert(r@[k as int] == acc);
            assert(vp.tables()[0].len() / 2 == size as int);
            assert(pair_count(vp.tables()) == size as nat);
            assert(round_msg(combine@, vp.tables(), max_degree as nat)[k as int]
                == round_sum(combine@, vp.tables(), k as int, size as nat));
        }
        k = k + 1;
    }
    proof {
        assert(residues(r@) =~= round_msg(combine@, vp.tables(), max_degree as nat));
    }
    r
}

/// The thread-parallel sum-check backend.
#[derive(Clone, Debug)]
pub struct ParallelSumcheck;

/// Prover parameters: the variable count and the round-polynomial degree.
#[derive(Clone, Debug)]
pub struct ParallelSumcheckProverParam {
    pub num_vars: usize,
    pub max_degree: usize,
}

/// Verifier parameters: the variable count and the round-polynomial degree.
#[derive(Clone, Debug)]
pub struct ParallelSumcheckVerifierParam {
    pub num_vars: usize,
    pub max_degree: usize,
}

impl ParallelSumcheck {
    /// Builds prover parameters.
    pub fn generate_pp(num_vars: usize, max_degree: usize) -> (r: Result<
        ParallelSumcheckProverParam,
        ProtocolError,
    >)
        ensures
            r is Ok,
            r matches Ok(pp) ==> pp.num_vars == num_vars && pp.max_degree == max_degree,
    {
        Ok(ParallelSumcheckProverParam { num_vars, max_degree })
    }

    /// Builds verifier parameters.
    pub fn generate_vp(num_vars: usize, max_degree: usize) -> (r: Result<
        ParallelSumcheckVerifierParam,
        ProtocolError,
    >)
        ensures
            r is Ok,
            r matches Ok(vp) ==> vp.num_vars == num_vars && vp.max_degree == max_degree,
    {
        Ok(ParallelSumcheckVerifierParam { num_vars, max_degree })
    }

    /// Proves the claimed sum; pinned to the same transcript specification
    /// as the serial backend, so the proofs are byte-identical.
    pub fn prove(
        pp: &ParallelSumcheckProverParam,
        combine_function: &CombineFunction,
        _sum: Fp,
        virtual_poly: VirtualPolynomial,
        transcript: &mut Transcript,
    ) -> (r: Result<(Vec<Fp>, Vec<Fp>), ProtocolError>)
        requires
            pp.num_vars >= 1,
            pp.max_degree as int + 1 < P as int,
            combine_function.wf(),
            combine_function@.arity_ok(virtual_poly.polys.len() as int),
            virtual_poly.wf(),
            virtual_poly.nv() == pp.num_vars,
        ensures
            ({
                let o = crate::sumcheck::sumcheck_prove_spec(
                    combine_function@,
                    pp.max_degree as nat,
                    pp.num_vars as nat,
                    virtual_poly.tables(),
                    old(transcript).stream@,
                    old(transcript).state@,
                );
                &&& r is Ok
                &&& final(transcript).stream@ == o.stream
                &&& final(transcript).state@ == o.state
                &&& final(transcript).pos == old(transcript).pos
                &&& (r matches Ok(out) ==> {
                    &&& residues(out.0@) == o.challenges
                    &&& residues(out.1@) == o.evals
                    &&& out.0.len() == pp.num_vars
                    &&& out.1.len() == virtual_poly.polys.len()
                    &&& fp_seq_wf(out.0@)
                    &&& fp_seq_wf(out.1@)
                })
            }),
    {
        sumcheck_prove_core(
            pp.num_vars,
            pp.max_degree,
            combine_function,
            virtual_poly,
            transcript,
            true,
        )
    }

    /// Verifies a sum-check proof; the same checks as the serial backend.
    pub fn verify(
        vp: &ParallelSumcheckVerifierParam,
        _degree: usize,
        sum: Fp,
        num_polys: usize,
        transcript: &mut Transcript,
    ) -> (r: Result<(Fp, Vec<Fp>, Vec<Fp>), ProtocolError>)
        requires
            vp.num_vars >= 1,
            1 <= vp.max_degree,
            vp.max_degree as int + 1 < P as int,
            sum.wf(),
        ensures
            crate::sumcheck::sumcheck_verify_ensures(
                vp.num_vars,
                vp.max_degree,
                sum,
                num_polys,
                *old(transcript),
                *final(transcript),
                r,
            ),
    {
        sumcheck_verify_core(vp.num_vars, vp.max_degree, sum, num_polys, transcript)
    }
}

} // verus!
