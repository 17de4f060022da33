//! The serial sum-check backend: reference semantics for round-polynomial
//! construction.

use vstd::prelude::*;
use crate::field::{residues, fp_seq_wf, Fp, P, lemma_reduce_id};
use crate::poly::multilinear::bind_top;
use crate::sumcheck::{
    eval_one, pair_count, point_vals, round_msg, round_sum, sumcheck_prove_core,
    sumcheck_verify_core, CombineFunction, VirtualPolynomial,
};
use crate::transcript::Transcript;
use crate::utils::ProtocolError;

verus! {

/// The per-polynomial values at pair `i`, sample `kf`, computed serially.
pub(crate) fn evals_at_sample(vp: &VirtualPolynomial, i: usize, kf: Fp) -> (r: Vec<Fp>)
    requires
        vp.wf(),
        i < vp.polys@[0].table.len(),
        kf.wf(),
    ensures
        r.len() == vp.polys.len(),
        fp_seq_wf(r@),
        residues(r@) == point_vals(vp.tables(), i as int, kf.as_int()),
{
    let mut r: Vec<Fp> = Vec::new();
    let mut p: usize = 0;
    while p < vp.polys.len()
        invariant
            p <= vp.polys.len(),
            vp.wf(),
            i < vp.polys@[0].table.len(),
            kf.wf(),
            r.len() == p,
            fp_seq_wf(r@),
            forall|t: int|
                0 <= t < p ==> (#[trigger] r@[t]).as_int() == point_vals(
                    vp.tables(),
                    i as int,
                    kf.as_int(),
                )[t],
        decreases vp.polys.len() - p,
    {
        proof {
            assert(vp.polys@[p as int].wf());
            assert(vp.polys@[p as int].table.len() == vp.polys@[0].table.len());
        }
        let v = eval_one(&vp.polys[p], i, kf);
        r.push(v);
        proof {
            assert(r@[p as int] == v);
            assert(vp.tables()[p as int] == vp.polys@[p as int].ev());
            assert(point_vals(vp.tables(), i as int, kf.as_int())[p as int] == bind_top(
                vp.tables()[p as int],
                kf.as_int(),
            )[i as int]);
        }
        p = p + 1;
    }
    proof {
        assert(residues(r@) =~= point_vals(vp.tables(), i as int, kf.as_int()));
    }
    r
}

/// One round's message, computed by the serial loops.
pub(crate) fn compute_round_poly(
    vp: &VirtualPolynomial,
    max_degree: usize,
    combine: &CombineFunction,
) -> (r: Vec<Fp>)
    requires
        vp.wf(),
        combine.wf(),
        combine@.arity_ok(vp.polys.len() as int),
        max_degree as int + 1 < P as int,
    ensures
        r.len() == max_degree + 1,
        fp_seq_wf(r@),
        residues(r@) == round_msg(combine@, vp.tables(), max_degree as nat),
{
    let size = vp.polys[0].size();
    proof {
        assert(vp.polys@[0].wf());
        assert(vp.tables()[0].len() == 2 * vp.polys@[0].table.len());
    }
    let mut r: Vec<Fp> = Vec::new();
    let mut k: usize = 0;
    while k < max_degree + 1
        invariant
            k <= max_degree + 1,
            max_degree as int + 1 < P as int,
            vp.wf(),
            combine.wf(),
            combine@.arity_ok(vp.polys.len() as int),
            size == vp.polys@[0].table.len(),
            r.len() == k,
            fp_seq_wf(r@),
            forall|t: int|
                0 <= t < k ==> (#[trigger] r@[t]).as_int() == round_msg(
                    combine@,
                    vp.tables(),
                    max_degree as nat,
                )[t],
        decreases max_degree + 1 - k,
    {
        let kf = Fp::from_u64(k as u64);
        proof {
            lemma_reduce_id(k as int);
        }
        let mut acc = Fp::zero();
        let mut i: usize = 0;
        while i < size
            invariant
                i <= size,
                vp.wf(),
                combine.wf(),
                combine@.arity_ok(vp.polys.len() as int),
                size == vp.polys@[0].table.len(),
                kf.wf(),
                kf.as_int() == k as int,
                acc.wf(),
                acc.as_int() == round_sum(combine@, vp.tables(), k as int, i as nat),
            decreases size - i,
        {
            let vals = evals_at_sample(vp, i, kf);
            let contribution = combine.evaluate(&vals);
            acc = acc.fadd(contribution);
            i = i + 1;
        }
        r.push(acc);
        proof {
            assert(r@[k as int] == acc);
            assert(vp.tables()[0].len() / 2 == size as int);
            assert(pair_count(vp.tables()) == size as nat);
            assert(round_msg(combine@, vp.tables(), max_degree as nat)[k as int]
                == round_sum(combine@, vp.tables(), k as int, size as nat));
        }
        k = k + 1;
    }
    proof {
        assert(residues(r@) =~= round_msg(combine@, vp.tables(), max_degree as nat));
    }
    r
}

/// The serial sum-check backend.
#[derive(Clone, Debug)]
pub struct ClassicSumcheck;

/// Prover parameters: the variable count and the round-polynomial degree.
#[derive(Clone, Debug)]
pub struct ClassicSumcheckProverParam {
    pub num_vars: usize,
    pub max_degree: usize,
}

impl ClassicSumcheckProverParam {
    /// Packs the parameters.
    pub fn new(num_vars: usize, max_degree: usize) -> (r: Self)
        ensures
            r.num_vars == num_vars,
            r.max_degree == max_degree,
    {
        ClassicSumcheckProverParam { num_vars, max_degree }
    }
}

/// Verifier parameters: the variable count and the round-polynomial degree.
#[derive(Clone, Debug)]
pub struct ClassicSumcheckVerifierParam {
    pub num_vars: usize,
    pub max_degree: usize,
}

impl ClassicSumcheckVerifierParam {
    /// Packs the parameters.
    pub fn new(num_vars: usize, max_degree: usize) -> (r: Self)
        ensures
            r.num_vars == num_vars,
            r.max_degree == max_degree,
    {
        ClassicSumcheckVerifierParam { num_vars, max_degree }
    }
}

impl ClassicSumcheck {
    /// Builds prover parameters.
    pub fn generate_pp(num_vars: usize, max_degree: usize) -> (r: Result<
        ClassicSumcheckProverParam,
        ProtocolError,
    >)
        ensures
            r is Ok,
            r matches Ok(pp) ==> pp.num_vars == num_vars && pp.max_degree == max_degree,
    {
        Ok(ClassicSumcheckProverParam { num_vars, max_degree })
    }

    /// Builds verifier parameters.
    pub fn generate_vp(num_vars: usize, max_degree: usize) -> (r: Result<
        ClassicSumcheckVerifierParam,
        ProtocolError,
    >)
        ensures
            r is Ok,
            r matches Ok(vp) ==> vp.num_vars == num_vars && vp.max_degree == max_degree,
    {
        Ok(ClassicSumcheckVerifierParam { num_vars, max_degree })
    }

    /// Proves the claimed sum, writing the transcript pinned by
    /// `sumcheck_prove_spec`; returns the reversed challenges and the final
    /// per-polynomial evaluations.
    pub fn prove(
        pp: &ClassicSumcheckProverParam,
        combine_function: &CombineFunction,
        _sum: Fp,
        virtual_poly: VirtualPolynomial,
        transcript: &mut Transcript,
    ) -> (r: Result<(Vec<Fp>, Vec<Fp>), ProtocolError>)
        requires
            pp.num_vars >= 1,
            pp.max_degree as int + 1 < P as int,
            combine_function.wf(),
            combine_function@.arity_ok(virtual_poly.polys.len() as int),
            virtual_poly.wf(),
            virtual_poly.nv() == pp.num_vars,
        ensures
            ({
                let o = crate::sumcheck::sumcheck_prove_spec(
                    combine_function@,
                    pp.max_degree as nat,
                    pp.num_vars as nat,
                    virtual_poly.tables(),
                    old(transcript).stream@,
                    old(transcript).state@,
                );
                &&& r is Ok
                &&& final(transcript).stream@ == o.stream
                &&& final(transcript).state@ == o.state
                &&& final(transcript).pos == old(transcript).pos
                &&& (r matches Ok(out) ==> {
                    &&& residues(out.0@) == o.challenges
                    &&& residues(out.1@) == o.evals
                    &&& out.0.len() == pp.num_vars
                    &&& out.1.len() == virtual_poly.polys.len()
                    &&& fp_seq_wf(out.0@)
                    &&& fp_seq_wf(out.1@)
                })
            }),
    {
        sumcheck_prove_core(
            pp.num_vars,
            pp.max_degree,
            combine_function,
            virtual_poly,
            transcript,
            false,
        )
    }

    /// Verifies a sum-check proof read from the transcript; shared by every
    /// backend.
    pub fn verify(
        vp: &ClassicSumcheckVerifierParam,
        _degree: usize,
        sum: Fp,
        num_polys: usize,
        transcript: &mut Transcript,
    ) -> (r: Result<(Fp, Vec<Fp>, Vec<Fp>), ProtocolError>)
        requires
            vp.num_vars >= 1,
            1 <= vp.max_degree,
            vp.max_degree as int + 1 < P as int,
            sum.wf(),
        ensures
            crate::sumcheck::sumcheck_verify_ensures(
                vp.num_vars,
                vp.max_degree,
                sum,
                num_polys,
                *old(transcript),
                *final(transcript),
                r,
            ),
    {
        sumcheck_verify_core(vp.num_vars, vp.max_degree, sum, num_polys, transcript)
    }
}

} // verus!
