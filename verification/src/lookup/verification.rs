//! The lookup verifier: mirrors the prover's transcript, replays the
//! sum-check, and checks the batch opening.
//!
//! Beyond the sum-check's own round checks, the verifier binds the final
//! claim twice more: the last returned evaluation must equal the `eq`
//! polynomial's value at the drawn point, and the combine function applied
//! to all returned evaluations must equal the sum-check's final expected
//! value. Without these the returned evaluations would be unconstrained.

use vstd::prelude::*;
use vstd::arithmetic::power2::pow2;
use crate::field::{addm, mulm, subm, fp_seq_wf, residues, Fp, P};
use crate::pcs::{batch_verify, Evaluation, PlainCommitment, PlainPcs, PlainPcsVerifierParam};
use crate::poly::multilinear::{coeff_eval, eq_prod, MultilinearPolynomial};
use crate::sumcheck::classic::{ClassicSumcheck, ClassicSumcheckVerifierParam};
use crate::sumcheck::{
    boolean_penalty, sv_challenges, sv_checks, sv_expected, sv_state, CombineFunction,
};
use crate::transcript::{
    absorb_chunks, read_vals, squeeze_n_state, squeeze_n_vals, squeeze_state, squeeze_val,
    Transcript,
};
use crate::utils::ProtocolError;

verus! {

/// What an accepted lookup proof satisfies, over the raw proof stream.
///
/// The commitments occupy the first `2^m (n+1)` elements and are absorbed
/// into the hash state; the Boolean-weighting challenge and the query
/// point are squeezed; the sum-check rounds all pass their checks; the
/// read evaluations satisfy the combine identity against the final
/// expected value, with the last evaluation equal to the `eq` polynomial's
/// value at the drawn point; and the batch opening of the committed
/// polynomials at that point is accepted in turn.
pub open spec fn lookup_verify_checked(
    table_poly: MultilinearPolynomial,
    n: usize,
    m: usize,
    d: usize,
    t0: Transcript,
) -> bool {
    let size = pow2(m as nat) as int;
    let stream = t0.stream@;
    let pos0 = t0.pos as int;
    let comm_state = absorb_chunks(t0.state@, stream, pos0, (size * (n + 1)) as nat);
    let gamma = squeeze_val(comm_state);
    let ys = squeeze_n_vals(squeeze_state(comm_state), m as nat);
    let state2 = squeeze_n_state(squeeze_state(comm_state), m as nat);
    let pos1 = pos0 + 8 * (size * (n + 1));
    let expected = sv_expected(0, state2, stream, pos1, d as nat, m as nat);
    let challenges = sv_challenges(state2, stream, pos1, d as nat, m as nat);
    let evals = read_vals(stream, pos1 + 8 * (d + 1) * m, (n + 2) as nat);
    &&& sv_checks(0, state2, stream, pos1, d as nat, m as nat)
    &&& evals[n + 1] == eq_prod(challenges.reverse(), ys)
    &&& expected == mulm(
        addm(
            subm(
                evals[0],
                coeff_eval(residues(table_poly.coeffs@), evals.subrange(1, n as int + 1)),
            ),
            boolean_penalty(evals, gamma, n as nat),
        ),
        evals[n + 1],
    )
    &&& crate::pcs::batch_verify_accepted(
        m,
        Seq::new((n + 1) as nat, |i: int| read_vals(stream, pos0 + 8 * size * i, size as nat)),
        seq![challenges.reverse()],
        Seq::new((n + 1) as nat, |i: int| (i, 0int, evals[i])),
        crate::transcript::absorb_chunks(
            sv_state(state2, stream, pos1, d as nat, m as nat),
            stream,
            pos1 + 8 * (d + 1) * m,
            (n + 2) as nat,
        ),
        stream,
        pos1 + 8 * ((d + 1) * m + (n + 2)),
    )
}

/// The proof stream holds every byte the verifier reads: the commitments,
/// the lookup sum-check's messages and evaluations, and the batch opening's
/// inner sum-check.
pub open spec fn lookup_proof_long_enough(n: usize, m: usize, d: usize, t0: Transcript) -> bool {
    let size = pow2(m as nat) as int;
    t0.pos + 8 * (size * (n + 1)) + 8 * ((d + 1) * m + (n + 2)) + 8 * ((2 + 1) * m + 2)
        <= t0.stream.len()
}

/// The witness dimension a proof is checked at: a zero-variable request
/// stands for the padded single-element instance, which the prover emits at
/// one variable.
pub open spec fn checked_num_vars(witness_num_vars: usize) -> usize {
    if witness_num_vars == 0 {
        1
    } else {
        witness_num_vars
    }
}

/// The lookup verifier.
pub struct Verifier;

impl Verifier {
    /// Checks a lookup proof read from the transcript against the table's
    /// coefficient-form polynomial. Accepts only proofs whose commitments
    /// parse, whose sum-check rounds all pass, whose final evaluations
    /// satisfy the combine identity and the `eq` identity, and whose batch
    /// opening checks out against the read commitments.
    #[verifier::rlimit(100)]
    pub fn verify(
        vp: &PlainPcsVerifierParam,
        transcript: &mut Transcript,
        table_poly: &MultilinearPolynomial,
        num_polys: usize,
        table_dimension: usize,
        witness_num_vars: usize,
        max_degree: usize,
    ) -> (r: Result<(), ProtocolError>)
        requires
            table_poly.wf(),
            table_poly.num_vars == table_dimension,
            table_poly.coeffs.len() == pow2(table_dimension as nat),
            table_dimension >= 1,
            num_polys == table_dimension + 2,
            max_degree >= 1,
            max_degree as int + 1 < P as int,
            pow2(checked_num_vars(witness_num_vars) as nat) <= usize::MAX,
        ensures
            final(transcript).stream@ == old(transcript).stream@,
            r is Err ==> (r matches Err(ProtocolError::Transcript)) || (r matches Err(
                ProtocolError::InvalidSumcheck(_),
            )) || (r matches Err(ProtocolError::InvalidPcsParam(_))),
            r is Ok <==> lookup_proof_long_enough(
                table_dimension,
                checked_num_vars(witness_num_vars),
                max_degree,
                *old(transcript),
            ) && lookup_verify_checked(
                *table_poly,
                table_dimension,
                checked_num_vars(witness_num_vars),
                max_degree,
                *old(transcript),
            ),
    {
        let m_used = if witness_num_vars == 0 {
            1
        } else {
            witness_num_vars
        };
        proof {
            assert(m_used == checked_num_vars(witness_num_vars));
        }
        let ghost st0 = old(transcript).state@;
        let ghost stream = old(transcript).stream@;
        let ghost pos0 = old(transcript).pos as int;
        let size = crate::utils::pow2_exec(m_used);
        let ghost n_i = table_dimension as int;
        let ghost m_i = m_used as int;
        let ghost d_i = max_degree as int;
        let ghost seg_comm = 8 * (size as int * (n_i + 1));
        let ghost seg_sc = 8 * ((d_i + 1) * m_i + (n_i + 2));
        let ghost seg_batch = 8 * ((2 + 1) * m_i + 2);
        proof {
            assert(seg_comm >= 8 * size && 8 * size >= 0) by (nonlinear_arith)
                requires
                    seg_comm == 8 * (size as int * (n_i + 1)),
                    size >= 1,
                    n_i >= 1,
            ;
            assert(seg_sc >= 0) by (nonlinear_arith)
                requires
                    seg_sc == 8 * ((d_i + 1) * m_i + (n_i + 2)),
                    d_i >= 1,
                    m_i >= 1,
                    n_i >= 1,
            ;
            assert(seg_batch >= 0);
        }

        // Read the witness commitment and the sigma commitments.
        let witness_comm = match PlainPcs::read_commitment(vp, size, transcript) {
            Ok(c) => c,
            Err(_) => {
                proof {
                    assert(pos0 + 8 * size > stream.len());
                    assert(!lookup_proof_long_enough(
                        table_dimension,
                        m_used,
                        max_degree,
                        *old(transcript),
                    ));
                }
                return Err(ProtocolError::Transcript);
            },
        };
        let sigma_comms = match PlainPcs::read_commitments(
            vp,
            table_dimension,
            size,
            transcript,
        ) {
            Ok(v) => v,
            Err(_) => {
                proof {
                    assert(pos0 + 8 * size + 8 * size * table_dimension > stream.len());
                    assert(8 * size + 8 * size * table_dimension == seg_comm)
                        by (nonlinear_arith)
                        requires
                            seg_comm == 8 * (size as int * (n_i + 1)),
                            n_i == table_dimension as int,
                    ;
                    assert(!lookup_proof_long_enough(
                        table_dimension,
                        m_used,
                        max_degree,
                        *old(transcript),
                    ));
                }
                return Err(ProtocolError::Transcript);
            },
        };

        proof {
            crate::transcript::lemma_absorb_chunks_concat(
                st0,
                stream,
                pos0,
                size as nat,
                (size * table_dimension) as nat,
            );
            assert(8 * (size as int) + 8 * size * table_dimension == 8 * (size as int * (
            table_dimension + 1))) by (nonlinear_arith);
            assert(8 * (size as int * (table_dimension as int)) == 8 * size
                * table_dimension) by (nonlinear_arith);
            assert((size + size * table_dimension) as nat == (size as int * (table_dimension
                + 1)) as nat) by (nonlinear_arith);
        }
        let ghost comm_state = absorb_chunks(
            st0,
            stream,
            pos0,
            (size as int * (table_dimension + 1)) as nat,
        );
        let ghost pos1 = pos0 + 8 * (size as int * (table_dimension + 1));

        // Mirror the prover's challenges.
        let gamma = transcript.squeeze_challenge();
        let ys = transcript.squeeze_challenges(m_used);
        proof {
            assert(transcript.state@ == squeeze_n_state(
                squeeze_state(comm_state),
                m_used as nat,
            ));
            assert(transcript.pos as int == pos1);
        }

        // Replay the sum-check with claimed sum zero.
        let svp = ClassicSumcheckVerifierParam::new(m_used, max_degree);
        let (expected, point_evals, x) = match ClassicSumcheck::verify(
            &svp,
            max_degree,
            Fp::zero(),
            num_polys,
            transcript,
        ) {
            Ok(triple) => triple,
            Err(e) => {
                proof {
                    assert(!(pos1 + seg_sc <= stream.len() && sv_checks(
                        0,
                        squeeze_n_state(squeeze_state(comm_state), m_used as nat),
                        stream,
                        pos1,
                        max_degree as nat,
                        m_used as nat,
                    )));
                    assert(pos1 == pos0 + seg_comm);
                    if pos1 + seg_sc > stream.len() {
                        assert(!lookup_proof_long_enough(
                            table_dimension,
                            m_used,
                            max_degree,
                            *old(transcript),
                        ));
                    } else {
                        assert(!lookup_verify_checked(
                            *table_poly,
                            table_dimension,
                            m_used,
                            max_degree,
                            *old(transcript),
                        ));
                    }
                }
                return Err(e);
            },
        };
        proof {
            assert(pos1 + seg_sc <= stream.len());
            assert(transcript.pos as int == pos1 + seg_sc);
        }

        // The last evaluation belongs to the `eq` polynomial, which is not
        // committed; it must equal `eq(x, ys)`.
        let eq_at = crate::sumcheck::eq_xy_eval(&x, &ys);
        if point_evals[num_polys - 1] != eq_at {
            proof {
                assert(!lookup_verify_checked(
                    *table_poly,
                    table_dimension,
                    m_used,
                    max_degree,
                    *old(transcript),
                ));
            }
            return Err(
                ProtocolError::InvalidSumcheck(
                    "the eq evaluation does not match the drawn point".to_string(),
                ),
            );
        }

        // The combine function over the returned evaluations must equal the
        // sum-check's final expected value.
        let combine = CombineFunction::Lookup {
            table_coeffs: crate::field::copy_fp_vec(&table_poly.coeffs),
            table_dim: table_dimension,
            gamma,
        };
        let hval = combine.evaluate(&point_evals);
        if hval != expected {
            proof {
                assert(!lookup_verify_checked(
                    *table_poly,
                    table_dimension,
                    m_used,
                    max_degree,
                    *old(transcript),
                ));
            }
            return Err(
                ProtocolError::InvalidSumcheck(
                    "the combine value does not match the expected sum".to_string(),
                ),
            );
        }

        // Check the batch opening of the committed polynomials at the point.
        let mut comms: Vec<&PlainCommitment> = Vec::new();
        comms.push(&witness_comm);
        let mut claims: Vec<Evaluation> = Vec::new();
        claims.push(Evaluation::new(0, 0, point_evals[0]));
        proof {
            assert(witness_comm.e() == read_vals(stream, pos0, size as nat));
            assert(comms@[0] == &witness_comm);
            assert(pos0 + 8 * size * 0 == pos0) by (nonlinear_arith);
        }
        let mut j: usize = 0;
        while j < table_dimension
            invariant
                j <= table_dimension,
                witness_comm.wf(),
                witness_comm.evals.len() == size,
                size == pow2(m_used as nat),
                sigma_comms.len() == table_dimension,
                num_polys == table_dimension + 2,
                point_evals.len() == num_polys,
                fp_seq_wf(point_evals@),
                forall|t: int|
                    0 <= t < sigma_comms.len() ==> (#[trigger] sigma_comms@[t]).wf()
                        && sigma_comms@[t].evals.len() == size,
                forall|t: int|
                    0 <= t < sigma_comms.len() ==> (#[trigger] sigma_comms@[t]).e()
                        == read_vals(
                        stream,
                        pos0 + 8 * size + 8 * size * t,
                        size as nat,
                    ),
                witness_comm.e() == read_vals(stream, pos0, size as nat),
                comms.len() == j + 1,
                claims.len() == j + 1,
                forall|t: int|
                    0 <= t < comms.len() ==> (#[trigger] comms@[t]).wf() && comms@[
                        t
                    ].evals.len() == size,
                forall|t: int|
                    0 <= t < comms.len() ==> (#[trigger] comms@[t]).e() == read_vals(
                        stream,
                        pos0 + 8 * size * t,
                        size as nat,
                    ),
                forall|t: int|
                    0 <= t < claims.len() ==> (#[trigger] claims@[t]).poly == t && claims@[
                        t
                    ].point == 0 && claims@[t].value == point_evals@[t],
                forall|t: int|
                    0 <= t < claims.len() ==> (#[trigger] claims@[t]).value.wf(),
            decreases table_dimension - j,
        {
            comms.push(&sigma_comms[j]);
            claims.push(Evaluation::new(j + 1, 0, point_evals[j + 1]));
            proof {
                assert(pos0 + 8 * size + 8 * size * (j as int) == pos0 + 8 * size * (j + 1))
                    by (nonlinear_arith);
            }
            j = j + 1;
        }
        let mut points: Vec<Vec<Fp>> = Vec::new();
        points.push(x);
        proof {
            crate::utils::lemma_pow2_word_bound(m_used as nat);
            crate::utils::lemma_pow2_word_bound(table_dimension as nat);
        }
        let result = batch_verify(vp, m_used, comms, &points, &claims, transcript);
        proof {
            let n = table_dimension as int;
            let m = m_used;
            let d = max_degree;
            let size_i = pow2(m as nat) as int;
            let comm_state = crate::transcript::absorb_chunks(
                st0,
                stream,
                pos0,
                (size_i * (n + 1)) as nat,
            );
            let state2 = crate::transcript::squeeze_n_state(
                crate::transcript::squeeze_state(comm_state),
                m as nat,
            );
            let pos1 = pos0 + 8 * (size_i * (n + 1));
            let challenges_s = sv_challenges(state2, stream, pos1, d as nat, m as nat);
            let evals_s = read_vals(stream, pos1 + 8 * (d + 1) * m, (n + 2) as nat);
            assert(Seq::new(comms.len() as nat, |i: int| comms@[i].e()) =~= Seq::new(
                (n + 1) as nat,
                |i: int| read_vals(stream, pos0 + 8 * size_i * i, size_i as nat),
            ));
            assert(Seq::new(points.len() as nat, |i: int| crate::field::residues(
                points@[i]@,
            )) =~= seq![challenges_s.reverse()]);
            assert(Seq::new(
                claims.len() as nat,
                |i: int| (claims@[i].poly as int, claims@[i].point as int, claims@[
                    i
                ].value.as_int()),
            ) =~= Seq::new((n + 1) as nat, |i: int| (i, 0int, evals_s[i])));
            let le = lookup_proof_long_enough(
                table_dimension,
                m_used,
                max_degree,
                *old(transcript),
            );
            assert(le <==> pos0 + seg_comm + seg_sc + seg_batch <= stream.len() as int);
            assert(2 * points.len() == 2);
            assert(le <==> pos1 + seg_sc + 8 * ((2 + 1) * m_used + 2 * points.len())
                <= stream.len() as int);
        }
        result
    }
}

} // verus!
