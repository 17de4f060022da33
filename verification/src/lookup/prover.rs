//! The lookup prover: builds the witness polynomial and the sigma bit
//! columns, commits to them, runs the lookup sum-check, and batch-opens the
//! committed polynomials at the drawn point.

use vstd::prelude::*;
use vstd::arithmetic::power2::pow2;
use crate::field::{residues, fp_seq_wf, Fp};
use crate::lookup::precomputation::{bits_le, in_table, is_power_of_two, last_index, Table};
use crate::pcs::{absorb_rows, batch_open, batch_tables, log2_ceil_spec, ser_rows, Evaluation,
    PlainCommitment, PlainPcs, PlainPcsParam, PlainPcsProverParam};
use crate::poly::multilinear::{eq_tensor, mobius_steps, MultilinearPolynomial};
use crate::sumcheck::classic::{ClassicSumcheck, ClassicSumcheckProverParam};
use crate::sumcheck::{
    sumcheck_prove_spec, CombineFunction, CombineSpec, SumcheckOutcome, VirtualPolynomial,
};
use crate::transcript::{
    absorb_elems, ser_elems, squeeze_n_state, squeeze_n_vals, squeeze_state, squeeze_val,
    Transcript,
};
use crate::utils::{lg, log2_exact, transpose, ProtocolError};

verus! {

/// Every element of the witness appears in the table.
pub open spec fn witness_included(table: Table, witness: Seq<Fp>) -> bool {
    forall|j: int|
        0 <= j < witness.len() ==> in_table(table.table@, #[trigger] witness[j].as_int())
}

/// The sigma bit columns as residue rows, one per table-index bit: entry
/// `j` of row `b` is bit `b` of witness element `j`'s table index.
pub open spec fn sigma_rows(table: Table, witness: Seq<Fp>) -> Seq<Seq<int>> {
    Seq::new(
        table.num_vars as nat,
        |b: int| Seq::new(
            witness.len(),
            |j: int| bits_le(
                last_index(table.table@, witness[j].as_int()),
                table.num_vars as nat,
            )[b],
        ),
    )
}

/// The evaluation tables the lookup sum-check runs over: the witness, the
/// sigma columns, then the `eq` polynomial of the query point.
pub open spec fn lookup_tables(table: Table, witness: Seq<Fp>, ys: Seq<int>) -> Seq<Seq<int>> {
    Seq::new(
        (table.num_vars + 2) as nat,
        |i: int|
            if i == 0 {
                residues(witness)
            } else if i <= table.num_vars {
                sigma_rows(table, witness)[i - 1]
            } else {
                eq_tensor(ys)
            },
    )
}

/// The whole proof an honest prover writes for a table and witness, given
/// the transcript's starting stream and hash state: the witness and sigma
/// commitments, the lookup sum-check, and the batch opening's tensor
/// squeeze and inner sum-check. The returned outcome's stream and state are
/// the transcript's final stream and state.
pub open spec fn lookup_prove_outcome(
    table: Table,
    witness: Seq<Fp>,
    stream0: Seq<u8>,
    st0: Seq<u8>,
) -> SumcheckOutcome {
    let m = lg(witness.len());
    let n = table.num_vars;
    let w_row = residues(witness);
    let srows = sigma_rows(table, witness);
    let s2 = stream0 + ser_elems(w_row) + ser_rows(srows, n as nat);
    let st2 = absorb_rows(absorb_elems(st0, w_row), srows, n as nat);
    let gamma = squeeze_val(st2);
    let st3 = squeeze_state(st2);
    let ys = squeeze_n_vals(st3, m);
    let st4 = squeeze_n_state(st3, m);
    let d = (1 + if n > 2 {
        n as int
    } else {
        2
    }) as nat;
    let combine = CombineSpec::Lookup {
        table_coeffs: mobius_steps(residues(table.table@), n as nat),
        table_dim: n as nat,
        gamma: gamma,
    };
    let o = sumcheck_prove_spec(combine, d, m, lookup_tables(table, witness, ys), s2, st4);
    let ell = log2_ceil_spec((n + 1) as nat);
    let poly_rows = Seq::new(
        (n + 1) as nat,
        |i: int|
            if i == 0 {
                w_row
            } else {
                srows[i - 1]
            },
    );
    let claims = Seq::new((n + 1) as nat, |i: int| (i, 0int, o.evals[i]));
    let eqxt = eq_tensor(squeeze_n_vals(o.state, ell));
    sumcheck_prove_spec(
        CombineSpec::Additive { num_merged: 1 },
        2,
        m,
        batch_tables(poly_rows, seq![o.challenges], claims, eqxt, pow2(m)),
        o.stream,
        squeeze_n_state(o.state, ell),
    )
}

/// A single-element witness is proved as the equivalent two-element
/// instance: repetition changes neither the multiset's inclusion in the
/// table nor the sigma columns' values.
pub open spec fn padded_witness(witness: Seq<Fp>) -> Seq<Fp> {
    if witness.len() == 1 {
        witness + witness
    } else {
        witness
    }
}

/// The witness dimension the proof is produced at: a single-element
/// witness is padded to the smallest sum-check instance, one variable.
pub open spec fn effective_num_vars(len: nat) -> nat {
    if len <= 1 {
        1
    } else {
        lg(len)
    }
}

/// The lookup prover.
pub struct Prover;

impl Prover {
    /// Derives a commitment parameter large enough for the table, the
    /// witness and the sigma columns.
    pub fn setup(table: &Table, witness: &Vec<Fp>) -> (r: Result<
        PlainPcsParam,
        ProtocolError,
    >)
        requires
            table.wf(),
            witness.len() >= 1,
            table.table.len() as int * 2 <= usize::MAX as int,
            witness.len() as int * 2 <= usize::MAX as int,
        ensures
            r is Ok,
            r matches Ok(p) ==> {
                &&& pow2(p.max_num_vars as nat) >= table.table.len()
                &&& pow2(p.max_num_vars as nat) >= witness.len()
                &&& pow2(p.max_num_vars as nat) <= usize::MAX
            },
    {
        proof {
            crate::utils::lemma_pow2_word_bound(table.num_vars as nat);
        }
        let table_len = table.len();
        let poly_size = if table_len > witness.len() {
            table_len
        } else {
            witness.len()
        };
        let batch_size = 1 + 1 + table.num_vars();
        PlainPcs::setup(poly_size, batch_size)
    }

    /// The sigma columns: for each table-index bit, the column of that bit
    /// over all witness elements, as a polynomial in the witness variables.
    /// Fails with `NotInclusion` exactly when some witness element has no
    /// match in the table.
    pub fn sigma_polys(table: &Table, witness: &Vec<Fp>) -> (r: Result<
        Vec<MultilinearPolynomial>,
        ProtocolError,
    >)
        requires
            table.wf(),
            fp_seq_wf(witness@),
            witness.len() >= 1,
            table.num_vars >= 1,
            is_power_of_two(witness.len() as nat),
        ensures
            r is Ok <==> witness_included(*table, witness@),
            r is Err ==> r matches Err(ProtocolError::NotInclusion),
            r matches Ok(v) ==> {
                &&& v.len() == table.num_vars
                &&& forall|b: int| 0 <= b < v.len() ==> (#[trigger] v@[b]).wf()
                &&& forall|b: int|
                    0 <= b < v.len() ==> (#[trigger] v@[b]).num_vars == lg(witness.len() as nat)
                &&& forall|b: int|
                    0 <= b < v.len() ==> (#[trigger] v@[b]).evals.len() == witness.len()
                &&& forall|b: int, j: int|
                    0 <= b < v.len() && 0 <= j < witness.len()
                        ==> (#[trigger] v@[b].evals@[j]).as_int() == bits_le(
                        last_index(table.table@, witness@[j].as_int()),
                        table.num_vars as nat,
                    )[b]
            },
    {
        let indices = match table.find_indices(witness) {
            Ok(v) => v,
            Err(_) => {
                return Err(ProtocolError::NotInclusion);
            },
        };
        let columns = transpose(indices);
        let m = log2_exact(witness.len());
        let mut sigma: Vec<MultilinearPolynomial> = Vec::new();
        let mut b: usize = 0;
        while b < columns.len()
            invariant
                b <= columns.len(),
                table.wf(),
                fp_seq_wf(witness@),
                columns.len() == table.num_vars,
                pow2(m as nat) == witness.len(),
                m == lg(witness.len() as nat),
                forall|t: int| 0 <= t < columns.len() ==> (#[trigger] columns@[t]).len()
                    == witness.len(),
                forall|t: int| 0 <= t < columns.len() ==> fp_seq_wf((#[trigger] columns@[t])@),
                forall|t: int, j: int|
                    0 <= t < columns.len() && 0 <= j < witness.len()
                        ==> (#[trigger] columns@[t]@[j]).as_int() == bits_le(
                        last_index(table.table@, witness@[j].as_int()),
                        table.num_vars as nat,
                    )[t],
                sigma.len() == b,
                forall|t: int| 0 <= t < b ==> (#[trigger] sigma@[t]).wf(),
                forall|t: int| 0 <= t < b ==> (#[trigger] sigma@[t]).num_vars == m,
                forall|t: int|
                    0 <= t < b ==> (#[trigger] sigma@[t]).evals@ == columns@[t]@,
            decreases columns.len() - b,
        {
            let poly = MultilinearPolynomial::eval_to_coeff(&columns[b], m);
            sigma.push(poly);
            b = b + 1;
        }
        Ok(sigma)
    }

    /// The lookup combine function: binds the witness value to the table
    /// entry at the bit-indexed row and enforces Boolean sigma columns,
    /// masked to the query point.
    pub fn h_function(table_poly: &MultilinearPolynomial, gamma: Fp) -> (r: CombineFunction)
        requires
            table_poly.wf(),
            gamma.wf(),
            table_poly.coeffs.len() == pow2(table_poly.num_vars as nat),
        ensures
            r matches CombineFunction::Lookup { table_coeffs, table_dim, gamma: g } ==> {
                &&& table_coeffs@ == table_poly.coeffs@
                &&& table_dim == table_poly.num_vars
                &&& g == gamma
            },
            r.wf(),
            r is Lookup,
    {
        CombineFunction::Lookup {
            table_coeffs: crate::field::copy_fp_vec(&table_poly.coeffs),
            table_dim: table_poly.num_vars(),
            gamma,
        }
    }

    /// Produces a lookup proof on the transcript: commitments to the
    /// witness and sigma polynomials, the sum-check messages, and the batch
    /// opening. Succeeds exactly when every witness element appears in the
    /// table and the witness fits the commitment parameter. A
    /// single-element witness is proved as the equivalent two-element
    /// instance, so its proof verifies at one witness variable; the
    /// sum-check itself needs at least one variable to run a round.
    pub fn prove(
        pp: &PlainPcsProverParam,
        transcript: &mut Transcript,
        table: &Table,
        witness: &Vec<Fp>,
    ) -> (r: Result<(), ProtocolError>)
        requires
            table.wf(),
            fp_seq_wf(witness@),
            witness.len() >= 1,
            table.num_vars >= 1,
            is_power_of_two(witness.len() as nat),
        ensures
            r is Ok <==> witness_included(*table, witness@) && effective_num_vars(
                witness.len() as nat,
            ) <= pp.max_num_vars,
            !witness_included(*table, witness@) ==> r matches Err(
                ProtocolError::NotInclusion,
            ),
            witness_included(*table, witness@) && effective_num_vars(witness.len() as nat)
                > pp.max_num_vars ==> r matches Err(ProtocolError::InvalidPcsParam(_)),
            r is Err ==> *final(transcript) == *old(transcript),
            r is Ok ==> ({
                let o2 = lookup_prove_outcome(
                    *table,
                    padded_witness(witness@),
                    old(transcript).stream@,
                    old(transcript).state@,
                );
                &&& final(transcript).stream@ == o2.stream
                &&& final(transcript).state@ == o2.state
                &&& final(transcript).pos == old(transcript).pos
            }),
    {
        if witness.len() == 1 {
            let mut padded: Vec<Fp> = Vec::new();
            padded.push(witness[0]);
            padded.push(witness[0]);
            proof {
                assert(padded@ =~= padded_witness(witness@));
                assert(is_power_of_two(2nat));
                assert(lg(2nat) == 1 + lg(1nat));
                if witness_included(*table, witness@) {
                    assert forall|j: int| 0 <= j < padded@.len() implies in_table(
                        table.table@,
                        #[trigger] padded@[j].as_int(),
                    ) by {
                        assert(padded@[j] == witness@[0]);
                        assert(in_table(table.table@, witness@[0].as_int()));
                    }
                }
                if witness_included(*table, padded@) {
                    assert(in_table(table.table@, padded@[0].as_int()));
                    assert(padded@[0] == witness@[0]);
                }
            }
            return Self::prove_inner(pp, transcript, table, &padded);
        }
        proof {
            assert(padded_witness(witness@) == witness@);
        }
        Self::prove_inner(pp, transcript, table, witness)
    }

    /// The prover on an instance of at least one witness variable.
    fn prove_inner(
        pp: &PlainPcsProverParam,
        transcript: &mut Transcript,
        table: &Table,
        witness: &Vec<Fp>,
    ) -> (r: Result<(), ProtocolError>)
        requires
            table.wf(),
            fp_seq_wf(witness@),
            witness.len() >= 2,
            table.num_vars >= 1,
            is_power_of_two(witness.len() as nat),
        ensures
            r is Ok <==> witness_included(*table, witness@) && lg(witness.len() as nat)
                <= pp.max_num_vars,
            !witness_included(*table, witness@) ==> r matches Err(
                ProtocolError::NotInclusion,
            ),
            witness_included(*table, witness@) && lg(witness.len() as nat)
                > pp.max_num_vars ==> r matches Err(ProtocolError::InvalidPcsParam(_)),
            r is Err ==> *final(transcript) == *old(transcript),
            r is Ok ==> ({
                let o2 = lookup_prove_outcome(
                    *table,
                    witness@,
                    old(transcript).stream@,
                    old(transcript).state@,
                );
                &&& final(transcript).stream@ == o2.stream
                &&& final(transcript).state@ == o2.state
                &&& final(transcript).pos == old(transcript).pos
            }),
    {
        let ghost stream0 = old(transcript).stream@;
        let ghost st0 = old(transcript).state@;
        let ghost w_row = residues(witness@);
        let num_vars = log2_exact(witness.len());
        let witness_poly = MultilinearPolynomial::new(
            crate::field::copy_fp_vec(witness),
            Vec::new(),
            num_vars,
        );
        let table_poly = table.polynomial();
        let n = table.num_vars();
        let ghost srows = sigma_rows(*table, witness@);
        proof {
            crate::poly::multilinear::lemma_mobius_steps_len(
                residues(table.table@),
                n as nat,
            );
            assert(table_poly.coeffs.len() == pow2(n as nat));
            crate::utils::lemma_pow2_word_bound(n as nat);
            assert(witness_poly.e() =~= w_row);
        }
        let max_degree = if n > 2 {
            n + 1
        } else {
            3
        };

        // The sigma columns; rejects a witness that is not included.
        let sigma_polys = match Self::sigma_polys(table, witness) {
            Ok(v) => v,
            Err(_) => {
                return Err(ProtocolError::NotInclusion);
            },
        };

        // Commit to the witness polynomial and the sigma columns.
        let witness_comm = match PlainPcs::commit_and_write(pp, &witness_poly, transcript) {
            Ok(c) => c,
            Err(e) => {
                return Err(e);
            },
        };
        let sigma_comms = match PlainPcs::batch_commit_and_write(pp, &sigma_polys, transcript) {
            Ok(v) => v,
            Err(e) => {
                // The sigma columns share the witness polynomial's variable
                // count, so this cannot fail once the witness commitment
                // succeeded.
                proof {
                    assert(false);
                }
                return Err(e);
            },
        };
        proof {
            let committed_rows = Seq::new(sigma_polys.len() as nat, |i: int| sigma_polys@[i].e());
            assert forall|b: int| 0 <= b < sigma_polys.len() implies #[trigger] committed_rows[b]
                == srows[b] by {
                assert(sigma_polys@[b].e() =~= srows[b]);
            }
            assert(committed_rows =~= srows);
            assert(transcript.stream@ == stream0 + ser_elems(w_row) + ser_rows(
                srows,
                n as nat,
            ));
            assert(transcript.state@ == absorb_rows(absorb_elems(st0, w_row), srows, n as nat));
        }
        let ghost s2 = stream0 + ser_elems(w_row) + ser_rows(srows, n as nat);
        let ghost st2 = absorb_rows(absorb_elems(st0, w_row), srows, n as nat);

        // Draw the Boolean-weighting and query challenges.
        let gamma = transcript.squeeze_challenge();
        let ys = transcript.squeeze_challenges(num_vars);
        let eq = MultilinearPolynomial::eq_xy(&ys);
        proof {
            crate::poly::laws::lemma_eq_tensor_len(residues(ys@));
            assert(gamma.as_int() == squeeze_val(st2));
            assert(residues(ys@) == squeeze_n_vals(squeeze_state(st2), num_vars as nat));
            assert(transcript.state@ == squeeze_n_state(squeeze_state(st2), num_vars as nat));
        }
        let combine = Self::h_function(&table_poly, gamma);
        proof {
            assert(combine@ == CombineSpec::Lookup {
                table_coeffs: mobius_steps(residues(table.table@), n as nat),
                table_dim: n as nat,
                gamma: squeeze_val(st2),
            }) by {
                assert(residues(table_poly.coeffs@) == mobius_steps(
                    residues(table.table@),
                    n as nat,
                ));
                match combine {
                    CombineFunction::Lookup { table_coeffs, table_dim, gamma: g } => {
                        assert(residues(table_coeffs@) =~= residues(table_poly.coeffs@));
                    },
                    _ => {},
                }
            }
        }

        // Run the lookup sum-check with claimed sum zero.
        let mut virtual_polys: Vec<&MultilinearPolynomial> = Vec::new();
        virtual_polys.push(&witness_poly);
        let mut s: usize = 0;
        while s < sigma_polys.len()
            invariant
                s <= sigma_polys.len(),
                witness_poly.wf(),
                !witness_poly.spec_is_empty(),
                witness_poly.num_vars == num_vars,
                num_vars >= 1,
                witness_poly.evals.len() == pow2(num_vars as nat),
                forall|t: int|
                    0 <= t < sigma_polys.len() ==> (#[trigger] sigma_polys@[t]).wf()
                        && sigma_polys@[t].num_vars == num_vars && sigma_polys@[t].evals.len()
                        == pow2(num_vars as nat),
                virtual_polys.len() == s + 1,
                virtual_polys@[0] == &witness_poly,
                forall|t: int|
                    1 <= t < virtual_polys.len() ==> #[trigger] virtual_polys@[t]
                        == &sigma_polys@[t - 1],
                forall|t: int|
                    0 <= t < virtual_polys.len() ==> (#[trigger] virtual_polys@[t]).wf()
                        && !virtual_polys@[t].spec_is_empty() && virtual_polys@[t].num_vars
                        == num_vars && virtual_polys@[t].evals.len() == pow2(num_vars as nat),
            decreases sigma_polys.len() - s,
        {
            virtual_polys.push(&sigma_polys[s]);
            s = s + 1;
        }
        virtual_polys.push(&eq);
        proof {
            assert(pow2(num_vars as nat) == 2 * pow2((num_vars - 1) as nat)) by {
                vstd::arithmetic::power2::lemma_pow2_unfold(num_vars as nat);
            }
        }
        let virtual_poly = VirtualPolynomial::new(num_vars, virtual_polys);
        let ghost ys_spec = squeeze_n_vals(squeeze_state(st2), num_vars as nat);
        proof {
            assert forall|i: int| 0 <= i < virtual_polys.len() implies #[trigger] virtual_poly.tables()[
                i
            ] == lookup_tables(*table, witness@, ys_spec)[i] by {
                assert(virtual_poly.tables()[i] == virtual_polys@[i].e());
                if i == 0 {
                    assert(virtual_polys@[0] == &witness_poly);
                } else if i <= sigma_polys.len() {
                    assert(virtual_polys@[i] == &sigma_polys@[i - 1]);
                    assert(sigma_polys@[i - 1].e() =~= srows[i - 1]);
                } else {
                    assert(virtual_polys@[i] == &eq);
                    assert(eq.e() == eq_tensor(residues(ys@)));
                }
            }
            assert(virtual_poly.tables() =~= lookup_tables(*table, witness@, ys_spec));
        }
        let ghost o = sumcheck_prove_spec(
            combine@,
            max_degree as nat,
            num_vars as nat,
            lookup_tables(*table, witness@, ys_spec),
            s2,
            squeeze_n_state(squeeze_state(st2), num_vars as nat),
        );
        let spp = ClassicSumcheckProverParam::new(num_vars, max_degree);
        let (x, point_evals) = match ClassicSumcheck::prove(
            &spp,
            &combine,
            Fp::zero(),
            virtual_poly,
            transcript,
        ) {
            Ok(pair) => pair,
            Err(e) => {
                // The sum-check prover never fails.
                proof {
                    assert(false);
                }
                return Err(e);
            },
        };
        proof {
            assert(transcript.stream@ == o.stream);
            assert(transcript.state@ == o.state);
            assert(residues(x@) == o.challenges);
            assert(residues(point_evals@) == o.evals);
        }

        // Open the committed polynomials at the drawn point.
        let mut polys_refs: Vec<&MultilinearPolynomial> = Vec::new();
        polys_refs.push(&witness_poly);
        let mut comms: Vec<&PlainCommitment> = Vec::new();
        comms.push(&witness_comm);
        let mut claims: Vec<Evaluation> = Vec::new();
        claims.push(Evaluation::new(0, 0, point_evals[0]));
        let mut j: usize = 0;
        while j < sigma_polys.len()
            invariant
                j <= sigma_polys.len(),
                witness_poly.wf(),
                !witness_poly.spec_is_empty(),
                witness_poly.num_vars == num_vars,
                num_vars >= 1,
                point_evals.len() == sigma_polys.len() + 2,
                fp_seq_wf(point_evals@),
                sigma_comms.len() == sigma_polys.len(),
                forall|t: int|
                    0 <= t < sigma_polys.len() ==> (#[trigger] sigma_polys@[t]).wf()
                        && sigma_polys@[t].num_vars == num_vars && !sigma_polys@[
                        t
                    ].spec_is_empty(),
                polys_refs.len() == j + 1,
                comms.len() == j + 1,
                claims.len() == j + 1,
                polys_refs@[0] == &witness_poly,
                forall|t: int|
                    1 <= t < polys_refs.len() ==> #[trigger] polys_refs@[t] == &sigma_polys@[
                        t - 1
                    ],
                forall|t: int|
                    0 <= t < polys_refs.len() ==> (#[trigger] polys_refs@[t]).wf()
                        && !polys_refs@[t].spec_is_empty() && polys_refs@[t].num_vars
                        == num_vars,
                forall|t: int|
                    0 <= t < claims.len() ==> (#[trigger] claims@[t]).poly == t && claims@[
                        t
                    ].point == 0 && claims@[t].value == point_evals@[t],
                forall|t: int|
                    0 <= t < claims.len() ==> (#[trigger] claims@[t]).value.wf(),
            decreases sigma_polys.len() - j,
        {
            polys_refs.push(&sigma_polys[j]);
            comms.push(&sigma_comms[j]);
            claims.push(Evaluation::new(j + 1, 0, point_evals[j + 1]));
            j = j + 1;
        }
        let mut points: Vec<Vec<Fp>> = Vec::new();
        points.push(x);
        proof {
            crate::utils::lemma_pow2_word_bound(num_vars as nat);
        }
        let result = batch_open(pp, num_vars, polys_refs, comms, &points, &claims, transcript);
        proof {
            let nn = table.num_vars as int;
            let poly_rows_s = Seq::new(
                (nn + 1) as nat,
                |i: int|
                    if i == 0 {
                        w_row
                    } else {
                        srows[i - 1]
                    },
            );
            let claims_s = Seq::new((nn + 1) as nat, |i: int| (i, 0int, o.evals[i]));
            let opened_rows = Seq::new(polys_refs.len() as nat, |t: int| (*polys_refs@[t]).e());
            assert forall|i: int| 0 <= i < polys_refs.len() implies #[trigger] opened_rows[i]
                == poly_rows_s[i] by {
                if i == 0 {
                    assert(polys_refs@[0] == &witness_poly);
                } else {
                    assert(polys_refs@[i] == &sigma_polys@[i - 1]);
                    assert(sigma_polys@[i - 1].e() =~= srows[i - 1]);
                }
            }
            assert(opened_rows =~= poly_rows_s);
            assert(Seq::new(points.len() as nat, |i: int| residues(points@[i]@))
                =~= seq![o.challenges]);
            assert(Seq::new(
                claims.len() as nat,
                |i: int| (claims@[i].poly as int, claims@[i].point as int, claims@[
                    i
                ].value.as_int()),
            ) =~= claims_s);
            assert(lg(witness@.len()) == num_vars as nat);
        }
        result
    }
}

} // verus!
