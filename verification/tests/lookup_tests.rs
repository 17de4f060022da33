//! End-to-end tests of the lookup argument.

use clookup::field::Fp;
use clookup::poly::multilinear::MultilinearPolynomial;
use clookup::sumcheck::classic::{ClassicSumcheck, ClassicSumcheckProverParam};
use clookup::sumcheck::{CombineFunction, VirtualPolynomial};
use clookup::pcs::{batch_open, Evaluation};
use clookup::lookup::precomputation::Table;
use clookup::lookup::prover::Prover;
use clookup::lookup::verification::Verifier;
use clookup::pcs::PlainPcs;
use clookup::transcript::Transcript;
use clookup::utils::ProtocolError;

fn fe(v: u64) -> Fp {
    Fp::from_u64(v)
}

fn fe_vec(vals: &[u64]) -> Vec<Fp> {
    vals.iter().map(|v| fe(*v)).collect()
}

/// Runs the prover on a table and witness and returns the proof bytes.
fn prove_bytes(table: &Table, witness: &Vec<Fp>) -> Result<Vec<u8>, ProtocolError> {
    let param = Prover::setup(table, witness)?;
    let (pp, _vp) = PlainPcs::trim(&param, witness.len(), 1)?;
    let mut transcript = Transcript::new();
    Prover::prove(&pp, &mut transcript, table, witness)?;
    Ok(transcript.into_proof())
}

/// Runs the verifier on proof bytes for the given table and witness shape.
fn verify_bytes(
    table: &Table,
    witness_len: usize,
    proof: Vec<u8>,
) -> Result<(), ProtocolError> {
    let witness_dummy: Vec<Fp> = vec![fe(0); witness_len];
    let param = Prover::setup(table, &witness_dummy).unwrap();
    let (_pp, vp) = PlainPcs::trim(&param, witness_len, 1).unwrap();
    let n = table.num_vars();
    let m = witness_len.trailing_zeros() as usize;
    let max_degree = 1 + if n > 2 { n } else { 2 };
    let table_poly = table.polynomial();
    let mut transcript = Transcript::from_proof(proof);
    Verifier::verify(&vp, &mut transcript, &table_poly, n + 2, n, m, max_degree)
}

#[test]
fn test_find_indices() {
    let table_vec = fe_vec(&[11, 5, 3, 17, 2, 13, 7, 19]);
    let table = Table::try_from(table_vec).unwrap();
    let witness = fe_vec(&[2, 3, 5, 7]);
    let indices = table.find_indices(&witness).unwrap();

    let res = vec![
        vec![fe(0), fe(0), fe(1)],
        vec![fe(0), fe(1), fe(0)],
        vec![fe(1), fe(0), fe(0)],
        vec![fe(0), fe(1), fe(1)],
    ];
    assert_eq!(indices, res);
}

#[test]
fn test_clookup() {
    let table_dim = 8;
    let witness_dim = 4;
    let table_vec: Vec<Fp> = (0..1u64 << table_dim).map(fe).collect();
    let witness_vec: Vec<Fp> = (0..1u64 << witness_dim).map(fe).collect();
    let table = Table::try_from(table_vec).unwrap();

    let proof = prove_bytes(&table, &witness_vec).unwrap();
    verify_bytes(&table, witness_vec.len(), proof).unwrap();
}

#[test]
fn test_small_table_lookup() {
    // The smallest allowed table; the witness repeats one element, which
    // must still verify.
    let table = Table::try_from(fe_vec(&[5, 9])).unwrap();
    let witness = fe_vec(&[9, 9]);
    let proof = prove_bytes(&table, &witness).unwrap();
    verify_bytes(&table, witness.len(), proof).unwrap();
}

#[test]
fn test_single_element_witness() {
    // The smallest allowed instance: a two-entry table and one witness
    // element. The prover pads the witness to the equivalent two-element
    // instance, and the proof verifies whether the caller asks for zero or
    // one witness variables.
    let table = Table::try_from(fe_vec(&[5, 9])).unwrap();
    let witness = fe_vec(&[9]);
    let proof = prove_bytes(&table, &witness).unwrap();
    // witness_len 1 gives witness_num_vars 0 in the helper.
    verify_bytes(&table, 1, proof.clone()).unwrap();

    let param = Prover::setup(&table, &witness).unwrap();
    let (_pp, vp) = PlainPcs::trim(&param, 1, 1).unwrap();
    let table_poly = table.polynomial();
    let mut transcript = Transcript::from_proof(proof);
    Verifier::verify(&vp, &mut transcript, &table_poly, 3, 1, 1, 3).unwrap();

    let absent = fe_vec(&[7]);
    let err = prove_bytes(&table, &absent).unwrap_err();
    assert!(matches!(err, ProtocolError::NotInclusion));
}

#[test]
fn test_full_lookup() {
    // The witness is the whole table.
    let table_vec = fe_vec(&[11, 5, 3, 17, 2, 13, 7, 19]);
    let table = Table::try_from(table_vec.clone()).unwrap();
    let proof = prove_bytes(&table, &table_vec).unwrap();
    verify_bytes(&table, table_vec.len(), proof).unwrap();
}

#[test]
fn test_witness_with_repeats() {
    let table_vec = fe_vec(&[11, 5, 3, 17, 2, 13, 7, 19]);
    let table = Table::try_from(table_vec).unwrap();
    let witness = fe_vec(&[3, 3, 13, 13]);
    let proof = prove_bytes(&table, &witness).unwrap();
    verify_bytes(&table, witness.len(), proof).unwrap();
}

#[test]
fn test_prove_accepts_seed_table() {
    let table_vec = fe_vec(&[11, 5, 3, 17, 2, 13, 7, 19]);
    let table = Table::try_from(table_vec).unwrap();
    let witness = fe_vec(&[2, 3, 5, 7]);
    let proof = prove_bytes(&table, &witness).unwrap();
    verify_bytes(&table, witness.len(), proof).unwrap();
}

#[test]
fn test_not_inclusion() {
    let table_vec = fe_vec(&[11, 5, 3, 17, 2, 13, 7, 19]);
    let table = Table::try_from(table_vec).unwrap();
    let witness = fe_vec(&[2, 3, 5, 9]);
    let err = prove_bytes(&table, &witness).unwrap_err();
    assert!(matches!(err, ProtocolError::NotInclusion));
}

#[test]
fn test_find_indices_not_inclusion_iff() {
    let table_vec = fe_vec(&[11, 5, 3, 17, 2, 13, 7, 19]);
    let table = Table::try_from(table_vec).unwrap();
    let present = fe_vec(&[19, 11]);
    assert!(table.find_indices(&present).is_ok());
    let absent = fe_vec(&[19, 4]);
    let err = table.find_indices(&absent).unwrap_err();
    assert!(matches!(err, ProtocolError::NotInclusion));
}

#[test]
fn test_table_rejects_bad_length() {
    let err = Table::try_from(fe_vec(&[1, 2, 3])).unwrap_err();
    assert!(matches!(err, ProtocolError::SizeError));
    let err = Table::try_from(Vec::new()).unwrap_err();
    assert!(matches!(err, ProtocolError::SizeError));
}

#[test]
fn test_duplicate_table_entries_last_wins() {
    // The index map keeps the last occurrence of a duplicated entry.
    let table = Table::try_from(fe_vec(&[7, 7, 3, 4])).unwrap();
    let indices = table.find_indices(&fe_vec(&[7])).unwrap();
    assert_eq!(indices, vec![vec![fe(1), fe(0)]]);
}

#[test]
fn test_corrupt_proof_rejected() {
    let table_dim = 8;
    let witness_dim = 4;
    let table_vec: Vec<Fp> = (0..1u64 << table_dim).map(fe).collect();
    let witness_vec: Vec<Fp> = (0..1u64 << witness_dim).map(fe).collect();
    let table = Table::try_from(table_vec).unwrap();
    let proof = prove_bytes(&table, &witness_vec).unwrap();

    let positions = [
        0,
        7,
        proof.len() / 3,
        proof.len() / 2,
        2 * proof.len() / 3,
        proof.len() - 1,
    ];
    for &pos in positions.iter() {
        let mut corrupted = proof.clone();
        corrupted[pos] ^= 0x01;
        let res = verify_bytes(&table, witness_vec.len(), corrupted);
        assert!(res.is_err(), "corruption at byte {} was accepted", pos);
        let err = res.unwrap_err();
        assert!(matches!(
            err,
            ProtocolError::InvalidSumcheck(_)
                | ProtocolError::InvalidPcsParam(_)
                | ProtocolError::Transcript
        ));
    }
}

#[test]
fn test_truncated_proof_rejected() {
    let table = Table::try_from(fe_vec(&[5, 9])).unwrap();
    let witness = fe_vec(&[9, 5]);
    let proof = prove_bytes(&table, &witness).unwrap();
    let short: Vec<u8> = proof[0..proof.len() - 9].to_vec();
    let err = verify_bytes(&table, witness.len(), short).unwrap_err();
    assert!(matches!(
        err,
        ProtocolError::Transcript | ProtocolError::InvalidSumcheck(_) | ProtocolError::InvalidPcsParam(_)
    ));
}

#[test]
fn test_large_random_table_indices() {
    // A large random table: every witness element drawn from the table is
    // found, and an element outside is rejected.
    let mut state: u64 = 0x243F6A8885A308D3;
    let mut table_vec: Vec<Fp> = Vec::new();
    for _ in 0..(1usize << 16) {
        state = state
            .wrapping_mul(6364136223846793005)
            .wrapping_add(1442695040888963407);
        table_vec.push(fe(state >> 33));
    }
    let witness: Vec<Fp> = table_vec[0..(1 << 8)].to_vec();
    let table = Table::try_from(table_vec).unwrap();
    let indices = table.find_indices(&witness).unwrap();
    assert_eq!(indices.len(), witness.len());
    for bits in indices.iter() {
        assert_eq!(bits.len(), 16);
        for b in bits.iter() {
            assert!(*b == fe(0) || *b == fe(1));
        }
    }
}

#[test]
fn test_cheating_prover_rejected() {
    // A witness element outside the table, with a fabricated non-Boolean
    // sigma column that still hits the witness value: the gamma-weighted
    // Boolean check makes the sum-check claim false, so the verifier
    // rejects.
    let table = Table::try_from(fe_vec(&[5, 9])).unwrap();
    // 7 is not in the table, but T(sigma) = 5 + 4 sigma equals 7 at
    // sigma = 2/4.
    let witness = fe_vec(&[7, 7]);
    let sigma_val = fe(2).fmul(fe(4).finv());
    let table_poly = table.polynomial();

    let param = Prover::setup(&table, &witness).unwrap();
    let (pp, _vp) = PlainPcs::trim(&param, witness.len(), 1).unwrap();
    let mut transcript = Transcript::new();

    let witness_poly = MultilinearPolynomial::new(witness.clone(), Vec::new(), 1);
    let sigma_poly = MultilinearPolynomial::new(vec![sigma_val, sigma_val], Vec::new(), 1);
    let witness_comm = PlainPcs::commit_and_write(&pp, &witness_poly, &mut transcript).unwrap();
    let sigma_polys = vec![sigma_poly];
    let sigma_comms =
        PlainPcs::batch_commit_and_write(&pp, &sigma_polys, &mut transcript).unwrap();

    let gamma = transcript.squeeze_challenge();
    let ys = transcript.squeeze_challenges(1);
    let eq = MultilinearPolynomial::eq_xy(&ys);
    let combine = CombineFunction::Lookup {
        table_coeffs: table_poly.coeffs.clone(),
        table_dim: 1,
        gamma,
    };
    let virtual_poly = VirtualPolynomial::new(
        1,
        vec![&witness_poly, &sigma_polys[0], &eq],
    );
    let spp = ClassicSumcheckProverParam::new(1, 3);
    let (x, point_evals) =
        ClassicSumcheck::prove(&spp, &combine, Fp::zero(), virtual_poly, &mut transcript)
            .unwrap();
    let claims = vec![
        Evaluation::new(0, 0, point_evals[0]),
        Evaluation::new(1, 0, point_evals[1]),
    ];
    let points = vec![x];
    batch_open(
        &pp,
        1,
        vec![&witness_poly, &sigma_polys[0]],
        vec![&witness_comm, &sigma_comms[0]],
        &points,
        &claims,
        &mut transcript,
    )
    .unwrap();
    let proof = transcript.into_proof();

    let res = verify_bytes(&table, witness.len(), proof);
    assert!(res.is_err());
}
