//! Tests of the polynomial engine, the transcript and the sum-check
//! backends.

use clookup::field::{Fp, P};
use clookup::poly::multilinear::MultilinearPolynomial;
use clookup::sumcheck::classic::{
    ClassicSumcheck, ClassicSumcheckProverParam, ClassicSumcheckVerifierParam,
};
use clookup::sumcheck::parallel::ParallelSumcheck;
use clookup::sumcheck::{CombineFunction, EvalTable, VirtualPolynomial};
use clookup::transcript::Transcript;
use clookup::utils::ProtocolError;

fn fe(v: u64) -> Fp {
    Fp::from_u64(v)
}

struct Lcg {
    state: u64,
}

impl Lcg {
    fn new(seed: u64) -> Self {
        Lcg { state: seed }
    }

    fn next_fe(&mut self) -> Fp {
        self.state = self
            .state
            .wrapping_mul(6364136223846793005)
            .wrapping_add(1442695040888963407);
        fe(self.state >> 33)
    }
}

#[test]
fn test_conversion() {
    let poly = vec![fe(1), fe(3), fe(5), fe(7)];
    let res = vec![fe(1), fe(2), fe(4), fe(0)];
    assert_eq!(MultilinearPolynomial::eval_to_coeff(&poly, 2).coeffs, res);
}

#[test]
fn test_conversion_round_trip() {
    // Evaluating the coefficient form agrees with evaluating the
    // evaluation form, on and off the Boolean hypercube.
    let mut rng = Lcg::new(7);
    let evals: Vec<Fp> = (0..8).map(|_| rng.next_fe()).collect();
    let poly = MultilinearPolynomial::eval_to_coeff(&evals, 3);
    let point: Vec<Fp> = (0..3).map(|_| rng.next_fe()).collect();
    assert_eq!(poly.evaluate(&point), poly.eval_by_coeff(&point));
}

#[test]
fn test_evaluate_boolean_selects_entry() {
    let mut rng = Lcg::new(11);
    let evals: Vec<Fp> = (0..8).map(|_| rng.next_fe()).collect();
    let poly = MultilinearPolynomial::new(evals.clone(), Vec::new(), 3);
    for idx in 0..8usize {
        let point: Vec<Fp> = (0..3).map(|b| fe(((idx >> b) & 1) as u64)).collect();
        assert_eq!(poly.evaluate(&point), evals[idx]);
    }
}

#[test]
fn test_eq_xy_formula() {
    // eq_xy(y) evaluated at x equals the product formula.
    let mut rng = Lcg::new(13);
    let y: Vec<Fp> = (0..4).map(|_| rng.next_fe()).collect();
    let x: Vec<Fp> = (0..4).map(|_| rng.next_fe()).collect();
    let eq = MultilinearPolynomial::eq_xy(&y);
    let lhs = eq.evaluate(&x);
    let one = Fp::one();
    let mut rhs = one;
    for i in 0..4 {
        let term = x[i].fmul(y[i]).fadd(one.fsub(x[i]).fmul(one.fsub(y[i])));
        rhs = term.fmul(rhs);
    }
    assert_eq!(lhs, rhs);
}

#[test]
fn test_fold_into_half() {
    let num_vars = 16;
    let mut rng = Lcg::new(17);
    let evals: Vec<Fp> = (0..1usize << num_vars).map(|_| rng.next_fe()).collect();
    let poly = MultilinearPolynomial::new(evals, Vec::new(), num_vars);

    let mut eval_table = EvalTable::new(num_vars, &poly);
    let before: Vec<(Fp, Fp)> = eval_table
        .table
        .iter()
        .map(|pair| (pair.even, pair.odd))
        .collect();
    let size_before = eval_table.size();

    let alpha = rng.next_fe();
    eval_table.fold_into_half(alpha);
    let size_after = eval_table.size();
    assert_eq!(2 * size_after, size_before);

    let one = Fp::one();
    for i in 0..eval_table.size() {
        let (e0, o0) = before[i];
        let expected_even = one.fsub(alpha).fmul(e0).fadd(alpha.fmul(o0));
        let (e1, o1) = before[size_after + i];
        let expected_odd = one.fsub(alpha).fmul(e1).fadd(alpha.fmul(o1));
        assert_eq!(eval_table.table[i].even, expected_even);
        assert_eq!(eval_table.table[i].odd, expected_odd);
    }
}

#[test]
fn test_fold_matches_evaluate() {
    // Folding with the challenges and taking the residual equals evaluating
    // at the reversed challenge vector.
    let num_vars = 4;
    let mut rng = Lcg::new(19);
    let evals: Vec<Fp> = (0..1usize << num_vars).map(|_| rng.next_fe()).collect();
    let poly = MultilinearPolynomial::new(evals, Vec::new(), num_vars);
    let challenges: Vec<Fp> = (0..num_vars).map(|_| rng.next_fe()).collect();

    let mut eval_table = EvalTable::new(num_vars, &poly);
    for c in challenges[0..num_vars - 1].iter() {
        eval_table.fold_into_half(*c);
    }
    let residual = eval_table.residual(challenges[num_vars - 1]);

    let mut reversed = challenges.clone();
    reversed.reverse();
    assert_eq!(residual, poly.evaluate(&reversed));
}

fn sumcheck_inputs(num_vars: usize) -> (Vec<MultilinearPolynomial>, Fp) {
    let mut rng = Lcg::new(23);
    let evals: Vec<Fp> = (0..1usize << num_vars).map(|_| rng.next_fe()).collect();
    let poly = MultilinearPolynomial::new(evals.clone(), Vec::new(), num_vars);
    let polys = vec![poly.clone(), poly.clone(), poly];
    let mut claimed = Fp::zero();
    for idx in 0..evals.len() {
        claimed = claimed.fadd(evals[idx].fmul(evals[idx]).fmul(evals[idx]));
    }
    (polys, claimed)
}

#[test]
fn test_sumcheck() {
    let num_vars = 3;
    let max_degree = 3;
    let (polys, claimed_sum) = sumcheck_inputs(num_vars);
    let combine_function = CombineFunction::Product;

    let pp = ClassicSumcheckProverParam::new(num_vars, max_degree);
    let mut transcript = Transcript::new();
    let virtual_poly =
        VirtualPolynomial::new(num_vars, vec![&polys[0], &polys[1], &polys[2]]);
    ClassicSumcheck::prove(
        &pp,
        &combine_function,
        claimed_sum,
        virtual_poly,
        &mut transcript,
    )
    .unwrap();
    let proof = transcript.into_proof();
    let vp = ClassicSumcheckVerifierParam::new(num_vars, max_degree);
    let mut transcript = Transcript::from_proof(proof);
    ClassicSumcheck::verify(&vp, max_degree, claimed_sum, polys.len(), &mut transcript)
        .unwrap();
}

#[test]
fn test_sumcheck_wrong_sum_rejected() {
    let num_vars = 3;
    let max_degree = 3;
    let (polys, claimed_sum) = sumcheck_inputs(num_vars);
    let combine_function = CombineFunction::Product;

    let pp = ClassicSumcheckProverParam::new(num_vars, max_degree);
    let mut transcript = Transcript::new();
    let virtual_poly =
        VirtualPolynomial::new(num_vars, vec![&polys[0], &polys[1], &polys[2]]);
    ClassicSumcheck::prove(
        &pp,
        &combine_function,
        claimed_sum,
        virtual_poly,
        &mut transcript,
    )
    .unwrap();
    let proof = transcript.into_proof();
    let vp = ClassicSumcheckVerifierParam::new(num_vars, max_degree);
    let mut transcript = Transcript::from_proof(proof);
    let wrong_sum = claimed_sum.fadd(Fp::one());
    let err = ClassicSumcheck::verify(&vp, max_degree, wrong_sum, polys.len(), &mut transcript)
        .unwrap_err();
    assert!(matches!(err, ProtocolError::InvalidSumcheck(_)));
}

#[test]
fn test_backends_byte_identical() {
    // The serial and parallel backends produce the same proof bytes on the
    // same inputs, here a larger instance.
    let num_vars = 10;
    let max_degree = 3;
    let (polys, claimed_sum) = sumcheck_inputs(num_vars);
    let combine_function = CombineFunction::Product;

    let pp = ClassicSumcheckProverParam::new(num_vars, max_degree);
    let mut t1 = Transcript::new();
    let vp1 = VirtualPolynomial::new(num_vars, vec![&polys[0], &polys[1], &polys[2]]);
    let (c1, e1) =
        ClassicSumcheck::prove(&pp, &combine_function, claimed_sum, vp1, &mut t1).unwrap();
    let bytes1 = t1.into_proof();

    let ppp = ParallelSumcheck::generate_pp(num_vars, max_degree).unwrap();
    let mut t2 = Transcript::new();
    let vp2 = VirtualPolynomial::new(num_vars, vec![&polys[0], &polys[1], &polys[2]]);
    let (c2, e2) =
        ParallelSumcheck::prove(&ppp, &combine_function, claimed_sum, vp2, &mut t2).unwrap();
    let bytes2 = t2.into_proof();

    assert_eq!(bytes1, bytes2);
    assert_eq!(c1, c2);
    assert_eq!(e1, e2);
}

#[test]
fn test_transcript_round_trip() {
    let vals = vec![fe(0), fe(1), fe(12345), fe(P - 1)];
    let mut writer = Transcript::new();
    writer.write_field_elements(&vals).unwrap();
    let w_challenge = writer.squeeze_challenge();
    let proof = writer.into_proof();

    let mut reader = Transcript::from_proof(proof);
    let read = reader.read_field_elements(vals.len()).unwrap();
    let r_challenge = reader.squeeze_challenge();
    assert_eq!(read, vals);
    assert_eq!(w_challenge, r_challenge);

    let mut other = Transcript::new();
    other.write_field_elements(&vec![fe(2)]).unwrap();
    let different = other.squeeze_challenge();
    assert_ne!(w_challenge, different);
}

#[test]
fn test_field_arithmetic() {
    let a = fe(P - 1);
    let b = fe(5);
    assert_eq!(a.fadd(b), fe(4));
    assert_eq!(b.fsub(a), fe(6));
    assert_eq!(a.fmul(b), fe(P - 5));
    assert_eq!(b.fmul(b.finv()), Fp::one());
    assert_eq!(fe(0).finv(), fe(0));
}

#[test]
fn test_poly_add_sub_scale() {
    let mut a = MultilinearPolynomial::new(vec![fe(1), fe(2)], Vec::new(), 1);
    let b = MultilinearPolynomial::new(vec![fe(10), fe(20)], Vec::new(), 1);
    a.add_assign_poly(&b);
    assert_eq!(a.evals, vec![fe(11), fe(22)]);
    a.sub_assign_poly(&b);
    assert_eq!(a.evals, vec![fe(1), fe(2)]);
    a.scale(fe(3));
    assert_eq!(a.evals, vec![fe(3), fe(6)]);
    let mut zero = MultilinearPolynomial::zero();
    zero.add_scaled(fe(2), &b);
    assert_eq!(zero.evals, vec![fe(20), fe(40)]);
}
