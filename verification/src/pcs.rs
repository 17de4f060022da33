//! The polynomial commitment layer.
//!
//! A commitment binds a multilinear polynomial so that claimed evaluations
//! can be checked. The scheme here is the plain one whose commitment is the
//! evaluation vector itself: it is succinctness-free but additively
//! homomorphic, so the batch-opening reduction of many claims to one claim
//! by an inner sum-check works exactly as it would over any additive
//! scheme. The verifier checks one claim by evaluating the commitment.

use vstd::prelude::*;
use vstd::arithmetic::power2::pow2;
use crate::field::{addm, mulm, residues, reduced, fp_seq_wf, Fp};
use crate::poly::multilinear::{eval_mle, MultilinearPolynomial};
use crate::sumcheck::classic::{
    ClassicSumcheck, ClassicSumcheckProverParam, ClassicSumcheckVerifierParam,
};
use crate::sumcheck::{eq_xy_eval, CombineFunction, VirtualPolynomial};
use crate::transcript::Transcript;
use crate::utils::ProtocolError;

verus! {

/// One claimed opening: a committed polynomial (by ordinal), a challenge
/// point (by ordinal) and the claimed value there.
#[derive(Clone, Debug)]
pub struct Evaluation {
    pub poly: usize,
    pub point: usize,
    pub value: Fp,
}

impl Evaluation {
    /// Packs one claim.
    pub fn new(poly: usize, point: usize, value: Fp) -> (r: Self)
        ensures
            r.poly == poly,
            r.point == point,
            r.value == value,
    {
        Evaluation { poly, point, value }
    }

    /// The committed polynomial's ordinal.
    pub fn poly(&self) -> (r: usize)
        ensures
            r == self.poly,
    {
        self.poly
    }

    /// The challenge point's ordinal.
    pub fn point(&self) -> (r: usize)
        ensures
            r == self.point,
    {
        self.point
    }

    /// The claimed value.
    pub fn value(&self) -> (r: &Fp)
        ensures
            r == &self.value,
    {
        &self.value
    }
}

/// An additively homomorphic commitment: a multi-scalar combination of
/// commitments commits the same combination of the polynomials.
pub trait Additive: Sized {
    /// Well-formedness of one commitment.
    spec fn additive_wf(&self) -> bool;

    /// The size of one commitment.
    spec fn additive_width(&self) -> int;

    /// The linear combination of `bases` by `scalars`.
    fn msm(scalars: &Vec<Fp>, bases: &Vec<Self>) -> Self
        requires
            fp_seq_wf(scalars@),
            scalars.len() == bases.len(),
            bases.len() >= 1,
            forall|i: int| 0 <= i < bases.len() ==> (#[trigger] bases@[i]).additive_wf(),
            forall|i: int|
                0 <= i < bases.len() ==> (#[trigger] bases@[i]).additive_width() == bases@[
                    0
                ].additive_width(),
    ;
}

/// A plain commitment: the committed polynomial's evaluation vector.
#[derive(Clone, Debug)]
pub struct PlainCommitment {
    pub evals: Vec<Fp>,
}

impl PlainCommitment {
    /// Well-formedness: canonical residues.
    pub open spec fn wf(self) -> bool {
        fp_seq_wf(self.evals@)
    }

    /// The residues committed to.
    pub open spec fn e(self) -> Seq<int> {
        residues(self.evals@)
    }
}

/// The running linear combination of the first `n` rows at column `j`.
pub open spec fn lincomb_at(scalars: Seq<int>, rows: Seq<Seq<int>>, j: int, n: nat) -> int
    decreases n,
{
    if n == 0 {
        0int
    } else {
        addm(lincomb_at(scalars, rows, j, (n - 1) as nat), mulm(scalars[n - 1], rows[n - 1][j]))
    }
}

/// The columnwise linear combination of rows by scalars.
pub open spec fn lincomb(scalars: Seq<int>, rows: Seq<Seq<int>>, width: nat) -> Seq<int> {
    Seq::new(width, |j: int| lincomb_at(scalars, rows, j, scalars.len()))
}

/// The inner product of claimed values with tensor entries.
pub open spec fn inner_product_spec(a: Seq<int>, b: Seq<int>, n: nat) -> int
    decreases n,
{
    if n == 0 {
        0int
    } else {
        addm(inner_product_spec(a, b, (n - 1) as nat), mulm(a[n - 1], b[n - 1]))
    }
}

/// The inner product of two vectors of field elements.
pub fn inner_product(a: &Vec<Fp>, b: &Vec<Fp>) -> (r: Fp)
    requires
        fp_seq_wf(a@),
        fp_seq_wf(b@),
        a.len() <= b.len(),
    ensures
        r.wf(),
        r.as_int() == inner_product_spec(residues(a@), residues(b@), a.len() as nat),
{
    let mut acc = Fp::zero();
    let mut i: usize = 0;
    while i < a.len()
        invariant
            i <= a.len(),
            a.len() <= b.len(),
            fp_seq_wf(a@),
            fp_seq_wf(b@),
            acc.wf(),
            acc.as_int() == inner_product_spec(residues(a@), residues(b@), i as nat),
        decreases a.len() - i,
    {
        acc = acc.fadd(a[i].fmul(b[i]));
        i = i + 1;
    }
    acc
}

/// The columnwise linear combination of commitments: the commitment to the
/// same combination of the committed polynomials.
pub fn msm_commitments(scalars: &Vec<Fp>, bases: &Vec<PlainCommitment>) -> (r: PlainCommitment)
    requires
        fp_seq_wf(scalars@),
        scalars.len() == bases.len(),
        bases.len() >= 1,
        forall|i: int| 0 <= i < bases.len() ==> (#[trigger] bases@[i]).wf(),
        forall|i: int|
            0 <= i < bases.len() ==> (#[trigger] bases@[i]).evals.len() == bases@[0].evals.len(),
    ensures
        r.wf(),
        r.evals.len() == bases@[0].evals.len(),
        r.e() == lincomb(
            residues(scalars@),
            Seq::new(bases.len() as nat, |i: int| bases@[i].e()),
            bases@[0].evals.len() as nat,
        ),
{
    let ghost rows = Seq::new(bases.len() as nat, |i: int| bases@[i].e());
    let ghost ss = residues(scalars@);
    let width = bases[0].evals.len();
    let mut acc: Vec<Fp> = Vec::new();
    let mut j: usize = 0;
    while j < width
        invariant
            j <= width,
            acc.len() == j,
            fp_seq_wf(acc@),
            forall|t: int| 0 <= t < j ==> (#[trigger] acc@[t]).as_int() == 0,
        decreases width - j,
    {
        acc.push(Fp::zero());
        j = j + 1;
    }
    let mut i: usize = 0;
    while i < bases.len()
        invariant
            i <= bases.len(),
            scalars.len() == bases.len(),
            fp_seq_wf(scalars@),
            ss == residues(scalars@),
            rows == Seq::new(bases.len() as nat, |t: int| bases@[t].e()),
            forall|t: int| 0 <= t < bases.len() ==> (#[trigger] bases@[t]).wf(),
            forall|t: int|
                0 <= t < bases.len() ==> (#[trigger] bases@[t]).evals.len() == width,
            acc.len() == width,
            fp_seq_wf(acc@),
            forall|t: int|
                0 <= t < width ==> (#[trigger] acc@[t]).as_int() == lincomb_at(
                    ss,
                    rows,
                    t,
                    i as nat,
                ),
        decreases bases.len() - i,
    {
        let s = scalars[i];
        let base = &bases[i];
        let ghost snap = acc@;
        let mut j2: usize = 0;
        while j2 < width
            invariant
                j2 <= width,
                acc.len() == width,
                snap.len() == width,
                base.evals.len() == width,
                base.wf(),
                s.wf(),
                fp_seq_wf(snap),
                fp_seq_wf(acc@),
                forall|t: int| j2 <= t < width ==> acc@[t] == snap[t],
                forall|t: int|
                    0 <= t < j2 ==> (#[trigger] acc@[t]).as_int() == addm(
                        snap[t].as_int(),
                        mulm(s.as_int(), base.e()[t]),
                    ),
            decreases width - j2,
        {
            let x = acc[j2].fadd(s.fmul(base.evals[j2]));
            acc[j2] = x;
            proof {
                crate::field::lemma_mulm_comm(s.as_int(), base.e()[j2 as int]);
            }
            j2 = j2 + 1;
        }
        proof {
            assert forall|t: int| 0 <= t < width implies (#[trigger] acc@[t]).as_int()
                == lincomb_at(ss, rows, t, (i + 1) as nat) by {
                assert(snap[t].as_int() == lincomb_at(ss, rows, t, i as nat));
                assert(rows[i as int] == bases@[i as int].e());
            }
        }
        i = i + 1;
    }
    proof {
        assert(residues(acc@) =~= lincomb(ss, rows, width as nat));
    }
    PlainCommitment { evals: acc }
}

impl Additive for PlainCommitment {
    open spec fn additive_wf(&self) -> bool {
        self.wf()
    }

    open spec fn additive_width(&self) -> int {
        self.evals.len() as int
    }

    fn msm(scalars: &Vec<Fp>, bases: &Vec<Self>) -> Self {
        msm_commitments(scalars, bases)
    }
}

/// The scheme's parameter: the largest supported variable count.
#[derive(Clone, Debug)]
pub struct PlainPcsParam {
    pub max_num_vars: usize,
}

/// The prover's trimmed parameter.
#[derive(Clone, Debug)]
pub struct PlainPcsProverParam {
    pub max_num_vars: usize,
}

/// The verifier's trimmed parameter.
#[derive(Clone, Debug)]
pub struct PlainPcsVerifierParam {
    pub max_num_vars: usize,
}

/// The commitment-parameter error for an oversized polynomial.
pub fn err_too_many_variates(_function: &str, _upto: usize, _got: usize) -> (r: ProtocolError)
    ensures
        r matches ProtocolError::InvalidPcsParam(_),
{
    ProtocolError::InvalidPcsParam(
        "too many variates of poly for this parameter".to_string(),
    )
}

/// The shared width every point must have: the first polynomial's variable
/// count, or the first point's length when no polynomials are given.
pub open spec fn input_width(polys: Seq<MultilinearPolynomial>, points: Seq<Vec<Fp>>) -> int {
    if polys.len() > 0 {
        polys[0].num_vars as int
    } else {
        points[0].len() as int
    }
}

/// Checks that every polynomial fits the parameter and every point has one
/// shared width.
pub fn validate_input(
    _function: &str,
    param_num_vars: usize,
    polys: &Vec<&MultilinearPolynomial>,
    points: &Vec<Vec<Fp>>,
) -> (r: Result<(), ProtocolError>)
    requires
        polys.len() + points.len() >= 1,
    ensures
        r is Ok <==> {
            &&& forall|i: int|
                0 <= i < polys.len() ==> (#[trigger] polys@[i]).num_vars <= param_num_vars
            &&& forall|i: int|
                0 <= i < points.len() ==> (#[trigger] points@[i]).len() == input_width(
                    Seq::new(polys.len() as nat, |t: int| *polys@[t]),
                    points@,
                )
        },
        r is Err ==> r matches Err(ProtocolError::InvalidPcsParam(_)),
{
    let ghost poly_vals = Seq::new(polys.len() as nat, |t: int| *polys@[t]);
    let mut i: usize = 0;
    while i < polys.len()
        invariant
            i <= polys.len(),
            forall|t: int|
                0 <= t < i ==> (#[trigger] polys@[t]).num_vars <= param_num_vars,
        decreases polys.len() - i,
    {
        if param_num_vars < polys[i].num_vars() {
            return Err(err_too_many_variates("open", param_num_vars, polys[i].num_vars()));
        }
        i = i + 1;
    }
    let input_num_vars = if polys.len() > 0 {
        polys[0].num_vars()
    } else {
        points[0].len()
    };
    proof {
        assert(input_num_vars as int == input_width(poly_vals, points@));
    }
    let mut j: usize = 0;
    while j < points.len()
        invariant
            j <= points.len(),
            poly_vals == Seq::new(polys.len() as nat, |t: int| *polys@[t]),
            input_num_vars as int == input_width(poly_vals, points@),
            forall|t: int|
                0 <= t < j ==> (#[trigger] points@[t]).len() == input_num_vars,
        decreases points.len() - j,
    {
        if points[j].len() != input_num_vars {
            return Err(
                ProtocolError::InvalidPcsParam(
                    "a point's width does not match the polynomials".to_string(),
                ),
            );
        }
        j = j + 1;
    }
    Ok(())
}

/// The plain, additively homomorphic commitment scheme.
#[derive(Clone, Debug)]
pub struct PlainPcs;

impl PlainPcs {
    /// Derives the parameter for polynomials of up to `poly_size`
    /// evaluations; this scheme needs no sampled trapdoor.
    pub fn setup(poly_size: usize, _batch_size: usize) -> (r: Result<
        PlainPcsParam,
        ProtocolError,
    >)
        requires
            poly_size as int * 2 <= usize::MAX as int,
        ensures
            r is Ok <==> poly_size >= 1,
            r matches Ok(p) ==> pow2(p.max_num_vars as nat) >= poly_size && pow2(
                p.max_num_vars as nat,
            ) <= usize::MAX,
            poly_size == 0 ==> r matches Err(ProtocolError::SizeError),
    {
        if poly_size == 0 {
            return Err(ProtocolError::SizeError);
        }
        let mut nv: usize = 0;
        let mut cap: usize = 1;
        proof {
            vstd::arithmetic::power2::lemma2_to64();
        }
        while cap < poly_size
            invariant
                cap == pow2(nv as nat),
                cap >= 1,
                nv <= cap,
                poly_size >= 1,
                poly_size as int * 2 <= usize::MAX as int,
            decreases 2 * poly_size - cap,
        {
            proof {
                assert(pow2((nv + 1) as nat) == 2 * pow2(nv as nat)) by {
                    vstd::arithmetic::power2::lemma_pow2_unfold((nv + 1) as nat);
                }
            }
            cap = cap * 2;
            nv = nv + 1;
        }
        Ok(PlainPcsParam { max_num_vars: nv })
    }

    /// Splits the parameter for prover and verifier.
    pub fn trim(param: &PlainPcsParam, _poly_size: usize, _batch_size: usize) -> (r: Result<
        (PlainPcsProverParam, PlainPcsVerifierParam),
        ProtocolError,
    >)
        ensures
            r is Ok,
            r matches Ok(pair) ==> pair.0.max_num_vars == param.max_num_vars
                && pair.1.max_num_vars == param.max_num_vars,
    {
        Ok(
            (
                PlainPcsProverParam { max_num_vars: param.max_num_vars },
                PlainPcsVerifierParam { max_num_vars: param.max_num_vars },
            ),
        )
    }

    /// Commits to a polynomial; fails exactly when it has too many
    /// variables for the parameter.
    pub fn commit(pp: &PlainPcsProverParam, poly: &MultilinearPolynomial) -> (r: Result<
        PlainCommitment,
        ProtocolError,
    >)
        requires
            poly.wf(),
        ensures
            r is Ok <==> poly.num_vars <= pp.max_num_vars,
            r is Err ==> r matches Err(ProtocolError::InvalidPcsParam(_)),
            r matches Ok(c) ==> c.wf() && c.evals@ == poly.evals@,
    {
        if poly.num_vars() > pp.max_num_vars {
            return Err(err_too_many_variates("commit", pp.max_num_vars, poly.num_vars()));
        }
        Ok(PlainCommitment { evals: crate::field::copy_fp_vec(&poly.evals) })
    }

    /// Commits and writes the commitment to the transcript.
    pub fn commit_and_write(
        pp: &PlainPcsProverParam,
        poly: &MultilinearPolynomial,
        transcript: &mut Transcript,
    ) -> (r: Result<PlainCommitment, ProtocolError>)
        requires
            poly.wf(),
        ensures
            r is Ok <==> poly.num_vars <= pp.max_num_vars,
            r is Err ==> (r matches Err(ProtocolError::InvalidPcsParam(_)))
                && *final(transcript) == *old(transcript),
            r matches Ok(c) ==> {
                &&& c.wf()
                &&& c.evals@ == poly.evals@
                &&& final(transcript).stream@ == old(transcript).stream@
                    + crate::transcript::ser_elems(poly.e())
                &&& final(transcript).state@ == crate::transcript::absorb_elems(
                    old(transcript).state@,
                    poly.e(),
                )
                &&& final(transcript).pos == old(transcript).pos
            },
    {
        let comm = match Self::commit(pp, poly) {
            Ok(c) => c,
            Err(e) => {
                return Err(e);
            },
        };
        let _ = transcript.write_field_elements(&comm.evals);
        Ok(comm)
    }

    /// Reads one commitment of the given size from the transcript.
    pub fn read_commitment(
        _vp: &PlainPcsVerifierParam,
        num_evals: usize,
        transcript: &mut Transcript,
    ) -> (r: Result<PlainCommitment, ProtocolError>)
        ensures
            r is Ok <==> old(transcript).pos + 8 * num_evals <= old(transcript).stream.len(),
            r is Err ==> (r matches Err(ProtocolError::Transcript))
                && *final(transcript) == *old(transcript),
            r matches Ok(c) ==> {
                &&& c.wf()
                &&& c.evals.len() == num_evals
                &&& c.e() == crate::transcript::read_vals(
                    old(transcript).stream@,
                    old(transcript).pos as int,
                    num_evals as nat,
                )
                &&& final(transcript).pos == old(transcript).pos + 8 * num_evals
                &&& final(transcript).state@ == crate::transcript::absorb_chunks(
                    old(transcript).state@,
                    old(transcript).stream@,
                    old(transcript).pos as int,
                    num_evals as nat,
                )
                &&& final(transcript).stream@ == old(transcript).stream@
            },
    {
        match transcript.read_field_elements(num_evals) {
            Ok(evals) => Ok(PlainCommitment { evals }),
            Err(e) => Err(ProtocolError::Transcript),
        }
    }

    /// Opens a committed polynomial at a point. The plain scheme needs no
    /// opening message: the verifier re-evaluates the commitment itself, so
    /// nothing is written.
    pub fn open(
        _pp: &PlainPcsProverParam,
        _poly: &MultilinearPolynomial,
        _comm: &PlainCommitment,
        _point: &Vec<Fp>,
        _eval: &Fp,
        transcript: &mut Transcript,
    ) -> (r: Result<(), ProtocolError>)
        ensures
            r is Ok,
            *final(transcript) == *old(transcript),
    {
        Ok(())
    }

    /// Checks one claimed evaluation against a commitment by evaluating the
    /// committed vector at the point; accepts exactly when they agree.
    pub fn verify(
        _vp: &PlainPcsVerifierParam,
        comm: &PlainCommitment,
        point: &Vec<Fp>,
        eval: &Fp,
        transcript: &mut Transcript,
    ) -> (r: Result<(), ProtocolError>)
        requires
            comm.wf(),
            fp_seq_wf(point@),
            eval.wf(),
            comm.evals.len() == pow2(point.len() as nat),
        ensures
            *final(transcript) == *old(transcript),
            r is Ok <==> eval_mle(comm.e(), residues(point@)) == eval.as_int(),
            r is Err ==> r matches Err(ProtocolError::InvalidPcsParam(_)),
    {
        proof {
            vstd::arithmetic::power2::lemma_pow2_pos(point.len() as nat);
        }
        let poly = MultilinearPolynomial::new(
            crate::field::copy_fp_vec(&comm.evals),
            Vec::new(),
            point.len(),
        );
        let got = poly.evaluate(point);
        if got == *eval {
            Ok(())
        } else {
            Err(
                ProtocolError::InvalidPcsParam(
                    "the claimed evaluation does not match the commitment".to_string(),
                ),
            )
        }
    }
}

/// The concatenated serializations of the given residue rows.
pub open spec fn ser_rows(rows: Seq<Seq<int>>, upto: nat) -> Seq<u8>
    decreases upto,
{
    if upto == 0 {
        Seq::empty()
    } else {
        ser_rows(rows, (upto - 1) as nat) + crate::transcript::ser_elems(rows[upto - 1])
    }
}

/// The hash state after absorbing the given residue rows in order.
pub open spec fn absorb_rows(state: Seq<u8>, rows: Seq<Seq<int>>, upto: nat) -> Seq<u8>
    decreases upto,
{
    if upto == 0 {
        state
    } else {
        crate::transcript::absorb_elems(
            absorb_rows(state, rows, (upto - 1) as nat),
            rows[upto - 1],
        )
    }
}

impl PlainPcs {
    /// Commits to each polynomial in order, writing every commitment.
    pub fn batch_commit_and_write(
        pp: &PlainPcsProverParam,
        polys: &Vec<MultilinearPolynomial>,
        transcript: &mut Transcript,
    ) -> (r: Result<Vec<PlainCommitment>, ProtocolError>)
        requires
            forall|i: int| 0 <= i < polys.len() ==> (#[trigger] polys@[i]).wf(),
        ensures
            r is Ok <==> (forall|i: int|
                0 <= i < polys.len() ==> (#[trigger] polys@[i]).num_vars <= pp.max_num_vars),
            r is Err ==> r matches Err(ProtocolError::InvalidPcsParam(_)),
            r matches Ok(v) ==> {
                &&& v.len() == polys.len()
                &&& forall|i: int|
                    0 <= i < v.len() ==> (#[trigger] v@[i]).evals@ == polys@[i].evals@
                &&& forall|i: int| 0 <= i < v.len() ==> (#[trigger] v@[i]).wf()
                &&& final(transcript).pos == old(transcript).pos
                &&& final(transcript).stream@ == old(transcript).stream@ + ser_rows(
                    Seq::new(polys.len() as nat, |i: int| polys@[i].e()),
                    polys.len() as nat,
                )
                &&& final(transcript).state@ == absorb_rows(
                    old(transcript).state@,
                    Seq::new(polys.len() as nat, |i: int| polys@[i].e()),
                    polys.len() as nat,
                )
            },
    {
        let ghost rows = Seq::new(polys.len() as nat, |i: int| polys@[i].e());
        let mut comms: Vec<PlainCommitment> = Vec::new();
        let mut i: usize = 0;
        while i < polys.len()
            invariant
                i <= polys.len(),
                rows == Seq::new(polys.len() as nat, |t: int| polys@[t].e()),
                forall|t: int| 0 <= t < polys.len() ==> (#[trigger] polys@[t]).wf(),
                forall|t: int|
                    0 <= t < i ==> (#[trigger] polys@[t]).num_vars <= pp.max_num_vars,
                comms.len() == i,
                forall|t: int|
                    0 <= t < i ==> (#[trigger] comms@[t]).evals@ == polys@[t].evals@,
                forall|t: int| 0 <= t < i ==> (#[trigger] comms@[t]).wf(),
                transcript.pos == old(transcript).pos,
                transcript.stream@ == old(transcript).stream@ + ser_rows(rows, i as nat),
                transcript.state@ == absorb_rows(old(transcript).state@, rows, i as nat),
            decreases polys.len() - i,
        {
            let comm = match Self::commit_and_write(pp, &polys[i], transcript) {
                Ok(c) => c,
                Err(e) => {
                    return Err(e);
                },
            };
            comms.push(comm);
            proof {
                assert(rows[i as int] == polys@[i as int].e());
                assert(transcript.stream@ =~= old(transcript).stream@ + ser_rows(
                    rows,
                    (i + 1) as nat,
                ));
            }
            i = i + 1;
        }
        Ok(comms)
    }

    /// Reads `count` commitments of `num_evals` elements each.
    pub fn read_commitments(
        vp: &PlainPcsVerifierParam,
        count: usize,
        num_evals: usize,
        transcript: &mut Transcript,
    ) -> (r: Result<Vec<PlainCommitment>, ProtocolError>)
        ensures
            r is Ok <==> old(transcript).pos + 8 * num_evals * count <= old(
                transcript,
            ).stream.len(),
            r is Err ==> r matches Err(ProtocolError::Transcript),
            final(transcript).stream@ == old(transcript).stream@,
            r matches Ok(v) ==> {
                &&& v.len() == count
                &&& forall|t: int| 0 <= t < count ==> (#[trigger] v@[t]).wf()
                &&& forall|t: int|
                    0 <= t < count ==> (#[trigger] v@[t]).evals.len() == num_evals
                &&& forall|t: int|
                    0 <= t < count ==> (#[trigger] v@[t]).e() == crate::transcript::read_vals(
                        old(transcript).stream@,
                        old(transcript).pos + 8 * num_evals * t,
                        num_evals as nat,
                    )
                &&& final(transcript).pos == old(transcript).pos + 8 * num_evals * count
                &&& final(transcript).state@ == crate::transcript::absorb_chunks(
                    old(transcript).state@,
                    old(transcript).stream@,
                    old(transcript).pos as int,
                    (num_evals * count) as nat,
                )
            },
    {
        if transcript.pos > transcript.stream.len() {
            return Err(ProtocolError::Transcript);
        }
        let mut comms: Vec<PlainCommitment> = Vec::new();
        let mut i: usize = 0;
        while i < count
            invariant
                i <= count,
                count >= 1 ==> old(transcript).pos <= old(transcript).stream.len(),
                i >= 1 ==> old(transcript).pos + 8 * num_evals * i <= old(
                    transcript,
                ).stream.len(),
                comms.len() == i,
                forall|t: int| 0 <= t < i ==> (#[trigger] comms@[t]).wf(),
                forall|t: int| 0 <= t < i ==> (#[trigger] comms@[t]).evals.len() == num_evals,
                forall|t: int|
                    0 <= t < i ==> (#[trigger] comms@[t]).e() == crate::transcript::read_vals(
                        old(transcript).stream@,
                        old(transcript).pos + 8 * num_evals * t,
                        num_evals as nat,
                    ),
                transcript.stream@ == old(transcript).stream@,
                transcript.pos as int == old(transcript).pos + 8 * num_evals * i,
                transcript.state@ == crate::transcript::absorb_chunks(
                    old(transcript).state@,
                    old(transcript).stream@,
                    old(transcript).pos as int,
                    (num_evals * i) as nat,
                ),
            decreases count - i,
        {
            let comm = match Self::read_commitment(vp, num_evals, transcript) {
                Ok(c) => c,
                Err(_) => {
                    proof {
                        assert(8 * num_evals * i + 8 * num_evals <= 8 * num_evals * count)
                            by (nonlinear_arith)
                            requires
                                i < count,
                                num_evals >= 0,
                        ;
                    }
                    return Err(ProtocolError::Transcript);
                },
            };
            comms.push(comm);
            proof {
                assert(8 * num_evals * i + 8 * num_evals == 8 * num_evals * (i + 1))
                    by (nonlinear_arith);
                assert(8 * (num_evals * i as int) == 8 * num_evals * i) by (nonlinear_arith);
                crate::transcript::lemma_absorb_chunks_concat(
                    old(transcript).state@,
                    old(transcript).stream@,
                    old(transcript).pos as int,
                    (num_evals * i) as nat,
                    num_evals as nat,
                );
                assert((num_evals * i + num_evals) as nat == (num_evals * (i + 1)) as nat)
                    by (nonlinear_arith);
            }
            i = i + 1;
        }
        proof {
            if count == 0 {
                assert(8 * num_evals * 0 == 0) by (nonlinear_arith);
            }
        }
        Ok(comms)
    }
}

/// Whether `l` is the least exponent with `2^l >= n`.
pub open spec fn is_log2_ceil(n: nat, l: nat) -> bool {
    pow2(l) >= n && (l == 0 || pow2((l - 1) as nat) < n)
}

/// The least `l` with `2^l >= n`.
pub open spec fn log2_ceil_spec(n: nat) -> nat {
    choose|l: nat| is_log2_ceil(n, l)
}

/// The least such exponent is unique.
pub proof fn lemma_log2_ceil_unique(n: nat, l1: nat, l2: nat)
    requires
        is_log2_ceil(n, l1),
        is_log2_ceil(n, l2),
    ensures
        l1 == l2,
{
    if l1 < l2 {
        if l1 < l2 - 1 {
            vstd::arithmetic::power2::lemma_pow2_strictly_increases(l1, (l2 - 1) as nat);
        }
        assert(pow2((l2 - 1) as nat) >= pow2(l1));
    }
    if l2 < l1 {
        if l2 < l1 - 1 {
            vstd::arithmetic::power2::lemma_pow2_strictly_increases(l2, (l1 - 1) as nat);
        }
        assert(pow2((l1 - 1) as nat) >= pow2(l2));
    }
}

/// The least `l` with `2^l >= n`, together with `2^l`.
pub fn log2_ceil(n: usize) -> (r: (usize, usize))
    requires
        n >= 1,
        n as int * 2 <= usize::MAX as int,
    ensures
        r.1 == pow2(r.0 as nat),
        r.1 >= n,
        r.0 == log2_ceil_spec(n as nat),
{
    let mut ell: usize = 0;
    let mut cap: usize = 1;
    proof {
        vstd::arithmetic::power2::lemma2_to64();
    }
    while cap < n
        invariant
            cap == pow2(ell as nat),
            cap >= 1,
            ell <= cap,
            n >= 1,
            n as int * 2 <= usize::MAX as int,
            ell == 0 || pow2((ell - 1) as nat) < n,
        decreases 2 * n - cap,
    {
        proof {
            assert(pow2((ell + 1) as nat) == 2 * pow2(ell as nat)) by {
                vstd::arithmetic::power2::lemma_pow2_unfold((ell + 1) as nat);
            }
        }
        cap = cap * 2;
        ell = ell + 1;
    }
    proof {
        assert(is_log2_ceil(n as nat, ell as nat));
        lemma_log2_ceil_unique(n as nat, ell as nat, log2_ceil_spec(n as nat));
    }
    (ell, cap)
}


/// The merged polynomial for point ordinal `pt` after folding in the first
/// `upto` claims: each claim adds its polynomial, weighted by the tensor
/// entry of its ordinal, into its point's accumulator.
pub open spec fn merged_evals(
    poly_rows: Seq<Seq<int>>,
    claims: Seq<(int, int, int)>,
    eqxt: Seq<int>,
    pt: int,
    upto: nat,
    width: nat,
) -> Seq<int>
    decreases upto,
{
    if upto == 0 {
        crate::sumcheck::zero_evals(width)
    } else {
        let prev = merged_evals(poly_rows, claims, eqxt, pt, (upto - 1) as nat, width);
        if claims[upto - 1].1 == pt {
            crate::poly::multilinear::add_seq(
                prev,
                crate::poly::multilinear::scale_seq(poly_rows[claims[upto - 1].0], eqxt[upto - 1]),
            )
        } else {
            prev
        }
    }
}

/// The evaluation tables the batch opening hands to the inner sum-check:
/// the merged polynomial of every point, then the `eq` polynomial of every
/// point.
pub open spec fn batch_tables(
    poly_rows: Seq<Seq<int>>,
    point_rows: Seq<Seq<int>>,
    claims: Seq<(int, int, int)>,
    eqxt: Seq<int>,
    width: nat,
) -> Seq<Seq<int>> {
    Seq::new(
        2 * point_rows.len(),
        |i: int|
            if i < point_rows.len() {
                merged_evals(poly_rows, claims, eqxt, i, claims.len(), width)
            } else {
                crate::poly::multilinear::eq_tensor(point_rows[i - point_rows.len()])
            },
    )
}

/// Opens many committed polynomials at their claimed points in one batch:
/// the claims are tied together by a random tensor, merged per point, and
/// reduced by a degree-2 inner sum-check to one evaluation of one combined
/// polynomial, which the plain scheme opens for free. The byte-exact
/// content of the sum-check segment is pinned by `sumcheck_prove_spec`
/// through the sum-check backend's contract.
pub fn batch_open(
    pp: &PlainPcsProverParam,
    num_vars: usize,
    polys: Vec<&MultilinearPolynomial>,
    _comms: Vec<&PlainCommitment>,
    points: &Vec<Vec<Fp>>,
    evals: &Vec<Evaluation>,
    transcript: &mut Transcript,
) -> (r: Result<(), ProtocolError>)
    requires
        num_vars >= 1,
        polys.len() >= 1,
        points.len() >= 1,
        evals.len() >= 2,
        evals.len() as int * 2 <= usize::MAX as int,
        forall|i: int|
            0 <= i < polys.len() ==> (#[trigger] polys@[i]).wf() && !polys@[i].spec_is_empty()
                && polys@[i].num_vars == num_vars,
        forall|i: int|
            0 <= i < points.len() ==> (#[trigger] points@[i]).len() == num_vars && fp_seq_wf(
                points@[i]@,
            ),
        forall|i: int|
            0 <= i < evals.len() ==> (#[trigger] evals@[i]).poly < polys.len() && evals@[
                i
            ].point < points.len() && evals@[i].value.wf(),
    ensures
        r is Ok,
        final(transcript).pos == old(transcript).pos,
        ({
            let claims = Seq::new(
                evals.len() as nat,
                |i: int| (evals@[i].poly as int, evals@[i].point as int, evals@[
                    i
                ].value.as_int()),
            );
            let poly_rows = Seq::new(polys.len() as nat, |i: int| (*polys@[i]).e());
            let point_rows = Seq::new(points.len() as nat, |i: int| residues(points@[i]@));
            let ell = log2_ceil_spec(evals.len() as nat);
            let eqxt = crate::poly::multilinear::eq_tensor(
                crate::transcript::squeeze_n_vals(old(transcript).state@, ell),
            );
            let o = crate::sumcheck::sumcheck_prove_spec(
                crate::sumcheck::CombineSpec::Additive { num_merged: points.len() as nat },
                2,
                num_vars as nat,
                batch_tables(poly_rows, point_rows, claims, eqxt, pow2(num_vars as nat)),
                old(transcript).stream@,
                crate::transcript::squeeze_n_state(old(transcript).state@, ell),
            );
            &&& final(transcript).stream@ == o.stream
            &&& final(transcript).state@ == o.state
        }),
{
    let ghost pow_nv = pow2(num_vars as nat);
    let ghost st0 = old(transcript).state@;
    let ghost stream0 = old(transcript).stream@;
    let ghost claims = Seq::new(
        evals.len() as nat,
        |i: int| (evals@[i].poly as int, evals@[i].point as int, evals@[i].value.as_int()),
    );
    let ghost poly_rows = Seq::new(polys.len() as nat, |i: int| (*polys@[i]).e());
    let ghost point_rows = Seq::new(points.len() as nat, |i: int| residues(points@[i]@));
    proof {
        assert(polys@[0].evals.len() == pow2(num_vars as nat));
    }
    match validate_input("batch open", num_vars, &polys, points) {
        Ok(u) => u,
        Err(e) => {
            return Err(e);
        },
    };
    let (ell, _cap) = log2_ceil(evals.len());
    let t = transcript.squeeze_challenges(ell);
    let eq_xt = MultilinearPolynomial::eq_xy(&t);
    let ghost eqxt = crate::poly::multilinear::eq_tensor(
        crate::transcript::squeeze_n_vals(st0, log2_ceil_spec(evals.len() as nat)),
    );
    proof {
        vstd::arithmetic::power2::lemma2_to64();
        assert(ell >= 1);
        assert(eq_xt.evals.len() == pow2(t.len() as nat));
        assert(eq_xt.evals.len() >= evals.len());
        assert(residues(eq_xt.evals@) == eqxt);
        assert(transcript.state@ == crate::transcript::squeeze_n_state(
            st0,
            log2_ceil_spec(evals.len() as nat),
        ));
        assert(transcript.stream@ == stream0);
    }

    // Merge the claimed polynomials per point, weighted by the tensor.
    let mut merged: Vec<MultilinearPolynomial> = Vec::new();
    let mut m: usize = 0;
    while m < points.len()
        invariant
            m <= points.len(),
            merged.len() == m,
            forall|i: int| 0 <= i < m ==> (#[trigger] merged@[i]).wf(),
            forall|i: int| 0 <= i < m ==> (#[trigger] merged@[i]).spec_is_empty(),
        decreases points.len() - m,
    {
        merged.push(MultilinearPolynomial::zero());
        m = m + 1;
    }
    let mut idx: usize = 0;
    while idx < evals.len()
        invariant
            idx <= evals.len(),
            num_vars >= 1,
            merged.len() == points.len(),
            points.len() >= 1,
            polys.len() >= 1,
            eq_xt.wf(),
            evals.len() <= eq_xt.evals.len(),
            pow_nv == pow2(num_vars as nat),
            residues(eq_xt.evals@) == eqxt,
            claims == Seq::new(
                evals.len() as nat,
                |i: int| (evals@[i].poly as int, evals@[i].point as int, evals@[
                    i
                ].value.as_int()),
            ),
            poly_rows == Seq::new(polys.len() as nat, |i: int| (*polys@[i]).e()),
            forall|i: int|
                0 <= i < polys.len() ==> (#[trigger] polys@[i]).wf() && !polys@[
                    i
                ].spec_is_empty() && polys@[i].num_vars == num_vars,
            forall|i: int|
                0 <= i < evals.len() ==> (#[trigger] evals@[i]).poly < polys.len() && evals@[
                    i
                ].point < points.len() && evals@[i].value.wf(),
            forall|i: int| 0 <= i < merged.len() ==> (#[trigger] merged@[i]).wf(),
            forall|i: int|
                0 <= i < merged.len() ==> (#[trigger] merged@[i]).spec_is_empty() || merged@[
                    i
                ].num_vars == num_vars,
            forall|i: int|
                0 <= i < merged.len() && (#[trigger] merged@[i]).spec_is_empty()
                    ==> merged_evals(poly_rows, claims, eqxt, i, idx as nat, pow_nv)
                    == crate::sumcheck::zero_evals(pow_nv),
            forall|i: int|
                0 <= i < merged.len() && !(#[trigger] merged@[i]).spec_is_empty()
                    ==> merged@[i].e() == merged_evals(
                    poly_rows,
                    claims,
                    eqxt,
                    i,
                    idx as nat,
                    pow_nv,
                ),
        decreases evals.len() - idx,
    {
        let e = &evals[idx];
        let scalar = eq_xt.evals[idx];
        proof {
            assert(eq_xt.wf());
            assert(eq_xt.evals@[idx as int].wf());
        }
        let target = e.poly;
        let pt = e.point;
        let ghost before_empty = merged@[pt as int].spec_is_empty();
        let ghost before_e = merged@[pt as int].e();
        let elem = &mut merged[pt];
        elem.add_scaled(scalar, polys[target]);
        proof {
            let prev = merged_evals(poly_rows, claims, eqxt, pt as int, idx as nat, pow_nv);
            let scaled = crate::poly::multilinear::scale_seq(
                poly_rows[claims[idx as int].0],
                eqxt[idx as int],
            );
            assert(poly_rows[claims[idx as int].0] == (*polys@[target as int]).e());
            assert(merged@[pt as int].e() == crate::poly::multilinear::scale_seq(
                (*polys@[target as int]).e(),
                scalar.as_int(),
            ) || merged@[pt as int].e() == crate::poly::multilinear::add_seq(
                before_e,
                crate::poly::multilinear::scale_seq(
                    (*polys@[target as int]).e(),
                    scalar.as_int(),
                ),
            ));
            if before_empty {
                assert(prev == crate::sumcheck::zero_evals(pow_nv));
                assert forall|j: int| 0 <= j < scaled.len() implies crate::poly::multilinear::add_seq(
                    prev,
                    scaled,
                )[j] == scaled[j] by {
                    assert(prev[j] == 0);
                    crate::field::lemma_reduce_id(scaled[j]);
                }
                assert(crate::poly::multilinear::add_seq(prev, scaled) =~= scaled);
            }
            assert forall|i: int| 0 <= i < merged.len() && i != pt as int implies
                merged_evals(poly_rows, claims, eqxt, i, (idx + 1) as nat, pow_nv)
                == merged_evals(poly_rows, claims, eqxt, i, idx as nat, pow_nv) by {
                assert(claims[idx as int].1 != i);
            }
            assert(merged_evals(poly_rows, claims, eqxt, pt as int, (idx + 1) as nat, pow_nv)
                == crate::poly::multilinear::add_seq(prev, scaled));
        }
        idx = idx + 1;
    }
    proof {
        assert forall|i: int| 0 <= i < merged.len() && (#[trigger] merged@[
            i
        ]).spec_is_empty() implies merged_evals(
            poly_rows,
            claims,
            eqxt,
            i,
            claims.len(),
            pow_nv,
        ) == crate::sumcheck::zero_evals(pow_nv) by {
        }
    }

    // The claimed batched sum.
    let mut values: Vec<Fp> = Vec::new();
    let mut v: usize = 0;
    while v < evals.len()
        invariant
            v <= evals.len(),
            values.len() == v,
            fp_seq_wf(values@),
            forall|i: int|
                0 <= i < evals.len() ==> (#[trigger] evals@[i]).poly < polys.len() && evals@[
                    i
                ].point < points.len() && evals@[i].value.wf(),
        decreases evals.len() - v,
    {
        values.push(evals[v].value);
        v = v + 1;
    }
    let tilde_gs_sum = inner_product(&values, &eq_xt.evals);

    // Assemble the virtual polynomial: the merged polynomials, then one
    // `eq` polynomial per point.
    let mut eq_xys: Vec<MultilinearPolynomial> = Vec::new();
    let mut q: usize = 0;
    while q < points.len()
        invariant
            q <= points.len(),
            num_vars >= 1,
            eq_xys.len() == q,
            forall|i: int|
                0 <= i < points.len() ==> (#[trigger] points@[i]).len() == num_vars
                    && fp_seq_wf(points@[i]@),
            point_rows == Seq::new(points.len() as nat, |i: int| residues(points@[i]@)),
            forall|i: int|
                0 <= i < q ==> (#[trigger] eq_xys@[i]).wf() && !eq_xys@[i].spec_is_empty()
                    && eq_xys@[i].num_vars == num_vars,
            forall|i: int|
                0 <= i < q ==> (#[trigger] eq_xys@[i]).e()
                    == crate::poly::multilinear::eq_tensor(point_rows[i]),
        decreases points.len() - q,
    {
        let eq_poly = MultilinearPolynomial::eq_xy(&points[q]);
        proof {
            crate::poly::laws::lemma_eq_tensor_len(residues(points@[q as int]@));
            vstd::arithmetic::power2::lemma_pow2_pos(num_vars as nat);
        }
        eq_xys.push(eq_poly);
        q = q + 1;
    }
    let ghost tables_spec = batch_tables(poly_rows, point_rows, claims, eqxt, pow_nv);
    let mut virtual_polys: Vec<&MultilinearPolynomial> = Vec::new();
    let mut w: usize = 0;
    while w < merged.len()
        invariant
            w <= merged.len(),
            virtual_polys.len() == w,
            merged.len() == points.len(),
            pow_nv == pow2(num_vars as nat),
            point_rows.len() == points.len(),
            tables_spec == batch_tables(poly_rows, point_rows, claims, eqxt, pow_nv),
            forall|i: int| 0 <= i < merged.len() ==> (#[trigger] merged@[i]).wf(),
            forall|i: int|
                0 <= i < merged.len() ==> (#[trigger] merged@[i]).spec_is_empty() || merged@[
                    i
                ].num_vars == num_vars,
            forall|i: int|
                0 <= i < merged.len() && (#[trigger] merged@[i]).spec_is_empty()
                    ==> merged_evals(poly_rows, claims, eqxt, i, claims.len(), pow_nv)
                    == crate::sumcheck::zero_evals(pow_nv),
            forall|i: int|
                0 <= i < merged.len() && !(#[trigger] merged@[i]).spec_is_empty()
                    ==> merged@[i].e() == merged_evals(
                    poly_rows,
                    claims,
                    eqxt,
                    i,
                    claims.len(),
                    pow_nv,
                ),
            forall|i: int|
                0 <= i < w ==> (#[trigger] virtual_polys@[i]).wf() && (virtual_polys@[
                    i
                ].spec_is_empty() || virtual_polys@[i].num_vars == num_vars),
            forall|i: int|
                0 <= i < w && (#[trigger] virtual_polys@[i]).spec_is_empty() ==> tables_spec[i]
                    == crate::sumcheck::zero_evals(pow_nv),
            forall|i: int|
                0 <= i < w && !(#[trigger] virtual_polys@[i]).spec_is_empty()
                    ==> virtual_polys@[i].e() == tables_spec[i],
        decreases merged.len() - w,
    {
        virtual_polys.push(&merged[w]);
        proof {
            assert(tables_spec[w as int] == merged_evals(
                poly_rows,
                claims,
                eqxt,
                w as int,
                claims.len(),
                pow_nv,
            ));
            assert(virtual_polys@[w as int] == &merged@[w as int]);
        }
        w = w + 1;
    }
    let mut w2: usize = 0;
    while w2 < eq_xys.len()
        invariant
            w2 <= eq_xys.len(),
            virtual_polys.len() == merged.len() + w2,
            merged.len() == points.len(),
            eq_xys.len() == points.len(),
            pow_nv == pow2(num_vars as nat),
            point_rows.len() == points.len(),
            tables_spec == batch_tables(poly_rows, point_rows, claims, eqxt, pow_nv),
            forall|i: int|
                0 <= i < eq_xys.len() ==> (#[trigger] eq_xys@[i]).wf() && !eq_xys@[
                    i
                ].spec_is_empty() && eq_xys@[i].num_vars == num_vars,
            forall|i: int|
                0 <= i < eq_xys.len() ==> (#[trigger] eq_xys@[i]).e()
                    == crate::poly::multilinear::eq_tensor(point_rows[i]),
            forall|i: int|
                0 <= i < virtual_polys.len() ==> (#[trigger] virtual_polys@[i]).wf() && (
                virtual_polys@[i].spec_is_empty() || virtual_polys@[i].num_vars == num_vars),
            forall|i: int|
                0 <= i < virtual_polys.len() && (#[trigger] virtual_polys@[
                    i
                ]).spec_is_empty() ==> tables_spec[i] == crate::sumcheck::zero_evals(pow_nv),
            forall|i: int|
                0 <= i < virtual_polys.len() && !(#[trigger] virtual_polys@[
                    i
                ]).spec_is_empty() ==> virtual_polys@[i].e() == tables_spec[i],
        decreases eq_xys.len() - w2,
    {
        virtual_polys.push(&eq_xys[w2]);
        proof {
            assert(tables_spec[merged.len() + w2 as int]
                == crate::poly::multilinear::eq_tensor(point_rows[w2 as int]));
            assert(virtual_polys@[merged.len() + w2 as int] == &eq_xys@[w2 as int]);
        }
        w2 = w2 + 1;
    }
    proof {
        assert(pow2(num_vars as nat) == 2 * pow2((num_vars - 1) as nat)) by {
            vstd::arithmetic::power2::lemma_pow2_unfold(num_vars as nat);
        }
        assert(pow2((num_vars - 1) as nat) <= usize::MAX);
        assert forall|i: int| 0 <= i < virtual_polys.len() implies !(
        #[trigger] virtual_polys@[i]).spec_is_empty() ==> virtual_polys@[i].wf()
            && virtual_polys@[i].evals.len() == pow2(num_vars as nat) by {
            assert(virtual_polys@[i].wf());
        }
    }
    let virtual_poly = VirtualPolynomial::new(num_vars, virtual_polys);
    proof {
        assert forall|i: int| 0 <= i < virtual_polys.len() implies #[trigger] virtual_poly.tables()[
            i
        ] == tables_spec[i] by {
            if virtual_polys@[i].spec_is_empty() {
                assert(virtual_poly.tables()[i] == crate::sumcheck::zero_evals(pow_nv));
            } else {
                assert(virtual_poly.tables()[i] == virtual_polys@[i].e());
            }
        }
        assert(virtual_poly.tables() =~= tables_spec);
    }
    let combine = CombineFunction::Additive { num_merged: points.len() };
    let spp = ClassicSumcheckProverParam::new(num_vars, 2);
    let (challenges, _point_evals) = match ClassicSumcheck::prove(
        &spp,
        &combine,
        tilde_gs_sum,
        virtual_poly,
        transcript,
    ) {
        Ok(pair) => pair,
        Err(e) => {
            return Err(e);
        },
    };

    // Combine the merged polynomials at the drawn point and open there.
    let mut g_prime = MultilinearPolynomial::zero();
    let mut pt: usize = 0;
    while pt < points.len()
        invariant
            pt <= points.len(),
            num_vars >= 1,
            merged.len() == points.len(),
            challenges.len() == num_vars,
            fp_seq_wf(challenges@),
            forall|i: int|
                0 <= i < points.len() ==> (#[trigger] points@[i]).len() == num_vars
                    && fp_seq_wf(points@[i]@),
            forall|i: int| 0 <= i < merged.len() ==> (#[trigger] merged@[i]).wf(),
            forall|i: int|
                0 <= i < merged.len() ==> (#[trigger] merged@[i]).spec_is_empty() || merged@[
                    i
                ].num_vars == num_vars,
            g_prime.wf(),
            g_prime.spec_is_empty() || g_prime.num_vars == num_vars,
        decreases points.len() - pt,
    {
        let weight = eq_xy_eval(&challenges, &points[pt]);
        g_prime.add_scaled(weight, &merged[pt]);
        pt = pt + 1;
    }
    let g_prime_eval = Fp::zero();
    let g_prime_comm = PlainCommitment { evals: Vec::new() };
    PlainPcs::open(pp, &g_prime, &g_prime_comm, &challenges, &g_prime_eval, transcript)
}


/// The claimed values of a batch of claims.
pub open spec fn claim_values(claims: Seq<(int, int, int)>) -> Seq<int> {
    Seq::new(claims.len(), |i: int| claims[i].2)
}

/// What an accepted batch of openings satisfies, over the raw proof
/// stream: the inner sum-check for the tensor-weighted sum of the claimed
/// values passes every round check, its final expected value matches the
/// combine of the returned evaluations, and the commitments' multi-scalar
/// combination evaluates at the drawn point to that same value.
pub open spec fn batch_verify_accepted(
    num_vars: usize,
    comm_rows: Seq<Seq<int>>,
    point_rows: Seq<Seq<int>>,
    claims: Seq<(int, int, int)>,
    state0: Seq<u8>,
    stream: Seq<u8>,
    pos0: int,
) -> bool {
    let ell = log2_ceil_spec(claims.len());
    let eqxt = crate::poly::multilinear::eq_tensor(
        crate::transcript::squeeze_n_vals(state0, ell),
    );
    let state1 = crate::transcript::squeeze_n_state(state0, ell);
    let sum = inner_product_spec(claim_values(claims), eqxt, claims.len());
    let m = point_rows.len();
    let expected = crate::sumcheck::sv_expected(sum, state1, stream, pos0, 2, num_vars as nat);
    let challenges_rev = crate::sumcheck::sv_challenges(
        state1,
        stream,
        pos0,
        2,
        num_vars as nat,
    ).reverse();
    let point_evals = crate::transcript::read_vals(
        stream,
        pos0 + 8 * 3 * num_vars,
        (2 * m) as nat,
    );
    let scalars = Seq::new(
        claims.len(),
        |i: int| mulm(
            crate::poly::multilinear::eq_prod(challenges_rev, point_rows[claims[i].1]),
            eqxt[i],
        ),
    );
    let rows = Seq::new(claims.len(), |i: int| comm_rows[claims[i].0]);
    &&& crate::sumcheck::sv_checks(sum, state1, stream, pos0, 2, num_vars as nat)
    &&& expected == crate::sumcheck::additive_sum(m, point_evals, m)
    &&& eval_mle(lincomb(scalars, rows, pow2(num_vars as nat)), challenges_rev) == expected
}

/// Verifies a batch of claimed openings: replays the tensor squeeze, the
/// inner sum-check, rebuilds the combined commitment by a multi-scalar
/// combination, and checks its evaluation at the drawn point against the
/// sum-check's final expected value.
pub fn batch_verify(
    vp: &PlainPcsVerifierParam,
    num_vars: usize,
    comms: Vec<&PlainCommitment>,
    points: &Vec<Vec<Fp>>,
    evals: &Vec<Evaluation>,
    transcript: &mut Transcript,
) -> (r: Result<(), ProtocolError>)
    requires
        num_vars >= 1,
        comms.len() >= 1,
        points.len() >= 1,
        points.len() as int * 2 <= usize::MAX as int,
        evals.len() >= 2,
        evals.len() as int * 2 <= usize::MAX as int,
        forall|i: int|
            0 <= i < comms.len() ==> (#[trigger] comms@[i]).wf() && comms@[i].evals.len()
                == pow2(num_vars as nat),
        forall|i: int|
            0 <= i < points.len() ==> (#[trigger] points@[i]).len() == num_vars && fp_seq_wf(
                points@[i]@,
            ),
        forall|i: int|
            0 <= i < evals.len() ==> (#[trigger] evals@[i]).poly < comms.len() && evals@[
                i
            ].point < points.len() && evals@[i].value.wf(),
    ensures
        final(transcript).stream@ == old(transcript).stream@,
        r is Err ==> (r matches Err(ProtocolError::Transcript)) || (r matches Err(
            ProtocolError::InvalidSumcheck(_),
        )) || (r matches Err(ProtocolError::InvalidPcsParam(_))),
        r is Ok <==> old(transcript).pos + 8 * ((2 + 1) * num_vars + 2 * points.len())
            <= old(transcript).stream.len() && batch_verify_accepted(
            num_vars,
            Seq::new(comms.len() as nat, |i: int| comms@[i].e()),
            Seq::new(points.len() as nat, |i: int| residues(points@[i]@)),
            Seq::new(evals.len() as nat, |i: int| (evals@[i].poly as int, evals@[
                i
            ].point as int, evals@[i].value.as_int())),
            old(transcript).state@,
            old(transcript).stream@,
            old(transcript).pos as int,
        ),
{
    let ghost st0 = old(transcript).state@;
    let ghost stream = old(transcript).stream@;
    let ghost pos0 = old(transcript).pos as int;
    let ghost comm_rows = Seq::new(comms.len() as nat, |i: int| comms@[i].e());
    let ghost point_rows = Seq::new(points.len() as nat, |i: int| residues(points@[i]@));
    let ghost claims = Seq::new(
        evals.len() as nat,
        |i: int| (evals@[i].poly as int, evals@[i].point as int, evals@[i].value.as_int()),
    );
    let (ell, _cap) = log2_ceil(evals.len());
    let t = transcript.squeeze_challenges(ell);
    let eq_xt = MultilinearPolynomial::eq_xy(&t);
    proof {
        vstd::arithmetic::power2::lemma2_to64();
        assert(ell >= 1);
        assert(eq_xt.evals.len() == pow2(t.len() as nat));
        assert(eq_xt.evals.len() >= evals.len());
        assert(residues(t@) == crate::transcript::squeeze_n_vals(st0, ell as nat));
        assert(eq_xt.e() == crate::poly::multilinear::eq_tensor(
            crate::transcript::squeeze_n_vals(st0, log2_ceil_spec(evals.len() as nat)),
        ));
    }
    let mut values: Vec<Fp> = Vec::new();
    let mut v: usize = 0;
    while v < evals.len()
        invariant
            v <= evals.len(),
            values.len() == v,
            fp_seq_wf(values@),
            forall|i: int| 0 <= i < v ==> values@[i] == (#[trigger] evals@[i]).value,
            forall|i: int|
                0 <= i < evals.len() ==> (#[trigger] evals@[i]).poly < comms.len() && evals@[
                    i
                ].point < points.len() && evals@[i].value.wf(),
        decreases evals.len() - v,
    {
        values.push(evals[v].value);
        v = v + 1;
    }
    proof {
        assert(residues(values@) =~= claim_values(claims));
    }
    let tilde_gs_sum = inner_product(&values, &eq_xt.evals);
    let ghost sum_s = inner_product_spec(claim_values(claims), eq_xt.e(), claims.len());
    let ghost state1 = crate::transcript::squeeze_n_state(
        st0,
        log2_ceil_spec(evals.len() as nat),
    );
    proof {
        assert(tilde_gs_sum.as_int() == sum_s);
        assert(transcript.state@ == state1);
    }
    let svp = ClassicSumcheckVerifierParam::new(num_vars, 2);
    let num_polys = points.len() + points.len();
    let (g_prime_eval, point_evals, challenges) = match ClassicSumcheck::verify(
        &svp,
        2,
        tilde_gs_sum,
        num_polys,
        transcript,
    ) {
        Ok(triple) => triple,
        Err(e) => {
            proof {
                assert(!(pos0 + 8 * ((2 + 1) * num_vars + 2 * points.len()) <= stream.len()
                    && crate::sumcheck::sv_checks(sum_s, state1, stream, pos0, 2, num_vars as nat)));
            }
            return Err(e);
        },
    };
    proof {
        assert(pos0 + 8 * ((2 + 1) * num_vars + 2 * points.len()) <= stream.len());
        assert(crate::sumcheck::sv_checks(sum_s, state1, stream, pos0, 2, num_vars as nat));
    }

    // The final expected value must equal the combine function over the
    // returned per-polynomial evaluations; this binds those evaluations.
    let combine = CombineFunction::Additive { num_merged: points.len() };
    proof {
        assert(residues(point_evals@) == crate::transcript::read_vals(
            stream,
            pos0 + 8 * 3 * num_vars,
            (2 * points.len()) as nat,
        ));
    }
    let hval = combine.evaluate(&point_evals);
    if hval != g_prime_eval {
        proof {
            let m = points.len() as nat;
            assert(hval.as_int() == crate::sumcheck::additive_sum(
                m,
                crate::transcript::read_vals(stream, pos0 + 8 * 3 * num_vars, (2 * m) as nat),
                m,
            ));
            assert(g_prime_eval.as_int() == crate::sumcheck::sv_expected(
                sum_s,
                state1,
                stream,
                pos0,
                2,
                num_vars as nat,
            ));
            assert(hval.as_int() != g_prime_eval.as_int());
        }
        return Err(
            ProtocolError::InvalidSumcheck(
                "the batched combine value does not match the expected sum".to_string(),
            ),
        );
    }

    // Rebuild the combined commitment from the claimed ones.
    let mut scalars: Vec<Fp> = Vec::new();
    let mut bases: Vec<PlainCommitment> = Vec::new();
    let mut idx: usize = 0;
    while idx < evals.len()
        invariant
            idx <= evals.len(),
            num_vars >= 1,
            challenges.len() == num_vars,
            fp_seq_wf(challenges@),
            evals.len() <= eq_xt.evals.len(),
            eq_xt.wf(),
            scalars.len() == idx,
            bases.len() == idx,
            fp_seq_wf(scalars@),
            claims == Seq::new(
                evals.len() as nat,
                |i: int| (evals@[i].poly as int, evals@[i].point as int, evals@[
                    i
                ].value.as_int()),
            ),
            point_rows == Seq::new(points.len() as nat, |i: int| residues(points@[i]@)),
            comm_rows == Seq::new(comms.len() as nat, |i: int| comms@[i].e()),
            forall|i: int| 0 <= i < idx ==> (#[trigger] bases@[i]).wf(),
            forall|i: int|
                0 <= i < idx ==> (#[trigger] bases@[i]).evals.len() == pow2(num_vars as nat),
            forall|i: int|
                0 <= i < idx ==> (#[trigger] bases@[i]).e() == comm_rows[claims[i].0],
            forall|i: int|
                0 <= i < idx ==> (#[trigger] scalars@[i]).as_int() == mulm(
                    crate::poly::multilinear::eq_prod(
                        residues(challenges@),
                        point_rows[claims[i].1],
                    ),
                    residues(eq_xt.evals@)[i],
                ),
            forall|i: int|
                0 <= i < comms.len() ==> (#[trigger] comms@[i]).wf() && comms@[i].evals.len()
                    == pow2(num_vars as nat),
            forall|i: int|
                0 <= i < points.len() ==> (#[trigger] points@[i]).len() == num_vars
                    && fp_seq_wf(points@[i]@),
            forall|i: int|
                0 <= i < evals.len() ==> (#[trigger] evals@[i]).poly < comms.len() && evals@[
                    i
                ].point < points.len() && evals@[i].value.wf(),
        decreases evals.len() - idx,
    {
        let e = &evals[idx];
        let weight = eq_xy_eval(&challenges, &points[e.point]);
        scalars.push(weight.fmul(eq_xt.evals[idx]));
        let base = PlainCommitment { evals: crate::field::copy_fp_vec(&comms[e.poly].evals) };
        proof {
            assert(base.e() =~= comms@[e.poly as int].e());
        }
        bases.push(base);
        idx = idx + 1;
    }
    let g_prime_comm = msm_commitments(&scalars, &bases);
    proof {
        vstd::arithmetic::power2::lemma_pow2_pos(num_vars as nat);
        let ell_s = log2_ceil_spec(claims.len());
        let eqxt_s = crate::poly::multilinear::eq_tensor(
            crate::transcript::squeeze_n_vals(st0, ell_s),
        );
        let state1 = crate::transcript::squeeze_n_state(st0, ell_s);
        let m = point_rows.len();
        let challenges_rev = crate::sumcheck::sv_challenges(
            state1,
            stream,
            pos0,
            2,
            num_vars as nat,
        ).reverse();
        assert(residues(eq_xt.evals@) == eqxt_s);
        assert(residues(challenges@) == challenges_rev);
        let scal_s = Seq::new(
            claims.len(),
            |i: int| mulm(
                crate::poly::multilinear::eq_prod(challenges_rev, point_rows[claims[i].1]),
                eqxt_s[i],
            ),
        );
        let rows_s = Seq::new(claims.len(), |i: int| comm_rows[claims[i].0]);
        assert(residues(scalars@) =~= scal_s);
        assert(Seq::new(bases.len() as nat, |i: int| bases@[i].e()) =~= rows_s);
        assert(g_prime_comm.e() == lincomb(scal_s, rows_s, pow2(num_vars as nat)));
    }
    let result = PlainPcs::verify(vp, &g_prime_comm, &challenges, &g_prime_eval, transcript);
    proof {
        assert(result is Ok <==> eval_mle(g_prime_comm.e(), residues(challenges@))
            == g_prime_eval.as_int());
    }
    result
}

} // verus!
