//! Multilinear polynomials over the Boolean hypercube.
//!
//! A polynomial in `nu` variables is stored by its `2^nu` evaluations; the
//! canonical index of the Boolean assignment `(b_{nu-1}, ..., b_0)` is
//! `sum b_i * 2^i`. The optional coefficient vector is the inverse Moebius
//! transform of the evaluation vector. Specifications describe both vectors
//! through sequences of residues: `eval_mle` gives the multilinear extension
//! of an evaluation vector, `coeff_eval` the value of a coefficient vector,
//! and `mobius_steps` / `forward_steps` the two transforms.

use vstd::prelude::*;
use vstd::arithmetic::power2::pow2;
use vstd::arithmetic::div_mod::lemma_fundamental_div_mod;
use crate::field::{addm, mulm, subm, negm, residues, fp_seq_wf, Fp};
use crate::utils::pow2_exec;

verus! {

/// One variable-binding pass: pairs entry `i` of the low half with entry
/// `i + len/2` of the high half and interpolates at `c`.
pub open spec fn bind_top(e: Seq<int>, c: int) -> Seq<int> {
    Seq::new((e.len() / 2) as nat, |i: int| addm(e[i], mulm(c, subm(e[i + e.len() / 2], e[i]))))
}

/// Binds the variables `x[t..]`, highest variable first.
pub open spec fn fold_vars(e: Seq<int>, x: Seq<int>, t: nat) -> Seq<int>
    decreases x.len() - t,
{
    if t >= x.len() {
        e
    } else {
        bind_top(fold_vars(e, x, (t + 1) as nat), x[t as int])
    }
}

/// The multilinear extension of the evaluation vector `e` at the point `x`.
pub open spec fn eval_mle(e: Seq<int>, x: Seq<int>) -> int {
    fold_vars(e, x, 0)[0]
}

/// One variable-binding pass in coefficient form.
pub open spec fn coeff_bind_top(c: Seq<int>, x: int) -> Seq<int> {
    Seq::new((c.len() / 2) as nat, |i: int| addm(c[i], mulm(x, c[i + c.len() / 2])))
}

/// Binds the variables `x[t..]` of a coefficient vector.
pub open spec fn coeff_fold_vars(c: Seq<int>, x: Seq<int>, t: nat) -> Seq<int>
    decreases x.len() - t,
{
    if t >= x.len() {
        c
    } else {
        coeff_bind_top(coeff_fold_vars(c, x, (t + 1) as nat), x[t as int])
    }
}

/// The value of the coefficient vector `c` at the point `x`.
pub open spec fn coeff_eval(c: Seq<int>, x: Seq<int>) -> int {
    coeff_fold_vars(c, x, 0)[0]
}

/// One pass of the inverse Moebius transform: positions with bit `i` set
/// have their bit-cleared partner subtracted.
pub open spec fn step_sub(e: Seq<int>, i: nat) -> Seq<int> {
    Seq::new(
        e.len(),
        |j: int|
            if (j / pow2(i) as int) % 2 == 1 {
                subm(e[j], e[j - pow2(i)])
            } else {
                e[j]
            },
    )
}

/// One pass of the forward Moebius transform.
pub open spec fn step_add(e: Seq<int>, i: nat) -> Seq<int> {
    Seq::new(
        e.len(),
        |j: int|
            if (j / pow2(i) as int) % 2 == 1 {
                addm(e[j], e[j - pow2(i)])
            } else {
                e[j]
            },
    )
}

/// The inverse Moebius transform: subtraction passes for bits `i-1` down
/// to `0`, highest first.
pub open spec fn mobius_steps(e: Seq<int>, i: nat) -> Seq<int>
    decreases i,
{
    if i == 0 {
        e
    } else {
        mobius_steps(step_sub(e, (i - 1) as nat), (i - 1) as nat)
    }
}

/// The forward Moebius transform: addition passes for bits `0` up to
/// `i-1`, highest last.
pub open spec fn forward_steps(e: Seq<int>, i: nat) -> Seq<int>
    decreases i,
{
    if i == 0 {
        e
    } else {
        step_add(forward_steps(e, (i - 1) as nat), (i - 1) as nat)
    }
}

/// One doubling pass of the `eq` tensor: the new variable becomes the
/// least significant bit.
pub open spec fn eq_expand(inner: Seq<int>, c: int) -> Seq<int> {
    Seq::new(
        2 * inner.len(),
        |j: int|
            if j % 2 == 1 {
                mulm(inner[j / 2], c)
            } else {
                subm(inner[j / 2], mulm(inner[j / 2], c))
            },
    )
}

/// The evaluation vector of `eq(., y)` on the hypercube: entry `idx` is the
/// product over `i` of `y_i` where bit `i` of `idx` is set and `1 - y_i`
/// where it is clear.
pub open spec fn eq_tensor(y: Seq<int>) -> Seq<int>
    decreases y.len(),
{
    if y.len() == 0 {
        seq![1int]
    } else {
        eq_expand(eq_tensor(y.drop_first()), y[0])
    }
}

/// One factor of the `eq` product.
pub open spec fn eq_term(a: int, b: int) -> int {
    addm(mulm(a, b), mulm(subm(1, a), subm(1, b)))
}

/// `prod_i (x_i y_i + (1 - x_i)(1 - y_i))`.
pub open spec fn eq_prod(x: Seq<int>, y: Seq<int>) -> int
    decreases x.len(),
{
    if x.len() == 0 {
        1int
    } else {
        mulm(eq_term(x[0], y[0]), eq_prod(x.drop_first(), y.drop_first()))
    }
}

/// Every coordinate is Boolean.
pub open spec fn is_bool_seq(x: Seq<int>) -> bool {
    forall|i: int| 0 <= i < x.len() ==> x[i] == 0 || #[trigger] x[i] == 1
}

/// The canonical index of a Boolean assignment, least significant bit first.
pub open spec fn idx_of(x: Seq<int>) -> nat
    decreases x.len(),
{
    if x.len() == 0 {
        0
    } else {
        (idx_of(x.drop_last()) + if x.last() == 1 {
            pow2((x.len() - 1) as nat)
        } else {
            0nat
        }) as nat
    }
}

/// Elementwise modular scaling.
pub open spec fn scale_seq(e: Seq<int>, s: int) -> Seq<int> {
    Seq::new(e.len(), |i: int| mulm(e[i], s))
}

/// Elementwise modular addition.
pub open spec fn add_seq(a: Seq<int>, b: Seq<int>) -> Seq<int> {
    Seq::new(a.len(), |i: int| addm(a[i], b[i]))
}

/// Elementwise modular subtraction.
pub open spec fn sub_seq(a: Seq<int>, b: Seq<int>) -> Seq<int> {
    Seq::new(a.len(), |i: int| subm(a[i], b[i]))
}

/// Elementwise modular negation.
pub open spec fn neg_seq(a: Seq<int>) -> Seq<int> {
    Seq::new(a.len(), |i: int| negm(a[i]))
}

/// A multilinear polynomial: its evaluation vector over the hypercube, an
/// optional coefficient vector in the monomial basis, and the number of
/// variables. The empty value (`evals` empty, `num_vars == 0`) is the
/// additive identity.
#[derive(Clone, Debug)]
pub struct MultilinearPolynomial {
    pub evals: Vec<Fp>,
    pub coeffs: Vec<Fp>,
    pub num_vars: usize,
}

impl MultilinearPolynomial {
    /// Well-formedness: vector lengths fit the variable count and all
    /// elements are canonical residues.
    pub open spec fn wf(self) -> bool {
        &&& fp_seq_wf(self.evals@)
        &&& fp_seq_wf(self.coeffs@)
        &&& (self.evals.len() == 0 ==> self.num_vars == 0 && self.coeffs.len() == 0)
        &&& (self.evals.len() > 0 ==> self.evals.len() == pow2(self.num_vars as nat))
        &&& (self.coeffs.len() == 0 || self.coeffs.len() == self.evals.len())
    }

    /// The residues of the evaluation vector.
    pub open spec fn e(self) -> Seq<int> {
        residues(self.evals@)
    }

    /// The residues of the coefficient vector.
    pub open spec fn c(self) -> Seq<int> {
        residues(self.coeffs@)
    }

    /// The empty value stands for the zero polynomial.
    pub open spec fn spec_is_empty(self) -> bool {
        self.evals.len() == 0
    }

    /// The additive identity.
    pub fn zero() -> (r: Self)
        ensures
            r.wf(),
            r.spec_is_empty(),
            r.num_vars == 0,
            r.coeffs.len() == 0,
    {
        MultilinearPolynomial { evals: Vec::new(), coeffs: Vec::new(), num_vars: 0 }
    }

    /// Wraps the given vectors; fails verification unless they are sized
    /// for `num_vars`.
    pub fn new(evals: Vec<Fp>, coeffs: Vec<Fp>, num_vars: usize) -> (r: Self)
        requires
            fp_seq_wf(evals@),
            fp_seq_wf(coeffs@),
            evals.len() == 0 ==> num_vars == 0 && coeffs.len() == 0,
            evals.len() > 0 ==> evals.len() == pow2(num_vars as nat),
            coeffs.len() == 0 || coeffs.len() == evals.len(),
        ensures
            r.wf(),
            r.evals == evals,
            r.coeffs == coeffs,
            r.num_vars == num_vars,
    {
        MultilinearPolynomial { evals, coeffs, num_vars }
    }

    /// Whether this is the empty (zero) value.
    pub fn is_empty(&self) -> (r: bool)
        ensures
            r == self.spec_is_empty(),
    {
        self.evals.len() == 0
    }

    /// The number of variables.
    pub fn num_vars(&self) -> (r: usize)
        ensures
            r == self.num_vars,
    {
        self.num_vars
    }

    /// The evaluation vector.
    pub fn evals(&self) -> (r: &Vec<Fp>)
        ensures
            r == &self.evals,
    {
        &self.evals
    }

    /// The evaluation vector, by value.
    pub fn into_evals(self) -> (r: Vec<Fp>)
        ensures
            r == self.evals,
    {
        self.evals
    }

    /// The coefficient vector.
    pub fn coeffs(&self) -> (r: &Vec<Fp>)
        ensures
            r == &self.coeffs,
    {
        &self.coeffs
    }

    /// Builds the polynomial with evaluation vector `eval` and its inverse
    /// Moebius transform as coefficient vector.
    pub fn eval_to_coeff(eval: &Vec<Fp>, num_vars: usize) -> (r: Self)
        requires
            fp_seq_wf(eval@),
            eval.len() == pow2(num_vars as nat),
        ensures
            r.wf(),
            r.num_vars == num_vars,
            r.evals@ == eval@,
            residues(r.coeffs@) == mobius_steps(residues(eval@), num_vars as nat),
    {
        let mut result = crate::field::copy_fp_vec(eval);
        let ghost e0 = residues(eval@);
        let mut r_i: usize = 0;
        while r_i < num_vars
            invariant
                r_i <= num_vars,
                result.len() == eval.len(),
                eval.len() == pow2(num_vars as nat),
                fp_seq_wf(eval@),
                fp_seq_wf(result@),
                mobius_steps(residues(result@), (num_vars - r_i) as nat)
                    == mobius_steps(e0, num_vars as nat),
                e0 == residues(eval@),
            decreases num_vars - r_i,
        {
            let i = num_vars - 1 - r_i;
            proof {
                vstd::arithmetic::power2::lemma_pow2_strictly_increases(
                    i as nat,
                    num_vars as nat,
                );
            }
            let p2 = pow2_exec(i);
            let ghost snap = result@;
            let mut j: usize = 0;
            while j < result.len()
                invariant
                    j <= result.len(),
                    result.len() == snap.len(),
                    fp_seq_wf(snap),
                    fp_seq_wf(result@),
                    p2 == pow2(i as nat),
                    p2 >= 1,
                    forall|t: int| j <= t < snap.len() ==> result@[t] == snap[t],
                    forall|t: int|
                        0 <= t < j ==> #[trigger] result@[t].as_int()
                            == step_sub(residues(snap), i as nat)[t],
                decreases result.len() - j,
            {
                if (j / p2) % 2 == 1 {
                    proof {
                        lemma_fundamental_div_mod(j as int, p2 as int);
                        let q = j as int / p2 as int;
                        let rr = j as int % (p2 as int);
                        assert(q >= 0) by (nonlinear_arith)
                            requires
                                j as int == p2 as int * q + rr,
                                p2 as int >= 1,
                                j >= 0,
                                0 <= rr < p2 as int,
                        ;
                        assert(j as int >= p2 as int) by (nonlinear_arith)
                            requires
                                j as int == p2 as int * q + rr,
                                q % 2 == 1,
                                q >= 0,
                                p2 as int >= 1,
                                rr >= 0,
                        ;
                        assert(j as int - p2 as int == (q - 1) * (p2 as int) + rr)
                            by (nonlinear_arith)
                            requires
                                j as int == p2 as int * q + rr,
                        ;
                        vstd::arithmetic::div_mod::lemma_fundamental_div_mod_converse(
                            j as int - p2 as int,
                            p2 as int,
                            q - 1,
                            rr,
                        );
                        assert((q - 1) % 2 == 0);
                        assert(step_sub(residues(snap), i as nat)[j - p2]
                            == residues(snap)[j - p2]);
                    }
                    let d = result[j].fsub(result[j - p2]);
                    result[j] = d;
                    proof {
                        assert(result@[j as int].as_int()
                            == step_sub(residues(snap), i as nat)[j as int]);
                    }
                } else {
                }
                j = j + 1;
            }
            proof {
                assert(residues(result@) =~= step_sub(residues(snap), i as nat));
                assert((num_vars - r_i) as nat == (i + 1) as nat);
                assert(mobius_steps(residues(snap), (i + 1) as nat)
                    == mobius_steps(step_sub(residues(snap), i as nat), i as nat));
            }
            r_i = r_i + 1;
        }
        let evals_copy = crate::field::copy_fp_vec(eval);
        proof {
            assert(mobius_steps(residues(result@), 0) == residues(result@));
            vstd::arithmetic::power2::lemma_pow2_pos(num_vars as nat);
        }
        MultilinearPolynomial { evals: evals_copy, coeffs: result, num_vars }
    }

    /// Evaluates the polynomial at an arbitrary point, binding the highest
    /// variable first.
    pub fn evaluate(&self, point: &Vec<Fp>) -> (r: Fp)
        requires
            self.wf(),
            !self.spec_is_empty(),
            point.len() == self.num_vars,
            fp_seq_wf(point@),
        ensures
            r.wf(),
            r.as_int() == eval_mle(self.e(), residues(point@)),
    {
        let mut buf = crate::field::copy_fp_vec(&self.evals);
        let ghost e0 = self.e();
        let ghost x = residues(point@);
        let nv = self.num_vars;
        let mut r_i: usize = 0;
        while r_i < nv
            invariant
                r_i <= nv,
                fp_seq_wf(buf@),
                point.len() == nv,
                fp_seq_wf(point@),
                x == residues(point@),
                buf.len() == pow2((nv - r_i) as nat),
                residues(buf@) == fold_vars(e0, x, (nv - r_i) as nat),
            decreases nv - r_i,
        {
            let i = nv - 1 - r_i;
            proof {
                assert(pow2((nv - r_i) as nat) == 2 * pow2((nv - r_i - 1) as nat)) by {
                    vstd::arithmetic::power2::lemma_pow2_unfold((nv - r_i) as nat);
                }
            }
            let half = buf.len() / 2;
            let xi = point[i];
            let ghost snap = buf@;
            let mut j: usize = 0;
            while j < half
                invariant
                    j <= half,
                    buf.len() == snap.len(),
                    half == snap.len() / 2,
                    snap.len() == 2 * half,
                    fp_seq_wf(snap),
                    fp_seq_wf(buf@),
                    xi.wf(),
                    forall|t: int| j <= t < snap.len() ==> buf@[t] == snap[t],
                    forall|t: int|
                        0 <= t < j ==> #[trigger] buf@[t].as_int()
                            == bind_top(residues(snap), xi.as_int())[t],
                decreases half - j,
            {
                let lo = buf[j];
                let hi = buf[j + half];
                buf[j] = lo.fadd(xi.fmul(hi.fsub(lo)));
                j = j + 1;
            }
            buf.truncate(half);
            proof {
                assert(residues(buf@) =~= bind_top(residues(snap), xi.as_int()));
                assert(fold_vars(e0, x, (nv - r_i - 1) as nat)
                    == bind_top(fold_vars(e0, x, (nv - r_i) as nat), x[(nv - r_i - 1) as int]));
            }
            r_i = r_i + 1;
        }
        proof {
            assert(buf.len() == pow2(0));
            vstd::arithmetic::power2::lemma2_to64();
        }
        buf[0]
    }

    /// Evaluates the coefficient vector at an arbitrary point, binding the
    /// highest variable first.
    pub fn eval_by_coeff(&self, point: &Vec<Fp>) -> (r: Fp)
        requires
            self.wf(),
            self.coeffs.len() == pow2(self.num_vars as nat),
            point.len() == self.num_vars,
            fp_seq_wf(point@),
        ensures
            r.wf(),
            r.as_int() == coeff_eval(self.c(), residues(point@)),
    {
        eval_coeff_vec(&self.coeffs, point)
    }
}

/// Evaluates a bare coefficient vector at an arbitrary point, binding the
/// highest variable first.
pub fn eval_coeff_vec(coeffs: &Vec<Fp>, point: &Vec<Fp>) -> (r: Fp)
    requires
        fp_seq_wf(coeffs@),
        fp_seq_wf(point@),
        coeffs.len() == pow2(point.len() as nat),
    ensures
        r.wf(),
        r.as_int() == coeff_eval(residues(coeffs@), residues(point@)),
{
    {
        let mut buf = crate::field::copy_fp_vec(coeffs);
        let ghost c0 = residues(coeffs@);
        let ghost x = residues(point@);
        let nv = point.len();
        let mut r_i: usize = 0;
        while r_i < nv
            invariant
                r_i <= nv,
                fp_seq_wf(buf@),
                point.len() == nv,
                fp_seq_wf(point@),
                x == residues(point@),
                buf.len() == pow2((nv - r_i) as nat),
                residues(buf@) == coeff_fold_vars(c0, x, (nv - r_i) as nat),
            decreases nv - r_i,
        {
            let i = nv - 1 - r_i;
            proof {
                assert(pow2((nv - r_i) as nat) == 2 * pow2((nv - r_i - 1) as nat)) by {
                    vstd::arithmetic::power2::lemma_pow2_unfold((nv - r_i) as nat);
                }
            }
            let half = buf.len() / 2;
            let xi = point[i];
            let ghost snap = buf@;
            let mut j: usize = 0;
            while j < half
                invariant
                    j <= half,
                    buf.len() == snap.len(),
                    half == snap.len() / 2,
                    snap.len() == 2 * half,
                    fp_seq_wf(snap),
                    fp_seq_wf(buf@),
                    xi.wf(),
                    forall|t: int| j <= t < snap.len() ==> buf@[t] == snap[t],
                    forall|t: int|
                        0 <= t < j ==> #[trigger] buf@[t].as_int()
                            == coeff_bind_top(residues(snap), xi.as_int())[t],
                decreases half - j,
            {
                let lo = buf[j];
                let hi = buf[j + half];
                buf[j] = lo.fadd(xi.fmul(hi));
                j = j + 1;
            }
            buf.truncate(half);
            proof {
                assert(residues(buf@) =~= coeff_bind_top(residues(snap), xi.as_int()));
                assert(coeff_fold_vars(c0, x, (nv - r_i - 1) as nat)
                    == coeff_bind_top(
                        coeff_fold_vars(c0, x, (nv - r_i) as nat),
                        x[(nv - r_i - 1) as int],
                    ));
            }
            r_i = r_i + 1;
        }
        proof {
            assert(buf.len() == pow2(0));
            vstd::arithmetic::power2::lemma2_to64();
        }
        buf[0]
    }
}

impl MultilinearPolynomial {
    /// The polynomial that is `1` at `y` and `0` elsewhere on the hypercube,
    /// extended multilinearly; the empty point gives the zero value.
    pub fn eq_xy(y: &Vec<Fp>) -> (r: Self)
        requires
            fp_seq_wf(y@),
        ensures
            r.wf(),
            y.len() == 0 ==> r.spec_is_empty(),
            y.len() > 0 ==> {
                &&& r.num_vars == y.len()
                &&& r.coeffs.len() == 0
                &&& residues(r.evals@) == eq_tensor(residues(y@))
            },
    {
        if y.len() == 0 {
            return Self::zero();
        }
        let mut evals: Vec<Fp> = Vec::new();
        evals.push(Fp::one());
        let ghost ys = residues(y@);
        proof {
            assert(residues(evals@) =~= eq_tensor(ys.subrange(y.len() as int, y.len() as int)));
            vstd::arithmetic::power2::lemma2_to64();
        }
        let mut k = y.len();
        while k > 0
            invariant
                k <= y.len(),
                fp_seq_wf(y@),
                fp_seq_wf(evals@),
                ys == residues(y@),
                evals.len() == pow2((y.len() - k) as nat),
                residues(evals@) == eq_tensor(ys.subrange(k as int, y.len() as int)),
            decreases k,
        {
            let yi = y[k - 1];
            let mut next: Vec<Fp> = Vec::new();
            let ghost inner = residues(evals@);
            let mut t: usize = 0;
            while t < evals.len()
                invariant
                    t <= evals.len(),
                    fp_seq_wf(evals@),
                    fp_seq_wf(next@),
                    yi.wf(),
                    inner == residues(evals@),
                    next.len() == 2 * t,
                    forall|j: int|
                        0 <= j < 2 * t ==> #[trigger] next@[j].as_int()
                            == eq_expand(inner, yi.as_int())[j],
                decreases evals.len() - t,
            {
                let odd = evals[t].fmul(yi);
                let even = evals[t].fsub(odd);
                next.push(even);
                next.push(odd);
                t = t + 1;
            }
            proof {
                assert(residues(next@) =~= eq_expand(inner, yi.as_int()));
                let sub1 = ys.subrange(k as int - 1, y.len() as int);
                assert(sub1.drop_first() =~= ys.subrange(k as int, y.len() as int));
                assert(eq_tensor(sub1) == eq_expand(eq_tensor(sub1.drop_first()), sub1[0]));
                assert(sub1[0] == ys[k as int - 1]);
                assert(pow2((y.len() - k + 1) as nat) == 2 * pow2((y.len() - k) as nat)) by {
                    vstd::arithmetic::power2::lemma_pow2_unfold((y.len() - k + 1) as nat);
                }
            }
            evals = next;
            k = k - 1;
        }
        proof {
            assert(ys.subrange(0, y.len() as int) =~= ys);
            vstd::arithmetic::power2::lemma_pow2_pos(y.len() as nat);
        }
        MultilinearPolynomial { evals, coeffs: Vec::new(), num_vars: y.len() }
    }
}

/// Scales every element of a vector in place.
fn scale_vec(v: &mut Vec<Fp>, s: Fp)
    requires
        fp_seq_wf(old(v)@),
        s.wf(),
    ensures
        fp_seq_wf(final(v)@),
        final(v).len() == old(v).len(),
        residues(final(v)@) == scale_seq(residues(old(v)@), s.as_int()),
{
    let ghost snap = v@;
    let mut j: usize = 0;
    while j < v.len()
        invariant
            j <= v.len(),
            v.len() == snap.len(),
            fp_seq_wf(snap),
            fp_seq_wf(v@),
            s.wf(),
            forall|t: int| j <= t < snap.len() ==> v@[t] == snap[t],
            forall|t: int|
                0 <= t < j ==> #[trigger] v@[t].as_int()
                    == scale_seq(residues(snap), s.as_int())[t],
        decreases v.len() - j,
    {
        let x = v[j].fmul(s);
        v[j] = x;
        j = j + 1;
    }
    proof {
        assert(residues(v@) =~= scale_seq(residues(snap), s.as_int()));
    }
}

/// Adds a vector into another, elementwise.
fn add_vec(v: &mut Vec<Fp>, rhs: &Vec<Fp>)
    requires
        fp_seq_wf(old(v)@),
        fp_seq_wf(rhs@),
        old(v).len() == rhs.len(),
    ensures
        fp_seq_wf(final(v)@),
        final(v).len() == old(v).len(),
        residues(final(v)@) == add_seq(residues(old(v)@), residues(rhs@)),
{
    let ghost snap = v@;
    let mut j: usize = 0;
    while j < v.len()
        invariant
            j <= v.len(),
            v.len() == snap.len(),
            rhs.len() == snap.len(),
            fp_seq_wf(snap),
            fp_seq_wf(v@),
            fp_seq_wf(rhs@),
            forall|t: int| j <= t < snap.len() ==> v@[t] == snap[t],
            forall|t: int|
                0 <= t < j ==> #[trigger] v@[t].as_int()
                    == add_seq(residues(snap), residues(rhs@))[t],
        decreases v.len() - j,
    {
        let x = v[j].fadd(rhs[j]);
        v[j] = x;
        j = j + 1;
    }
    proof {
        assert(residues(v@) =~= add_seq(residues(snap), residues(rhs@)));
    }
}

/// Subtracts a vector from another, elementwise.
fn sub_vec(v: &mut Vec<Fp>, rhs: &Vec<Fp>)
    requires
        fp_seq_wf(old(v)@),
        fp_seq_wf(rhs@),
        old(v).len() == rhs.len(),
    ensures
        fp_seq_wf(final(v)@),
        final(v).len() == old(v).len(),
        residues(final(v)@) == sub_seq(residues(old(v)@), residues(rhs@)),
{
    let ghost snap = v@;
    let mut j: usize = 0;
    while j < v.len()
        invariant
            j <= v.len(),
            v.len() == snap.len(),
            rhs.len() == snap.len(),
            fp_seq_wf(snap),
            fp_seq_wf(v@),
            fp_seq_wf(rhs@),
            forall|t: int| j <= t < snap.len() ==> v@[t] == snap[t],
            forall|t: int|
                0 <= t < j ==> #[trigger] v@[t].as_int()
                    == sub_seq(residues(snap), residues(rhs@))[t],
        decreases v.len() - j,
    {
        let x = v[j].fsub(rhs[j]);
        v[j] = x;
        j = j + 1;
    }
    proof {
        assert(residues(v@) =~= sub_seq(residues(snap), residues(rhs@)));
    }
}

/// Negates every element of a vector in place.
fn neg_vec(v: &mut Vec<Fp>)
    requires
        fp_seq_wf(old(v)@),
    ensures
        fp_seq_wf(final(v)@),
        final(v).len() == old(v).len(),
        residues(final(v)@) == neg_seq(residues(old(v)@)),
{
    let ghost snap = v@;
    let mut j: usize = 0;
    while j < v.len()
        invariant
            j <= v.len(),
            v.len() == snap.len(),
            fp_seq_wf(snap),
            fp_seq_wf(v@),
            forall|t: int| j <= t < snap.len() ==> v@[t] == snap[t],
            forall|t: int|
                0 <= t < j ==> #[trigger] v@[t].as_int() == neg_seq(residues(snap))[t],
        decreases v.len() - j,
    {
        let x = v[j].fneg();
        v[j] = x;
        j = j + 1;
    }
    proof {
        assert(residues(v@) =~= neg_seq(residues(snap)));
    }
}

impl MultilinearPolynomial {
    /// Copies the polynomial, keeping its contents.
    pub fn duplicate(&self) -> (r: Self)
        ensures
            r.evals@ == self.evals@,
            r.coeffs@ == self.coeffs@,
            r.num_vars == self.num_vars,
    {
        MultilinearPolynomial {
            evals: crate::field::copy_fp_vec(&self.evals),
            coeffs: crate::field::copy_fp_vec(&self.coeffs),
            num_vars: self.num_vars,
        }
    }

    /// Scales the polynomial by a field element; both vectors are scaled.
    pub fn scale(&mut self, s: Fp)
        requires
            old(self).wf(),
            s.wf(),
        ensures
            final(self).wf(),
            final(self).num_vars == old(self).num_vars,
            final(self).evals.len() == old(self).evals.len(),
            final(self).coeffs.len() == old(self).coeffs.len(),
            final(self).e() == scale_seq(old(self).e(), s.as_int()),
            final(self).c() == scale_seq(old(self).c(), s.as_int()),
    {
        scale_vec(&mut self.evals, s);
        scale_vec(&mut self.coeffs, s);
    }

    /// Adds another polynomial. The empty value is the additive identity;
    /// otherwise the variable counts must agree. The coefficient vector is
    /// kept only when both sides carry one.
    pub fn add_assign_poly(&mut self, rhs: &Self)
        requires
            old(self).wf(),
            rhs.wf(),
            !old(self).spec_is_empty() && !rhs.spec_is_empty() ==> old(self).num_vars
                == rhs.num_vars,
        ensures
            final(self).wf(),
            rhs.spec_is_empty() ==> *final(self) == *old(self),
            !rhs.spec_is_empty() && old(self).spec_is_empty() ==> {
                &&& final(self).e() == rhs.e()
                &&& final(self).c() == rhs.c()
                &&& final(self).num_vars == rhs.num_vars
            },
            !rhs.spec_is_empty() && !old(self).spec_is_empty() ==> {
                &&& final(self).num_vars == old(self).num_vars
                &&& final(self).e() == add_seq(old(self).e(), rhs.e())
                &&& (if old(self).coeffs.len() == rhs.coeffs.len() && old(self).coeffs.len()
                    > 0 {
                    final(self).c() == add_seq(old(self).c(), rhs.c())
                } else {
                    final(self).coeffs.len() == 0
                })
            },
    {
        if rhs.is_empty() {
            return ;
        }
        if self.is_empty() {
            *self = rhs.duplicate();
            proof {
                assert(self.e() =~= rhs.e());
                assert(self.c() =~= rhs.c());
            }
            return ;
        }
        add_vec(&mut self.evals, &rhs.evals);
        if self.coeffs.len() == rhs.coeffs.len() && self.coeffs.len() > 0 {
            add_vec(&mut self.coeffs, &rhs.coeffs);
        } else {
            self.coeffs = Vec::new();
        }
    }

    /// Subtracts another polynomial, with the same conventions as addition.
    pub fn sub_assign_poly(&mut self, rhs: &Self)
        requires
            old(self).wf(),
            rhs.wf(),
            !old(self).spec_is_empty() && !rhs.spec_is_empty() ==> old(self).num_vars
                == rhs.num_vars,
        ensures
            final(self).wf(),
            rhs.spec_is_empty() ==> *final(self) == *old(self),
            !rhs.spec_is_empty() && old(self).spec_is_empty() ==> {
                &&& final(self).e() == neg_seq(rhs.e())
                &&& final(self).c() == neg_seq(rhs.c())
                &&& final(self).num_vars == rhs.num_vars
            },
            !rhs.spec_is_empty() && !old(self).spec_is_empty() ==> {
                &&& final(self).num_vars == old(self).num_vars
                &&& final(self).e() == sub_seq(old(self).e(), rhs.e())
                &&& (if old(self).coeffs.len() == rhs.coeffs.len() && old(self).coeffs.len()
                    > 0 {
                    final(self).c() == sub_seq(old(self).c(), rhs.c())
                } else {
                    final(self).coeffs.len() == 0
                })
            },
    {
        if rhs.is_empty() {
            return ;
        }
        if self.is_empty() {
            *self = rhs.duplicate();
            neg_vec(&mut self.evals);
            neg_vec(&mut self.coeffs);
            proof {
                assert(self.e() =~= neg_seq(rhs.e()));
                assert(self.c() =~= neg_seq(rhs.c()));
            }
            return ;
        }
        sub_vec(&mut self.evals, &rhs.evals);
        if self.coeffs.len() == rhs.coeffs.len() && self.coeffs.len() > 0 {
            sub_vec(&mut self.coeffs, &rhs.coeffs);
        } else {
            self.coeffs = Vec::new();
        }
    }

    /// Adds a scalar multiple of another polynomial.
    pub fn add_scaled(&mut self, scalar: Fp, rhs: &Self)
        requires
            old(self).wf(),
            rhs.wf(),
            scalar.wf(),
            !old(self).spec_is_empty() && !rhs.spec_is_empty() ==> old(self).num_vars
                == rhs.num_vars,
        ensures
            final(self).wf(),
            rhs.spec_is_empty() ==> *final(self) == *old(self),
            !rhs.spec_is_empty() && old(self).spec_is_empty() ==> {
                &&& final(self).e() == scale_seq(rhs.e(), scalar.as_int())
                &&& final(self).num_vars == rhs.num_vars
            },
            !rhs.spec_is_empty() && !old(self).spec_is_empty() ==> {
                &&& final(self).num_vars == old(self).num_vars
                &&& final(self).e() == add_seq(
                    old(self).e(),
                    scale_seq(rhs.e(), scalar.as_int()),
                )
            },
    {
        if rhs.is_empty() {
            return ;
        }
        let mut tmp = rhs.duplicate();
        proof {
            assert(tmp.e() =~= rhs.e());
            assert(tmp.c() =~= rhs.c());
            assert(tmp.evals@ =~= rhs.evals@);
            assert(tmp.coeffs@ =~= rhs.coeffs@);
        }
        tmp.scale(scalar);
        self.add_assign_poly(&tmp);
    }
}

/// The inverse Moebius transform keeps the vector length.
pub proof fn lemma_mobius_steps_len(e: Seq<int>, i: nat)
    ensures
        mobius_steps(e, i).len() == e.len(),
    decreases i,
{
    if i > 0 {
        lemma_mobius_steps_len(step_sub(e, (i - 1) as nat), (i - 1) as nat);
    }
}

} // verus!
