//! The prime field the protocol works over.
//!
//! Elements are residues modulo the Mersenne prime `P = 2^31 - 1`, stored in
//! canonical form (`0 <= v < P`, the `wf` predicate). Specifications talk
//! about an element through its integer residue (`as_int`) and the
//! spec-level operations `addm`, `subm`, `mulm`, `negm` and `powm` over
//! `int`, which always return canonical residues.

use vstd::prelude::*;
use vstd::arithmetic::div_mod::{
    lemma_add_mod_noop,
    lemma_mod_add_multiples_vanish,
    lemma_mul_mod_noop_general,
    lemma_small_mod,
};

verus! {

/// The field modulus, a Mersenne prime small enough that sums and products
/// of canonical residues fit in `u64`.
pub const P: u64 = 0x7fff_ffff;

/// Residue of a sum.
pub open spec fn addm(a: int, b: int) -> int {
    (a + b) % (P as int)
}

/// Residue of a difference.
pub open spec fn subm(a: int, b: int) -> int {
    (a - b) % (P as int)
}

/// Residue of a product.
pub open spec fn mulm(a: int, b: int) -> int {
    (a * b) % (P as int)
}

/// Residue of a negation.
pub open spec fn negm(a: int) -> int {
    (0 - a) % (P as int)
}

/// Residue of a power.
pub open spec fn powm(a: int, e: nat) -> int
    decreases e,
{
    if e == 0 {
        1int % (P as int)
    } else {
        mulm(a, powm(a, (e - 1) as nat))
    }
}

/// A residue is canonical when it lies in `[0, P)`.
pub open spec fn reduced(a: int) -> bool {
    0 <= a < P as int
}

/// A field element.
#[derive(Clone, Copy, PartialEq, Eq, Structural, Debug)]
pub struct Fp {
    pub v: u64,
}

impl Fp {
    /// Canonical form: the stored representative is a reduced residue.
    pub open spec fn wf(self) -> bool {
        self.v < P
    }

    /// The residue this element stands for.
    pub open spec fn as_int(self) -> int {
        self.v as int
    }

    /// The additive identity.
    pub fn zero() -> (r: Fp)
        ensures
            r.wf(),
            r.as_int() == 0,
    {
        Fp { v: 0 }
    }

    /// The multiplicative identity.
    pub fn one() -> (r: Fp)
        ensures
            r.wf(),
            r.as_int() == 1,
    {
        Fp { v: 1 }
    }

    /// The element standing for an arbitrary machine integer.
    pub fn from_u64(v: u64) -> (r: Fp)
        ensures
            r.wf(),
            r.as_int() == v as int % (P as int),
    {
        Fp { v: v % P }
    }

    /// The canonical representative as a machine integer.
    pub fn to_u64(self) -> (r: u64)
        ensures
            r as int == self.as_int(),
    {
        self.v
    }

    /// Field addition.
    pub fn fadd(self, rhs: Fp) -> (r: Fp)
        requires
            self.wf(),
            rhs.wf(),
        ensures
            r.wf(),
            r.as_int() == addm(self.as_int(), rhs.as_int()),
    {
        Fp { v: (self.v + rhs.v) % P }
    }

    /// Field subtraction.
    pub fn fsub(self, rhs: Fp) -> (r: Fp)
        requires
            self.wf(),
            rhs.wf(),
        ensures
            r.wf(),
            r.as_int() == subm(self.as_int(), rhs.as_int()),
    {
        proof {
            lemma_mod_add_multiples_vanish(self.v as int - rhs.v as int, P as int);
        }
        Fp { v: (self.v + P - rhs.v) % P }
    }

    /// Field negation.
    pub fn fneg(self) -> (r: Fp)
        requires
            self.wf(),
        ensures
            r.wf(),
            r.as_int() == negm(self.as_int()),
    {
        proof {
            lemma_mod_add_multiples_vanish(0 - self.v as int, P as int);
        }
        Fp { v: (P - self.v) % P }
    }

    /// Field multiplication.
    pub fn fmul(self, rhs: Fp) -> (r: Fp)
        requires
            self.wf(),
            rhs.wf(),
        ensures
            r.wf(),
            r.as_int() == mulm(self.as_int(), rhs.as_int()),
    {
        proof {
            assert(self.v * rhs.v <= (P - 1) * (P - 1)) by (nonlinear_arith)
                requires
                    self.v < P,
                    rhs.v < P,
            ;
        }
        Fp { v: (self.v * rhs.v) % P }
    }

    /// Field exponentiation by square and multiply.
    pub fn fpow(self, e: u64) -> (r: Fp)
        requires
            self.wf(),
        ensures
            r.wf(),
            r.as_int() == powm(self.as_int(), e as nat),
    {
        let mut base = self;
        let mut exp = e;
        let mut acc = Fp::one();
        proof {
            lemma_powm_reduced(base.as_int(), exp as nat);
            lemma_mulm_one(powm(base.as_int(), exp as nat));
            lemma_mulm_comm(powm(base.as_int(), exp as nat), 1);
        }
        while exp > 0
            invariant
                base.wf(),
                acc.wf(),
                mulm(acc.as_int(), powm(base.as_int(), exp as nat))
                    == powm(self.as_int(), e as nat),
            decreases exp,
        {
            let ghost a0 = acc.as_int();
            let ghost b0 = base.as_int();
            let ghost e0 = exp as nat;
            if exp % 2 == 1 {
                acc = acc.fmul(base);
            }
            base = base.fmul(base);
            exp = exp / 2;
            proof {
                lemma_powm_even(b0, (exp as nat));
                if e0 % 2 == 1 {
                    assert(e0 == 2 * (exp as nat) + 1);
                    assert(powm(b0, e0) == mulm(b0, powm(b0, 2 * (exp as nat))));
                    lemma_mulm_assoc(a0, b0, powm(b0, 2 * (exp as nat)));
                } else {
                    assert(e0 == 2 * (exp as nat));
                }
            }
        }
        proof {
            lemma_small_mod(1nat, P as nat);
            lemma_mulm_one(acc.as_int());
        }
        acc
    }

    /// Field inversion by Fermat's little theorem; maps zero to zero.
    pub fn finv(self) -> (r: Fp)
        requires
            self.wf(),
        ensures
            r.wf(),
            r.as_int() == powm(self.as_int(), (P - 2) as nat),
    {
        self.fpow(P - 2)
    }
}

/// Copies a vector of field elements, keeping its contents.
pub fn copy_fp_vec(v: &Vec<Fp>) -> (r: Vec<Fp>)
    ensures
        r@ == v@,
{
    let r = v.clone();
    proof {
        assert forall|i: int| 0 <= i < v@.len() implies r@[i] == v@[i] by {
            assert(cloned::<Fp>(v@[i], r@[i]));
        }
        assert(r@ =~= v@);
    }
    r
}

/// Every sequence element is a well-formed field element.
pub open spec fn fp_seq_wf(s: Seq<Fp>) -> bool {
    forall|i: int| 0 <= i < s.len() ==> #[trigger] s[i].wf()
}

/// The sequence of residues a sequence of field elements stands for.
pub open spec fn residues(s: Seq<Fp>) -> Seq<int> {
    Seq::new(s.len(), |i: int| s[i].as_int())
}

/// A sequence of canonical residues.
pub open spec fn reduced_seq(s: Seq<int>) -> bool {
    forall|i: int| 0 <= i < s.len() ==> reduced(#[trigger] s[i])
}

/// The residues of well-formed elements are canonical.
pub proof fn lemma_residues_reduced(s: Seq<Fp>)
    requires
        fp_seq_wf(s),
    ensures
        reduced_seq(residues(s)),
{
    assert forall|i: int| 0 <= i < residues(s).len() implies reduced(
        #[trigger] residues(s)[i],
    ) by {
        assert(s[i].wf());
    }
}

/// Sums of residues are canonical.
pub proof fn lemma_addm_reduced(a: int, b: int)
    ensures
        reduced(addm(a, b)),
{
}

/// Differences of residues are canonical.
pub proof fn lemma_subm_reduced(a: int, b: int)
    ensures
        reduced(subm(a, b)),
{
}

/// Powers of residues are canonical.
pub proof fn lemma_powm_reduced(a: int, e: nat)
    ensures
        reduced(powm(a, e)),
    decreases e,
{
    if e == 0 {
        lemma_small_mod(1nat, P as nat);
    } else {
        lemma_powm_reduced(a, (e - 1) as nat);
    }
}

/// A canonical residue is fixed by reduction.
pub proof fn lemma_reduce_id(a: int)
    requires
        reduced(a),
    ensures
        a % (P as int) == a,
{
    lemma_small_mod(a as nat, P as nat);
}

/// Addition of residues commutes.
pub proof fn lemma_addm_comm(a: int, b: int)
    ensures
        addm(a, b) == addm(b, a),
{
}

/// Multiplication of residues commutes.
pub proof fn lemma_mulm_comm(a: int, b: int)
    ensures
        mulm(a, b) == mulm(b, a),
{
    assert(a * b == b * a) by (nonlinear_arith);
}

/// One is a multiplicative identity on canonical residues.
pub proof fn lemma_mulm_one(a: int)
    ensures
        mulm(a, 1) == a % (P as int),
{
}

/// Zero is an additive identity on canonical residues.
pub proof fn lemma_addm_zero(a: int)
    ensures
        addm(a, 0) == a % (P as int),
{
}

/// Reduction of the left addend does not change a modular sum.
pub proof fn lemma_addm_left(a: int, b: int)
    ensures
        addm(a % (P as int), b) == addm(a, b),
{
    lemma_add_mod_noop(a, b, P as int);
    lemma_reduce_id(addm(a, b));
    lemma_reduce_id((a % (P as int) + b % (P as int)) % (P as int));
    lemma_add_mod_noop(a % (P as int), b, P as int);
    vstd::arithmetic::div_mod::lemma_mod_twice(a, P as int);
}

/// Reduction of the right addend does not change a modular sum.
pub proof fn lemma_addm_right(a: int, b: int)
    ensures
        addm(a, b % (P as int)) == addm(a, b),
{
    lemma_addm_comm(a, b % (P as int));
    lemma_addm_left(b, a);
    lemma_addm_comm(b, a);
}

/// Reduction of the left factor does not change a modular product.
pub proof fn lemma_mulm_left(a: int, b: int)
    ensures
        mulm(a % (P as int), b) == mulm(a, b),
{
    lemma_mul_mod_noop_general(a, b, P as int);
}

/// Reduction of the right factor does not change a modular product.
pub proof fn lemma_mulm_right(a: int, b: int)
    ensures
        mulm(a, b % (P as int)) == mulm(a, b),
{
    lemma_mul_mod_noop_general(a, b, P as int);
}

/// Reduction of the left operand does not change a modular difference.
pub proof fn lemma_subm_left(a: int, b: int)
    ensures
        subm(a % (P as int), b) == subm(a, b),
{
    vstd::arithmetic::div_mod::lemma_sub_mod_noop(a, b, P as int);
    vstd::arithmetic::div_mod::lemma_sub_mod_noop(a % (P as int), b, P as int);
    vstd::arithmetic::div_mod::lemma_mod_twice(a, P as int);
}

/// Reduction of the right operand does not change a modular difference.
pub proof fn lemma_subm_right(a: int, b: int)
    ensures
        subm(a, b % (P as int)) == subm(a, b),
{
    vstd::arithmetic::div_mod::lemma_sub_mod_noop(a, b, P as int);
    vstd::arithmetic::div_mod::lemma_sub_mod_noop(a, b % (P as int), P as int);
    vstd::arithmetic::div_mod::lemma_mod_twice(b, P as int);
}

/// Removing a modular sum's reduction before subtracting restores the plain
/// difference: `(a + b) - b` reduces to `a`.
pub proof fn lemma_subm_addm(a: int, b: int)
    requires
        reduced(a),
    ensures
        subm(addm(a, b), b) == a,
{
    lemma_subm_left(a + b, b);
    lemma_reduce_id(a);
}

/// Addition of residues associates.
pub proof fn lemma_addm_assoc(a: int, b: int, c: int)
    ensures
        addm(addm(a, b), c) == addm(a, addm(b, c)),
{
    lemma_addm_left(a + b, c);
    lemma_addm_right(a, b + c);
    assert((a + b) + c == a + (b + c));
}

/// Multiplication of residues associates.
pub proof fn lemma_mulm_assoc(a: int, b: int, c: int)
    ensures
        mulm(mulm(a, b), c) == mulm(a, mulm(b, c)),
{
    lemma_mulm_left(a * b, c);
    lemma_mulm_right(a, b * c);
    assert((a * b) * c == a * (b * c)) by (nonlinear_arith);
}

/// Adding a difference back restores a canonical residue.
pub proof fn lemma_addm_subm(a: int, b: int)
    requires
        reduced(a),
    ensures
        addm(b, subm(a, b)) == a,
{
    lemma_addm_right(b, a - b);
    assert(b + (a - b) == a);
    lemma_reduce_id(a);
}

/// Doubling an exponent squares the base.
pub proof fn lemma_powm_even(a: int, k: nat)
    ensures
        powm(a, 2 * k) == powm(mulm(a, a), k),
    decreases k,
{
    if k == 0 {
    } else {
        lemma_powm_even(a, (k - 1) as nat);
        assert(2 * k == 2 * (k - 1) + 2);
        assert(powm(a, 2 * k) == mulm(a, powm(a, (2 * k - 1) as nat)));
        assert(powm(a, (2 * k - 1) as nat) == mulm(a, powm(a, (2 * k - 2) as nat)));
        assert((2 * k - 2) as nat == 2 * (k - 1) as nat);
        assert(powm(a, 2 * k) == mulm(a, mulm(a, powm(a, 2 * (k - 1) as nat))));
        lemma_mulm_assoc(a, a, powm(a, 2 * (k - 1) as nat));
        assert(powm(mulm(a, a), k) == mulm(mulm(a, a), powm(mulm(a, a), (k - 1) as nat)));
    }
}

} // verus!
