//! The sum-check protocol core: paired evaluation tables, half-folding,
//! the combine-function descriptors, and the shared round specifications
//! used by every backend.

pub mod classic;
pub mod cuda;
pub mod parallel;

use vstd::prelude::*;
use vstd::arithmetic::power2::pow2;
use crate::field::{
    addm, mulm, powm, subm, residues, fp_seq_wf, Fp, P,
    lemma_reduce_id,
};
use crate::utils::ProtocolError;
use crate::poly::multilinear::{
    bind_top, coeff_eval, eq_prod, eq_term, eval_coeff_vec, eval_mle, fold_vars,
    MultilinearPolynomial,
};

verus! {

/// The all-zero evaluation vector of a given length.
pub open spec fn zero_evals(n: nat) -> Seq<int> {
    Seq::new(n, |i: int| 0int)
}

/// The two values of a polynomial at a pair of hypercube points differing
/// only in the most significant variable.
#[derive(Clone, Copy, Debug)]
pub struct EvalPair {
    pub even: Fp,
    pub odd: Fp,
}

/// Every pair holds well-formed field elements.
pub open spec fn pairs_wf(t: Seq<EvalPair>) -> bool {
    forall|i: int|
        0 <= i < t.len() ==> (#[trigger] t[i]).even.wf() && t[i].odd.wf()
}

/// The evaluation vector a pair sequence stands for: all even values, then
/// all odd values.
pub open spec fn pairs_evals(t: Seq<EvalPair>) -> Seq<int> {
    Seq::new(
        2 * t.len(),
        |i: int|
            if i < t.len() {
                t[i].even.as_int()
            } else {
                t[i - t.len()].odd.as_int()
            },
    )
}

/// A multilinear polynomial split along its most significant variable:
/// `2^(num_vars-1)` evaluation pairs.
#[derive(Clone, Debug)]
pub struct EvalTable {
    pub num_vars: usize,
    pub table: Vec<EvalPair>,
}

impl EvalTable {
    /// Well-formedness: the pair count fits the variable count.
    pub open spec fn wf(self) -> bool {
        &&& self.num_vars >= 1
        &&& self.table.len() == pow2((self.num_vars - 1) as nat)
        &&& pairs_wf(self.table@)
    }

    /// The evaluation vector this table stands for.
    pub open spec fn ev(self) -> Seq<int> {
        pairs_evals(self.table@)
    }

    /// Splits a polynomial's evaluations into pairs; the empty polynomial
    /// gives an all-zero table.
    pub fn new(num_vars: usize, poly: &MultilinearPolynomial) -> (r: Self)
        requires
            num_vars >= 1,
            pow2((num_vars - 1) as nat) <= usize::MAX,
            !poly.spec_is_empty() ==> poly.wf() && poly.evals.len() == pow2(num_vars as nat),
        ensures
            r.wf(),
            r.num_vars == num_vars,
            poly.spec_is_empty() ==> r.ev() == zero_evals(pow2(num_vars as nat)),
            !poly.spec_is_empty() ==> r.ev() == poly.e(),
    {
        proof {
            assert(pow2(num_vars as nat) == 2 * pow2((num_vars - 1) as nat)) by {
                vstd::arithmetic::power2::lemma_pow2_unfold(num_vars as nat);
            }
        }
        let half = crate::utils::pow2_exec(num_vars - 1);
        let mut table: Vec<EvalPair> = Vec::new();
        if poly.is_empty() {
            let mut i: usize = 0;
            while i < half
                invariant
                    i <= half,
                    table.len() == i,
                    pairs_wf(table@),
                    forall|t: int|
                        0 <= t < i ==> (#[trigger] table@[t]).even.as_int() == 0
                            && table@[t].odd.as_int() == 0,
                decreases half - i,
            {
                table.push(EvalPair { even: Fp::zero(), odd: Fp::zero() });
                i = i + 1;
            }
            proof {
                assert(pairs_evals(table@) =~= zero_evals(pow2(num_vars as nat)));
            }
            return EvalTable { num_vars, table };
        }
        let mut i: usize = 0;
        while i < half
            invariant
                i <= half,
                half == pow2((num_vars - 1) as nat),
                poly.wf(),
                !poly.spec_is_empty(),
                poly.evals.len() == 2 * half,
                table.len() == i,
                pairs_wf(table@),
                forall|t: int|
                    0 <= t < i ==> (#[trigger] table@[t]).even == poly.evals@[t]
                        && table@[t].odd == poly.evals@[t + half],
            decreases half - i,
        {
            table.push(EvalPair { even: poly.evals[i], odd: poly.evals[i + half] });
            i = i + 1;
        }
        proof {
            assert(pairs_evals(table@) =~= poly.e());
        }
        EvalTable { num_vars, table }
    }

    /// The number of pairs.
    pub fn size(&self) -> (r: usize)
        ensures
            r == self.table.len(),
    {
        self.table.len()
    }

    /// Binds the most significant remaining variable to the challenge,
    /// halving the table.
    pub fn fold_into_half(&mut self, challenge: Fp)
        requires
            old(self).wf(),
            challenge.wf(),
            old(self).table.len() > 1,
        ensures
            final(self).wf(),
            final(self).num_vars == old(self).num_vars - 1,
            final(self).table.len() == old(self).table.len() / 2,
            final(self).ev() == bind_top(old(self).ev(), challenge.as_int()),
    {
        let len = self.table.len();
        let half = len / 2;
        proof {
            assert(self.num_vars >= 2) by {
                if self.num_vars == 1 {
                    vstd::arithmetic::power2::lemma2_to64();
                }
            }
            assert(pow2((self.num_vars - 1) as nat) == 2 * pow2((self.num_vars - 2) as nat))
                by {
                vstd::arithmetic::power2::lemma_pow2_unfold((self.num_vars - 1) as nat);
            }
        }
        let ghost snap = self.table@;
        let ghost bound = bind_top(pairs_evals(snap), challenge.as_int());
        let mut i: usize = 0;
        while i < half
            invariant
                i <= half,
                len == snap.len(),
                half == len / 2,
                len == 2 * half,
                self.table.len() == len,
                self.num_vars == old(self).num_vars,
                pairs_wf(snap),
                pairs_wf(self.table@),
                challenge.wf(),
                bound == bind_top(pairs_evals(snap), challenge.as_int()),
                forall|t: int| i <= t < len ==> self.table@[t] == snap[t],
                forall|t: int|
                    0 <= t < i ==> (#[trigger] self.table@[t]).even.as_int() == bound[t]
                        && self.table@[t].odd.as_int() == bound[t + half],
            decreases half - i,
        {
            let near = self.table[i];
            let distant = self.table[i + half];
            let new_even = near.even.fadd(challenge.fmul(near.odd.fsub(near.even)));
            let new_odd = distant.even.fadd(challenge.fmul(distant.odd.fsub(distant.even)));
            self.table[i] = EvalPair { even: new_even, odd: new_odd };
            proof {
                assert(pairs_evals(snap)[i as int] == snap[i as int].even.as_int());
                assert(pairs_evals(snap)[i + len] == snap[i as int].odd.as_int());
                assert(pairs_evals(snap)[i + half] == snap[i + half].even.as_int());
                assert(pairs_evals(snap)[i + half + len] == snap[i + half].odd.as_int());
            }
            i = i + 1;
        }
        self.table.truncate(half);
        self.num_vars = self.num_vars - 1;
        proof {
            assert(pairs_evals(self.table@) =~= bound);
        }
    }

    /// The evaluation vector, even values then odd values.
    pub fn to_evaluations(&self) -> (r: Vec<Fp>)
        requires
            self.wf(),
        ensures
            r.len() == 2 * self.table.len(),
            fp_seq_wf(r@),
            residues(r@) == self.ev(),
    {
        let mut evals: Vec<Fp> = Vec::new();
        let mut i: usize = 0;
        while i < self.table.len()
            invariant
                i <= self.table.len(),
                self.wf(),
                evals.len() == i,
                fp_seq_wf(evals@),
                forall|t: int| 0 <= t < i ==> evals@[t] == (#[trigger] self.table@[t]).even,
            decreases self.table.len() - i,
        {
            evals.push(self.table[i].even);
            i = i + 1;
        }
        let mut j: usize = 0;
        while j < self.table.len()
            invariant
                j <= self.table.len(),
                self.wf(),
                evals.len() == self.table.len() + j,
                fp_seq_wf(evals@),
                forall|t: int|
                    0 <= t < self.table.len() ==> evals@[t] == (#[trigger] self.table@[t]).even,
                forall|t: int|
                    0 <= t < j ==> evals@[self.table.len() + t] == (#[trigger] self.table@[
                        t
                    ]).odd,
            decreases self.table.len() - j,
        {
            evals.push(self.table[j].odd);
            j = j + 1;
        }
        proof {
            assert(residues(evals@) =~= self.ev());
        }
        evals
    }

    /// The value after binding the final variable to the challenge.
    pub fn residual(&self, challenge: Fp) -> (r: Fp)
        requires
            self.wf(),
            challenge.wf(),
            self.table.len() == 1,
        ensures
            r.wf(),
            r.as_int() == residual_spec(self.ev(), challenge.as_int()),
    {
        let pair = self.table[0];
        pair.even.fadd(challenge.fmul(pair.odd.fsub(pair.even)))
    }
}

/// The value of a one-pair table after the final binding.
pub open spec fn residual_spec(e: Seq<int>, c: int) -> int {
    addm(e[0], mulm(c, subm(e[1], e[0])))
}

/// The evaluation vectors of every inner table.
pub open spec fn tables_of(polys: Seq<EvalTable>) -> Seq<Seq<int>> {
    Seq::new(polys.len(), |i: int| polys[i].ev())
}

/// Every inner table bound by the same challenge.
pub open spec fn bind_tables(ts: Seq<Seq<int>>, c: int) -> Seq<Seq<int>> {
    Seq::new(ts.len(), |i: int| bind_top(ts[i], c))
}

/// The residual values of every inner table.
pub open spec fn residuals_spec(ts: Seq<Seq<int>>, c: int) -> Seq<int> {
    Seq::new(ts.len(), |i: int| residual_spec(ts[i], c))
}

/// A collection of evaluation tables sharing one variable count, addressed
/// positionally by the combine function; the tables hold snapshots, so
/// folding never mutates the originating polynomials.
pub struct VirtualPolynomial {
    pub polys: Vec<EvalTable>,
}

impl VirtualPolynomial {
    /// Well-formedness: every table is well-formed with one shared
    /// variable count.
    pub open spec fn wf(self) -> bool {
        &&& self.polys.len() >= 1
        &&& forall|i: int| 0 <= i < self.polys.len() ==> (#[trigger] self.polys@[i]).wf()
        &&& forall|i: int|
            0 <= i < self.polys.len() ==> (#[trigger] self.polys@[i]).num_vars
                == self.polys@[0].num_vars
    }

    /// The shared variable count.
    pub open spec fn nv(self) -> int {
        self.polys@[0].num_vars as int
    }

    /// The evaluation vectors of the inner tables.
    pub open spec fn tables(self) -> Seq<Seq<int>> {
        tables_of(self.polys@)
    }

    /// Snapshots every polynomial into an evaluation table.
    pub fn new(num_vars: usize, polys: Vec<&MultilinearPolynomial>) -> (r: Self)
        requires
            num_vars >= 1,
            polys.len() >= 1,
            pow2((num_vars - 1) as nat) <= usize::MAX,
            forall|i: int|
                0 <= i < polys.len() ==> !(#[trigger] polys@[i]).spec_is_empty() ==> polys@[
                    i
                ].wf() && polys@[i].evals.len() == pow2(num_vars as nat),
        ensures
            r.wf(),
            r.polys.len() == polys.len(),
            r.nv() == num_vars,
            forall|i: int|
                0 <= i < polys.len() ==> #[trigger] r.tables()[i] == (if polys@[
                    i
                ].spec_is_empty() {
                    zero_evals(pow2(num_vars as nat))
                } else {
                    polys@[i].e()
                }),
    {
        let mut inner: Vec<EvalTable> = Vec::new();
        let mut i: usize = 0;
        while i < polys.len()
            invariant
                i <= polys.len(),
                num_vars >= 1,
                pow2((num_vars - 1) as nat) <= usize::MAX,
                forall|t: int|
                    0 <= t < polys.len() ==> !(#[trigger] polys@[t]).spec_is_empty() ==> polys@[
                        t
                    ].wf() && polys@[t].evals.len() == pow2(num_vars as nat),
                inner.len() == i,
                forall|t: int| 0 <= t < i ==> (#[trigger] inner@[t]).wf(),
                forall|t: int| 0 <= t < i ==> (#[trigger] inner@[t]).num_vars == num_vars,
                forall|t: int|
                    0 <= t < i ==> (#[trigger] inner@[t]).ev() == (if polys@[
                        t
                    ].spec_is_empty() {
                        zero_evals(pow2(num_vars as nat))
                    } else {
                        polys@[t].e()
                    }),
            decreases polys.len() - i,
        {
            let et = EvalTable::new(num_vars, polys[i]);
            inner.push(et);
            i = i + 1;
        }
        VirtualPolynomial { polys: inner }
    }

    /// Binds the most significant remaining variable of every table.
    pub fn fold_into_half(&mut self, challenge: Fp)
        requires
            old(self).wf(),
            challenge.wf(),
            old(self).nv() >= 2,
        ensures
            final(self).wf(),
            final(self).polys.len() == old(self).polys.len(),
            final(self).nv() == old(self).nv() - 1,
            final(self).tables() == bind_tables(old(self).tables(), challenge.as_int()),
    {
        let mut i: usize = 0;
        proof {
            assert forall|t: int| 0 <= t < self.polys.len() implies (#[trigger] self.polys@[
                t
            ]).table.len() > 1 by {
                assert(self.polys@[t].wf());
                assert(pow2((self.polys@[t].num_vars - 1) as nat) >= 2) by {
                    vstd::arithmetic::power2::lemma_pow2_unfold(
                        (self.polys@[t].num_vars - 1) as nat,
                    );
                    vstd::arithmetic::power2::lemma_pow2_pos(
                        (self.polys@[t].num_vars - 2) as nat,
                    );
                }
            }
        }
        while i < self.polys.len()
            invariant
                i <= self.polys.len(),
                challenge.wf(),
                self.polys.len() == old(self).polys.len(),
                forall|t: int| 0 <= t < self.polys.len() ==> (#[trigger] self.polys@[t]).wf(),
                forall|t: int|
                    i <= t < self.polys.len() ==> #[trigger] self.polys@[t] == old(self).polys@[
                        t
                    ],
                forall|t: int| i <= t < self.polys.len() ==> (#[trigger] self.polys@[t]).table.len() > 1,
                forall|t: int|
                    i <= t < self.polys.len() ==> (#[trigger] self.polys@[t]).num_vars == old(
                        self,
                    ).polys@[0].num_vars,
                forall|t: int|
                    0 <= t < i ==> (#[trigger] self.polys@[t]).num_vars == old(self).polys@[
                        0
                    ].num_vars - 1,
                forall|t: int|
                    0 <= t < i ==> (#[trigger] self.polys@[t]).ev() == bind_top(
                        old(self).polys@[t].ev(),
                        challenge.as_int(),
                    ),
            decreases self.polys.len() - i,
        {
            let elem = &mut self.polys[i];
            elem.fold_into_half(challenge);
            i = i + 1;
        }
        proof {
            assert(self.tables() =~= bind_tables(old(self).tables(), challenge.as_int()));
        }
    }

    /// The residual evaluations after the final round's challenge, one per
    /// inner polynomial.
    pub fn evaluations(&self, challenge: Fp) -> (r: Vec<Fp>)
        requires
            self.wf(),
            challenge.wf(),
            self.nv() == 1,
        ensures
            r.len() == self.polys.len(),
            fp_seq_wf(r@),
            residues(r@) == residuals_spec(self.tables(), challenge.as_int()),
    {
        proof {
            vstd::arithmetic::power2::lemma2_to64();
        }
        let mut r: Vec<Fp> = Vec::new();
        let mut i: usize = 0;
        while i < self.polys.len()
            invariant
                i <= self.polys.len(),
                self.wf(),
                self.nv() == 1,
                challenge.wf(),
                r.len() == i,
                fp_seq_wf(r@),
                forall|t: int|
                    0 <= t < i ==> residues(r@)[t] == residual_spec(
                        (#[trigger] self.polys@[t]).ev(),
                        challenge.as_int(),
                    ),
            decreases self.polys.len() - i,
        {
            proof {
                assert(self.polys@[i as int].wf());
                vstd::arithmetic::power2::lemma2_to64();
            }
            let v = self.polys[i].residual(challenge);
            r.push(v);
            i = i + 1;
        }
        proof {
            assert(residues(r@) =~= residuals_spec(self.tables(), challenge.as_int()));
        }
        r
    }
}

/// Evaluates `eq(x, y)`, the product `prod_i (x_i y_i + (1-x_i)(1-y_i))`.
pub fn eq_xy_eval(x: &Vec<Fp>, y: &Vec<Fp>) -> (r: Fp)
    requires
        x.len() >= 1,
        x.len() == y.len(),
        fp_seq_wf(x@),
        fp_seq_wf(y@),
    ensures
        r.wf(),
        r.as_int() == eq_prod(residues(x@), residues(y@)),
{
    let ghost xs = residues(x@);
    let ghost ys = residues(y@);
    let mut acc = Fp::one();
    let mut t = x.len();
    proof {
        assert(xs.subrange(x.len() as int, x.len() as int) =~= Seq::<int>::empty());
        assert(ys.subrange(x.len() as int, x.len() as int) =~= Seq::<int>::empty());
    }
    while t > 0
        invariant
            t <= x.len(),
            x.len() == y.len(),
            fp_seq_wf(x@),
            fp_seq_wf(y@),
            xs == residues(x@),
            ys == residues(y@),
            acc.wf(),
            acc.as_int() == eq_prod(
                xs.subrange(t as int, x.len() as int),
                ys.subrange(t as int, x.len() as int),
            ),
        decreases t,
    {
        let xi = x[t - 1];
        let yi = y[t - 1];
        let one = Fp::one();
        let term = xi.fmul(yi).fadd(one.fsub(xi).fmul(one.fsub(yi)));
        acc = term.fmul(acc);
        proof {
            let sub1x = xs.subrange(t as int - 1, x.len() as int);
            let sub1y = ys.subrange(t as int - 1, x.len() as int);
            assert(sub1x.drop_first() =~= xs.subrange(t as int, x.len() as int));
            assert(sub1y.drop_first() =~= ys.subrange(t as int, x.len() as int));
            assert(sub1x[0] == xs[t - 1]);
            assert(sub1y[0] == ys[t - 1]);
            assert(term.as_int() == eq_term(xs[t - 1], ys[t - 1]));
        }
        t = t - 1;
    }
    proof {
        assert(xs.subrange(0, x.len() as int) =~= xs);
        assert(ys.subrange(0, x.len() as int) =~= ys);
    }
    acc
}

/// The product of a message of residues.
pub open spec fn prod_vals(vals: Seq<int>) -> int
    decreases vals.len(),
{
    if vals.len() == 0 {
        1int
    } else {
        mulm(vals[0], prod_vals(vals.drop_first()))
    }
}

/// The gamma-weighted Boolean penalty `sum_{j=1..n} gamma^j v_j (v_j - 1)`
/// over the first `j` sigma values.
pub open spec fn boolean_penalty(vals: Seq<int>, gamma: int, j: nat) -> int
    decreases j,
{
    if j == 0 {
        0int
    } else {
        addm(
            boolean_penalty(vals, gamma, (j - 1) as nat),
            mulm(powm(gamma, j), mulm(vals[j as int], subm(vals[j as int], 1))),
        )
    }
}

/// The additive batch combine `sum_i v_i v_{m+i}` over the first `i` of
/// `m` merged claims.
pub open spec fn additive_sum(m: nat, vals: Seq<int>, i: nat) -> int
    decreases i,
{
    if i == 0 {
        0int
    } else {
        addm(additive_sum(m, vals, (i - 1) as nat), mulm(vals[i - 1], vals[m + i - 1]))
    }
}

/// The mathematical content of a combine function: what it carries, as
/// residues.
pub enum CombineSpec {
    /// The product of all values.
    Product,
    /// The lookup combine over a table's coefficient residues.
    Lookup { table_coeffs: Seq<int>, table_dim: nat, gamma: int },
    /// The additive batch combine over `num_merged` merged claims.
    Additive { num_merged: nat },
}

impl CombineSpec {
    /// The number of polynomial values the function consumes.
    pub open spec fn arity_ok(self, k: int) -> bool {
        match self {
            CombineSpec::Product => true,
            CombineSpec::Lookup { table_coeffs, table_dim, gamma } => k == table_dim + 2,
            CombineSpec::Additive { num_merged } => k == 2 * num_merged,
        }
    }

    /// The combine function as a mathematical map over residues.
    pub open spec fn spec_eval(self, vals: Seq<int>) -> int {
        match self {
            CombineSpec::Product => prod_vals(vals),
            CombineSpec::Lookup { table_coeffs, table_dim, gamma } => {
                let n = table_dim as int;
                let table_at = coeff_eval(table_coeffs, vals.subrange(1, n + 1));
                mulm(
                    addm(subm(vals[0], table_at), boolean_penalty(vals, gamma, table_dim)),
                    vals[n + 1],
                )
            },
            CombineSpec::Additive { num_merged } => additive_sum(
                num_merged,
                vals,
                num_merged,
            ),
        }
    }
}

/// A combine function, delivered as a structured descriptor so that every
/// backend computes the same mathematical function.
pub enum CombineFunction {
    /// The product of all values.
    Product,
    /// The lookup combine: `(v_0 - T(v_1..v_n) + sum_j gamma^j v_j (v_j - 1))
    /// * v_{n+1}` with `T` the table's coefficient form.
    Lookup { table_coeffs: Vec<Fp>, table_dim: usize, gamma: Fp },
    /// The additive batch combine: `sum_i v_i v_{m+i}` over `num_merged`
    /// merged claims.
    Additive { num_merged: usize },
}

impl View for CombineFunction {
    type V = CombineSpec;

    open spec fn view(&self) -> CombineSpec {
        match *self {
            CombineFunction::Product => CombineSpec::Product,
            CombineFunction::Lookup { table_coeffs, table_dim, gamma } => CombineSpec::Lookup {
                table_coeffs: residues(table_coeffs@),
                table_dim: table_dim as nat,
                gamma: gamma.as_int(),
            },
            CombineFunction::Additive { num_merged } => CombineSpec::Additive {
                num_merged: num_merged as nat,
            },
        }
    }
}

impl CombineFunction {
    /// Well-formedness of the carried data.
    pub open spec fn wf(self) -> bool {
        match self {
            CombineFunction::Product => true,
            CombineFunction::Lookup { table_coeffs, table_dim, gamma } => {
                &&& fp_seq_wf(table_coeffs@)
                &&& gamma.wf()
                &&& table_coeffs.len() == pow2(table_dim as nat)
            },
            CombineFunction::Additive { num_merged } => true,
        }
    }

    /// Evaluates the combine function on one tuple of values.
    pub fn evaluate(&self, vals: &Vec<Fp>) -> (r: Fp)
        requires
            self.wf(),
            fp_seq_wf(vals@),
            self@.arity_ok(vals.len() as int),
        ensures
            r.wf(),
            r.as_int() == self@.spec_eval(residues(vals@)),
    {
        let ghost vs = residues(vals@);
        match self {
            CombineFunction::Product => {
                let mut acc = Fp::one();
                let mut t = vals.len();
                proof {
                    assert(vs.subrange(vals.len() as int, vals.len() as int)
                        =~= Seq::<int>::empty());
                }
                while t > 0
                    invariant
                        t <= vals.len(),
                        fp_seq_wf(vals@),
                        vs == residues(vals@),
                        acc.wf(),
                        acc.as_int() == prod_vals(vs.subrange(t as int, vals.len() as int)),
                    decreases t,
                {
                    acc = vals[t - 1].fmul(acc);
                    proof {
                        let sub1 = vs.subrange(t as int - 1, vals.len() as int);
                        assert(sub1.drop_first() =~= vs.subrange(t as int, vals.len() as int));
                        assert(sub1[0] == vs[t - 1]);
                    }
                    t = t - 1;
                }
                proof {
                    assert(vs.subrange(0, vals.len() as int) =~= vs);
                }
                acc
            },
            CombineFunction::Lookup { table_coeffs, table_dim, gamma } => {
                let n = *table_dim;
                let mut point: Vec<Fp> = Vec::new();
                let mut j: usize = 0;
                while j < n
                    invariant
                        j <= n,
                        vals.len() == n + 2,
                        fp_seq_wf(vals@),
                        vs == residues(vals@),
                        point.len() == j,
                        fp_seq_wf(point@),
                        forall|t: int| 0 <= t < j ==> point@[t] == vals@[t + 1],
                    decreases n - j,
                {
                    point.push(vals[j + 1]);
                    j = j + 1;
                }
                proof {
                    assert(residues(point@) =~= vs.subrange(1, n as int + 1));
                }
                let table_at = eval_coeff_vec(table_coeffs, &point);
                let mut penalty = Fp::zero();
                let mut gpow = Fp::one();
                let mut jj: usize = 0;
                while jj < n
                    invariant
                        jj <= n,
                        vals.len() == n + 2,
                        fp_seq_wf(vals@),
                        vs == residues(vals@),
                        gamma.wf(),
                        penalty.wf(),
                        gpow.wf(),
                        gpow.as_int() == powm(gamma.as_int(), jj as nat),
                        penalty.as_int() == boolean_penalty(vs, gamma.as_int(), jj as nat),
                    decreases n - jj,
                {
                    gpow = gamma.fmul(gpow);
                    let sig = vals[jj + 1];
                    let term = gpow.fmul(sig.fmul(sig.fsub(Fp::one())));
                    penalty = penalty.fadd(term);
                    jj = jj + 1;
                }
                let head = vals[0].fsub(table_at).fadd(penalty);
                head.fmul(vals[n + 1])
            },
            CombineFunction::Additive { num_merged } => {
                let m = *num_merged;
                let mut acc = Fp::zero();
                let mut i: usize = 0;
                while i < m
                    invariant
                        i <= m,
                        vals.len() == 2 * m,
                        fp_seq_wf(vals@),
                        vs == residues(vals@),
                        acc.wf(),
                        acc.as_int() == additive_sum(m as nat, vs, i as nat),
                    decreases m - i,
                {
                    let term = vals[i].fmul(vals[m + i]);
                    acc = acc.fadd(term);
                    i = i + 1;
                }
                acc
            },
        }
    }
}

/// Binding a table once per challenge, first challenge first, and then
/// taking the residual equals evaluating the original polynomial at the
/// reversed challenge vector.
pub proof fn lemma_fold_residual_evaluates(e: Seq<int>, cs: Seq<int>)
    requires
        cs.len() >= 1,
        e.len() == pow2(cs.len()),
    ensures
        ({
            let folded = fold_challenges(e, cs, (cs.len() - 1) as nat);
            residual_spec(folded, cs.last()) == eval_mle(e, cs.reverse())
        }),
    decreases cs.len(),
{
    let folded = fold_challenges(e, cs, (cs.len() - 1) as nat);
    vstd::arithmetic::power2::lemma2_to64();
    if cs.len() == 1 {
        assert(e.len() == 2);
        assert(cs.reverse() =~= cs);
        crate::poly::laws::lemma_eval_mle_peel(e, cs);
        assert(cs.drop_last() =~= Seq::<int>::empty());
        let b = bind_top(e, cs.last());
        assert(eval_mle(b, Seq::<int>::empty()) == fold_vars(b, Seq::<int>::empty(), 0)[0]);
        assert(fold_vars(b, Seq::<int>::empty(), 0) == b);
        assert(residual_spec(e, cs.last()) == b[0]);
    } else {
        crate::poly::laws::lemma_eval_mle_peel(e, cs.reverse());
        assert(cs.reverse().last() == cs[0]);
        assert(cs.reverse().drop_last() =~= cs.drop_first().reverse());
        assert(pow2(cs.len()) == 2 * pow2((cs.len() - 1) as nat)) by {
            vstd::arithmetic::power2::lemma_pow2_unfold(cs.len());
        }
        assert(bind_top(e, cs[0]).len() == pow2((cs.len() - 1) as nat));
        lemma_fold_residual_evaluates(bind_top(e, cs[0]), cs.drop_first());
        assert(fold_challenges(e, cs, (cs.len() - 1) as nat) == fold_challenges(
            bind_top(e, cs[0]),
            cs.drop_first(),
            (cs.len() - 2) as nat,
        )) by {
            lemma_fold_challenges_shift(e, cs, (cs.len() - 1) as nat);
        }
        assert(cs.drop_first().last() == cs.last());
    }
}

/// The table after binding the first `j` challenges in order.
pub open spec fn fold_challenges(e: Seq<int>, cs: Seq<int>, j: nat) -> Seq<int>
    decreases j,
{
    if j == 0 {
        e
    } else {
        bind_top(fold_challenges(e, cs, (j - 1) as nat), cs[j - 1])
    }
}

/// Folding from the head: binding `j >= 1` challenges equals binding the
/// first and then the remaining `j - 1`.
proof fn lemma_fold_challenges_shift(e: Seq<int>, cs: Seq<int>, j: nat)
    requires
        1 <= j <= cs.len(),
    ensures
        fold_challenges(e, cs, j) == fold_challenges(
            bind_top(e, cs[0]),
            cs.drop_first(),
            (j - 1) as nat,
        ),
    decreases j,
{
    if j == 1 {
        assert(fold_challenges(e, cs, 1) == bind_top(fold_challenges(e, cs, 0), cs[0]));
    } else {
        lemma_fold_challenges_shift(e, cs, (j - 1) as nat);
        assert(cs.drop_first()[j - 2] == cs[j - 1]);
    }
}

/// The per-polynomial values at pair `i`, sample point `k`.
pub open spec fn point_vals(ts: Seq<Seq<int>>, i: int, k: int) -> Seq<int> {
    Seq::new(ts.len(), |p: int| bind_top(ts[p], k)[i])
}

/// The number of pairs each table currently holds.
pub open spec fn pair_count(ts: Seq<Seq<int>>) -> nat {
    (ts[0].len() / 2) as nat
}

/// The sum of the combine function over the first `n` pairs at sample `k`.
pub open spec fn round_sum(c: CombineSpec, ts: Seq<Seq<int>>, k: int, n: nat) -> int
    decreases n,
{
    if n == 0 {
        0int
    } else {
        addm(round_sum(c, ts, k, (n - 1) as nat), c.spec_eval(point_vals(ts, n - 1, k)))
    }
}

/// One round's message: the round polynomial's values at the sample points
/// `0, ..., d`.
pub open spec fn round_msg(c: CombineSpec, ts: Seq<Seq<int>>, d: nat) -> Seq<int> {
    Seq::new((d + 1) as nat, |k: int| round_sum(c, ts, k, pair_count(ts)))
}

/// The prover's state between rounds: the proof stream, the hash state,
/// the folded tables and the challenges drawn so far.
pub struct SumcheckTrace {
    pub stream: Seq<u8>,
    pub state: Seq<u8>,
    pub tables: Seq<Seq<int>>,
    pub challenges: Seq<int>,
}

/// One non-final prover round: write the round message, squeeze the
/// challenge, fold every table.
pub open spec fn prove_round(c: CombineSpec, d: nat, tr: SumcheckTrace) -> SumcheckTrace {
    let r = round_msg(c, tr.tables, d);
    let stream2 = tr.stream + crate::transcript::ser_elems(r);
    let state2 = crate::transcript::absorb_elems(tr.state, r);
    let alpha = crate::transcript::squeeze_val(state2);
    let state3 = crate::transcript::squeeze_state(state2);
    SumcheckTrace {
        stream: stream2,
        state: state3,
        tables: bind_tables(tr.tables, alpha),
        challenges: tr.challenges.push(alpha),
    }
}

/// The prover's state after `j` non-final rounds.
pub open spec fn prove_rounds(c: CombineSpec, d: nat, tr: SumcheckTrace, j: nat) -> SumcheckTrace
    decreases j,
{
    if j == 0 {
        tr
    } else {
        prove_round(c, d, prove_rounds(c, d, tr, (j - 1) as nat))
    }
}

/// What a complete sum-check prover run leaves behind.
pub struct SumcheckOutcome {
    pub stream: Seq<u8>,
    pub state: Seq<u8>,
    pub challenges: Seq<int>,
    pub evals: Seq<int>,
}

/// The outcome of the deterministic prover on given tables, transcript
/// prefix and hash state: `nv - 1` folding rounds, then the final round
/// that writes the residual evaluations instead of folding. The returned
/// challenges are reversed, so they read as a point in the canonical
/// variable order. Every backend is held to this one specification, so all
/// backends produce byte-identical transcripts.
pub open spec fn sumcheck_prove_spec(
    c: CombineSpec,
    d: nat,
    nv: nat,
    ts: Seq<Seq<int>>,
    stream0: Seq<u8>,
    state0: Seq<u8>,
) -> SumcheckOutcome {
    let tr0 = SumcheckTrace { stream: stream0, state: state0, tables: ts, challenges: Seq::empty() };
    let trm = prove_rounds(c, d, tr0, (nv - 1) as nat);
    let r = round_msg(c, trm.tables, d);
    let stream2 = trm.stream + crate::transcript::ser_elems(r);
    let state2 = crate::transcript::absorb_elems(trm.state, r);
    let alpha = crate::transcript::squeeze_val(state2);
    let state3 = crate::transcript::squeeze_state(state2);
    let evals = residuals_spec(trm.tables, alpha);
    let stream3 = stream2 + crate::transcript::ser_elems(evals);
    let state4 = crate::transcript::absorb_elems(state3, evals);
    SumcheckOutcome {
        stream: stream3,
        state: state4,
        challenges: trm.challenges.push(alpha).reverse(),
        evals: evals,
    }
}

/// One table's interpolated value at sample `kf`, pair `i`.
pub fn eval_one(t: &EvalTable, i: usize, kf: Fp) -> (r: Fp)
    requires
        t.wf(),
        i < t.table.len(),
        kf.wf(),
    ensures
        r.wf(),
        r.as_int() == bind_top(t.ev(), kf.as_int())[i as int],
{
    let pair = t.table[i];
    let r = pair.even.fadd(kf.fmul(pair.odd.fsub(pair.even)));
    proof {
        assert(t.ev()[i as int] == pair.even.as_int());
        assert(t.ev().len() == 2 * t.table@.len());
        assert(t.ev()[i + t.table@.len()] == pair.odd.as_int());
    }
    r
}

/// A reversed copy of a vector of field elements.
pub fn reversed(v: &Vec<Fp>) -> (r: Vec<Fp>)
    ensures
        r.len() == v.len(),
        r@ == v@.reverse(),
{
    let mut r: Vec<Fp> = Vec::new();
    let mut t: usize = 0;
    while t < v.len()
        invariant
            t <= v.len(),
            r.len() == t,
            forall|i: int| 0 <= i < t ==> r@[i] == v@[v.len() - 1 - i],
        decreases v.len() - t,
    {
        r.push(v[v.len() - 1 - t]);
        t = t + 1;
    }
    proof {
        assert(r@ =~= v@.reverse());
    }
    r
}

/// The shared prover loop: all backends run it, differing only in how the
/// round polynomial's values are computed; the parallel path computes the
/// same values, so the transcripts agree byte for byte.
pub fn sumcheck_prove_core(
    num_vars: usize,
    max_degree: usize,
    combine: &CombineFunction,
    virtual_poly: VirtualPolynomial,
    transcript: &mut crate::transcript::Transcript,
    use_parallel: bool,
) -> (r: Result<(Vec<Fp>, Vec<Fp>), ProtocolError>)
    requires
        num_vars >= 1,
        max_degree as int + 1 < P as int,
        combine.wf(),
        combine@.arity_ok(virtual_poly.polys.len() as int),
        virtual_poly.wf(),
        virtual_poly.nv() == num_vars,
    ensures
        ({
            let o = sumcheck_prove_spec(
                combine@,
                max_degree as nat,
                num_vars as nat,
                virtual_poly.tables(),
                old(transcript).stream@,
                old(transcript).state@,
            );
            &&& r is Ok
            &&& final(transcript).stream@ == o.stream
            &&& final(transcript).state@ == o.state
            &&& final(transcript).pos == old(transcript).pos
            &&& (r matches Ok(out) ==> {
                &&& residues(out.0@) == o.challenges
                &&& residues(out.1@) == o.evals
                &&& out.0.len() == num_vars
                &&& out.1.len() == virtual_poly.polys.len()
                &&& fp_seq_wf(out.0@)
                &&& fp_seq_wf(out.1@)
            })
        }),
{
    let ghost c = combine@;
    let ghost d = max_degree as nat;
    let ghost tr0 = SumcheckTrace {
        stream: old(transcript).stream@,
        state: old(transcript).state@,
        tables: virtual_poly.tables(),
        challenges: Seq::empty(),
    };
    let mut vp = virtual_poly;
    let mut challenges: Vec<Fp> = Vec::new();
    let mut round: usize = 0;
    while round < num_vars - 1
        invariant
            round <= num_vars - 1,
            num_vars >= 1,
            max_degree as int + 1 < P as int,
            combine.wf(),
            c == combine@,
            d == max_degree as nat,
            vp.wf(),
            combine@.arity_ok(vp.polys.len() as int),
            vp.polys.len() == virtual_poly.polys.len(),
            vp.nv() == num_vars - round,
            challenges.len() == round,
            fp_seq_wf(challenges@),
            ({
                let trj = prove_rounds(c, d, tr0, round as nat);
                &&& transcript.stream@ == trj.stream
                &&& transcript.state@ == trj.state
                &&& vp.tables() == trj.tables
                &&& residues(challenges@) == trj.challenges
            }),
            transcript.pos == old(transcript).pos,
        decreases num_vars - round,
    {
        let r_poly = if use_parallel {
            crate::sumcheck::parallel::compute_round_poly_par(&vp, max_degree, combine)
        } else {
            crate::sumcheck::classic::compute_round_poly(&vp, max_degree, combine)
        };
        let _ = transcript.write_field_elements(&r_poly);
        let alpha = transcript.squeeze_challenge();
        challenges.push(alpha);
        vp.fold_into_half(alpha);
        proof {
            let trj = prove_rounds(c, d, tr0, round as nat);
            assert(prove_rounds(c, d, tr0, (round + 1) as nat) == prove_round(c, d, trj));
            assert(residues(challenges@) =~= trj.challenges.push(alpha.as_int()));
        }
        round = round + 1;
    }
    let ghost trm = prove_rounds(c, d, tr0, (num_vars - 1) as nat);
    let r_poly = if use_parallel {
        crate::sumcheck::parallel::compute_round_poly_par(&vp, max_degree, combine)
    } else {
        crate::sumcheck::classic::compute_round_poly(&vp, max_degree, combine)
    };
    let _ = transcript.write_field_elements(&r_poly);
    let alpha = transcript.squeeze_challenge();
    challenges.push(alpha);
    let evaluations = vp.evaluations(alpha);
    let _ = transcript.write_field_elements(&evaluations);
    let out_challenges = reversed(&challenges);
    proof {
        assert(residues(challenges@) =~= trm.challenges.push(alpha.as_int()));
        let o = sumcheck_prove_spec(
            c,
            d,
            num_vars as nat,
            virtual_poly.tables(),
            old(transcript).stream@,
            old(transcript).state@,
        );
        assert(residues(out_challenges@) =~= residues(challenges@).reverse());
        assert(o.challenges == trm.challenges.push(alpha.as_int()).reverse());
    }
    Ok((out_challenges, evaluations))
}

/// The running product of node differences `j - k` over nodes `k < cnt`,
/// skipping `k == j`.
pub open spec fn bary_node_prod(cnt: nat, j: int) -> int
    decreases cnt,
{
    if cnt == 0 {
        1int
    } else {
        mulm(
            bary_node_prod((cnt - 1) as nat, j),
            if cnt - 1 == j {
                1int
            } else {
                subm(j, cnt - 1)
            },
        )
    }
}

/// The barycentric weight of node `j` among the nodes `0, ..., d`: the
/// inverse (by the field's power map) of the product of its differences.
pub open spec fn bary_weight(d: nat, j: int) -> int {
    powm(bary_node_prod((d + 1) as nat, j), (P - 2) as nat)
}

/// The running product of `x - k` over nodes `k < cnt`, skipping `k == j`.
pub open spec fn lag_prod(cnt: nat, j: int, x: int) -> int
    decreases cnt,
{
    if cnt == 0 {
        1int
    } else {
        mulm(
            lag_prod((cnt - 1) as nat, j, x),
            if cnt - 1 == j {
                1int
            } else {
                subm(x, cnt - 1)
            },
        )
    }
}

/// The partial interpolation sum over the first `cnt` nodes.
pub open spec fn interp_sum(d: nat, evals: Seq<int>, x: int, cnt: nat) -> int
    decreases cnt,
{
    if cnt == 0 {
        0int
    } else {
        addm(
            interp_sum(d, evals, x, (cnt - 1) as nat),
            mulm(evals[cnt - 1], mulm(bary_weight(d, cnt - 1), lag_prod((d + 1) as nat, cnt - 1, x))),
        )
    }
}

/// The degree-`d` polynomial through `(k, evals[k])` for `k = 0, ..., d`,
/// evaluated at `x` by the barycentric formula.
pub open spec fn interpolate_spec(d: nat, evals: Seq<int>, x: int) -> int {
    interp_sum(d, evals, x, (d + 1) as nat)
}

/// The byte offset of round `j`'s message.
pub open spec fn sv_round_pos(pos0: int, d: nat, j: nat) -> int {
    pos0 + 8 * (d + 1) * j
}

/// The hash state before round `j` of the verifier.
pub open spec fn sv_state(state0: Seq<u8>, stream: Seq<u8>, pos0: int, d: nat, j: nat) -> Seq<u8>
    decreases j,
{
    if j == 0 {
        state0
    } else {
        crate::transcript::squeeze_state(
            crate::transcript::absorb_chunks(
                sv_state(state0, stream, pos0, d, (j - 1) as nat),
                stream,
                sv_round_pos(pos0, d, (j - 1) as nat),
                (d + 1) as nat,
            ),
        )
    }
}

/// The challenge squeezed at round `j` of the verifier.
pub open spec fn sv_challenge(state0: Seq<u8>, stream: Seq<u8>, pos0: int, d: nat, j: nat) -> int {
    crate::transcript::squeeze_val(
        crate::transcript::absorb_chunks(
            sv_state(state0, stream, pos0, d, j),
            stream,
            sv_round_pos(pos0, d, j),
            (d + 1) as nat,
        ),
    )
}

/// Round `j`'s message, as read from the stream.
pub open spec fn sv_msg(stream: Seq<u8>, pos0: int, d: nat, j: nat) -> Seq<int> {
    crate::transcript::read_vals(stream, sv_round_pos(pos0, d, j), (d + 1) as nat)
}

/// The expected sum before round `j`: the claimed sum at first, then the
/// previous round's message interpolated at its challenge.
pub open spec fn sv_expected(
    sum: int,
    state0: Seq<u8>,
    stream: Seq<u8>,
    pos0: int,
    d: nat,
    j: nat,
) -> int
    decreases j,
{
    if j == 0 {
        sum
    } else {
        interpolate_spec(
            d,
            sv_msg(stream, pos0, d, (j - 1) as nat),
            sv_challenge(state0, stream, pos0, d, (j - 1) as nat),
        )
    }
}

/// The first `j` rounds all pass the check
/// `msg(0) + msg(1) == expected`.
pub open spec fn sv_checks(
    sum: int,
    state0: Seq<u8>,
    stream: Seq<u8>,
    pos0: int,
    d: nat,
    j: nat,
) -> bool
    decreases j,
{
    if j == 0 {
        true
    } else {
        sv_checks(sum, state0, stream, pos0, d, (j - 1) as nat) && addm(
            sv_msg(stream, pos0, d, (j - 1) as nat)[0],
            sv_msg(stream, pos0, d, (j - 1) as nat)[1],
        ) == sv_expected(sum, state0, stream, pos0, d, (j - 1) as nat)
    }
}

/// Passing `j2` rounds of checks passes every earlier prefix.
pub proof fn lemma_sv_checks_mono(
    sum: int,
    state0: Seq<u8>,
    stream: Seq<u8>,
    pos0: int,
    d: nat,
    j1: nat,
    j2: nat,
)
    requires
        j1 <= j2,
        sv_checks(sum, state0, stream, pos0, d, j2),
    ensures
        sv_checks(sum, state0, stream, pos0, d, j1),
    decreases j2,
{
    if j1 < j2 {
        lemma_sv_checks_mono(sum, state0, stream, pos0, d, j1, (j2 - 1) as nat);
    }
}

/// The challenges of all `nv` rounds, in squeeze order.
pub open spec fn sv_challenges(
    state0: Seq<u8>,
    stream: Seq<u8>,
    pos0: int,
    d: nat,
    nv: nat,
) -> Seq<int> {
    Seq::new(nv, |j: int| sv_challenge(state0, stream, pos0, d, j as nat))
}

/// What the shared sum-check verifier guarantees: it accepts exactly when
/// the stream holds enough bytes and every round's message sums to the
/// expected value; short streams give `Transcript`, failed checks give
/// `InvalidSumcheck`; on acceptance it returns the final expected value,
/// the read evaluations and the reversed challenges.
pub open spec fn sumcheck_verify_ensures(
    nv: usize,
    d: usize,
    sum: Fp,
    n: usize,
    t0: crate::transcript::Transcript,
    t1: crate::transcript::Transcript,
    r: Result<(Fp, Vec<Fp>, Vec<Fp>), ProtocolError>,
) -> bool {
    let ok_read = t0.pos + 8 * ((d + 1) * nv + n) <= t0.stream.len();
    let checks = sv_checks(
        sum.as_int(),
        t0.state@,
        t0.stream@,
        t0.pos as int,
        d as nat,
        nv as nat,
    );
    let evpos = t0.pos + 8 * (d + 1) * nv;
    &&& (r is Ok <==> ok_read && checks)
    &&& (!ok_read ==> (r matches Err(ProtocolError::Transcript)))
    &&& (ok_read && !checks ==> (r matches Err(ProtocolError::InvalidSumcheck(_))))
    &&& t1.stream@ == t0.stream@
    &&& (r matches Ok(out) ==> {
        &&& t1.pos == t0.pos + 8 * ((d + 1) * nv + n)
        &&& t1.state@ == crate::transcript::absorb_chunks(
            sv_state(t0.state@, t0.stream@, t0.pos as int, d as nat, nv as nat),
            t0.stream@,
            evpos as int,
            n as nat,
        )
        &&& out.0.wf()
        &&& out.0.as_int() == sv_expected(
            sum.as_int(),
            t0.state@,
            t0.stream@,
            t0.pos as int,
            d as nat,
            nv as nat,
        )
        &&& out.1.len() == n
        &&& fp_seq_wf(out.1@)
        &&& residues(out.1@) == crate::transcript::read_vals(t0.stream@, evpos as int, n as nat)
        &&& out.2.len() == nv
        &&& fp_seq_wf(out.2@)
        &&& residues(out.2@) == sv_challenges(
            t0.state@,
            t0.stream@,
            t0.pos as int,
            d as nat,
            nv as nat,
        ).reverse()
    })
}

/// The barycentric weights over the integer nodes `0, ..., max_degree`.
pub fn barycentric_weights(max_degree: usize) -> (r: Vec<Fp>)
    requires
        max_degree as int + 1 < P as int,
    ensures
        r.len() == max_degree + 1,
        fp_seq_wf(r@),
        forall|j: int|
            0 <= j < r.len() ==> residues(r@)[j] == bary_weight(max_degree as nat, j),
{
    let mut r: Vec<Fp> = Vec::new();
    let mut j: usize = 0;
    while j < max_degree + 1
        invariant
            j <= max_degree + 1,
            max_degree as int + 1 < P as int,
            r.len() == j,
            fp_seq_wf(r@),
            forall|t: int|
                0 <= t < j ==> residues(r@)[t] == bary_weight(max_degree as nat, t),
        decreases max_degree + 1 - j,
    {
        let node_j = Fp::from_u64(j as u64);
        proof {
            lemma_reduce_id(j as int);
        }
        let mut acc = Fp::one();
        let mut k: usize = 0;
        while k < max_degree + 1
            invariant
                k <= max_degree + 1,
                j < max_degree + 1,
                max_degree as int + 1 < P as int,
                node_j.wf(),
                node_j.as_int() == j as int,
                acc.wf(),
                acc.as_int() == bary_node_prod(k as nat, j as int),
            decreases max_degree + 1 - k,
        {
            if k != j {
                let node_k = Fp::from_u64(k as u64);
                proof {
                    lemma_reduce_id(k as int);
                }
                acc = acc.fmul(node_j.fsub(node_k));
            } else {
                proof {
                    crate::field::lemma_mulm_one(acc.as_int());
                    lemma_reduce_id(acc.as_int());
                }
            }
            k = k + 1;
        }
        r.push(acc.finv());
        j = j + 1;
    }
    r
}

/// Interpolates the degree-`max_degree` polynomial through the message
/// values at the integer nodes and evaluates it at `x`.
pub fn barycentric_interpolate(
    weights: &Vec<Fp>,
    evals: &Vec<Fp>,
    x: Fp,
    max_degree: usize,
) -> (r: Fp)
    requires
        max_degree as int + 1 < P as int,
        weights.len() == max_degree + 1,
        evals.len() == max_degree + 1,
        fp_seq_wf(weights@),
        fp_seq_wf(evals@),
        x.wf(),
        forall|j: int|
            0 <= j < weights.len() ==> residues(weights@)[j] == bary_weight(
                max_degree as nat,
                j,
            ),
    ensures
        r.wf(),
        r.as_int() == interpolate_spec(max_degree as nat, residues(evals@), x.as_int()),
{
    let mut sum = Fp::zero();
    let mut j: usize = 0;
    while j < max_degree + 1
        invariant
            j <= max_degree + 1,
            max_degree as int + 1 < P as int,
            weights.len() == max_degree + 1,
            evals.len() == max_degree + 1,
            fp_seq_wf(weights@),
            fp_seq_wf(evals@),
            x.wf(),
            forall|t: int|
                0 <= t < weights.len() ==> residues(weights@)[t] == bary_weight(
                    max_degree as nat,
                    t,
                ),
            sum.wf(),
            sum.as_int() == interp_sum(
                max_degree as nat,
                residues(evals@),
                x.as_int(),
                j as nat,
            ),
        decreases max_degree + 1 - j,
    {
        let mut lp = Fp::one();
        let mut k: usize = 0;
        while k < max_degree + 1
            invariant
                k <= max_degree + 1,
                j < max_degree + 1,
                max_degree as int + 1 < P as int,
                x.wf(),
                lp.wf(),
                lp.as_int() == lag_prod(k as nat, j as int, x.as_int()),
            decreases max_degree + 1 - k,
        {
            if k != j {
                let node_k = Fp::from_u64(k as u64);
                proof {
                    lemma_reduce_id(k as int);
                }
                lp = lp.fmul(x.fsub(node_k));
            } else {
                proof {
                    crate::field::lemma_mulm_one(lp.as_int());
                    lemma_reduce_id(lp.as_int());
                }
            }
            k = k + 1;
        }
        let term = evals[j].fmul(weights[j].fmul(lp));
        sum = sum.fadd(term);
        j = j + 1;
    }
    sum
}

/// The shared verifier loop: reads the round messages and challenges, then
/// the final evaluations, then replays the `r(0) + r(1) == expected` chain
/// with barycentric interpolation.
pub fn sumcheck_verify_core(
    num_vars: usize,
    max_degree: usize,
    sum: Fp,
    num_polys: usize,
    transcript: &mut crate::transcript::Transcript,
) -> (r: Result<(Fp, Vec<Fp>, Vec<Fp>), ProtocolError>)
    requires
        num_vars >= 1,
        1 <= max_degree,
        max_degree as int + 1 < P as int,
        sum.wf(),
    ensures
        sumcheck_verify_ensures(
            num_vars,
            max_degree,
            sum,
            num_polys,
            *old(transcript),
            *final(transcript),
            r,
        ),
{
    let ghost st0 = old(transcript).state@;
    let ghost str0 = old(transcript).stream@;
    let ghost pos0 = old(transcript).pos as int;
    let ghost d = max_degree as nat;
    let mut msgs: Vec<Vec<Fp>> = Vec::new();
    let mut challenges: Vec<Fp> = Vec::new();
    let mut j: usize = 0;
    while j < num_vars
        invariant
            j <= num_vars,
            num_vars >= 1,
            1 <= max_degree,
            max_degree as int + 1 < P as int,
            st0 == old(transcript).state@,
            str0 == old(transcript).stream@,
            pos0 == old(transcript).pos as int,
            d == max_degree as nat,
            transcript.stream@ == str0,
            transcript.pos as int == pos0 + 8 * (max_degree + 1) * j,
            transcript.state@ == sv_state(st0, str0, pos0, d, j as nat),
            msgs.len() == j,
            challenges.len() == j,
            fp_seq_wf(challenges@),
            forall|t: int|
                0 <= t < j ==> (#[trigger] msgs@[t]).len() == max_degree + 1,
            forall|t: int| 0 <= t < j ==> fp_seq_wf((#[trigger] msgs@[t])@),
            forall|t: int|
                0 <= t < j ==> residues((#[trigger] msgs@[t])@) == sv_msg(str0, pos0, d, t as nat),
            forall|t: int|
                0 <= t < j ==> (#[trigger] challenges@[t]).as_int() == sv_challenge(
                    st0,
                    str0,
                    pos0,
                    d,
                    t as nat,
                ),
        decreases num_vars - j,
    {
        let msg = match transcript.read_field_elements(max_degree + 1) {
            Ok(m) => m,
            Err(_) => {
                proof {
                    assert(pos0 + 8 * (max_degree + 1) * j + 8 * (max_degree + 1) > str0.len());
                    assert(8 * (max_degree + 1) * (j + 1) <= 8 * ((max_degree + 1) * num_vars
                        + num_polys)) by (nonlinear_arith)
                        requires
                            j + 1 <= num_vars,
                            max_degree >= 1,
                            num_polys >= 0,
                    ;
                    assert(8 * (max_degree + 1) * j + 8 * (max_degree + 1) == 8 * (max_degree
                        + 1) * (j + 1)) by (nonlinear_arith);
                }
                return Err(ProtocolError::Transcript);
            },
        };
        let ghost pre_read_pos = pos0 + 8 * (max_degree + 1) * j;
        let alpha = transcript.squeeze_challenge();
        msgs.push(msg);
        challenges.push(alpha);
        proof {
            assert(sv_round_pos(pos0, d, j as nat) == pre_read_pos) by (nonlinear_arith)
                requires
                    d == max_degree as nat,
                    pre_read_pos == pos0 + 8 * (max_degree + 1) * j,
            ;
            assert((d + 1) as nat == (max_degree + 1) as nat);
            assert(sv_state(st0, str0, pos0, d, (j + 1) as nat)
                == crate::transcript::squeeze_state(
                crate::transcript::absorb_chunks(
                    sv_state(st0, str0, pos0, d, j as nat),
                    str0,
                    sv_round_pos(pos0, d, j as nat),
                    (d + 1) as nat,
                ),
            ));
            assert(transcript.state@ == sv_state(st0, str0, pos0, d, (j + 1) as nat));
            assert(8 * (max_degree + 1) * j + 8 * (max_degree + 1) == 8 * (max_degree + 1) * (j
                + 1)) by (nonlinear_arith);
            assert(residues(msgs@[j as int]@) == sv_msg(str0, pos0, d, j as nat));
            assert(challenges@[j as int].as_int() == sv_challenge(st0, str0, pos0, d, j as nat));
        }
        j = j + 1;
    }
    proof {
        assert(8 * (max_degree + 1) * num_vars + 8 * num_polys == 8 * ((max_degree + 1)
            * num_vars + num_polys)) by (nonlinear_arith);
    }
    let evaluations = match transcript.read_field_elements(num_polys) {
        Ok(v) => v,
        Err(_) => {
            return Err(ProtocolError::Transcript);
        },
    };
    let weights = barycentric_weights(max_degree);
    let mut expected = sum;
    let mut t: usize = 0;
    while t < num_vars
        invariant
            t <= num_vars,
            num_vars >= 1,
            1 <= max_degree,
            max_degree as int + 1 < P as int,
            st0 == old(transcript).state@,
            str0 == old(transcript).stream@,
            pos0 == old(transcript).pos as int,
            d == max_degree as nat,
            sum.wf(),
            pos0 + 8 * ((max_degree + 1) * num_vars + num_polys) <= str0.len(),
            transcript.stream@ == str0,
            transcript.pos as int == pos0 + 8 * ((max_degree + 1) * num_vars + num_polys),
            transcript.state@ == crate::transcript::absorb_chunks(
                sv_state(st0, str0, pos0, d, num_vars as nat),
                str0,
                pos0 + 8 * (max_degree + 1) * num_vars,
                num_polys as nat,
            ),
            evaluations.len() == num_polys,
            fp_seq_wf(evaluations@),
            residues(evaluations@) == crate::transcript::read_vals(
                str0,
                pos0 + 8 * (max_degree + 1) * num_vars,
                num_polys as nat,
            ),
            weights.len() == max_degree + 1,
            fp_seq_wf(weights@),
            forall|w: int|
                0 <= w < weights.len() ==> residues(weights@)[w] == bary_weight(
                    max_degree as nat,
                    w,
                ),
            msgs.len() == num_vars,
            challenges.len() == num_vars,
            fp_seq_wf(challenges@),
            forall|w: int|
                0 <= w < num_vars ==> (#[trigger] msgs@[w]).len() == max_degree + 1,
            forall|w: int| 0 <= w < num_vars ==> fp_seq_wf((#[trigger] msgs@[w])@),
            forall|w: int|
                0 <= w < num_vars ==> residues((#[trigger] msgs@[w])@) == sv_msg(
                    str0,
                    pos0,
                    d,
                    w as nat,
                ),
            forall|w: int|
                0 <= w < num_vars ==> (#[trigger] challenges@[w]).as_int() == sv_challenge(
                    st0,
                    str0,
                    pos0,
                    d,
                    w as nat,
                ),
            expected.wf(),
            expected.as_int() == sv_expected(sum.as_int(), st0, str0, pos0, d, t as nat),
            sv_checks(sum.as_int(), st0, str0, pos0, d, t as nat),
        decreases num_vars - t,
    {
        let m = &msgs[t];
        let computed = m[0].fadd(m[1]);
        proof {
            assert(residues(m@)[0] == sv_msg(str0, pos0, d, t as nat)[0]);
            assert(residues(m@)[1] == sv_msg(str0, pos0, d, t as nat)[1]);
        }
        if computed != expected {
            proof {
                assert(computed.as_int() != expected.as_int());
                assert(!sv_checks(sum.as_int(), st0, str0, pos0, d, (t + 1) as nat));
                if sv_checks(sum.as_int(), st0, str0, pos0, d, num_vars as nat) {
                    lemma_sv_checks_mono(
                        sum.as_int(),
                        st0,
                        str0,
                        pos0,
                        d,
                        (t + 1) as nat,
                        num_vars as nat,
                    );
                }
            }
            return Err(
                ProtocolError::InvalidSumcheck(
                    "computed sum does not match the expected sum".to_string(),
                ),
            );
        }
        let alpha = challenges[t];
        expected = barycentric_interpolate(&weights, m, alpha, max_degree);
        t = t + 1;
    }
    let rev = reversed(&challenges);
    proof {
        assert(residues(rev@) =~= sv_challenges(st0, str0, pos0, d, num_vars as nat).reverse());
    }
    Ok((expected, evaluations, rev))
}

/// The tuple of table values at hypercube index `i`.
pub open spec fn point_at(ts: Seq<Seq<int>>, i: int) -> Seq<int> {
    Seq::new(ts.len(), |p: int| ts[p][i])
}

/// The sum of the combine function over `j` hypercube indices starting at
/// `start`.
pub open spec fn cube_sum_from(c: CombineSpec, ts: Seq<Seq<int>>, start: int, j: nat) -> int
    decreases j,
{
    if j == 0 {
        0int
    } else {
        addm(cube_sum_from(c, ts, start, (j - 1) as nat), c.spec_eval(point_at(ts, start + j - 1)))
    }
}

/// The sum of the combine function over the whole current hypercube.
pub open spec fn cube_sum(c: CombineSpec, ts: Seq<Seq<int>>) -> int {
    cube_sum_from(c, ts, 0, ts[0].len() as nat)
}

/// Every table is a sequence of canonical residues with one shared even
/// length.
pub open spec fn tables_ok(ts: Seq<Seq<int>>) -> bool {
    &&& ts.len() >= 1
    &&& forall|p: int| 0 <= p < ts.len() ==> crate::field::reduced_seq(#[trigger] ts[p])
    &&& forall|p: int| 0 <= p < ts.len() ==> (#[trigger] ts[p]).len() == ts[0].len()
    &&& ts[0].len() % 2 == 0
    &&& ts[0].len() >= 2
}

/// At the Boolean samples the per-polynomial values are plain table
/// entries: sample `0` reads the low half, sample `1` the high half.
proof fn lemma_point_vals_boolean(ts: Seq<Seq<int>>, i: int)
    requires
        tables_ok(ts),
        0 <= i < ts[0].len() / 2,
    ensures
        point_vals(ts, i, 0) == point_at(ts, i),
        point_vals(ts, i, 1) == point_at(ts, i + ts[0].len() / 2),
{
    let n = ts[0].len() / 2;
    assert forall|p: int| 0 <= p < ts.len() implies #[trigger] point_vals(ts, i, 0)[p]
        == point_at(ts, i)[p] && point_vals(ts, i, 1)[p] == point_at(ts, i + n)[p] by {
        let e = ts[p];
        assert(crate::field::reduced_seq(e));
        assert(e.len() == ts[0].len());
        assert(0 * subm(e[i + n], e[i]) == 0) by (nonlinear_arith);
        crate::field::lemma_reduce_id(0);
        crate::field::lemma_reduce_id(e[i]);
        assert(bind_top(e, 0)[i] == addm(e[i], mulm(0, subm(e[i + e.len() / 2], e[i]))));
        let dd = subm(e[i + n], e[i]);
        assert(1 * (e[i + n] - e[i]) == e[i + n] - e[i]) by (nonlinear_arith);
        crate::field::lemma_subm_reduced(e[i + n], e[i]);
        crate::field::lemma_reduce_id(dd);
        assert(mulm(1, dd) == dd);
        crate::field::lemma_addm_subm(e[i + n], e[i]);
    }
    assert(point_vals(ts, i, 0) =~= point_at(ts, i));
    assert(point_vals(ts, i, 1) =~= point_at(ts, i + n));
}

/// Partial cube sums are canonical residues.
proof fn lemma_cube_sum_reduced(c: CombineSpec, ts: Seq<Seq<int>>, start: int, j: nat)
    ensures
        crate::field::reduced(cube_sum_from(c, ts, start, j)),
    decreases j,
{
    if j == 0 {
    } else {
        crate::field::lemma_addm_reduced(
            cube_sum_from(c, ts, start, (j - 1) as nat),
            c.spec_eval(point_at(ts, start + j - 1)),
        );
    }
}

/// A cube sum splits at any midpoint.
proof fn lemma_cube_sum_split(c: CombineSpec, ts: Seq<Seq<int>>, start: int, a: nat, b: nat)
    ensures
        cube_sum_from(c, ts, start, (a + b) as nat) == addm(
            cube_sum_from(c, ts, start, a),
            cube_sum_from(c, ts, start + a, b),
        ),
    decreases b,
{
    if b == 0 {
        lemma_cube_sum_reduced(c, ts, start, a);
        crate::field::lemma_addm_zero(cube_sum_from(c, ts, start, a));
        crate::field::lemma_reduce_id(cube_sum_from(c, ts, start, a));
    } else {
        lemma_cube_sum_split(c, ts, start, a, (b - 1) as nat);
        crate::field::lemma_addm_assoc(
            cube_sum_from(c, ts, start, a),
            cube_sum_from(c, ts, start + a, (b - 1) as nat),
            c.spec_eval(point_at(ts, start + a + b - 1)),
        );
    }
}

/// A Boolean-sample round sum is a cube sum over the matching half.
proof fn lemma_round_sum_boolean(c: CombineSpec, ts: Seq<Seq<int>>, k: int, j: nat)
    requires
        tables_ok(ts),
        k == 0 || k == 1,
        j <= ts[0].len() / 2,
    ensures
        k == 0 ==> round_sum(c, ts, 0, j) == cube_sum_from(c, ts, 0, j),
        k == 1 ==> round_sum(c, ts, 1, j) == cube_sum_from(c, ts, ts[0].len() as int / 2, j),
    decreases j,
{
    if j > 0 {
        lemma_round_sum_boolean(c, ts, k, (j - 1) as nat);
        lemma_point_vals_boolean(ts, j - 1);
    }
}

/// The first two values of a round message sum to the combine function's
/// sum over the whole current hypercube: what the message claims at the
/// Boolean samples is exactly the running sum-check claim.
pub proof fn lemma_round_message_binds_sum(c: CombineSpec, ts: Seq<Seq<int>>, d: nat)
    requires
        tables_ok(ts),
        d >= 1,
    ensures
        addm(round_msg(c, ts, d)[0], round_msg(c, ts, d)[1]) == cube_sum(c, ts),
{
    let n = (ts[0].len() / 2) as nat;
    assert(round_msg(c, ts, d)[0] == round_sum(c, ts, 0, pair_count(ts)));
    assert(round_msg(c, ts, d)[1] == round_sum(c, ts, 1, pair_count(ts)));
    assert(pair_count(ts) == n);
    lemma_round_sum_boolean(c, ts, 0, n);
    lemma_round_sum_boolean(c, ts, 1, n);
    lemma_cube_sum_split(c, ts, 0, n, n);
    assert((n + n) as nat == ts[0].len() as nat);
}

} // verus!
