//! Proved laws of the multilinear polynomial engine.
//!
//! The two Moebius transforms invert each other; evaluating a polynomial at
//! a Boolean point selects the matching entry of its evaluation vector; and
//! the `eq` tensor evaluates everywhere to the product formula
//! `prod_i (x_i y_i + (1 - x_i)(1 - y_i))`.

use vstd::prelude::*;
use vstd::arithmetic::power2::pow2;
use vstd::arithmetic::div_mod::{lemma_fundamental_div_mod, lemma_fundamental_div_mod_converse};
use crate::field::{
    addm, mulm, subm, reduced, reduced_seq, P,
    lemma_addm_comm, lemma_addm_left, lemma_addm_right, lemma_addm_reduced, lemma_addm_subm,
    lemma_mulm_comm, lemma_mulm_left, lemma_mulm_right, lemma_reduce_id, lemma_subm_addm,
    lemma_subm_left, lemma_subm_reduced, lemma_subm_right,
};
use crate::poly::multilinear::{
    add_seq, bind_top, coeff_bind_top, coeff_eval, coeff_fold_vars, eval_mle, eq_expand,
    eq_prod, eq_tensor, eq_term, fold_vars, forward_steps, idx_of, is_bool_seq,
    lemma_mobius_steps_len, mobius_steps, scale_seq, step_add, step_sub, sub_seq,
};

verus! {

/// A position whose bit `i` is set is at least `2^i` above its partner,
/// whose bit `i` is clear.
proof fn lemma_partner_bit(j: int, h: int)
    requires
        h >= 1,
        j >= 0,
        (j / h) % 2 == 1,
    ensures
        j >= h,
        ((j - h) / h) % 2 == 0,
{
    lemma_fundamental_div_mod(j, h);
    let q = j / h;
    let rr = j % h;
    assert(q >= 0) by (nonlinear_arith)
        requires
            j == h * q + rr,
            h >= 1,
            j >= 0,
            0 <= rr < h,
    ;
    assert(j >= h) by (nonlinear_arith)
        requires
            j == h * q + rr,
            q % 2 == 1,
            q >= 0,
            h >= 1,
            rr >= 0,
    ;
    assert(j - h == (q - 1) * h + rr) by (nonlinear_arith)
        requires
            j == h * q + rr,
    ;
    lemma_fundamental_div_mod_converse(j - h, h, q - 1, rr);
}

/// A subtraction pass keeps residues canonical.
proof fn lemma_step_sub_reduced(e: Seq<int>, i: nat)
    requires
        reduced_seq(e),
    ensures
        reduced_seq(step_sub(e, i)),
{
    assert forall|j: int| 0 <= j < step_sub(e, i).len() implies reduced(
        #[trigger] step_sub(e, i)[j],
    ) by {
        if (j / pow2(i) as int) % 2 == 1 {
            lemma_subm_reduced(e[j], e[j - pow2(i)]);
        } else {
            assert(reduced(e[j]));
        }
    }
}

/// An addition pass keeps residues canonical.
proof fn lemma_step_add_reduced(e: Seq<int>, i: nat)
    requires
        reduced_seq(e),
    ensures
        reduced_seq(step_add(e, i)),
{
    assert forall|j: int| 0 <= j < step_add(e, i).len() implies reduced(
        #[trigger] step_add(e, i)[j],
    ) by {
        if (j / pow2(i) as int) % 2 == 1 {
            lemma_addm_reduced(e[j], e[j - pow2(i)]);
        } else {
            assert(reduced(e[j]));
        }
    }
}

/// The forward transform keeps residues canonical.
proof fn lemma_forward_steps_reduced(e: Seq<int>, k: nat)
    requires
        reduced_seq(e),
    ensures
        reduced_seq(forward_steps(e, k)),
    decreases k,
{
    if k > 0 {
        lemma_forward_steps_reduced(e, (k - 1) as nat);
        lemma_step_add_reduced(forward_steps(e, (k - 1) as nat), (k - 1) as nat);
    }
}

/// The two passes for one bit invert each other.
proof fn lemma_step_roundtrip(e: Seq<int>, i: nat)
    requires
        reduced_seq(e),
    ensures
        step_sub(step_add(e, i), i) == e,
        step_add(step_sub(e, i), i) == e,
{
    let h = pow2(i) as int;
    vstd::arithmetic::power2::lemma_pow2_pos(i);
    let sa = step_add(e, i);
    let ss = step_sub(e, i);
    assert forall|j: int| 0 <= j < e.len() implies #[trigger] step_sub(sa, i)[j] == e[j] by {
        if (j / h) % 2 == 1 {
            lemma_partner_bit(j, h);
            assert(sa[j - h] == e[j - h]);
            assert(sa[j] == addm(e[j], e[j - h]));
            lemma_subm_addm(e[j], e[j - h]);
        }
    }
    assert(step_sub(sa, i) =~= e);
    assert forall|j: int| 0 <= j < e.len() implies #[trigger] step_add(ss, i)[j] == e[j] by {
        if (j / h) % 2 == 1 {
            lemma_partner_bit(j, h);
            assert(ss[j - h] == e[j - h]);
            assert(ss[j] == subm(e[j], e[j - h]));
            lemma_addm_comm(subm(e[j], e[j - h]), e[j - h]);
            lemma_addm_subm(e[j], e[j - h]);
        }
    }
    assert(step_add(ss, i) =~= e);
}

/// Converting a coefficient vector to evaluations and back restores it:
/// the inverse Moebius transform undoes the forward transform.
pub proof fn lemma_coeff_to_eval_to_coeff(c: Seq<int>, k: nat)
    requires
        reduced_seq(c),
    ensures
        mobius_steps(forward_steps(c, k), k) == c,
    decreases k,
{
    if k > 0 {
        let f = forward_steps(c, (k - 1) as nat);
        lemma_forward_steps_reduced(c, (k - 1) as nat);
        lemma_step_roundtrip(f, (k - 1) as nat);
        lemma_coeff_to_eval_to_coeff(c, (k - 1) as nat);
    }
}

/// Converting an evaluation vector to coefficients and back restores it:
/// the forward Moebius transform undoes the inverse transform.
pub proof fn lemma_eval_to_coeff_to_eval(e: Seq<int>, k: nat)
    requires
        reduced_seq(e),
    ensures
        forward_steps(mobius_steps(e, k), k) == e,
    decreases k,
{
    if k > 0 {
        let s = step_sub(e, (k - 1) as nat);
        lemma_step_sub_reduced(e, (k - 1) as nat);
        lemma_eval_to_coeff_to_eval(s, (k - 1) as nat);
        lemma_step_roundtrip(e, (k - 1) as nat);
    }
}

/// Binding variables one at a time, highest first, equals binding the last
/// coordinate first and then the remaining ones.
proof fn lemma_fold_vars_peel(e: Seq<int>, x: Seq<int>, t: nat)
    requires
        t < x.len(),
    ensures
        fold_vars(e, x, t) == fold_vars(bind_top(e, x.last()), x.drop_last(), t),
    decreases x.len() - t,
{
    if t == x.len() - 1 {
        assert(fold_vars(e, x, t) == bind_top(fold_vars(e, x, (t + 1) as nat), x[t as int]));
        assert(fold_vars(e, x, (t + 1) as nat) == e);
        assert(fold_vars(bind_top(e, x.last()), x.drop_last(), t) == bind_top(e, x.last()));
    } else {
        lemma_fold_vars_peel(e, x, (t + 1) as nat);
        assert(x.drop_last()[t as int] == x[t as int]);
    }
}

/// Evaluation peels the last coordinate first.
pub proof fn lemma_eval_mle_peel(e: Seq<int>, x: Seq<int>)
    requires
        x.len() >= 1,
    ensures
        eval_mle(e, x) == eval_mle(bind_top(e, x.last()), x.drop_last()),
{
    lemma_fold_vars_peel(e, x, 0);
}

/// Binding a variable to zero keeps the low half.
proof fn lemma_bind_top_zero(e: Seq<int>)
    requires
        reduced_seq(e),
    ensures
        bind_top(e, 0) == e.take(e.len() as int / 2),
{
    assert forall|i: int| 0 <= i < e.len() / 2 implies #[trigger] bind_top(e, 0)[i] == e[i] by {
        assert(0 * subm(e[i + e.len() / 2], e[i]) == 0) by (nonlinear_arith);
        lemma_reduce_id(0);
        lemma_reduce_id(e[i]);
    }
    assert(bind_top(e, 0) =~= e.take(e.len() as int / 2));
}

/// Binding a variable to one keeps the high half.
proof fn lemma_bind_top_one(e: Seq<int>)
    requires
        reduced_seq(e),
        e.len() % 2 == 0,
    ensures
        bind_top(e, 1) == e.skip(e.len() as int / 2),
{
    let h = e.len() as int / 2;
    assert forall|i: int| 0 <= i < h implies #[trigger] bind_top(e, 1)[i] == e[i + h] by {
        let d = subm(e[i + h], e[i]);
        assert(1 * (e[i + h] - e[i]) == e[i + h] - e[i]) by (nonlinear_arith);
        lemma_subm_reduced(e[i + h], e[i]);
        lemma_reduce_id(d);
        assert(mulm(1, d) == d);
        lemma_addm_subm(e[i + h], e[i]);
    }
    assert(bind_top(e, 1) =~= e.skip(h));
}

/// The index of a Boolean assignment is within the hypercube.
proof fn lemma_idx_of_bound(x: Seq<int>)
    ensures
        idx_of(x) < pow2(x.len()),
    decreases x.len(),
{
    if x.len() == 0 {
        vstd::arithmetic::power2::lemma2_to64();
    } else {
        lemma_idx_of_bound(x.drop_last());
        assert(pow2(x.len()) == 2 * pow2((x.len() - 1) as nat)) by {
            vstd::arithmetic::power2::lemma_pow2_unfold(x.len());
        }
    }
}

/// Evaluating at a Boolean point selects the matching entry of the
/// evaluation vector.
pub proof fn lemma_eval_mle_boolean(e: Seq<int>, x: Seq<int>)
    requires
        reduced_seq(e),
        is_bool_seq(x),
        e.len() == pow2(x.len()),
    ensures
        idx_of(x) < e.len(),
        eval_mle(e, x) == e[idx_of(x) as int],
    decreases x.len(),
{
    lemma_idx_of_bound(x);
    if x.len() == 0 {
        assert(eval_mle(e, x) == fold_vars(e, x, 0)[0]);
        assert(fold_vars(e, x, 0) == e);
    } else {
        let h = pow2((x.len() - 1) as nat) as int;
        assert(pow2(x.len()) == 2 * pow2((x.len() - 1) as nat)) by {
            vstd::arithmetic::power2::lemma_pow2_unfold(x.len());
        }
        lemma_eval_mle_peel(e, x);
        let xr = x.drop_last();
        assert(is_bool_seq(xr));
        if x.last() == 1 {
            lemma_bind_top_one(e);
            let half = e.skip(h);
            assert(reduced_seq(half)) by {
                assert forall|i: int| 0 <= i < half.len() implies reduced(
                    #[trigger] half[i],
                ) by {
                    assert(half[i] == e[i + h]);
                }
            }
            lemma_eval_mle_boolean(half, xr);
            assert(half[idx_of(xr) as int] == e[idx_of(xr) + h]);
        } else {
            lemma_bind_top_zero(e);
            let half = e.take(h);
            assert(reduced_seq(half)) by {
                assert forall|i: int| 0 <= i < half.len() implies reduced(
                    #[trigger] half[i],
                ) by {
                    assert(half[i] == e[i]);
                }
            }
            lemma_eval_mle_boolean(half, xr);
        }
    }
}

/// A binding pass commutes with a multiplication by a constant,
/// elementwise: `(z + x(w - z)) c == zc + x(wc - zc)`.
proof fn lemma_affine_mul(z: int, w: int, x: int, c: int)
    ensures
        mulm(addm(z, mulm(x, subm(w, z))), c)
            == addm(mulm(z, c), mulm(x, subm(mulm(w, c), mulm(z, c)))),
{
    let pi = P as int;
    lemma_mulm_right(x, w - z);
    lemma_addm_right(z, x * (w - z));
    lemma_mulm_left(z + x * (w - z), c);
    lemma_subm_left(w * c, mulm(z, c));
    lemma_subm_right(w * c, z * c);
    lemma_mulm_right(x, w * c - z * c);
    lemma_addm_left(z * c, mulm(x, w * c - z * c));
    lemma_addm_right(z * c, x * (w * c - z * c));
    assert((z + x * (w - z)) * c == z * c + x * (w * c - z * c)) by (nonlinear_arith);
}

/// A binding pass commutes with the complement-weighting `z - zc`,
/// elementwise.
proof fn lemma_affine_complement(z: int, w: int, x: int, c: int)
    ensures
        ({
            let b = addm(z, mulm(x, subm(w, z)));
            subm(b, mulm(b, c)) == addm(
                subm(z, mulm(z, c)),
                mulm(x, subm(subm(w, mulm(w, c)), subm(z, mulm(z, c)))),
            )
        }),
{
    let pi = P as int;
    let b0 = z + x * (w - z);
    lemma_mulm_right(x, w - z);
    lemma_addm_right(z, x * (w - z));
    assert(addm(z, mulm(x, subm(w, z))) == b0 % pi);
    let b = b0 % pi;
    lemma_mulm_left(b0, c);
    assert(mulm(b, c) == (b0 * c) % pi);
    lemma_subm_left(b0, (b0 * c) % pi);
    lemma_subm_right(b0, b0 * c);
    assert(subm(b, mulm(b, c)) == subm(b0, b0 * c));
    lemma_subm_right(z, z * c);
    assert(subm(z, mulm(z, c)) == subm(z, z * c));
    lemma_subm_right(w, w * c);
    assert(subm(w, mulm(w, c)) == subm(w, w * c));
    lemma_subm_left(w - w * c, subm(z, z * c));
    lemma_subm_right(w - w * c, z - z * c);
    assert(subm(subm(w, mulm(w, c)), subm(z, mulm(z, c)))
        == subm(w - w * c, z - z * c));
    lemma_mulm_right(x, (w - w * c) - (z - z * c));
    lemma_addm_left(z - z * c, mulm(x, ((w - w * c) - (z - z * c))));
    lemma_addm_right(z - z * c, x * ((w - w * c) - (z - z * c)));
    assert(b0 - b0 * c == (z - z * c) + x * ((w - w * c) - (z - z * c)))
        by (nonlinear_arith)
        requires
            b0 == z + x * (w - z),
    ;
}

/// A variable binding commutes with one tensor-doubling pass.
proof fn lemma_bind_expand_commute(t: Seq<int>, y0: int, xl: int)
    requires
        t.len() >= 2,
        t.len() % 2 == 0,
    ensures
        bind_top(eq_expand(t, y0), xl) == eq_expand(bind_top(t, xl), y0),
{
    let l = t.len() as int;
    let ex = eq_expand(t, y0);
    let bd = bind_top(t, xl);
    assert(ex.len() == 2 * l);
    assert(bd.len() == l / 2);
    assert forall|j: int| 0 <= j < l implies #[trigger] bind_top(ex, xl)[j]
        == eq_expand(bd, y0)[j] by {
        let z = t[j / 2];
        let w = t[j / 2 + l / 2];
        assert(ex[j + l] == if (j + l) % 2 == 1 {
            mulm(t[(j + l) / 2], y0)
        } else {
            subm(t[(j + l) / 2], mulm(t[(j + l) / 2], y0))
        });
        assert((j + l) % 2 == j % 2);
        assert((j + l) / 2 == j / 2 + l / 2);
        if j % 2 == 1 {
            assert(ex[j] == mulm(z, y0));
            assert(ex[j + l] == mulm(w, y0));
            lemma_affine_mul(z, w, xl, y0);
            assert(eq_expand(bd, y0)[j] == mulm(bd[j / 2], y0));
            assert(bd[j / 2] == addm(z, mulm(xl, subm(w, z))));
        } else {
            assert(ex[j] == subm(z, mulm(z, y0)));
            assert(ex[j + l] == subm(w, mulm(w, y0)));
            lemma_affine_complement(z, w, xl, y0);
            assert(eq_expand(bd, y0)[j] == subm(bd[j / 2], mulm(bd[j / 2], y0)));
            assert(bd[j / 2] == addm(z, mulm(xl, subm(w, z))));
        }
    }
    assert(bind_top(ex, xl) =~= eq_expand(bd, y0));
}

/// The tensor of `k` coordinates has `2^k` entries.
pub proof fn lemma_eq_tensor_len(y: Seq<int>)
    ensures
        eq_tensor(y).len() == pow2(y.len()),
    decreases y.len(),
{
    if y.len() == 0 {
        vstd::arithmetic::power2::lemma2_to64();
    } else {
        lemma_eq_tensor_len(y.drop_first());
        assert(pow2(y.len()) == 2 * pow2((y.len() - 1) as nat)) by {
            vstd::arithmetic::power2::lemma_pow2_unfold(y.len());
        }
    }
}

/// Peeling one doubling pass off an evaluation of the tensor.
proof fn lemma_eq_expand_eval(t: Seq<int>, y0: int, x: Seq<int>)
    requires
        x.len() >= 1,
        t.len() == pow2((x.len() - 1) as nat),
    ensures
        eval_mle(eq_expand(t, y0), x)
            == mulm(eq_term(x[0], y0), eval_mle(t, x.drop_first())),
    decreases x.len(),
{
    let pi = P as int;
    vstd::arithmetic::power2::lemma_pow2_pos((x.len() - 1) as nat);
    if x.len() == 1 {
        vstd::arithmetic::power2::lemma2_to64();
        let t0 = t[0];
        let x0 = x[0];
        let ex = eq_expand(t, y0);
        assert(ex.len() == 2);
        lemma_eval_mle_peel(ex, x);
        let b = bind_top(ex, x0);
        assert(b.len() == 1);
        assert(eval_mle(b, x.drop_last()) == fold_vars(b, x.drop_last(), 0)[0]);
        assert(fold_vars(b, x.drop_last(), 0) == b);
        assert(ex[0] == subm(t0, mulm(t0, y0)));
        assert(ex[1] == mulm(t0, y0));
        assert(b[0] == addm(ex[0], mulm(x0, subm(ex[1], ex[0]))));
        assert(eval_mle(t, x.drop_first()) == fold_vars(t, x.drop_first(), 0)[0]);
        assert(fold_vars(t, x.drop_first(), 0) == t);
        // normalize the left side
        lemma_mulm_right(t0, y0);
        lemma_subm_right(t0, t0 * y0);
        assert(ex[0] == subm(t0, t0 * y0));
        lemma_subm_left(t0 * y0, subm(t0, t0 * y0));
        lemma_subm_right(t0 * y0, t0 - t0 * y0);
        assert(subm(ex[1], ex[0]) == subm(t0 * y0, t0 - t0 * y0));
        lemma_mulm_right(x0, t0 * y0 - (t0 - t0 * y0));
        lemma_addm_left(t0 - t0 * y0, mulm(x0, t0 * y0 - (t0 - t0 * y0)));
        lemma_addm_right(t0 - t0 * y0, x0 * (t0 * y0 - (t0 - t0 * y0)));
        assert(b[0] == ((t0 - t0 * y0) + x0 * (t0 * y0 - (t0 - t0 * y0))) % pi);
        // normalize the right side
        lemma_subm_right(1, x0 * 1);
        lemma_subm_right(1, y0 * 1);
        assert(subm(1, mulm(x0, 1)) == subm(1, x0 * 1));
        lemma_mulm_left(1 - x0 * 1, subm(1, mulm(y0, 1)));
        lemma_mulm_right(1 - x0 * 1, 1 - y0 * 1);
        lemma_subm_left(1 - x0, y0);
        lemma_subm_left(1 - y0, x0);
        assert(subm(1, x0) == (1 - x0) % pi);
        assert(subm(1, y0) == (1 - y0) % pi);
        lemma_mulm_left(1 - x0, subm(1, y0));
        lemma_mulm_right(1 - x0, 1 - y0);
        assert(mulm(subm(1, x0), subm(1, y0)) == ((1 - x0) * (1 - y0)) % pi);
        lemma_addm_left(x0 * y0, mulm(subm(1, x0), subm(1, y0)));
        lemma_addm_right(x0 * y0, (1 - x0) * (1 - y0));
        assert(eq_term(x0, y0) == (x0 * y0 + (1 - x0) * (1 - y0)) % pi);
        lemma_mulm_left(x0 * y0 + (1 - x0) * (1 - y0), t0);
        assert(mulm(eq_term(x0, y0), t0) == ((x0 * y0 + (1 - x0) * (1 - y0)) * t0) % pi);
        assert((t0 - t0 * y0) + x0 * (t0 * y0 - (t0 - t0 * y0))
            == (x0 * y0 + (1 - x0) * (1 - y0)) * t0) by (nonlinear_arith);
    } else {
        let ex = eq_expand(t, y0);
        lemma_eval_mle_peel(ex, x);
        assert(t.len() % 2 == 0) by {
            assert(pow2((x.len() - 1) as nat) == 2 * pow2((x.len() - 2) as nat)) by {
                vstd::arithmetic::power2::lemma_pow2_unfold((x.len() - 1) as nat);
            }
        }
        assert(t.len() >= 2);
        lemma_bind_expand_commute(t, y0, x.last());
        let bd = bind_top(t, x.last());
        assert(bd.len() == pow2((x.len() - 2) as nat)) by {
            vstd::arithmetic::power2::lemma_pow2_unfold((x.len() - 1) as nat);
        }
        lemma_eq_expand_eval(bd, y0, x.drop_last());
        assert(x.drop_last()[0] == x[0]);
        assert(x.drop_last().drop_first() =~= x.drop_first().drop_last());
        assert(x.drop_first().last() == x.last());
        lemma_eval_mle_peel(t, x.drop_first());
    }
}

/// The `eq` polynomial built from `y` evaluates at any point `x` to
/// `prod_i (x_i y_i + (1 - x_i)(1 - y_i))`.
pub proof fn lemma_eq_tensor_evaluate(x: Seq<int>, y: Seq<int>)
    requires
        x.len() == y.len(),
    ensures
        eval_mle(eq_tensor(y), x) == eq_prod(x, y),
    decreases x.len(),
{
    if x.len() == 0 {
        let t = eq_tensor(y);
        assert(eval_mle(t, x) == fold_vars(t, x, 0)[0]);
        assert(fold_vars(t, x, 0) == t);
        assert(t[0] == 1);
    } else {
        lemma_eq_tensor_len(y.drop_first());
        lemma_eq_expand_eval(eq_tensor(y.drop_first()), y[0], x);
        lemma_eq_tensor_evaluate(x.drop_first(), y.drop_first());
    }
}

/// The coefficient-form analogue of `lemma_fold_vars_peel`.
proof fn lemma_coeff_fold_vars_peel(c: Seq<int>, x: Seq<int>, t: nat)
    requires
        t < x.len(),
    ensures
        coeff_fold_vars(c, x, t) == coeff_fold_vars(coeff_bind_top(c, x.last()), x.drop_last(), t),
    decreases x.len() - t,
{
    if t == x.len() - 1 {
        assert(coeff_fold_vars(c, x, t) == coeff_bind_top(
            coeff_fold_vars(c, x, (t + 1) as nat),
            x[t as int],
        ));
        assert(coeff_fold_vars(c, x, (t + 1) as nat) == c);
        assert(coeff_fold_vars(coeff_bind_top(c, x.last()), x.drop_last(), t)
            == coeff_bind_top(c, x.last()));
    } else {
        lemma_coeff_fold_vars_peel(c, x, (t + 1) as nat);
        assert(x.drop_last()[t as int] == x[t as int]);
    }
}

/// Coefficient evaluation peels the last coordinate first.
pub proof fn lemma_coeff_eval_peel(c: Seq<int>, x: Seq<int>)
    requires
        x.len() >= 1,
    ensures
        coeff_eval(c, x) == coeff_eval(coeff_bind_top(c, x.last()), x.drop_last()),
{
    lemma_coeff_fold_vars_peel(c, x, 0);
}

/// A subtraction pass on two concatenated blocks, each a multiple of the
/// pass's stride pair, acts on the blocks independently.
proof fn lemma_step_sub_concat(a: Seq<int>, b: Seq<int>, i: nat)
    requires
        a.len() == b.len(),
        a.len() % pow2((i + 1) as nat) == 0,
    ensures
        step_sub(a + b, i) == step_sub(a, i) + step_sub(b, i),
{
    let h = pow2(i) as int;
    let la = a.len() as int;
    vstd::arithmetic::power2::lemma_pow2_pos(i);
    assert(pow2((i + 1) as nat) == 2 * pow2(i)) by {
        vstd::arithmetic::power2::lemma_pow2_unfold((i + 1) as nat);
    }
    assert(la % (2 * h) == 0);
    vstd::arithmetic::div_mod::lemma_mod_breakdown(la, h, 2);
    assert(h * 2 == 2 * h);
    assert(h * ((la / h) % 2) + la % h == 0);
    vstd::arithmetic::div_mod::lemma_mod_bound(la, h);
    assert((la / h) % 2 == 0 && la % h == 0) by (nonlinear_arith)
        requires
            h * ((la / h) % 2) + la % h == 0,
            h >= 1,
            (la / h) % 2 >= 0,
            la % h >= 0,
    ;
    lemma_fundamental_div_mod(la, h);
    assert(la == h * (la / h));
    assert forall|j: int| 0 <= j < la + b.len() implies #[trigger] step_sub(a + b, i)[j] == (
    step_sub(a, i) + step_sub(b, i))[j] by {
        if j < la {
            if (j / h) % 2 == 1 {
                lemma_partner_bit(j, h);
            }
        } else {
            let jp = j - la;
            lemma_fundamental_div_mod(jp, h);
            let q = jp / h;
            let rr = jp % h;
            assert(j == h * (la / h + q) + rr) by (nonlinear_arith)
                requires
                    jp == h * q + rr,
                    j == la + jp,
                    la == h * (la / h),
            ;
            lemma_fundamental_div_mod_converse(j, h, la / h + q, rr);
            assert((j / h) % 2 == q % 2) by {
                vstd::arithmetic::div_mod::lemma_mod_multiples_vanish(
                    (la / h) / 2,
                    q,
                    2,
                );
                assert(la / h + q == 2 * ((la / h) / 2) + q) by (nonlinear_arith)
                    requires
                        (la / h) % 2 == 0,
                        la / h == 2 * ((la / h) / 2) + (la / h) % 2,
                ;
                lemma_fundamental_div_mod(la / h, 2);
            }
            if (jp / h) % 2 == 1 {
                lemma_partner_bit(jp, h);
                assert((a + b)[j] == b[jp]);
                assert((a + b)[j - h] == b[jp - h]);
            }
        }
    }
    assert(step_sub(a + b, i) =~= step_sub(a, i) + step_sub(b, i));
}

/// The inverse Moebius transform acts on concatenated halves
/// independently.
proof fn lemma_mobius_steps_concat(a: Seq<int>, b: Seq<int>, i: nat)
    requires
        a.len() == b.len(),
        a.len() % pow2(i) == 0,
    ensures
        mobius_steps(a + b, i) == mobius_steps(a, i) + mobius_steps(b, i),
    decreases i,
{
    if i == 0 {
    } else {
        assert(a.len() % pow2((i - 1) as nat) == 0) by {
            vstd::arithmetic::power2::lemma_pow2_unfold(i);
            vstd::arithmetic::power2::lemma_pow2_pos((i - 1) as nat);
            assert(pow2(i) == 2 * pow2((i - 1) as nat));
            assert(a.len() as int % (pow2((i - 1) as nat) as int * 2) == 0)
                by (nonlinear_arith)
                requires
                    a.len() as int % (2 * (pow2((i - 1) as nat) as int)) == 0,
            ;
            vstd::arithmetic::div_mod::lemma_mod_breakdown(
                a.len() as int,
                pow2((i - 1) as nat) as int,
                2,
            );
        }
        lemma_step_sub_concat(a, b, (i - 1) as nat);
        lemma_mobius_steps_concat(step_sub(a, (i - 1) as nat), step_sub(b, (i - 1) as nat), (
        i - 1) as nat);
        assert(step_sub(a, (i - 1) as nat).len() == a.len());
    }
}

/// One subtraction pass is linear: it commutes with adding a scaled
/// vector.
proof fn lemma_step_sub_linear(a: Seq<int>, b: Seq<int>, s: int, i: nat)
    requires
        a.len() == b.len(),
    ensures
        step_sub(add_seq(a, scale_seq(b, s)), i) == add_seq(
            step_sub(a, i),
            scale_seq(step_sub(b, i), s),
        ),
{
    let h = pow2(i) as int;
    vstd::arithmetic::power2::lemma_pow2_pos(i);
    let v = add_seq(a, scale_seq(b, s));
    assert forall|j: int| 0 <= j < a.len() implies #[trigger] step_sub(v, i)[j] == add_seq(
        step_sub(a, i),
        scale_seq(step_sub(b, i), s),
    )[j] by {
        lemma_addm_right(a[j], b[j] * s);
        assert(v[j] == (a[j] + b[j] * s) % (P as int));
        if (j / h) % 2 == 1 {
            lemma_partner_bit(j, h);
            let p = j - h;
            lemma_addm_right(a[p], b[p] * s);
            assert(v[p] == (a[p] + b[p] * s) % (P as int));
            lemma_subm_left(a[j] + b[j] * s, v[p]);
            lemma_subm_right(a[j] + b[j] * s, a[p] + b[p] * s);
            assert(subm(v[j], v[p]) == (a[j] + b[j] * s - (a[p] + b[p] * s)) % (P as int));
            lemma_mulm_left((b[j] - b[p]) * 1, s);
            lemma_mulm_left(b[j] - b[p], s);
            assert(mulm(subm(b[j], b[p]), s) == ((b[j] - b[p]) * s) % (P as int));
            lemma_addm_left(a[j] - a[p], mulm(subm(b[j], b[p]), s));
            lemma_addm_right(a[j] - a[p], (b[j] - b[p]) * s);
            assert(addm(subm(a[j], a[p]), mulm(subm(b[j], b[p]), s)) == (a[j] - a[p] + (b[j]
                - b[p]) * s) % (P as int));
            assert(a[j] + b[j] * s - (a[p] + b[p] * s) == a[j] - a[p] + (b[j] - b[p]) * s)
                by (nonlinear_arith);
        }
    }
    assert(step_sub(v, i) =~= add_seq(step_sub(a, i), scale_seq(step_sub(b, i), s)));
}

/// The inverse Moebius transform is linear.
proof fn lemma_mobius_steps_linear(a: Seq<int>, b: Seq<int>, s: int, i: nat)
    requires
        a.len() == b.len(),
    ensures
        mobius_steps(add_seq(a, scale_seq(b, s)), i) == add_seq(
            mobius_steps(a, i),
            scale_seq(mobius_steps(b, i), s),
        ),
    decreases i,
{
    if i > 0 {
        lemma_step_sub_linear(a, b, s, (i - 1) as nat);
        lemma_mobius_steps_linear(
            step_sub(a, (i - 1) as nat),
            step_sub(b, (i - 1) as nat),
            s,
            (i - 1) as nat,
        );
    }
}

/// The coefficient vector of a polynomial evaluates, in the monomial
/// basis, to the same value the evaluation vector gives by multilinear
/// extension: the two representations agree at every point.
pub proof fn lemma_coeff_form_evaluates(e: Seq<int>, x: Seq<int>)
    requires
        reduced_seq(e),
        e.len() == pow2(x.len()),
    ensures
        coeff_eval(mobius_steps(e, x.len()), x) == eval_mle(e, x),
    decreases x.len(),
{
    if x.len() == 0 {
        assert(mobius_steps(e, 0) == e);
        assert(coeff_eval(e, x) == coeff_fold_vars(e, x, 0)[0]);
        assert(coeff_fold_vars(e, x, 0) == e);
        assert(eval_mle(e, x) == fold_vars(e, x, 0)[0]);
        assert(fold_vars(e, x, 0) == e);
    } else {
        let k = x.len();
        let xl = x.last();
        vstd::arithmetic::power2::lemma_pow2_pos((k - 1) as nat);
        assert(pow2(k) == 2 * pow2((k - 1) as nat)) by {
            vstd::arithmetic::power2::lemma_pow2_unfold(k);
        }
        let h = pow2((k - 1) as nat) as int;
        let lo = e.take(h);
        let hi = e.skip(h);
        let d = sub_seq(hi, lo);

        // The top-bit pass leaves the low half and subtracts it from the
        // high half.
        assert forall|j: int| 0 <= j < e.len() implies #[trigger] step_sub(e, (k - 1) as nat)[
            j
        ] == (lo + d)[j] by {
            if j < h {
                lemma_fundamental_div_mod_converse(j, h, 0, j);
            } else {
                lemma_fundamental_div_mod_converse(j, h, 1, j - h);
            }
        }
        assert(step_sub(e, (k - 1) as nat) =~= lo + d);

        // The remaining passes act on the halves independently.
        assert(lo.len() % pow2((k - 1) as nat) == 0) by {
            vstd::arithmetic::div_mod::lemma_mod_self_0(h);
        }
        lemma_mobius_steps_concat(lo, d, (k - 1) as nat);
        let mlo = mobius_steps(lo, (k - 1) as nat);
        let md = mobius_steps(d, (k - 1) as nat);
        lemma_mobius_steps_len(lo, (k - 1) as nat);
        lemma_mobius_steps_len(d, (k - 1) as nat);
        let c = mobius_steps(e, k);
        assert(c == mlo + md);

        // Peeling the last coordinate off the coefficient form gives the
        // transform of the bound evaluation vector, by linearity.
        lemma_coeff_eval_peel(c, x);
        let bound = bind_top(e, xl);
        assert forall|i: int| 0 <= i < h implies #[trigger] bound[i] == add_seq(
            lo,
            scale_seq(d, xl),
        )[i] by {
            lemma_mulm_comm(xl, subm(e[i + h], e[i]));
        }
        assert(bound =~= add_seq(lo, scale_seq(d, xl)));
        lemma_mobius_steps_linear(lo, d, xl, (k - 1) as nat);
        assert forall|i: int| 0 <= i < h implies #[trigger] coeff_bind_top(c, xl)[i]
            == mobius_steps(bound, (k - 1) as nat)[i] by {
            assert(c[i] == mlo[i]);
            assert(c[i + h] == md[i]);
            lemma_mulm_comm(xl, md[i]);
            assert(mobius_steps(bound, (k - 1) as nat) == add_seq(mlo, scale_seq(md, xl)));
        }
        lemma_mobius_steps_len(bound, (k - 1) as nat);
        assert(coeff_bind_top(c, xl) =~= mobius_steps(bound, (k - 1) as nat));

        // The bound vector is canonical, so the induction applies.
        assert(reduced_seq(bound)) by {
            assert forall|i: int| 0 <= i < bound.len() implies reduced(
                #[trigger] bound[i],
            ) by {
                lemma_addm_reduced(e[i], mulm(xl, subm(e[i + e.len() / 2], e[i])));
            }
        }
        lemma_coeff_form_evaluates(bound, x.drop_last());
        lemma_eval_mle_peel(e, x);
    }
}

} // verus!
