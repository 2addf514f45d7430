//! How the value of a polynomial at a point goes with the operations on
//! polynomials: evaluation at a point is a homomorphism of rings.

use crate::field::{
    add_mod, lemma_add_congruent, lemma_add_mod_interchange, lemma_congruent_residues,
    lemma_mul_congruent, lemma_mul_mod_associative, lemma_mul_mod_commutative,
    lemma_mul_mod_distributes, lemma_sub_congruent, lemma_zero_and_one, modulus, mul_mod, neg_mod,
    sub_mod,
};
use crate::polynomial::{
    coeff, linear_quotient, pointwise_difference, pointwise_scaled, pointwise_sum, poly_add,
    poly_eval, poly_mul, poly_scale, poly_shift, poly_sub, tail, trim,
};
use crate::utils::poly::{linear_factor, vanishing};
use vstd::prelude::*;

verus! {

/// Horner's rule, for the zero polynomial too: the value at `x` is the
/// constant term plus `x` times the value of the tail.
pub proof fn lemma_eval_unfold(c: Seq<nat>, x: nat)
    ensures
        poly_eval(c, x) == add_mod(coeff(c, 0), mul_mod(x, poly_eval(tail(c), x))),
        poly_eval(c, x) < modulus(),
{
    lemma_zero_and_one(x);
}

/// A zero at the high end does not change the value.
pub proof fn lemma_eval_drop_zero(c: Seq<nat>, x: nat)
    requires
        c.len() > 0,
        c.last() == 0,
    ensures
        poly_eval(c.drop_last(), x) == poly_eval(c, x),
    decreases c.len(),
{
    lemma_zero_and_one(x);
    if c.len() == 1 {
        assert(c.skip(1).len() == 0);
    } else {
        lemma_eval_drop_zero(c.skip(1), x);
        assert(c.drop_last().skip(1) =~= c.skip(1).drop_last());
    }
}

/// Trimming does not change the value.
pub proof fn lemma_eval_trim(c: Seq<nat>, x: nat)
    ensures
        poly_eval(trim(c), x) == poly_eval(c, x),
    decreases c.len(),
{
    if c.len() > 0 && c.last() == 0 {
        lemma_eval_drop_zero(c, x);
        lemma_eval_trim(c.drop_last(), x);
    }
}

proof fn lemma_eval_pointwise_sum(a: Seq<nat>, b: Seq<nat>, x: nat)
    ensures
        poly_eval(pointwise_sum(a, b), x) == add_mod(poly_eval(a, x), poly_eval(b, x)),
    decreases a.len() + b.len(),
{
    let s = pointwise_sum(a, b);
    lemma_zero_and_one(0);
    if s.len() > 0 {
        let ta = tail(a);
        let tb = tail(b);
        assert(s.skip(1) =~= pointwise_sum(ta, tb));
        lemma_eval_pointwise_sum(ta, tb, x);
        lemma_eval_unfold(a, x);
        lemma_eval_unfold(b, x);
        let ea = poly_eval(ta, x);
        let eb = poly_eval(tb, x);
        lemma_mul_mod_distributes(x, ea, eb);
        lemma_add_mod_interchange(coeff(a, 0), coeff(b, 0), mul_mod(x, ea), mul_mod(x, eb));
    }
}

proof fn lemma_eval_pointwise_difference(a: Seq<nat>, b: Seq<nat>, x: nat)
    ensures
        poly_eval(pointwise_difference(a, b), x) == sub_mod(poly_eval(a, x), poly_eval(b, x)),
    decreases a.len() + b.len(),
{
    let s = pointwise_difference(a, b);
    if s.len() == 0 {
        assert(sub_mod(0, 0) == 0);
    } else {
        let ta = tail(a);
        let tb = tail(b);
        assert(s.skip(1) =~= pointwise_difference(ta, tb));
        lemma_eval_pointwise_difference(ta, tb, x);
        lemma_eval_unfold(a, x);
        lemma_eval_unfold(b, x);
        let (a0, b0) = (coeff(a, 0), coeff(b, 0));
        let (ea, eb) = (poly_eval(ta, x), poly_eval(tb, x));
        let (xi, a0i, b0i, eai, ebi) = (x as int, a0 as int, b0 as int, ea as int, eb as int);
        // The value of the difference, as an integer expression.
        lemma_sub_congruent(a0, b0, a0i, b0i);
        lemma_sub_congruent(ea, eb, eai, ebi);
        lemma_mul_congruent(x, sub_mod(ea, eb), xi, eai - ebi);
        lemma_add_congruent(
            sub_mod(a0, b0),
            mul_mod(x, sub_mod(ea, eb)),
            a0i - b0i,
            xi * (eai - ebi),
        );
        // The difference of the values, as an integer expression.
        lemma_mul_congruent(x, ea, xi, eai);
        lemma_mul_congruent(x, eb, xi, ebi);
        lemma_add_congruent(a0, mul_mod(x, ea), a0i, xi * eai);
        lemma_add_congruent(b0, mul_mod(x, eb), b0i, xi * ebi);
        lemma_sub_congruent(poly_eval(a, x), poly_eval(b, x), a0i + xi * eai, b0i + xi * ebi);
        assert((a0i - b0i) + xi * (eai - ebi) == (a0i + xi * eai) - (b0i + xi * ebi))
            by (nonlinear_arith);
        lemma_congruent_residues(poly_eval(s, x), sub_mod(poly_eval(a, x), poly_eval(b, x)));
    }
}

proof fn lemma_eval_pointwise_scaled(a: Seq<nat>, k: nat, x: nat)
    ensures
        poly_eval(pointwise_scaled(a, k), x) == mul_mod(k, poly_eval(a, x)),
    decreases a.len(),
{
    let s = pointwise_scaled(a, k);
    lemma_zero_and_one(k);
    if a.len() > 0 {
        let ta = a.skip(1);
        assert(s.skip(1) =~= pointwise_scaled(ta, k));
        lemma_eval_pointwise_scaled(ta, k, x);
        let ea = poly_eval(ta, x);
        lemma_mul_mod_distributes(k, a[0], mul_mod(x, ea));
        lemma_mul_mod_commutative(a[0], k);
        lemma_mul_mod_associative(k, x, ea);
        lemma_mul_mod_commutative(k, x);
        lemma_mul_mod_associative(x, k, ea);
    }
}

/// The value of a sum is the sum of the values.
pub proof fn lemma_eval_add(a: Seq<nat>, b: Seq<nat>, x: nat)
    ensures
        poly_eval(poly_add(a, b), x) == add_mod(poly_eval(a, x), poly_eval(b, x)),
{
    lemma_eval_trim(pointwise_sum(a, b), x);
    lemma_eval_pointwise_sum(a, b, x);
}

/// The value of a difference is the difference of the values.
pub proof fn lemma_eval_sub(a: Seq<nat>, b: Seq<nat>, x: nat)
    ensures
        poly_eval(poly_sub(a, b), x) == sub_mod(poly_eval(a, x), poly_eval(b, x)),
{
    lemma_eval_trim(pointwise_difference(a, b), x);
    lemma_eval_pointwise_difference(a, b, x);
}

/// The value of a multiple by a constant is that multiple of the value.
pub proof fn lemma_eval_scale(a: Seq<nat>, k: nat, x: nat)
    ensures
        poly_eval(poly_scale(a, k), x) == mul_mod(k, poly_eval(a, x)),
{
    lemma_eval_trim(pointwise_scaled(a, k), x);
    lemma_eval_pointwise_scaled(a, k, x);
}

/// The value of `X` times a polynomial is `x` times the value.
pub proof fn lemma_eval_shift(a: Seq<nat>, x: nat)
    ensures
        poly_eval(poly_shift(a), x) == mul_mod(x, poly_eval(a, x)),
{
    lemma_zero_and_one(x);
    if a.len() > 0 {
        let s = poly_shift(a);
        assert(s.skip(1) =~= a);
        lemma_zero_and_one(mul_mod(x, poly_eval(a, x)));
    }
}

/// The value of a product is the product of the values.
pub proof fn lemma_eval_mul(a: Seq<nat>, b: Seq<nat>, x: nat)
    ensures
        poly_eval(poly_mul(a, b), x) == mul_mod(poly_eval(a, x), poly_eval(b, x)),
    decreases a.len(),
{
    let eb = poly_eval(b, x);
    lemma_zero_and_one(eb);
    if a.len() > 0 {
        let ta = a.skip(1);
        let rest = poly_mul(ta, b);
        let ea = poly_eval(ta, x);
        lemma_eval_mul(ta, b, x);
        lemma_eval_add(poly_scale(b, a[0]), poly_shift(rest), x);
        lemma_eval_scale(b, a[0], x);
        lemma_eval_shift(rest, x);
        // a0 * b(x) + x * (a'(x) * b(x)) == (a0 + x * a'(x)) * b(x)
        lemma_mul_mod_associative(x, ea, eb);
        lemma_mul_mod_commutative(add_mod(a[0], mul_mod(x, ea)), eb);
        lemma_mul_mod_distributes(eb, a[0], mul_mod(x, ea));
        lemma_mul_mod_commutative(eb, a[0]);
        lemma_mul_mod_commutative(eb, mul_mod(x, ea));
    }
}

/// The value of `X - z` at `x` is `x - z`.
pub proof fn lemma_eval_linear_factor(z: nat, x: nat)
    ensures
        poly_eval(linear_factor(z), x) == sub_mod(x, z),
{
    let f = linear_factor(z);
    let one = f.skip(1);
    assert(one.skip(1).len() == 0);
    assert(one[0] == 1);
    lemma_zero_and_one(x);
    lemma_zero_and_one(1);
    assert(poly_eval(one.skip(1), x) == 0);
    assert(poly_eval(one, x) == 1);
    assert(poly_eval(f, x) == add_mod(neg_mod(z), mul_mod(x, 1)));
    let (xi, zi) = (x as int, z as int);
    lemma_sub_congruent(0, z, 0, zi);
    lemma_mul_congruent(x, 1, xi, 1);
    lemma_add_congruent(neg_mod(z), mul_mod(x, 1), 0 - zi, xi * 1);
    lemma_sub_congruent(x, z, xi, zi);
    assert((0 - zi) + xi * 1 == xi - zi) by (nonlinear_arith);
    lemma_congruent_residues(poly_eval(f, x), sub_mod(x, z));
}

/// The vanishing polynomial of a batch of points is zero at each of them.
pub proof fn lemma_vanishing_roots(zs: Seq<nat>, i: int)
    requires
        0 <= i < zs.len(),
    ensures
        poly_eval(vanishing(zs), zs[i]) == 0,
    decreases zs.len(),
{
    let x = zs[i];
    if zs.len() == 1 {
        lemma_eval_linear_factor(x, x);
    } else {
        let h = (zs.len() / 2) as int;
        let left = vanishing(zs.take(h));
        let right = vanishing(zs.skip(h));
        lemma_eval_mul(left, right, x);
        if i < h {
            lemma_vanishing_roots(zs.take(h), i);
            lemma_zero_and_one(poly_eval(right, x));
        } else {
            lemma_vanishing_roots(zs.skip(h), i - h);
            lemma_zero_and_one(poly_eval(left, x));
        }
    }
}

/// The quotient by `X - z` and the value at `z` make up the polynomial:
/// at every `x`, `f(x) == q(x) * (x - z) + f(z)`.
pub proof fn lemma_linear_division(f: Seq<nat>, z: nat, x: nat)
    ensures
        poly_eval(f, x) == add_mod(
            mul_mod(poly_eval(linear_quotient(f, z), x), sub_mod(x, z)),
            poly_eval(f, z),
        ),
    decreases f.len(),
{
    let q = linear_quotient(f, z);
    let d = sub_mod(x, z);
    if f.len() == 0 {
        lemma_zero_and_one(d);
        lemma_zero_and_one(0);
    } else {
        let rest = f.skip(1);
        let q_rest = linear_quotient(rest, z);
        lemma_linear_division(rest, z, x);
        let er = poly_eval(rest, z);
        let qr = poly_eval(q_rest, x);
        let (xi, zi, f0, eri, qri) = (x as int, z as int, f[0] as int, er as int, qr as int);
        lemma_eval_unfold(rest, z);
        lemma_eval_unfold(q_rest, x);
        lemma_sub_congruent(x, z, xi, zi);
        // f(x) == f0 + x * (q'(x) * (x - z) + f'(z))
        lemma_mul_congruent(qr, d, qri, xi - zi);
        lemma_add_congruent(mul_mod(qr, d), er, qri * (xi - zi), eri);
        lemma_mul_congruent(x, poly_eval(rest, x), xi, qri * (xi - zi) + eri);
        lemma_add_congruent(
            f[0],
            mul_mod(x, poly_eval(rest, x)),
            f0,
            xi * (qri * (xi - zi) + eri),
        );
        // f(z) == f0 + z * f'(z)
        lemma_mul_congruent(z, er, zi, eri);
        lemma_add_congruent(f[0], mul_mod(z, er), f0, zi * eri);
        // q(x) == f'(z) + x * q'(x)
        if rest.len() == 0 {
            assert(q.len() == 0);
            assert(q_rest.len() == 0);
            lemma_zero_and_one(x);
            lemma_zero_and_one(z);
            lemma_zero_and_one(d);
            lemma_zero_and_one(f[0]);
            assert(poly_eval(q, x) == 0);
            lemma_mul_congruent(poly_eval(q, x), d, 0, xi - zi);
            lemma_add_congruent(
                mul_mod(poly_eval(q, x), d),
                poly_eval(f, z),
                0 * (xi - zi),
                f0 + zi * eri,
            );
            assert(eri == 0 && qri == 0);
            assert(f0 + xi * (qri * (xi - zi) + eri) == 0 * (xi - zi) + (f0 + zi * eri))
                by (nonlinear_arith)
                requires
                    eri == 0,
                    qri == 0,
            ;
        } else {
            assert(q[0] == er);
            assert(q.skip(1) =~= q_rest) by {
                assert forall|k: int| 0 <= k < q_rest.len() implies q.skip(1)[k] == q_rest[k] by {
                    assert(f.skip(k + 2) =~= rest.skip(k + 1));
                }
            }
            lemma_mul_congruent(x, qr, xi, qri);
            lemma_add_congruent(er, mul_mod(x, qr), eri, xi * qri);
            lemma_mul_congruent(poly_eval(q, x), d, eri + xi * qri, xi - zi);
            lemma_add_congruent(
                mul_mod(poly_eval(q, x), d),
                poly_eval(f, z),
                (eri + xi * qri) * (xi - zi),
                f0 + zi * eri,
            );
            assert(f0 + xi * (qri * (xi - zi) + eri) == (eri + xi * qri) * (xi - zi) + (f0 + zi
                * eri)) by (nonlinear_arith);
        }
        lemma_congruent_residues(
            poly_eval(f, x),
            add_mod(mul_mod(poly_eval(q, x), d), poly_eval(f, z)),
        );
    }
}

} // verus!
