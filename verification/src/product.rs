//! The coefficients of sums and products of polynomials, and what follows
//! from them for products with a linear factor.

use crate::field::{
    add_mod, lemma_add_congruent, lemma_congruent_residues, lemma_mul_congruent,
    lemma_sub_congruent, lemma_zero_and_one, modulus, mul_mod, sub_mod,
};
use crate::polynomial::{
    canonical, coeff, lemma_trim_normalized, linear_quotient, normalized, pointwise_difference,
    pointwise_scaled, pointwise_sum, poly_add, poly_eval, poly_mul, poly_scale, poly_shift,
    poly_sub, tail, trim,
};
use crate::utils::poly::linear_factor;
use vstd::prelude::*;

verus! {

/// The coefficient of `X^k` in the product of `a` and `b`: the sum over `i`
/// of `a[i] * b[k - i]`.
pub open spec fn convolution(a: Seq<nat>, b: Seq<nat>, k: int) -> nat
    decreases a.len(),
{
    if a.len() == 0 {
        0
    } else {
        add_mod(mul_mod(coeff(b, k), a[0]), convolution(a.skip(1), b, k - 1))
    }
}

/// Two normalized polynomials with the same coefficients are the same
/// sequence.
pub proof fn lemma_normalized_equal(p: Seq<nat>, q: Seq<nat>)
    requires
        normalized(p),
        normalized(q),
        forall|k: int| 0 <= k ==> coeff(p, k) == coeff(q, k),
    ensures
        p == q,
{
    if p.len() > q.len() {
        assert(coeff(p, p.len() - 1) == coeff(q, p.len() - 1));
    }
    if q.len() > p.len() {
        assert(coeff(p, q.len() - 1) == coeff(q, q.len() - 1));
    }
    assert forall|k: int| 0 <= k < p.len() implies p[k] == q[k] by {
        assert(coeff(p, k) == coeff(q, k));
    }
    assert(p =~= q);
}

/// Trimming does not change a coefficient.
pub proof fn lemma_coeff_trim(c: Seq<nat>, k: int)
    ensures
        coeff(trim(c), k) == coeff(c, k),
{
    lemma_trim_normalized(c);
    if 0 <= k < c.len() {
        if k < trim(c).len() {
            assert(trim(c)[k] == c[k]);
        } else {
            assert(c[k] == 0);
        }
    }
}

/// The coefficients of a sum are the sums of the coefficients.
pub proof fn lemma_coeff_add(a: Seq<nat>, b: Seq<nat>, k: int)
    ensures
        coeff(poly_add(a, b), k) == add_mod(coeff(a, k), coeff(b, k)),
{
    lemma_coeff_trim(pointwise_sum(a, b), k);
    lemma_zero_and_one(0);
}

/// The coefficients of a multiple by a constant are the multiples of the
/// coefficients.
pub proof fn lemma_coeff_scale(a: Seq<nat>, c: nat, k: int)
    ensures
        coeff(poly_scale(a, c), k) == mul_mod(coeff(a, k), c),
{
    lemma_coeff_trim(pointwise_scaled(a, c), k);
    lemma_zero_and_one(c);
}

/// Multiplying by `X` moves the coefficients up by one.
pub proof fn lemma_coeff_shift(a: Seq<nat>, k: int)
    ensures
        coeff(poly_shift(a), k) == coeff(a, k - 1),
{
}

/// The coefficients of a product are the convolutions of the coefficients.
pub proof fn lemma_coeff_mul(a: Seq<nat>, b: Seq<nat>, k: int)
    ensures
        coeff(poly_mul(a, b), k) == convolution(a, b, k),
    decreases a.len(),
{
    if a.len() > 0 {
        let rest = poly_mul(a.skip(1), b);
        lemma_coeff_mul(a.skip(1), b, k - 1);
        lemma_coeff_add(poly_scale(b, a[0]), poly_shift(rest), k);
        lemma_coeff_scale(b, a[0], k);
        lemma_coeff_shift(rest, k);
    }
}

/// A product is normalized, and its coefficients are residues.
pub proof fn lemma_mul_well_formed(a: Seq<nat>, b: Seq<nat>)
    ensures
        normalized(poly_mul(a, b)),
        canonical(poly_mul(a, b)),
{
    if a.len() > 0 {
        let s = pointwise_sum(poly_scale(b, a[0]), poly_shift(poly_mul(a.skip(1), b)));
        lemma_trim_normalized(s);
        assert forall|i: int| 0 <= i < trim(s).len() implies #[trigger] trim(s)[i] < modulus() by {
            assert(trim(s)[i] == s[i]);
        }
    }
}

/// A convolution is a residue, and zero below the constant term.
pub proof fn lemma_convolution_bounds(a: Seq<nat>, b: Seq<nat>, k: int)
    ensures
        convolution(a, b, k) < modulus(),
        k < 0 ==> convolution(a, b, k) == 0,
    decreases a.len(),
{
    if a.len() > 0 {
        lemma_convolution_bounds(a.skip(1), b, k - 1);
        lemma_zero_and_one(a[0]);
        lemma_zero_and_one(0);
    }
}

/// The convolution with the zero polynomial is zero.
pub proof fn lemma_convolution_zero(a: Seq<nat>, k: int)
    ensures
        convolution(a, Seq::<nat>::empty(), k) == 0,
    decreases a.len(),
{
    if a.len() > 0 {
        lemma_convolution_zero(a.skip(1), k - 1);
        lemma_zero_and_one(a[0]);
        lemma_zero_and_one(0);
    }
}

/// A convolution can be unfolded in its second polynomial as it is defined
/// in its first.
pub proof fn lemma_convolution_unfold_second(q: Seq<nat>, p: Seq<nat>, k: int)
    ensures
        convolution(q, p, k) == add_mod(
            mul_mod(coeff(q, k), coeff(p, 0)),
            convolution(q, tail(p), k - 1),
        ),
    decreases q.len(),
{
    let tp = tail(p);
    if q.len() == 0 {
        lemma_zero_and_one(coeff(p, 0));
        lemma_zero_and_one(0);
    } else {
        let tq = q.skip(1);
        lemma_convolution_unfold_second(tq, p, k - 1);
        lemma_convolution_bounds(tq, tp, k - 2);
        let x = convolution(tq, tp, k - 2);
        let (qc, pc, xi) = (q[0] as int, coeff(p, 0) as int, x as int);
        let (pk, qk) = (coeff(p, k), coeff(q, k));
        let (pki, qki) = (pk as int, qk as int);
        // coeff(q', k - 1) and coeff(p', k - 1), where they differ from coeff(q, k) and coeff(p, k)
        let qk1 = coeff(tq, k - 1);
        let pk1 = coeff(tp, k - 1);
        // left: p_k q_0 + (q'_{k-1} p_0 + x)
        lemma_mul_congruent(pk, q[0], pki, qc);
        lemma_mul_congruent(qk1, coeff(p, 0), qk1 as int, pc);
        lemma_add_congruent(mul_mod(qk1, coeff(p, 0)), x, (qk1 as int) * pc, xi);
        lemma_add_congruent(
            mul_mod(pk, q[0]),
            add_mod(mul_mod(qk1, coeff(p, 0)), x),
            pki * qc,
            (qk1 as int) * pc + xi,
        );
        // right: q_k p_0 + (p'_{k-1} q_0 + x)
        lemma_mul_congruent(qk, coeff(p, 0), qki, pc);
        lemma_mul_congruent(pk1, q[0], pk1 as int, qc);
        lemma_add_congruent(mul_mod(pk1, q[0]), x, (pk1 as int) * qc, xi);
        lemma_add_congruent(
            mul_mod(qk, coeff(p, 0)),
            add_mod(mul_mod(pk1, q[0]), x),
            qki * pc,
            (pk1 as int) * qc + xi,
        );
        if k >= 1 {
            assert(qk1 == qk);
            assert(pk1 == pk);
            assert(pki * qc + (qki * pc + xi) == qki * pc + (pki * qc + xi)) by (nonlinear_arith);
        } else if k == 0 {
            assert(qk1 == 0 && pk1 == 0);
            assert(qk == q[0] && pk == coeff(p, 0));
            assert(pki * qc + (0 * pc + xi) == qki * pc + (0 * qc + xi)) by (nonlinear_arith)
                requires
                    pki == pc,
                    qki == qc,
            ;
        } else {
            assert(qk1 == 0 && pk1 == 0 && qk == 0 && pk == 0);
            assert(0 * qc + (0 * pc + xi) == 0 * pc + (0 * qc + xi)) by (nonlinear_arith);
        }
        lemma_congruent_residues(
            convolution(q, p, k),
            add_mod(mul_mod(coeff(q, k), coeff(p, 0)), convolution(q, tp, k - 1)),
        );
    }
}

/// Convolution is commutative.
pub proof fn lemma_convolution_commutative(a: Seq<nat>, b: Seq<nat>, k: int)
    ensures
        convolution(a, b, k) == convolution(b, a, k),
    decreases a.len(),
{
    if a.len() == 0 {
        lemma_convolution_zero(b, k);
        assert(a =~= Seq::<nat>::empty());
    } else {
        lemma_convolution_commutative(a.skip(1), b, k - 1);
        lemma_convolution_unfold_second(b, a, k);
    }
}

/// Whether the coefficients of `s` are those of `a` times `X - z`:
/// `s[j] == a[j - 1] - z * a[j]`.
pub open spec fn times_linear(s: Seq<nat>, a: Seq<nat>, z: nat) -> bool {
    forall|j: int| #[trigger] coeff(s, j) == sub_mod(coeff(a, j - 1), mul_mod(z, coeff(a, j)))
}

/// The convolution with a polynomial times `X - z` is the convolution with
/// the polynomial, times `X - z`.
pub proof fn lemma_convolution_linear(b: Seq<nat>, a: Seq<nat>, s: Seq<nat>, z: nat, k: int)
    requires
        times_linear(s, a, z),
    ensures
        convolution(b, s, k) == sub_mod(
            convolution(b, a, k - 1),
            mul_mod(z, convolution(b, a, k)),
        ),
    decreases b.len(),
{
    if b.len() == 0 {
        lemma_zero_and_one(z);
        assert(sub_mod(0, 0) == 0);
    } else {
        let tb = b.skip(1);
        lemma_convolution_linear(tb, a, s, z, k - 1);
        let c1 = convolution(tb, a, k - 1);
        let c2 = convolution(tb, a, k - 2);
        let (a1, a0) = (coeff(a, k - 1), coeff(a, k));
        let (zi, b0, c1i, c2i, a1i, a0i) = (
            z as int,
            b[0] as int,
            c1 as int,
            c2 as int,
            a1 as int,
            a0 as int,
        );
        assert(coeff(s, k) == sub_mod(a1, mul_mod(z, a0)));
        // left: (a_{k-1} - z a_k) b_0 + (c2 - z c1)
        lemma_mul_congruent(z, a0, zi, a0i);
        lemma_sub_congruent(a1, mul_mod(z, a0), a1i, zi * a0i);
        lemma_mul_congruent(coeff(s, k), b[0], a1i - zi * a0i, b0);
        lemma_mul_congruent(z, c1, zi, c1i);
        lemma_sub_congruent(c2, mul_mod(z, c1), c2i, zi * c1i);
        lemma_add_congruent(
            mul_mod(coeff(s, k), b[0]),
            convolution(tb, s, k - 1),
            (a1i - zi * a0i) * b0,
            c2i - zi * c1i,
        );
        // right: (a_{k-1} b_0 + c2) - z (a_k b_0 + c1)
        lemma_mul_congruent(a1, b[0], a1i, b0);
        lemma_add_congruent(mul_mod(a1, b[0]), c2, a1i * b0, c2i);
        lemma_mul_congruent(a0, b[0], a0i, b0);
        lemma_add_congruent(mul_mod(a0, b[0]), c1, a0i * b0, c1i);
        lemma_mul_congruent(z, convolution(b, a, k), zi, a0i * b0 + c1i);
        lemma_sub_congruent(
            convolution(b, a, k - 1),
            mul_mod(z, convolution(b, a, k)),
            a1i * b0 + c2i,
            zi * (a0i * b0 + c1i),
        );
        assert((a1i - zi * a0i) * b0 + (c2i - zi * c1i) == (a1i * b0 + c2i) - zi * (a0i * b0
            + c1i)) by (nonlinear_arith);
        lemma_congruent_residues(
            convolution(b, s, k),
            sub_mod(convolution(b, a, k - 1), mul_mod(z, convolution(b, a, k))),
        );
    }
}

/// The convolution with the constant one gives the coefficients back.
pub proof fn lemma_convolution_one(a: Seq<nat>, k: int)
    requires
        canonical(a),
    ensures
        convolution(a, seq![1nat], k) == coeff(a, k),
    decreases a.len(),
{
    if a.len() > 0 {
        let ta = a.skip(1);
        assert(canonical(ta)) by {
            assert forall|i: int| 0 <= i < ta.len() implies #[trigger] ta[i] < modulus() by {
                assert(ta[i] == a[i + 1]);
            }
        }
        lemma_convolution_one(ta, k - 1);
        lemma_zero_and_one(a[0]);
        lemma_zero_and_one(coeff(ta, k - 1));
        assert(a[0] < modulus());
        if k >= 1 && k - 1 < ta.len() {
            assert(ta[k - 1] < modulus());
        }
    }
}

/// The linear factor `X - z` is the constant one times `X - z`.
pub proof fn lemma_linear_factor_times_linear(z: nat)
    ensures
        times_linear(linear_factor(z), seq![1nat], z),
{
    let one = seq![1nat];
    let f = linear_factor(z);
    assert forall|j: int| #[trigger]
        coeff(f, j) == sub_mod(coeff(one, j - 1), mul_mod(z, coeff(one, j))) by {
        lemma_zero_and_one(z);
        let zi = z as int;
        if j == 0 {
            lemma_mul_congruent(z, 1, zi, 1);
            lemma_sub_congruent(0, mul_mod(z, 1), 0, zi * 1);
            lemma_sub_congruent(0, z, 0, zi);
            assert(0 - zi * 1 == 0 - zi) by (nonlinear_arith);
            lemma_congruent_residues(sub_mod(0, z), sub_mod(0, mul_mod(z, 1)));
        } else if j == 1 {
            assert(sub_mod(1, 0) == 1);
        } else {
            assert(sub_mod(0, 0) == 0);
        }
    }
}

/// The coefficients of `a * (X - z)` are `a[j - 1] - z * a[j]`.
pub proof fn lemma_mul_linear_factor(a: Seq<nat>, z: nat)
    requires
        canonical(a),
    ensures
        times_linear(poly_mul(a, linear_factor(z)), a, z),
{
    let m = poly_mul(a, linear_factor(z));
    lemma_linear_factor_times_linear(z);
    assert forall|j: int| #[trigger]
        coeff(m, j) == sub_mod(coeff(a, j - 1), mul_mod(z, coeff(a, j))) by {
        lemma_coeff_mul(a, linear_factor(z), j);
        lemma_convolution_linear(a, seq![1nat], linear_factor(z), z, j);
        lemma_convolution_one(a, j - 1);
        lemma_convolution_one(a, j);
    }
}

/// A linear factor can be taken out of either factor of a product:
/// `(a * (X - z)) * b == (a * b) * (X - z) == a * (b * (X - z))`.
pub proof fn lemma_linear_factor_moves(a: Seq<nat>, b: Seq<nat>, z: nat)
    requires
        canonical(a),
        canonical(b),
    ensures
        poly_mul(poly_mul(a, linear_factor(z)), b) == poly_mul(poly_mul(a, b), linear_factor(z)),
        poly_mul(a, poly_mul(b, linear_factor(z))) == poly_mul(poly_mul(a, b), linear_factor(z)),
{
    let f = linear_factor(z);
    let ab = poly_mul(a, b);
    let af = poly_mul(a, f);
    let bf = poly_mul(b, f);
    let target = poly_mul(ab, f);
    lemma_mul_well_formed(a, b);
    lemma_mul_well_formed(ab, f);
    lemma_mul_well_formed(af, b);
    lemma_mul_well_formed(a, bf);
    lemma_mul_linear_factor(ab, z);
    lemma_mul_linear_factor(a, z);
    lemma_mul_linear_factor(b, z);
    assert forall|k: int| 0 <= k implies coeff(poly_mul(af, b), k) == coeff(target, k) by {
        lemma_coeff_mul(af, b, k);
        lemma_convolution_commutative(af, b, k);
        lemma_convolution_linear(b, a, af, z, k);
        lemma_convolution_commutative(b, a, k - 1);
        lemma_convolution_commutative(b, a, k);
        lemma_coeff_mul(a, b, k - 1);
        lemma_coeff_mul(a, b, k);
        assert(coeff(target, k) == sub_mod(coeff(ab, k - 1), mul_mod(z, coeff(ab, k))));
    }
    lemma_normalized_equal(poly_mul(af, b), target);
    assert forall|k: int| 0 <= k implies coeff(poly_mul(a, bf), k) == coeff(target, k) by {
        lemma_coeff_mul(a, bf, k);
        lemma_convolution_linear(a, b, bf, z, k);
        lemma_coeff_mul(a, b, k - 1);
        lemma_coeff_mul(a, b, k);
        assert(coeff(target, k) == sub_mod(coeff(ab, k - 1), mul_mod(z, coeff(ab, k))));
    }
    lemma_normalized_equal(poly_mul(a, bf), target);
}

/// The coefficients of a difference are the differences of the
/// coefficients.
pub proof fn lemma_coeff_sub(a: Seq<nat>, b: Seq<nat>, k: int)
    ensures
        coeff(poly_sub(a, b), k) == sub_mod(coeff(a, k), coeff(b, k)),
{
    lemma_coeff_trim(pointwise_difference(a, b), k);
    assert(sub_mod(0, 0) == 0);
}

/// The constant polynomial `c`.
pub open spec fn constant(c: nat) -> Seq<nat> {
    trim(seq![c])
}

/// Division by a linear factor is exact once the value at the point is
/// taken off: `q * (X - z) == f - f(z)`, where `q` is the quotient of `f` by
/// `X - z`.
pub proof fn lemma_linear_quotient_exact(f: Seq<nat>, z: nat)
    requires
        canonical(f),
    ensures
        poly_mul(linear_quotient(f, z), linear_factor(z)) == poly_sub(
            f,
            constant(poly_eval(f, z)),
        ),
{
    let q = linear_quotient(f, z);
    let e = poly_eval(f, z);
    let m = poly_mul(q, linear_factor(z));
    let d = poly_sub(f, constant(e));
    lemma_mul_well_formed(q, linear_factor(z));
    lemma_trim_normalized(pointwise_difference(f, constant(e)));
    assert(canonical(q)) by {
        assert forall|i: int| 0 <= i < q.len() implies #[trigger] q[i] < modulus() by {
            let s = f.skip(i + 1);
            lemma_zero_and_one(0);
            if s.len() > 0 {
                lemma_zero_and_one(s[0]);
            }
        }
    }
    lemma_mul_linear_factor(q, z);
    assert forall|k: int| 0 <= k implies coeff(m, k) == coeff(d, k) by {
        lemma_coeff_sub(f, constant(e), k);
        lemma_coeff_trim(seq![e], k);
        lemma_zero_and_one(z);
        lemma_zero_and_one(0);
        assert(coeff(m, k) == sub_mod(coeff(q, k - 1), mul_mod(z, coeff(q, k))));
        // The value at `z` of the coefficients of `f` above `X^k`.
        let up = if k + 1 <= f.len() {
            poly_eval(f.skip(k + 1), z)
        } else {
            0
        };
        assert(coeff(q, k) == up) by {
            if k + 1 == f.len() {
                assert(f.skip(k + 1).len() == 0);
            }
        }
        let (zi, upi, fk) = (z as int, up as int, coeff(f, k) as int);
        lemma_mul_congruent(z, up, zi, upi);
        if k == 0 {
            // -z * up == f0 - (f0 + z * up)
            lemma_sub_congruent(0, mul_mod(z, up), 0, zi * upi);
            if f.len() > 0 {
                assert(e == add_mod(f[0], mul_mod(z, up)));
            }
            lemma_add_congruent(coeff(f, 0), mul_mod(z, up), fk, zi * upi);
            assert(e == add_mod(coeff(f, 0), mul_mod(z, up)));
            lemma_sub_congruent(coeff(f, 0), e, fk, fk + zi * upi);
            assert(0 - zi * upi == fk - (fk + zi * upi));
            lemma_congruent_residues(coeff(m, k), coeff(d, k));
        } else if k < f.len() {
            // (f_k + z * up) - z * up == f_k - 0
            let s = f.skip(k);
            assert(s.skip(1) =~= f.skip(k + 1));
            assert(coeff(q, k - 1) == add_mod(f[k], mul_mod(z, up)));
            lemma_add_congruent(f[k], mul_mod(z, up), fk, zi * upi);
            lemma_sub_congruent(coeff(q, k - 1), mul_mod(z, up), fk + zi * upi, zi * upi);
            lemma_sub_congruent(f[k], 0, fk, 0);
            assert((fk + zi * upi) - zi * upi == fk - 0);
            lemma_congruent_residues(coeff(m, k), coeff(d, k));
        } else {
            assert(sub_mod(0, 0) == 0);
        }
    }
    lemma_normalized_equal(m, d);
}

/// Multiplying by a linear factor goes with sums and with multiples by a
/// constant: `(a + c * b) * (X - z) == a * (X - z) + c * (b * (X - z))`.
pub proof fn lemma_mul_linear_factor_linear(a: Seq<nat>, b: Seq<nat>, c: nat, z: nat)
    requires
        canonical(a),
        canonical(b),
    ensures
        poly_mul(poly_add(a, poly_scale(b, c)), linear_factor(z)) == poly_add(
            poly_mul(a, linear_factor(z)),
            poly_scale(poly_mul(b, linear_factor(z)), c),
        ),
{
    let f = linear_factor(z);
    let cb = poly_scale(b, c);
    let sum = poly_add(a, cb);
    let left = poly_mul(sum, f);
    let right = poly_add(poly_mul(a, f), poly_scale(poly_mul(b, f), c));
    lemma_mul_well_formed(sum, f);
    lemma_trim_normalized(pointwise_sum(poly_mul(a, f), poly_scale(poly_mul(b, f), c)));
    lemma_trim_normalized(pointwise_sum(a, cb));
    assert(canonical(sum)) by {
        assert forall|i: int| 0 <= i < sum.len() implies #[trigger] sum[i] < modulus() by {
            assert(sum[i] == pointwise_sum(a, cb)[i]);
        }
    }
    lemma_mul_linear_factor(sum, z);
    lemma_mul_linear_factor(a, z);
    lemma_mul_linear_factor(b, z);
    assert forall|k: int| 0 <= k implies coeff(left, k) == coeff(right, k) by {
        lemma_coeff_add(a, cb, k);
        lemma_coeff_add(a, cb, k - 1);
        lemma_coeff_scale(b, c, k);
        lemma_coeff_scale(b, c, k - 1);
        lemma_coeff_add(poly_mul(a, f), poly_scale(poly_mul(b, f), c), k);
        lemma_coeff_scale(poly_mul(b, f), c, k);
        assert(coeff(left, k) == sub_mod(coeff(sum, k - 1), mul_mod(z, coeff(sum, k))));
        assert(coeff(poly_mul(a, f), k) == sub_mod(coeff(a, k - 1), mul_mod(z, coeff(a, k))));
        assert(coeff(poly_mul(b, f), k) == sub_mod(coeff(b, k - 1), mul_mod(z, coeff(b, k))));
        let (a1, a0, b1, b0) = (coeff(a, k - 1), coeff(a, k), coeff(b, k - 1), coeff(b, k));
        let (a1i, a0i, b1i, b0i, ci, zi) = (
            a1 as int,
            a0 as int,
            b1 as int,
            b0 as int,
            c as int,
            z as int,
        );
        // left: (a1 + b1 c) - z (a0 + b0 c)
        lemma_mul_congruent(b1, c, b1i, ci);
        lemma_add_congruent(a1, mul_mod(b1, c), a1i, b1i * ci);
        lemma_mul_congruent(b0, c, b0i, ci);
        lemma_add_congruent(a0, mul_mod(b0, c), a0i, b0i * ci);
        lemma_mul_congruent(z, coeff(sum, k), zi, a0i + b0i * ci);
        lemma_sub_congruent(
            coeff(sum, k - 1),
            mul_mod(z, coeff(sum, k)),
            a1i + b1i * ci,
            zi * (a0i + b0i * ci),
        );
        // right: (a1 - z a0) + (b1 - z b0) c
        lemma_mul_congruent(z, a0, zi, a0i);
        lemma_sub_congruent(a1, mul_mod(z, a0), a1i, zi * a0i);
        lemma_mul_congruent(z, b0, zi, b0i);
        lemma_sub_congruent(b1, mul_mod(z, b0), b1i, zi * b0i);
        lemma_mul_congruent(coeff(poly_mul(b, f), k), c, b1i - zi * b0i, ci);
        lemma_add_congruent(
            coeff(poly_mul(a, f), k),
            mul_mod(coeff(poly_mul(b, f), k), c),
            a1i - zi * a0i,
            (b1i - zi * b0i) * ci,
        );
        assert((a1i + b1i * ci) - zi * (a0i + b0i * ci) == (a1i - zi * a0i) + (b1i - zi * b0i)
            * ci) by (nonlinear_arith);
        lemma_congruent_residues(coeff(left, k), coeff(right, k));
    }
    lemma_normalized_equal(left, right);
}

} // verus!
