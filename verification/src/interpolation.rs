//! Why Lagrange interpolation goes through its points: the vanishing
//! polynomial of a batch, divided by the linear factor of one of its points,
//! is the product of the other linear factors, and so is zero at the other
//! points.

use crate::evaluation::{
    lemma_eval_add, lemma_eval_mul, lemma_eval_scale, lemma_eval_unfold, lemma_vanishing_roots,
};
use crate::field::{
    inv_mod, is_unit, lemma_add_congruent, lemma_congruent_residues, lemma_mul_congruent,
    lemma_mul_mod_associative, lemma_mul_mod_commutative, lemma_sub_congruent, lemma_zero_and_one,
    modulus, mul_mod, sub_mod,
};
use crate::polynomial::{canonical, coeff, linear_quotient, normalized, poly_eval, poly_mul};
use crate::product::{
    convolution, lemma_coeff_mul, lemma_linear_factor_moves, lemma_mul_linear_factor,
    lemma_mul_well_formed, lemma_normalized_equal, times_linear,
};
use crate::utils::poly::{
    abscissas, interpolable, lagrange, lagrange_denominator, lagrange_sum, lagrange_term,
    lemma_vanishing_monic, linear_factor, vanishing,
};
use vstd::prelude::*;

verus! {

/// The constant one times a polynomial is the polynomial.
pub proof fn lemma_mul_one(b: Seq<nat>)
    requires
        canonical(b),
        normalized(b),
    ensures
        poly_mul(seq![1nat], b) == b,
{
    let one = seq![1nat];
    lemma_mul_well_formed(one, b);
    assert forall|k: int| 0 <= k implies coeff(poly_mul(one, b), k) == coeff(b, k) by {
        lemma_coeff_mul(one, b, k);
        assert(one.skip(1).len() == 0);
        assert(convolution(one.skip(1), b, k - 1) == 0);
        lemma_zero_and_one(coeff(b, k));
        if k < b.len() {
            assert(b[k] < modulus());
        }
    }
    lemma_normalized_equal(poly_mul(one, b), b);
}

/// Where the coefficients of `m` are those of `p` times `X - z`, Horner's
/// rule at `z` on the coefficients of `m` from `X^j` upwards gives the
/// coefficient of `X^(j - 1)` in `p`.
proof fn lemma_suffix_values(m: Seq<nat>, p: Seq<nat>, z: nat, j: int)
    requires
        canonical(p),
        times_linear(m, p, z),
        m.len() == p.len() + 1,
        1 <= j <= m.len(),
    ensures
        poly_eval(m.skip(j), z) == coeff(p, j - 1),
    decreases m.len() - j,
{
    if j < m.len() {
        lemma_suffix_values(m, p, z, j + 1);
        let s = m.skip(j);
        assert(s.skip(1) =~= m.skip(j + 1));
        assert(s[0] == coeff(m, j));
        let (hi, lo) = (coeff(p, j), coeff(p, j - 1));
        let (zi, hii, loi) = (z as int, hi as int, lo as int);
        assert(lo == p[j - 1] && lo < modulus());
        lemma_mul_congruent(z, hi, zi, hii);
        lemma_sub_congruent(lo, mul_mod(z, hi), loi, zi * hii);
        lemma_add_congruent(coeff(m, j), mul_mod(z, hi), loi - zi * hii, zi * hii);
        lemma_congruent_residues(poly_eval(s, z), lo);
    }
}

/// Dividing by `X - z` undoes multiplying by `X - z`.
pub proof fn lemma_quotient_of_multiple(p: Seq<nat>, z: nat)
    requires
        canonical(p),
        normalized(p),
    ensures
        linear_quotient(poly_mul(p, linear_factor(z)), z) == p,
{
    let m = poly_mul(p, linear_factor(z));
    let q = linear_quotient(m, z);
    if p.len() == 0 {
        assert(q =~= p);
    } else {
        let n = p.len() as int;
        lemma_mul_linear_factor(p, z);
        lemma_mul_well_formed(p, linear_factor(z));
        lemma_zero_and_one(z);
        assert(m.len() == n + 1) by {
            assert(coeff(m, n) == sub_mod(coeff(p, n - 1), mul_mod(z, coeff(p, n))));
            assert(p[n - 1] < modulus());
            assert(sub_mod(p[n - 1], 0) == p[n - 1]) by {
                vstd::arithmetic::div_mod::lemma_small_mod(p[n - 1], modulus());
            }
            if m.len() > n + 1 {
                let top = m.len() - 1;
                assert(coeff(m, top) == sub_mod(coeff(p, top - 1), mul_mod(z, coeff(p, top))));
                assert(sub_mod(0, 0) == 0);
            }
        }
        assert forall|k: int| 0 <= k < n implies q[k] == p[k] by {
            lemma_suffix_values(m, p, z, k + 1);
        }
        assert(q =~= p);
    }
}

/// The product of the linear factors of all points of the batch but the
/// one at index `i`, multiplied up in the halves of the vanishing
/// polynomial.
pub open spec fn cofactor(zs: Seq<nat>, i: int) -> Seq<nat>
    decreases zs.len(),
{
    if zs.len() <= 1 {
        seq![1nat]
    } else {
        let h = (zs.len() / 2) as int;
        if i < h {
            poly_mul(cofactor(zs.take(h), i), vanishing(zs.skip(h)))
        } else {
            poly_mul(vanishing(zs.take(h)), cofactor(zs.skip(h), i - h))
        }
    }
}

/// The vanishing polynomial is the cofactor of a point times the linear
/// factor of that point, and the cofactor is zero at every other point of
/// the batch.
pub proof fn lemma_cofactor(zs: Seq<nat>, i: int)
    requires
        0 <= i < zs.len(),
    ensures
        vanishing(zs) == poly_mul(cofactor(zs, i), linear_factor(zs[i])),
        canonical(cofactor(zs, i)),
        normalized(cofactor(zs, i)),
        forall|j: int|
            0 <= j < zs.len() && j != i ==> poly_eval(cofactor(zs, i), #[trigger] zs[j]) == 0,
    decreases zs.len(),
{
    let f = linear_factor(zs[i]);
    if zs.len() == 1 {
        lemma_vanishing_monic(zs);
        lemma_mul_one(f);
    } else {
        let h = (zs.len() / 2) as int;
        let left = zs.take(h);
        let right = zs.skip(h);
        lemma_vanishing_monic(left);
        lemma_vanishing_monic(right);
        if i < h {
            let c = cofactor(left, i);
            lemma_cofactor(left, i);
            lemma_linear_factor_moves(c, vanishing(right), zs[i]);
            lemma_mul_well_formed(c, vanishing(right));
            assert forall|j: int| 0 <= j < zs.len() && j != i implies poly_eval(
                cofactor(zs, i),
                #[trigger] zs[j],
            ) == 0 by {
                lemma_eval_mul(c, vanishing(right), zs[j]);
                if j < h {
                    assert(left[j] == zs[j]);
                    lemma_zero_and_one(poly_eval(vanishing(right), zs[j]));
                } else {
                    assert(right[j - h] == zs[j]);
                    lemma_vanishing_roots(right, j - h);
                    lemma_zero_and_one(poly_eval(c, zs[j]));
                }
            }
        } else {
            let c = cofactor(right, i - h);
            lemma_cofactor(right, i - h);
            lemma_linear_factor_moves(vanishing(left), c, zs[i]);
            lemma_mul_well_formed(vanishing(left), c);
            assert forall|j: int| 0 <= j < zs.len() && j != i implies poly_eval(
                cofactor(zs, i),
                #[trigger] zs[j],
            ) == 0 by {
                lemma_eval_mul(vanishing(left), c, zs[j]);
                if j < h {
                    assert(left[j] == zs[j]);
                    lemma_vanishing_roots(left, j);
                    lemma_zero_and_one(poly_eval(c, zs[j]));
                } else {
                    assert(right[j - h] == zs[j]);
                    lemma_zero_and_one(poly_eval(vanishing(left), zs[j]));
                }
            }
        }
    }
}

/// The vanishing polynomial divided by the linear factor of one of its
/// points is zero at every other point of the batch.
pub proof fn lemma_basis_roots(zs: Seq<nat>, i: int, j: int)
    requires
        0 <= i < zs.len(),
        0 <= j < zs.len(),
        i != j,
    ensures
        poly_eval(linear_quotient(vanishing(zs), zs[i]), zs[j]) == 0,
{
    lemma_cofactor(zs, i);
    lemma_quotient_of_multiple(cofactor(zs, i), zs[i]);
}

/// Whether both components of every pair are residues.
pub open spec fn residue_pairs(pts: Seq<(nat, nat)>) -> bool {
    forall|i: int| 0 <= i < pts.len() ==> (#[trigger] pts[i]).0 < modulus() && pts[i].1 < modulus()
}

/// The sum of the first `m` Lagrange terms takes at the first component of
/// the pair `j` the second component of that pair, if the pair is among the
/// first `m`, and zero if it is not.
proof fn lemma_lagrange_partial(pts: Seq<(nat, nat)>, m: int, j: int)
    requires
        residue_pairs(pts),
        interpolable(abscissas(pts)),
        0 <= m <= pts.len(),
        0 <= j < pts.len(),
    ensures
        poly_eval(lagrange_sum(vanishing(abscissas(pts)), pts.take(m)), pts[j].0) == if j < m {
            pts[j].1
        } else {
            0
        },
    decreases m,
{
    let xs = abscissas(pts);
    let vanish = vanishing(xs);
    let x = pts[j].0;
    if m > 0 {
        let i = m - 1;
        let head = pts.take(m);
        assert(head.drop_last() =~= pts.take(i));
        assert(head.last() == pts[i]);
        lemma_lagrange_partial(pts, i, j);
        let (xi, yi) = pts[i];
        let basis = linear_quotient(vanish, xi);
        let d = lagrange_denominator(vanish, xi);
        let k = mul_mod(inv_mod(d), yi);
        lemma_eval_add(lagrange_sum(vanish, pts.take(i)), lagrange_term(vanish, xi, yi), x);
        lemma_eval_scale(basis, k, x);
        assert(xs[i] == xi && xs[j] == x);
        if i == j {
            assert(is_unit(d));
            let inv = inv_mod(d);
            lemma_mul_mod_commutative(inv, yi);
            lemma_mul_mod_associative(yi, inv, d);
            lemma_mul_mod_commutative(inv, d);
            lemma_zero_and_one(yi);
            lemma_zero_and_one(mul_mod(k, d));
        } else {
            lemma_basis_roots(xs, i, j);
            lemma_zero_and_one(k);
            lemma_eval_unfold(lagrange_sum(vanish, pts.take(i)), x);
            lemma_zero_and_one(poly_eval(lagrange_sum(vanish, pts.take(i)), x));
        }
    }
}

/// Lagrange interpolation goes through its points: the interpolating
/// polynomial of pairs of residues whose denominators have inverses takes
/// at the first component of each pair the second.
pub proof fn lemma_lagrange_interpolates(pts: Seq<(nat, nat)>, j: int)
    requires
        residue_pairs(pts),
        interpolable(abscissas(pts)),
        0 <= j < pts.len(),
    ensures
        poly_eval(lagrange(pts), pts[j].0) == pts[j].1,
{
    lemma_lagrange_partial(pts, pts.len() as int, j);
    assert(pts.take(pts.len() as int) =~= pts);
}

} // verus!
