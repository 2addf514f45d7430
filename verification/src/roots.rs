//! A polynomial with as many roots as it has coefficients is zero, where
//! the differences of the roots have inverses; hence a polynomial of degree
//! below the size of a batch is known by its values on the batch.

use crate::evaluation::{
    lemma_eval_linear_factor, lemma_eval_mul, lemma_eval_sub, lemma_eval_unfold,
};
use crate::field::{
    is_unit, lemma_congruent_residues, lemma_mul_congruent, lemma_mul_mod_associative,
    lemma_mul_mod_commutative, lemma_sub_congruent, lemma_zero_and_one, modulus, mul_mod, sub_mod,
};
use crate::interpolation::{
    cofactor, lemma_cofactor, lemma_lagrange_interpolates, lemma_quotient_of_multiple,
    residue_pairs,
};
use crate::polynomial::{
    canonical, coeff, lemma_trim_normalized, lemma_trim_of_normalized, linear_quotient, normalized,
    pointwise_difference, pointwise_sum, poly_add, poly_eval, poly_mul, poly_sub, trim,
};
use crate::product::{
    constant, lemma_coeff_sub, lemma_linear_factor_moves, lemma_linear_quotient_exact,
    lemma_mul_well_formed, lemma_normalized_equal,
};
use crate::utils::poly::{
    abscissas, interpolable, lagrange, lagrange_denominator, lagrange_sum, lagrange_term,
    lemma_lagrange_degree, lemma_mul_monic, lemma_vanishing_monic, linear_factor, monic, vanishing,
};
use vstd::prelude::*;

verus! {

/// The factors of a product with an inverse have inverses.
pub proof fn lemma_unit_factors(a: nat, b: nat)
    requires
        is_unit(mul_mod(a, b)),
    ensures
        is_unit(a),
        is_unit(b),
{
    let c = choose|c: nat| c < modulus() && #[trigger] mul_mod(mul_mod(a, b), c) == 1;
    lemma_mul_mod_associative(a, b, c);
    assert(mul_mod(a, mul_mod(b, c)) == 1);
    lemma_mul_mod_commutative(a, b);
    lemma_mul_mod_associative(b, a, c);
    assert(mul_mod(b, mul_mod(a, c)) == 1);
}

/// The product of two residues with inverses has an inverse.
pub proof fn lemma_unit_product(a: nat, b: nat)
    requires
        is_unit(a),
        is_unit(b),
    ensures
        is_unit(mul_mod(a, b)),
{
    let c = choose|c: nat| c < modulus() && #[trigger] mul_mod(a, c) == 1;
    let d = choose|d: nat| d < modulus() && #[trigger] mul_mod(b, d) == 1;
    // (a b) (d c) == a (b d) c == a c == 1
    lemma_mul_mod_associative(mul_mod(a, b), d, c);
    lemma_mul_mod_associative(a, b, d);
    lemma_zero_and_one(a);
    lemma_mul_mod_commutative(a, 1);
    assert(mul_mod(a, 1) == a % modulus());
    assert(mul_mod(mul_mod(a, 1), c) == mul_mod(a, c)) by {
        vstd::arithmetic::div_mod::lemma_mul_mod_noop_left(a as int, c as int, modulus() as int);
    }
    assert(mul_mod(mul_mod(a, b), mul_mod(d, c)) == 1);
}

/// A residue whose product with a residue that has an inverse is zero, is
/// zero.
pub proof fn lemma_unit_cancel(a: nat, u: nat)
    requires
        a < modulus(),
        is_unit(u),
        mul_mod(a, u) == 0,
    ensures
        a == 0,
{
    let c = choose|c: nat| c < modulus() && #[trigger] mul_mod(u, c) == 1;
    lemma_mul_mod_associative(a, u, c);
    lemma_zero_and_one(c);
    lemma_zero_and_one(a);
}

/// Whether the difference of any two points of the batch has an inverse.
pub open spec fn separated(xs: Seq<nat>) -> bool {
    forall|i: int, j: int|
        0 <= i < xs.len() && 0 <= j < xs.len() && i != j ==> is_unit(
            #[trigger] sub_mod(xs[i], xs[j]),
        )
}

/// Where the vanishing polynomial of a batch has a value with an inverse,
/// the difference to each point of the batch has an inverse.
proof fn lemma_vanishing_unit_factors(zs: Seq<nat>, x: nat, k: int)
    requires
        zs.len() > 0,
        is_unit(poly_eval(vanishing(zs), x)),
        0 <= k < zs.len(),
    ensures
        is_unit(sub_mod(x, zs[k])),
    decreases zs.len(),
{
    if zs.len() == 1 {
        lemma_eval_linear_factor(zs[0], x);
    } else {
        let h = (zs.len() / 2) as int;
        let left = zs.take(h);
        let right = zs.skip(h);
        lemma_eval_mul(vanishing(left), vanishing(right), x);
        lemma_unit_factors(poly_eval(vanishing(left), x), poly_eval(vanishing(right), x));
        if k < h {
            lemma_vanishing_unit_factors(left, x, k);
        } else {
            lemma_vanishing_unit_factors(right, x, k - h);
        }
    }
}

/// Where the cofactor of a point of a batch has a value with an inverse,
/// the difference to each other point of the batch has an inverse.
proof fn lemma_cofactor_unit_factors(zs: Seq<nat>, i: int, x: nat, k: int)
    requires
        0 <= i < zs.len(),
        0 <= k < zs.len(),
        k != i,
        is_unit(poly_eval(cofactor(zs, i), x)),
    ensures
        is_unit(sub_mod(x, zs[k])),
    decreases zs.len(),
{
    if zs.len() > 1 {
        let h = (zs.len() / 2) as int;
        let left = zs.take(h);
        let right = zs.skip(h);
        if i < h {
            let c = cofactor(left, i);
            lemma_eval_mul(c, vanishing(right), x);
            lemma_unit_factors(poly_eval(c, x), poly_eval(vanishing(right), x));
            if k < h {
                lemma_cofactor_unit_factors(left, i, x, k);
            } else {
                lemma_vanishing_unit_factors(right, x, k - h);
            }
        } else {
            let c = cofactor(right, i - h);
            lemma_eval_mul(vanishing(left), c, x);
            lemma_unit_factors(poly_eval(vanishing(left), x), poly_eval(c, x));
            if k < h {
                lemma_vanishing_unit_factors(left, x, k);
            } else {
                lemma_cofactor_unit_factors(right, i - h, x, k - h);
            }
        }
    }
}

/// A residue with an inverse is not zero.
pub proof fn lemma_unit_nonzero(a: nat)
    requires
        is_unit(a),
    ensures
        a != 0,
{
    let c = choose|c: nat| c < modulus() && #[trigger] mul_mod(a, c) == 1;
    lemma_zero_and_one(c);
}

/// Where a difference has an inverse, so has the difference the other way
/// round.
pub proof fn lemma_unit_reversed(a: nat, b: nat)
    requires
        is_unit(sub_mod(a, b)),
    ensures
        is_unit(sub_mod(b, a)),
{
    let d = sub_mod(a, b);
    let c = choose|c: nat| c < modulus() && #[trigger] mul_mod(d, c) == 1;
    let n = sub_mod(0, c);
    let (ai, bi, ci) = (a as int, b as int, c as int);
    // (b - a) * (0 - c) == (a - b) * c
    lemma_sub_congruent(a, b, ai, bi);
    lemma_sub_congruent(b, a, bi, ai);
    lemma_sub_congruent(0, c, 0, ci);
    lemma_mul_congruent(sub_mod(b, a), n, bi - ai, 0 - ci);
    lemma_mul_congruent(d, c, ai - bi, ci);
    assert((bi - ai) * (0 - ci) == (ai - bi) * ci) by (nonlinear_arith);
    lemma_congruent_residues(mul_mod(sub_mod(b, a), n), mul_mod(d, c));
}

/// Two residues whose difference is zero are equal.
pub proof fn lemma_difference_zero(a: nat, b: nat)
    requires
        a < modulus(),
        b < modulus(),
        sub_mod(a, b) == 0,
    ensures
        a == b,
{
    lemma_sub_congruent(a, b, a as int, b as int);
    vstd::arithmetic::div_mod::lemma_mod_equivalence(a as int, b as int, modulus() as int);
    lemma_congruent_residues(a, b);
}

/// At a point whose differences to the points of a batch have inverses,
/// the vanishing polynomial of the batch has a value with an inverse.
proof fn lemma_vanishing_unit(zs: Seq<nat>, x: nat)
    requires
        forall|k: int| 0 <= k < zs.len() ==> is_unit(#[trigger] sub_mod(x, zs[k])),
    ensures
        is_unit(poly_eval(vanishing(zs), x)),
    decreases zs.len(),
{
    if zs.len() == 0 {
        lemma_prefix_product_unit(zs, 0, x);
    } else if zs.len() == 1 {
        lemma_eval_linear_factor(zs[0], x);
        assert(is_unit(sub_mod(x, zs[0])));
    } else {
        let h = (zs.len() / 2) as int;
        let left = zs.take(h);
        let right = zs.skip(h);
        assert forall|k: int| 0 <= k < left.len() implies is_unit(
            #[trigger] sub_mod(x, left[k]),
        ) by {
            assert(is_unit(sub_mod(x, zs[k])));
        }
        assert forall|k: int| 0 <= k < right.len() implies is_unit(
            #[trigger] sub_mod(x, right[k]),
        ) by {
            assert(is_unit(sub_mod(x, zs[k + h])));
        }
        lemma_vanishing_unit(left, x);
        lemma_vanishing_unit(right, x);
        lemma_eval_mul(vanishing(left), vanishing(right), x);
        lemma_unit_product(poly_eval(vanishing(left), x), poly_eval(vanishing(right), x));
    }
}

/// At a point whose differences to the other points of a batch have
/// inverses, the cofactor of a point of the batch has a value with an
/// inverse.
proof fn lemma_cofactor_unit(zs: Seq<nat>, i: int, x: nat)
    requires
        0 <= i < zs.len(),
        forall|k: int| 0 <= k < zs.len() && k != i ==> is_unit(#[trigger] sub_mod(x, zs[k])),
    ensures
        is_unit(poly_eval(cofactor(zs, i), x)),
    decreases zs.len(),
{
    if zs.len() <= 1 {
        lemma_prefix_product_unit(zs, 0, x);
    } else {
        let h = (zs.len() / 2) as int;
        let left = zs.take(h);
        let right = zs.skip(h);
        if i < h {
            assert forall|k: int| 0 <= k < left.len() && k != i implies is_unit(
                #[trigger] sub_mod(x, left[k]),
            ) by {
                assert(is_unit(sub_mod(x, zs[k])));
            }
            assert forall|k: int| 0 <= k < right.len() implies is_unit(
                #[trigger] sub_mod(x, right[k]),
            ) by {
                assert(is_unit(sub_mod(x, zs[k + h])));
            }
            lemma_cofactor_unit(left, i, x);
            lemma_vanishing_unit(right, x);
            lemma_eval_mul(cofactor(left, i), vanishing(right), x);
            lemma_unit_product(poly_eval(cofactor(left, i), x), poly_eval(vanishing(right), x));
        } else {
            assert forall|k: int| 0 <= k < left.len() implies is_unit(
                #[trigger] sub_mod(x, left[k]),
            ) by {
                assert(is_unit(sub_mod(x, zs[k])));
            }
            assert forall|k: int| 0 <= k < right.len() && k != i - h implies is_unit(
                #[trigger] sub_mod(x, right[k]),
            ) by {
                assert(is_unit(sub_mod(x, zs[k + h])));
            }
            lemma_vanishing_unit(left, x);
            lemma_cofactor_unit(right, i - h, x);
            lemma_eval_mul(vanishing(left), cofactor(right, i - h), x);
            lemma_unit_product(
                poly_eval(vanishing(left), x),
                poly_eval(cofactor(right, i - h), x),
            );
        }
    }
}

/// On a separated batch every Lagrange denominator has an inverse.
pub proof fn lemma_separated_interpolable(xs: Seq<nat>)
    requires
        separated(xs),
    ensures
        interpolable(xs),
{
    assert forall|i: int| 0 <= i < xs.len() implies is_unit(
        lagrange_denominator(vanishing(xs), #[trigger] xs[i]),
    ) by {
        lemma_cofactor(xs, i);
        lemma_quotient_of_multiple(cofactor(xs, i), xs[i]);
        assert forall|k: int| 0 <= k < xs.len() && k != i implies is_unit(
            #[trigger] sub_mod(xs[i], xs[k]),
        ) by {}
        lemma_cofactor_unit(xs, i, xs[i]);
    }
}

/// The points of a batch whose Lagrange denominators have inverses are
/// separated.
pub proof fn lemma_interpolable_separated(xs: Seq<nat>)
    requires
        interpolable(xs),
    ensures
        separated(xs),
{
    assert forall|i: int, j: int| 0 <= i < xs.len() && 0 <= j < xs.len() && i != j implies is_unit(
        #[trigger] sub_mod(xs[i], xs[j]),
    ) by {
        lemma_cofactor(xs, i);
        lemma_quotient_of_multiple(cofactor(xs, i), xs[i]);
        assert(is_unit(lagrange_denominator(vanishing(xs), xs[i])));
        lemma_cofactor_unit_factors(xs, i, xs[i], j);
    }
}

/// The product of the linear factors of the first `k` points, multiplied
/// up one after the other.
pub open spec fn prefix_product(xs: Seq<nat>, k: nat) -> Seq<nat>
    decreases k,
{
    if k == 0 {
        seq![1nat]
    } else {
        poly_mul(prefix_product(xs, (k - 1) as nat), linear_factor(xs[k - 1]))
    }
}

/// A polynomial divided by the linear factors of the first `k` points, one
/// after the other.
pub open spec fn deflated(p: Seq<nat>, xs: Seq<nat>, k: nat) -> Seq<nat>
    decreases k,
{
    if k == 0 {
        p
    } else {
        linear_quotient(deflated(p, xs, (k - 1) as nat), xs[k - 1])
    }
}

/// The linear factor of a point is monic.
pub proof fn lemma_linear_factor_monic(z: nat)
    ensures
        monic(linear_factor(z)),
{
}

/// The product of the first `k` linear factors is monic of degree `k`.
pub proof fn lemma_prefix_product_monic(xs: Seq<nat>, k: nat)
    ensures
        monic(prefix_product(xs, k)),
        prefix_product(xs, k).len() == k + 1,
    decreases k,
{
    if k > 0 {
        lemma_prefix_product_monic(xs, (k - 1) as nat);
        lemma_linear_factor_monic(xs[k - 1]);
        lemma_mul_monic(prefix_product(xs, (k - 1) as nat), linear_factor(xs[k - 1]));
    }
}

/// At a point whose differences to the first `k` points have inverses, the
/// product of their linear factors has a value with an inverse.
proof fn lemma_prefix_product_unit(xs: Seq<nat>, k: nat, x: nat)
    requires
        k <= xs.len(),
        forall|j: int| 0 <= j < k ==> is_unit(#[trigger] sub_mod(x, xs[j])),
    ensures
        is_unit(poly_eval(prefix_product(xs, k), x)),
    decreases k,
{
    if k == 0 {
        let one = seq![1nat];
        assert(one.skip(1).len() == 0);
        lemma_zero_and_one(x);
        lemma_zero_and_one(1);
        assert(poly_eval(one.skip(1), x) == 0);
        assert(poly_eval(one, x) == 1);
        assert(mul_mod(1, 1) == 1);
    } else {
        let prev = prefix_product(xs, (k - 1) as nat);
        lemma_prefix_product_unit(xs, (k - 1) as nat, x);
        lemma_eval_mul(prev, linear_factor(xs[k - 1]), x);
        lemma_eval_linear_factor(xs[k - 1], x);
        assert(is_unit(sub_mod(x, xs[k - 1])));
        lemma_unit_product(poly_eval(prev, x), sub_mod(x, xs[k - 1]));
    }
}

/// Taking the zero polynomial off a polynomial leaves it as it is.
pub proof fn lemma_sub_zero(p: Seq<nat>)
    requires
        canonical(p),
        normalized(p),
    ensures
        poly_sub(p, constant(0)) == p,
{
    assert(constant(0) =~= Seq::<nat>::empty()) by {
        let z = seq![0nat];
        assert(z.drop_last().len() == 0);
        assert(trim(z.drop_last()) == z.drop_last());
        assert(trim(z) == trim(z.drop_last()));
    }
    let d = pointwise_difference(p, constant(0));
    assert(d =~= p) by {
        assert forall|i: int| 0 <= i < p.len() implies d[i] == p[i] by {
            assert(p[i] < modulus());
            vstd::arithmetic::div_mod::lemma_small_mod(p[i], modulus());
        }
    }
    lemma_trim_of_normalized(p);
}

/// The quotient of a normalized polynomial by a linear factor is
/// normalized, and its coefficients are residues.
pub proof fn lemma_linear_quotient_well_formed(p: Seq<nat>, z: nat)
    requires
        canonical(p),
        normalized(p),
    ensures
        canonical(linear_quotient(p, z)),
        normalized(linear_quotient(p, z)),
{
    let q = linear_quotient(p, z);
    assert forall|i: int| 0 <= i < q.len() implies #[trigger] q[i] < modulus() by {
        lemma_eval_unfold(p.skip(i + 1), z);
    }
    if q.len() > 0 {
        let n = p.len() as int;
        let top = p.skip(n - 1);
        assert(top.skip(1).len() == 0);
        assert(top[0] == p[n - 1]);
        lemma_zero_and_one(z);
        lemma_zero_and_one(p[n - 1]);
        assert(p[n - 1] < modulus());
        assert(poly_eval(top.skip(1), z) == 0);
        assert(poly_eval(top, z) == p[n - 1]);
        assert(q[n - 2] == p[n - 1]);
    }
}

/// A polynomial that is zero at the first `k` points of a separated batch
/// is its quotient by their linear factors, times the product of these.
pub proof fn lemma_roots_factor(p: Seq<nat>, xs: Seq<nat>, k: nat)
    requires
        canonical(p),
        normalized(p),
        separated(xs),
        k <= xs.len(),
        forall|j: int| 0 <= j < k ==> poly_eval(p, #[trigger] xs[j]) == 0,
    ensures
        p == poly_mul(deflated(p, xs, k), prefix_product(xs, k)),
        canonical(deflated(p, xs, k)),
        normalized(deflated(p, xs, k)),
        deflated(p, xs, k).len() == if p.len() >= k {
            p.len() - k
        } else {
            0
        },
    decreases k,
{
    if k == 0 {
        let one = seq![1nat];
        // p * 1 == p
        lemma_mul_well_formed(p, one);
        assert forall|j: int| 0 <= j implies coeff(poly_mul(p, one), j) == coeff(p, j) by {
            crate::product::lemma_coeff_mul(p, one, j);
            crate::product::lemma_convolution_one(p, j);
        }
        lemma_normalized_equal(poly_mul(p, one), p);
    } else {
        let x = xs[k - 1];
        let g = deflated(p, xs, (k - 1) as nat);
        let prev = prefix_product(xs, (k - 1) as nat);
        let f = linear_factor(x);
        lemma_roots_factor(p, xs, (k - 1) as nat);
        lemma_prefix_product_monic(xs, (k - 1) as nat);
        // g(x) == 0, as p(x) == g(x) * prev(x) and prev(x) has an inverse
        assert forall|j: int| 0 <= j < k - 1 implies is_unit(#[trigger] sub_mod(x, xs[j])) by {
            assert(is_unit(sub_mod(xs[k - 1], xs[j])));
        }
        lemma_prefix_product_unit(xs, (k - 1) as nat, x);
        lemma_eval_mul(g, prev, x);
        lemma_eval_unfold(g, x);
        lemma_unit_cancel(poly_eval(g, x), poly_eval(prev, x));
        // g == g' * (X - x)
        let next = linear_quotient(g, x);
        lemma_linear_quotient_exact(g, x);
        lemma_sub_zero(g);
        lemma_linear_quotient_well_formed(g, x);
        // p == (g' * (X - x)) * prev == g' * (prev * (X - x))
        lemma_linear_factor_moves(next, prev, x);
    }
}

/// A polynomial with no more coefficients than a separated batch has
/// points, and zero at every point of the batch, is the zero polynomial.
pub proof fn lemma_few_roots(p: Seq<nat>, xs: Seq<nat>)
    requires
        canonical(p),
        normalized(p),
        separated(xs),
        p.len() <= xs.len(),
        forall|j: int| 0 <= j < xs.len() ==> poly_eval(p, #[trigger] xs[j]) == 0,
    ensures
        p.len() == 0,
{
    lemma_roots_factor(p, xs, xs.len());
    assert(deflated(p, xs, xs.len()).len() == 0);
}

/// Two polynomials with no more coefficients than a separated batch has
/// points, and with the same values on the batch, are the same polynomial.
pub proof fn lemma_known_by_values(a: Seq<nat>, b: Seq<nat>, xs: Seq<nat>)
    requires
        canonical(a),
        normalized(a),
        canonical(b),
        normalized(b),
        separated(xs),
        a.len() <= xs.len(),
        b.len() <= xs.len(),
        forall|j: int| 0 <= j < xs.len() ==> poly_eval(a, #[trigger] xs[j]) == poly_eval(b, xs[j]),
    ensures
        a == b,
{
    let d = poly_sub(a, b);
    let raw = pointwise_difference(a, b);
    lemma_trim_normalized(raw);
    assert(canonical(d)) by {
        assert forall|i: int| 0 <= i < d.len() implies #[trigger] d[i] < modulus() by {
            assert(d[i] == raw[i]);
        }
    }
    assert forall|j: int| 0 <= j < xs.len() implies poly_eval(d, #[trigger] xs[j]) == 0 by {
        lemma_eval_sub(a, b, xs[j]);
        assert(sub_mod(poly_eval(a, xs[j]), poly_eval(b, xs[j])) == 0);
    }
    lemma_few_roots(d, xs);
    assert forall|k: int| 0 <= k implies coeff(a, k) == coeff(b, k) by {
        lemma_coeff_sub(a, b, k);
        assert(coeff(d, k) == 0);
        let (x, y) = (coeff(a, k), coeff(b, k));
        assert(x < modulus() && y < modulus()) by {
            if k < a.len() {
                assert(a[k] < modulus());
            }
            if k < b.len() {
                assert(b[k] < modulus());
            }
        }
        lemma_sub_congruent(x, y, x as int, y as int);
        vstd::arithmetic::div_mod::lemma_mod_equivalence(x as int, y as int, modulus() as int);
        lemma_congruent_residues(x, y);
    }
    lemma_normalized_equal(a, b);
}

/// Adding the zero polynomial to a polynomial leaves it as it is.
pub proof fn lemma_add_zero(p: Seq<nat>)
    requires
        canonical(p),
        normalized(p),
    ensures
        poly_add(p, Seq::<nat>::empty()) == p,
{
    let s = pointwise_sum(p, Seq::<nat>::empty());
    assert(s =~= p) by {
        assert forall|i: int| 0 <= i < p.len() implies s[i] == p[i] by {
            assert(p[i] < modulus());
            lemma_zero_and_one(p[i]);
        }
    }
    lemma_trim_of_normalized(p);
}

/// A sum of polynomials is normalized, and its coefficients are residues.
pub proof fn lemma_add_well_formed(a: Seq<nat>, b: Seq<nat>)
    ensures
        canonical(poly_add(a, b)),
        normalized(poly_add(a, b)),
{
    let s = pointwise_sum(a, b);
    lemma_trim_normalized(s);
    assert forall|i: int| 0 <= i < trim(s).len() implies #[trigger] trim(s)[i] < modulus() by {
        assert(trim(s)[i] == s[i]);
    }
}

/// The interpolating polynomial is the only polynomial of degree below the
/// number of points that goes through the points.
pub proof fn lemma_interpolant_unique(pts: Seq<(nat, nat)>, q: Seq<nat>)
    requires
        residue_pairs(pts),
        interpolable(abscissas(pts)),
        canonical(q),
        normalized(q),
        q.len() <= pts.len(),
        forall|j: int| 0 <= j < pts.len() ==> poly_eval(q, (#[trigger] pts[j]).0) == pts[j].1,
    ensures
        q == lagrange(pts),
{
    let xs = abscissas(pts);
    let l = lagrange(pts);
    lemma_interpolable_separated(xs);
    lemma_lagrange_degree(vanishing(xs), pts);
    lemma_vanishing_monic(xs);
    if pts.len() > 0 {
        assert(pts.drop_last().len() < pts.len());
        lemma_add_well_formed(
            lagrange_sum(vanishing(xs), pts.drop_last()),
            lagrange_term(vanishing(xs), pts.last().0, pts.last().1),
        );
    }
    assert forall|j: int| 0 <= j < xs.len() implies poly_eval(q, #[trigger] xs[j]) == poly_eval(
        l,
        xs[j],
    ) by {
        lemma_lagrange_interpolates(pts, j);
        assert(xs[j] == pts[j].0);
    }
    lemma_known_by_values(q, l, xs);
}

} // verus!
