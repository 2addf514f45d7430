//! Evaluation of a polynomial in the exponent, the vanishing polynomial of a
//! batch of points, and Lagrange interpolation through any number of points.

use crate::curve::{g1_add, g1_scale, g1_scaled, g1_sum, G1};
use crate::evaluation::lemma_vanishing_roots;
use crate::field::{inv_mod, is_unit, lemma_inverse_unique, modulus, mul_mod, neg_mod, sub_mod};
use crate::interpolation::{lemma_lagrange_interpolates, residue_pairs};
use crate::poly_commit::{distinct, is_power_of_two, power_of_two, Error, MAX_BATCH};
use crate::polynomial::{
    canonical, lemma_lengths, lemma_trim_normalized, lemma_trim_of_normalized, linear_quotient,
    pointwise_scaled, pointwise_sum, poly_add, poly_eval, poly_mul, poly_product, poly_scale,
    poly_shift, residues, Poly,
};
use crate::roots::{
    lemma_difference_zero, lemma_separated_interpolable, lemma_unit_nonzero, lemma_unit_reversed,
    separated,
};
use crate::scalar::{scalar_inverse, scalar_mul, scalar_neg, scalar_sub, Scalar};
use vstd::pervasive::unreached;
use vstd::prelude::*;

verus! {

/// The linear combination of the first points of `srs` with the
/// coefficients of a polynomial: the sum over `i` of `coeffs[i] * srs[i]`,
/// added up from the identity in the order of `i`.
pub open spec fn msm(coeffs: Seq<nat>, srs: Seq<G1>) -> G1
    decreases coeffs.len(),
{
    if coeffs.len() == 0 {
        G1::spec_identity()
    } else {
        g1_sum(msm(coeffs.drop_last(), srs), g1_scaled(srs[coeffs.len() - 1], coeffs.last()))
    }
}

/// The value of a polynomial "in the exponent": the linear combination of
/// the points of `srs` with the polynomial's coefficients. The zero
/// polynomial gives the identity.
pub fn eval_poly_over_g1(poly: &Poly, srs: &Vec<G1>) -> (r: G1)
    requires
        poly@.len() <= srs@.len(),
    ensures
        r == msm(poly@, srs@),
{
    let c = poly.coeffs();
    let mut acc = G1::identity();
    let mut i: usize = 0;
    assert(residues(c@).take(0) =~= Seq::<nat>::empty());
    while i < c.len()
        invariant
            i <= c@.len(),
            c@.len() <= srs@.len(),
            acc == msm(residues(c@).take(i as int), srs@),
        decreases c@.len() - i,
    {
        let t = g1_scale(&srs[i], &c[i]);
        acc = g1_add(&acc, &t);
        proof {
            let next = residues(c@).take(i + 1);
            assert(next.drop_last() =~= residues(c@).take(i as int));
            assert(next.last() == c@[i as int]@);
        }
        i = i + 1;
    }
    assert(residues(c@).take(c@.len() as int) =~= residues(c@));
    acc
}

/// A polynomial is monic when its highest coefficient is one. The
/// coefficients are residues.
pub open spec fn monic(c: Seq<nat>) -> bool {
    &&& c.len() >= 1
    &&& c.last() == 1
    &&& canonical(c)
}

/// The polynomial `X - z`.
pub open spec fn linear_factor(z: nat) -> Seq<nat> {
    seq![neg_mod(z), 1nat]
}

/// The vanishing polynomial of the points `zs`: the product of `X - z` over
/// them, multiplied up in halves. For no point it is the constant one.
pub open spec fn vanishing(zs: Seq<nat>) -> Seq<nat>
    decreases zs.len(),
{
    if zs.len() == 0 {
        seq![1nat]
    } else if zs.len() == 1 {
        linear_factor(zs[0])
    } else {
        let h = (zs.len() / 2) as int;
        poly_mul(vanishing(zs.take(h)), vanishing(zs.skip(h)))
    }
}

/// The product of two monic polynomials is monic, and its degree is the sum
/// of their degrees.
pub proof fn lemma_mul_monic(a: Seq<nat>, b: Seq<nat>)
    requires
        monic(a),
        monic(b),
    ensures
        monic(poly_mul(a, b)),
        poly_mul(a, b).len() == a.len() + b.len() - 1,
    decreases a.len(),
{
    let rest = poly_mul(a.skip(1), b);
    let low = poly_scale(b, a[0]);
    let scaled = pointwise_scaled(b, a[0]);
    lemma_trim_normalized(scaled);
    if a.len() == 1 {
        assert(a.skip(1).len() == 0);
        assert(rest =~= Seq::<nat>::empty());
        assert(scaled =~= b) by {
            assert forall|i: int| 0 <= i < b.len() implies scaled[i] == b[i] by {
                assert(b[i] < modulus());
                assert(b[i] * 1 == b[i]);
            }
        }
        lemma_trim_of_normalized(b);
        let sum = pointwise_sum(low, poly_shift(rest));
        assert(sum =~= b) by {
            assert forall|i: int| 0 <= i < b.len() implies sum[i] == b[i] by {
                assert(b[i] < modulus());
            }
        }
    } else {
        let tail = a.skip(1);
        assert(tail.last() == a.last());
        assert forall|i: int| 0 <= i < tail.len() implies #[trigger] tail[i] < modulus() by {
            assert(tail[i] == a[i + 1]);
        }
        lemma_mul_monic(tail, b);
        let shifted = poly_shift(rest);
        let n = (a.len() + b.len() - 1) as nat;
        assert(shifted.len() == n);
        assert(shifted.last() == 1);
        let sum = pointwise_sum(low, shifted);
        assert(sum.last() == 1);
        lemma_trim_of_normalized(sum);
        assert(poly_mul(a, b) == sum);
    }
}

/// The vanishing polynomial of `n` points is monic of degree `n`.
pub proof fn lemma_vanishing_monic(zs: Seq<nat>)
    ensures
        monic(vanishing(zs)),
        vanishing(zs).len() == zs.len() + 1,
    decreases zs.len(),
{
    if zs.len() >= 2 {
        let h = (zs.len() / 2) as int;
        lemma_vanishing_monic(zs.take(h));
        lemma_vanishing_monic(zs.skip(h));
        lemma_mul_monic(vanishing(zs.take(h)), vanishing(zs.skip(h)));
    }
}

/// The vanishing polynomial of the points `z[lo..hi]`, by a balanced tree
/// of products.
fn vanishing_range(z: &[Scalar], lo: usize, hi: usize) -> (r: Poly)
    requires
        lo < hi <= z@.len(),
        hi - lo <= MAX_BATCH,
    ensures
        r@ == vanishing(residues(z@).subrange(lo as int, hi as int)),
    decreases hi - lo,
{
    let ghost zs = residues(z@).subrange(lo as int, hi as int);
    if hi - lo == 1 {
        let mut c: Vec<Scalar> = Vec::new();
        c.push(scalar_neg(&z[lo]));
        c.push(Scalar::one());
        proof {
            assert(residues(c@) =~= linear_factor(zs[0]));
            lemma_trim_of_normalized(residues(c@));
        }
        Poly::from_coefficients_vec(c)
    } else {
        let mid = lo + (hi - lo) / 2;
        let a = vanishing_range(z, lo, mid);
        let b = vanishing_range(z, mid, hi);
        proof {
            let h = (zs.len() / 2) as int;
            assert(zs.take(h) =~= residues(z@).subrange(lo as int, mid as int));
            assert(zs.skip(h) =~= residues(z@).subrange(mid as int, hi as int));
            lemma_vanishing_monic(zs.take(h));
            lemma_vanishing_monic(zs.skip(h));
        }
        poly_product(&a, &b)
    }
}

/// The vanishing polynomial of a batch of points: the product of `X - z`
/// over them, monic, of degree `n` and zero at each of the points, computed
/// by a balanced tree of products.
///
/// Refused are a number of points that is not a power of two, with
/// `NonPowerOfTwo`, and one above [`MAX_BATCH`], with `AlgebraFault`.
pub fn vanishing_tree(z: &[Scalar]) -> (r: Result<Poly, Error>)
    ensures
        match r {
            Ok(p) => {
                &&& is_power_of_two(z@.len())
                &&& z@.len() <= MAX_BATCH
                &&& p@ == vanishing(residues(z@))
                &&& p@.len() == z@.len() + 1
                &&& p@.last() == 1
                &&& forall|i: int| 0 <= i < z@.len() ==> poly_eval(p@, (#[trigger] z@[i])@) == 0
            },
            Err(e) => if is_power_of_two(z@.len()) {
                z@.len() > MAX_BATCH && e == Error::AlgebraFault
            } else {
                e == Error::NonPowerOfTwo
            },
        },
{
    if !power_of_two(z.len()) {
        return Err(Error::NonPowerOfTwo);
    }
    if z.len() > MAX_BATCH {
        return Err(Error::AlgebraFault);
    }
    proof {
        assert(residues(z@).subrange(0, z@.len() as int) =~= residues(z@));
        lemma_vanishing_monic(residues(z@));
        assert forall|i: int| 0 <= i < z@.len() implies poly_eval(
            vanishing(residues(z@)),
            (#[trigger] z@[i])@,
        ) == 0 by {
            lemma_vanishing_roots(residues(z@), i);
        }
    }
    Ok(vanishing_range(z, 0, z.len()))
}

/// The residues of a sequence of pairs of scalars.
pub open spec fn pair_residues(s: Seq<(Scalar, Scalar)>) -> Seq<(nat, nat)> {
    s.map_values(|p: (Scalar, Scalar)| (p.0@, p.1@))
}

/// The first components of a sequence of pairs.
pub open spec fn abscissas(pts: Seq<(nat, nat)>) -> Seq<nat> {
    pts.map_values(|p: (nat, nat)| p.0)
}

/// The value at `x` of the vanishing polynomial `vanish` divided by
/// `X - x`: what a Lagrange basis polynomial is divided by.
pub open spec fn lagrange_denominator(vanish: Seq<nat>, x: nat) -> nat {
    poly_eval(linear_quotient(vanish, x), x)
}

/// The polynomial that is `y` at `x` and zero at the other roots of
/// `vanish`.
pub open spec fn lagrange_term(vanish: Seq<nat>, x: nat, y: nat) -> Seq<nat> {
    poly_scale(linear_quotient(vanish, x), mul_mod(inv_mod(lagrange_denominator(vanish, x)), y))
}

/// The sum of the Lagrange terms of the given points.
pub open spec fn lagrange_sum(vanish: Seq<nat>, pts: Seq<(nat, nat)>) -> Seq<nat>
    decreases pts.len(),
{
    if pts.len() == 0 {
        Seq::empty()
    } else {
        poly_add(
            lagrange_sum(vanish, pts.drop_last()),
            lagrange_term(vanish, pts.last().0, pts.last().1),
        )
    }
}

/// The interpolating polynomial of the given points: the sum over them of
/// `y * Z_x / Z_x(x)`, where `Z_x` is the vanishing polynomial of the first
/// components divided by `X - x`.
pub open spec fn lagrange(pts: Seq<(nat, nat)>) -> Seq<nat> {
    lagrange_sum(vanishing(abscissas(pts)), pts)
}

/// Whether every Lagrange denominator of the points `xs` has an inverse.
pub open spec fn interpolable(xs: Seq<nat>) -> bool {
    forall|i: int|
        0 <= i < xs.len() ==> is_unit(lagrange_denominator(vanishing(xs), #[trigger] xs[i]))
}

/// What [`lagrange_interpolate`] returns for given points: the
/// interpolating polynomial where the first components differ from one
/// another; `DuplicatePoint` where two of them are equal; `AlgebraFault`
/// where there are more points than [`MAX_BATCH`].
pub open spec fn lagrange_result(pts: Seq<(nat, nat)>) -> Result<Seq<nat>, Error> {
    if !distinct(abscissas(pts)) {
        Err(Error::DuplicatePoint)
    } else if pts.len() > MAX_BATCH {
        Err(Error::AlgebraFault)
    } else {
        Ok(lagrange(pts))
    }
}

/// Whether no two of the points are equal, found by inverting the
/// difference of each two of them: a difference has no inverse where it is
/// zero, and there only. Where the points differ, they are separated.
pub fn all_separated(z: &[Scalar]) -> (r: bool)
    ensures
        r == distinct(residues(z@)),
        r ==> separated(residues(z@)),
{
    let ghost zs = residues(z@);
    let mut j: usize = 0;
    while j < z.len()
        invariant
            j <= z@.len(),
            zs == residues(z@),
            forall|a: int, b: int| 0 <= a < b < j ==> zs[a] != zs[b],
            forall|a: int, b: int|
                0 <= a < j && 0 <= b < j && a != b ==> is_unit(#[trigger] sub_mod(zs[a], zs[b])),
        decreases z@.len() - j,
    {
        let mut i: usize = 0;
        while i < j
            invariant
                i <= j < z@.len(),
                zs == residues(z@),
                forall|a: int| 0 <= a < i ==> zs[a] != zs[j as int],
                forall|a: int| 0 <= a < i ==> is_unit(#[trigger] sub_mod(zs[a], zs[j as int])),
                forall|a: int| 0 <= a < i ==> is_unit(#[trigger] sub_mod(zs[j as int], zs[a])),
            decreases j - i,
        {
            let d = scalar_sub(&z[i], &z[j]);
            proof {
                z@[i as int].lemma_below_modulus();
                z@[j as int].lemma_below_modulus();
            }
            match scalar_inverse(&d) {
                None => {
                    proof {
                        lemma_difference_zero(zs[i as int], zs[j as int]);
                    }
                    return false;
                },
                Some(inv) => {
                    proof {
                        inv.lemma_below_modulus();
                        assert(is_unit(sub_mod(zs[i as int], zs[j as int])));
                        lemma_unit_reversed(zs[i as int], zs[j as int]);
                        assert(sub_mod(zs[i as int], zs[i as int]) == 0);
                    }
                },
            }
            i = i + 1;
        }
        j = j + 1;
    }
    true
}

/// The inverse of a scalar that has one.
fn invert_unit(d: &Scalar) -> (r: Scalar)
    requires
        is_unit(d@),
    ensures
        r@ == inv_mod(d@),
{
    proof {
        lemma_unit_nonzero(d@);
    }
    match scalar_inverse(d) {
        Some(inv) => {
            proof {
                inv.lemma_below_modulus();
                lemma_inverse_unique(d@, inv@);
            }
            inv
        },
        None => unreached(),
    }
}

/// The interpolating polynomial of a batch of points has fewer coefficients
/// than there are points, one at most where there is none.
pub proof fn lemma_lagrange_degree(vanish: Seq<nat>, pts: Seq<(nat, nat)>)
    ensures
        lagrange_sum(vanish, pts).len() < vanish.len() || lagrange_sum(vanish, pts).len() == 0,
    decreases pts.len(),
{
    if pts.len() > 0 {
        let (x, y) = pts.last();
        let k = mul_mod(inv_mod(lagrange_denominator(vanish, x)), y);
        lemma_lagrange_degree(vanish, pts.drop_last());
        lemma_lengths(vanish, vanish, x);
        lemma_lengths(linear_quotient(vanish, x), vanish, k);
        lemma_lengths(lagrange_sum(vanish, pts.drop_last()), lagrange_term(vanish, x, y), 0);
    }
}

/// The polynomial of degree below the number of points that takes the value
/// `y` at `x` for each given pair `(x, y)`; the zero polynomial for no
/// point. It is the only such polynomial.
///
/// The first components must differ from one another, and there may be no
/// more points than [`MAX_BATCH`]; [`lagrange_result`] says which error
/// answers which input.
pub fn lagrange_interpolate(points: &[(Scalar, Scalar)]) -> (r: Result<Poly, Error>)
    ensures
        match r {
            Ok(p) => {
                &&& lagrange_result(pair_residues(points@)) == Ok::<Seq<nat>, Error>(p@)
                &&& p@.len() <= points@.len()
                &&& forall|j: int|
                    0 <= j < points@.len() ==> poly_eval(p@, (#[trigger] points@[j]).0@)
                        == points@[j].1@
                &&& interpolable(abscissas(pair_residues(points@)))
            },
            Err(e) => lagrange_result(pair_residues(points@)) == Err::<Seq<nat>, Error>(e),
        },
{
    let ghost pts = pair_residues(points@);
    let ghost xs = abscissas(pts);
    let n = points.len();
    let mut x: Vec<Scalar> = Vec::new();
    let mut i: usize = 0;
    while i < n
        invariant
            i <= n,
            n == points@.len(),
            x@.len() == i,
            forall|j: int| 0 <= j < i ==> (#[trigger] x@[j])@ == points@[j].0@,
        decreases n - i,
    {
        x.push(points[i].0);
        i = i + 1;
    }
    assert(residues(x@) =~= xs);
    if !all_separated(x.as_slice()) {
        return Err(Error::DuplicatePoint);
    }
    if n > MAX_BATCH {
        return Err(Error::AlgebraFault);
    }
    proof {
        lemma_separated_interpolable(xs);
    }
    if n == 0 {
        return Ok(Poly::zero());
    }
    let vanish = vanishing_range(x.as_slice(), 0, n);
    assert(xs.subrange(0, n as int) =~= xs);
    let mut ret = Poly::zero();
    let mut i: usize = 0;
    assert(pts.take(0) =~= Seq::<(nat, nat)>::empty());
    while i < n
        invariant
            i <= n,
            n == points@.len(),
            pts == pair_residues(points@),
            xs == abscissas(pts),
            vanish@ == vanishing(xs),
            interpolable(xs),
            ret@ == lagrange_sum(vanish@, pts.take(i as int)),
        decreases n - i,
    {
        let cur = vanish.divide_by_linear(&points[i].0);
        let d = cur.evaluate(&points[i].0);
        assert(xs[i as int] == points@[i as int].0@);
        let inv = invert_unit(&d);
        let k = scalar_mul(&inv, &points[i].1);
        let term = cur.scale(&k);
        proof {
            let next = pts.take(i + 1);
            assert(next.drop_last() =~= pts.take(i as int));
            assert(next.last() == pts[i as int]);
        }
        ret = ret.add(&term);
        i = i + 1;
    }
    assert(pts.take(n as int) =~= pts);
    proof {
        lemma_lagrange_degree(vanish@, pts);
        lemma_vanishing_monic(xs);
        assert(residue_pairs(pts)) by {
            assert forall|i: int| 0 <= i < pts.len() implies (#[trigger] pts[i]).0 < modulus()
                && pts[i].1 < modulus() by {
                points@[i].0.lemma_below_modulus();
                points@[i].1.lemma_below_modulus();
            }
        }
        assert forall|j: int| 0 <= j < points@.len() implies poly_eval(
            ret@,
            (#[trigger] points@[j]).0@,
        ) == points@[j].1@ by {
            lemma_lagrange_interpolates(pts, j);
            assert(pts[j] == (points@[j].0@, points@[j].1@));
        }
    }
    Ok(ret)
}

} // verus!
