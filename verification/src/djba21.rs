//! The scheme with a proof of constant size: two elements of G1 for the
//! whole batch, under two scalars from the verifier.

use crate::curve::{
    g1_add, g1_difference, g1_random, g1_scale, g1_scaled, g1_sub, g1_sum, g2_random, pairing,
    pairing_value, G1, G2,
};
use crate::evaluation::{
    lemma_eval_add, lemma_eval_mul, lemma_eval_scale, lemma_eval_sub, lemma_eval_trim,
    lemma_eval_unfold, lemma_vanishing_roots,
};
use crate::field::{
    add_mod, lemma_add_congruent, lemma_congruent_residues, lemma_mul_congruent,
    lemma_mul_mod_commutative, lemma_sub_congruent, lemma_zero_and_one, modulus, mul_mod, pow_mod,
    sub_mod,
};
use crate::poly_commit::{
    any_above_degree, any_over_degree, batch_error, check_batch, check_degree_bound, check_degrees,
    commit_batch, derive_srs, folded_commitment, is_srs, is_srs_of, over_degree, poly_views,
    sample_secret, Error, PolyCommit,
};
use crate::polynomial::{
    canonical, lemma_lengths, lemma_trim_normalized, linear_quotient, normalized,
    pointwise_difference, poly_add, poly_div_rem, poly_eval, poly_mul, poly_quotient, poly_scale,
    poly_sub, residues, Poly,
};
use crate::product::{constant, lemma_linear_quotient_exact, lemma_mul_well_formed};
use crate::roots::{lemma_add_zero, lemma_few_roots, lemma_interpolable_separated, lemma_sub_zero};
use crate::scalar::{scalar_add, scalar_mul, Scalar};
use crate::utils::poly::{
    abscissas, eval_poly_over_g1, interpolable, lagrange, lagrange_interpolate,
    lemma_vanishing_monic, linear_factor, msm, pair_residues, vanishing, vanishing_tree,
};
use vstd::prelude::*;

verus! {

/// The batched scheme with a proof of two group elements.
#[derive(Debug)]
pub struct DJBA21 {
    max_deg: usize,
}

/// The public key of [`DJBA21`].
#[allow(non_camel_case_types)]
#[derive(Clone, Debug)]
pub struct DJBA21_PK {
    /// The powers `g, a * g, ..., a^t * g` of the secret in G1.
    pub g1: Vec<G1>,
    /// A generator `h` of G2.
    pub g2_one: G2,
    /// The multiple `a * h` of that generator by the secret.
    pub g2_x: G2,
}

/// The points of the batch, each with the value of `f` at it.
pub open spec fn graph(f: Seq<nat>, z: Seq<nat>) -> Seq<(nat, nat)> {
    Seq::new(z.len(), |j: int| (z[j], poly_eval(f, z[j])))
}

/// For each polynomial, the polynomial of degree below the number of points
/// that agrees with it on the points.
pub open spec fn interpolants(polys: Seq<Seq<nat>>, z: Seq<nat>) -> Seq<Seq<nat>> {
    Seq::new(polys.len(), |i: int| lagrange(graph(polys[i], z)))
}

/// Why `evaluate` refuses its input, if it does.
pub open spec fn evaluate_error(polys: Seq<Seq<nat>>, z: Seq<nat>, max_deg: nat) -> Option<Error> {
    if batch_error(z).is_some() {
        batch_error(z)
    } else if any_above_degree(polys, max_deg) {
        Some(Error::OverDegree)
    } else {
        None
    }
}

/// The differences of the first `count` polynomials and their evaluations,
/// folded with the powers of `lambda`: the sum over `i` of
/// `lambda^i * (f_i - v_i)`.
pub open spec fn folded_difference(
    polys: Seq<Seq<nat>>,
    v: Seq<Seq<nat>>,
    lambda: nat,
    count: nat,
) -> Seq<nat>
    decreases count,
{
    if count == 0 {
        Seq::empty()
    } else {
        poly_add(
            folded_difference(polys, v, lambda, (count - 1) as nat),
            poly_scale(
                poly_sub(polys[count - 1], v[count - 1]),
                pow_mod(lambda, (count - 1) as nat),
            ),
        )
    }
}

/// The first `count` polynomials folded with the powers of `lambda`: the
/// sum over `i` of `lambda^i * f_i`.
pub open spec fn folded_polys(polys: Seq<Seq<nat>>, lambda: nat, count: nat) -> Seq<nat>
    decreases count,
{
    if count == 0 {
        Seq::empty()
    } else {
        poly_add(
            folded_polys(polys, lambda, (count - 1) as nat),
            poly_scale(polys[count - 1], pow_mod(lambda, (count - 1) as nat)),
        )
    }
}

/// The values at `chi` of the first `count` evaluations, folded with the
/// powers of `lambda`: the sum over `i` of `lambda^i * v_i(chi)`.
pub open spec fn folded_values(v: Seq<Seq<nat>>, chi: nat, lambda: nat, count: nat) -> nat
    decreases count,
{
    if count == 0 {
        0
    } else {
        add_mod(
            folded_values(v, chi, lambda, (count - 1) as nat),
            mul_mod(pow_mod(lambda, (count - 1) as nat), poly_eval(v[count - 1], chi)),
        )
    }
}

/// The polynomial whose value in the exponent is the first proof element:
/// the folded difference divided by the vanishing polynomial of the points.
pub open spec fn vanishing_quotient(
    polys: Seq<Seq<nat>>,
    v: Seq<Seq<nat>>,
    z: Seq<nat>,
    lambda: nat,
) -> Seq<nat> {
    poly_quotient(folded_difference(polys, v, lambda, polys.len()), vanishing(z))
}

/// What is divided by `X - chi` for the second proof element: the folded
/// polynomials, less the folded values at `chi`, less the quotient `w`
/// times the vanishing polynomial's value at `chi`.
pub open spec fn challenge_dividend(
    polys: Seq<Seq<nat>>,
    v: Seq<Seq<nat>>,
    w: Seq<nat>,
    z: Seq<nat>,
    lambda: nat,
    chi: nat,
) -> Seq<nat> {
    let l = poly_sub(
        folded_polys(polys, lambda, polys.len()),
        constant(folded_values(v, chi, lambda, polys.len())),
    );
    poly_sub(l, poly_scale(w, poly_eval(vanishing(z), chi)))
}

/// The polynomial whose value in the exponent is the second proof element:
/// the challenge dividend for the vanishing quotient, divided by `X - chi`.
pub open spec fn challenge_quotient(
    polys: Seq<Seq<nat>>,
    v: Seq<Seq<nat>>,
    z: Seq<nat>,
    lambda: nat,
    chi: nat,
) -> Seq<nat> {
    linear_quotient(
        challenge_dividend(polys, v, vanishing_quotient(polys, v, z, lambda), z, lambda, chi),
        chi,
    )
}

/// Whether each evaluation agrees with its polynomial on the points.
pub open spec fn agree_on(polys: Seq<Seq<nat>>, v: Seq<Seq<nat>>, z: Seq<nat>) -> bool {
    forall|i: int, j: int|
        0 <= i < polys.len() && 0 <= j < z.len() ==> #[trigger] poly_eval(v[i], z[j])
            == poly_eval(polys[i], z[j])
}

/// Whether both divisions of the opening leave no remainder: the vanishing
/// quotient times the vanishing polynomial is the folded difference, and
/// the challenge quotient times `X - chi` is the challenge dividend.
pub open spec fn exact_opening(
    polys: Seq<Seq<nat>>,
    v: Seq<Seq<nat>>,
    z: Seq<nat>,
    lambda: nat,
    chi: nat,
) -> bool {
    let w = vanishing_quotient(polys, v, z, lambda);
    &&& poly_mul(w, vanishing(z)) == folded_difference(polys, v, lambda, polys.len())
    &&& poly_mul(challenge_quotient(polys, v, z, lambda, chi), linear_factor(chi))
        == challenge_dividend(polys, v, w, z, lambda, chi)
}

/// The folded difference is zero at every point on which the evaluations
/// agree with the polynomials.
pub proof fn lemma_folded_difference_roots(
    polys: Seq<Seq<nat>>,
    v: Seq<Seq<nat>>,
    lambda: nat,
    x: nat,
    count: nat,
)
    requires
        forall|i: int| 0 <= i < count ==> poly_eval(#[trigger] v[i], x) == poly_eval(polys[i], x),
    ensures
        poly_eval(folded_difference(polys, v, lambda, count), x) == 0,
    decreases count,
{
    if count > 0 {
        let i = count - 1;
        let pw = pow_mod(lambda, i as nat);
        lemma_folded_difference_roots(polys, v, lambda, x, i as nat);
        lemma_eval_add(
            folded_difference(polys, v, lambda, i as nat),
            poly_scale(poly_sub(polys[i], v[i]), pw),
            x,
        );
        lemma_eval_scale(poly_sub(polys[i], v[i]), pw, x);
        lemma_eval_sub(polys[i], v[i], x);
        assert(poly_eval(v[i], x) == poly_eval(polys[i], x));
        assert(sub_mod(poly_eval(polys[i], x), poly_eval(v[i], x)) == 0);
        lemma_zero_and_one(pw);
        lemma_zero_and_one(0);
    }
}

/// The value of the folded difference is the value of the folded
/// polynomials less the folded values.
pub proof fn lemma_folded_difference_eval(
    polys: Seq<Seq<nat>>,
    v: Seq<Seq<nat>>,
    lambda: nat,
    x: nat,
    count: nat,
)
    ensures
        poly_eval(folded_difference(polys, v, lambda, count), x) == sub_mod(
            poly_eval(folded_polys(polys, lambda, count), x),
            folded_values(v, x, lambda, count),
        ),
        folded_values(v, x, lambda, count) < modulus(),
    decreases count,
{
    if count == 0 {
        assert(sub_mod(0, 0) == 0);
    } else {
        let i = count - 1;
        let pw = pow_mod(lambda, i as nat);
        let prev_d = folded_difference(polys, v, lambda, i as nat);
        let prev_f = folded_polys(polys, lambda, i as nat);
        let prev_m = folded_values(v, x, lambda, i as nat);
        lemma_folded_difference_eval(polys, v, lambda, x, i as nat);
        lemma_eval_add(prev_d, poly_scale(poly_sub(polys[i], v[i]), pw), x);
        lemma_eval_scale(poly_sub(polys[i], v[i]), pw, x);
        lemma_eval_sub(polys[i], v[i], x);
        lemma_eval_add(prev_f, poly_scale(polys[i], pw), x);
        lemma_eval_scale(polys[i], pw, x);
        let (a, b) = (poly_eval(polys[i], x), poly_eval(v[i], x));
        let (fa, mb) = (poly_eval(prev_f, x), prev_m);
        let (ai, bi, fai, mbi, pwi) = (a as int, b as int, fa as int, mb as int, pw as int);
        // (F - M) + pw (a - b) == (F + pw a) - (M + pw b)
        lemma_sub_congruent(fa, mb, fai, mbi);
        lemma_sub_congruent(a, b, ai, bi);
        lemma_mul_congruent(pw, sub_mod(a, b), pwi, ai - bi);
        lemma_add_congruent(
            sub_mod(fa, mb),
            mul_mod(pw, sub_mod(a, b)),
            fai - mbi,
            pwi * (ai - bi),
        );
        lemma_mul_congruent(pw, a, pwi, ai);
        lemma_mul_congruent(pw, b, pwi, bi);
        lemma_add_congruent(fa, mul_mod(pw, a), fai, pwi * ai);
        lemma_add_congruent(mb, mul_mod(pw, b), mbi, pwi * bi);
        lemma_sub_congruent(
            add_mod(fa, mul_mod(pw, a)),
            add_mod(mb, mul_mod(pw, b)),
            fai + pwi * ai,
            mbi + pwi * bi,
        );
        assert((fai - mbi) + pwi * (ai - bi) == (fai + pwi * ai) - (mbi + pwi * bi))
            by (nonlinear_arith);
        lemma_congruent_residues(
            poly_eval(folded_difference(polys, v, lambda, count), x),
            sub_mod(
                poly_eval(folded_polys(polys, lambda, count), x),
                folded_values(v, x, lambda, count),
            ),
        );
    }
}

/// The value of a constant polynomial is the constant.
pub proof fn lemma_eval_constant(c: nat, x: nat)
    requires
        c < modulus(),
    ensures
        poly_eval(constant(c), x) == c,
{
    let s = seq![c];
    lemma_eval_trim(s, x);
    assert(s.skip(1).len() == 0);
    assert(poly_eval(s.skip(1), x) == 0);
    lemma_zero_and_one(x);
    lemma_zero_and_one(c);
}

/// Where the evaluations agree with the polynomials on the points, and the
/// points are such that polynomials can be interpolated on them, a quotient
/// `w` of the folded difference by the vanishing polynomial leaves no
/// remainder, and neither does the division of the challenge dividend by
/// `X - chi`.
pub proof fn lemma_divisions_exact(
    polys: Seq<Seq<nat>>,
    v: Seq<Seq<nat>>,
    z: Seq<nat>,
    lambda: nat,
    chi: nat,
    w: Seq<nat>,
    r: Seq<nat>,
)
    requires
        polys.len() == z.len(),
        interpolable(z),
        agree_on(polys, v, z),
        canonical(w),
        normalized(w),
        canonical(r),
        normalized(r),
        poly_add(poly_mul(w, vanishing(z)), r) == folded_difference(polys, v, lambda, polys.len()),
        r.len() < vanishing(z).len(),
    ensures
        poly_mul(w, vanishing(z)) == folded_difference(polys, v, lambda, polys.len()),
        poly_mul(
            linear_quotient(challenge_dividend(polys, v, w, z, lambda, chi), chi),
            linear_factor(chi),
        ) == challenge_dividend(polys, v, w, z, lambda, chi),
{
    let n = polys.len();
    let f = folded_difference(polys, v, lambda, n);
    let zt = vanishing(z);
    let product = poly_mul(w, zt);
    lemma_vanishing_monic(z);
    lemma_interpolable_separated(z);
    // The remainder is zero on the points, so it is zero.
    assert forall|j: int| 0 <= j < z.len() implies poly_eval(r, #[trigger] z[j]) == 0 by {
        let x = z[j];
        assert forall|i: int| 0 <= i < n implies poly_eval(#[trigger] v[i], x) == poly_eval(
            polys[i],
            x,
        ) by {
            assert(poly_eval(v[i], z[j]) == poly_eval(polys[i], z[j]));
        }
        lemma_folded_difference_roots(polys, v, lambda, x, n);
        lemma_eval_add(product, r, x);
        lemma_eval_mul(w, zt, x);
        lemma_vanishing_roots(z, j);
        lemma_zero_and_one(poly_eval(w, x));
        lemma_eval_unfold(r, x);
        lemma_zero_and_one(poly_eval(r, x));
    }
    lemma_few_roots(r, z);
    assert(r =~= Seq::<nat>::empty());
    lemma_mul_well_formed(w, zt);
    lemma_add_zero(product);
    // The challenge dividend is zero at `chi`, so `X - chi` divides it.
    let mid = folded_values(v, chi, lambda, n);
    let big = folded_polys(polys, lambda, n);
    let l = poly_sub(big, constant(mid));
    let zc = poly_eval(zt, chi);
    let d = challenge_dividend(polys, v, w, z, lambda, chi);
    lemma_folded_difference_eval(polys, v, lambda, chi, n);
    lemma_eval_constant(mid, chi);
    lemma_eval_sub(big, constant(mid), chi);
    lemma_eval_mul(w, zt, chi);
    lemma_eval_scale(w, zc, chi);
    lemma_eval_sub(l, poly_scale(w, zc), chi);
    lemma_mul_mod_commutative(zc, poly_eval(w, chi));
    let u = mul_mod(poly_eval(w, chi), zc);
    assert(poly_eval(d, chi) == sub_mod(u, u));
    assert(sub_mod(u, u) == 0);
    lemma_trim_normalized(pointwise_difference(l, poly_scale(w, zc)));
    assert(canonical(d)) by {
        let raw = pointwise_difference(l, poly_scale(w, zc));
        assert forall|i: int| 0 <= i < d.len() implies #[trigger] d[i] < modulus() by {
            assert(d[i] == raw[i]);
        }
    }
    lemma_linear_quotient_exact(d, chi);
    lemma_sub_zero(d);
}

/// Why `open` refuses its input, if it does.
pub open spec fn open_error(
    polys: Seq<Seq<nat>>,
    z: Seq<nat>,
    v: Seq<Seq<nat>>,
    max_deg: nat,
    srs_len: nat,
) -> Option<Error> {
    if polys.len() != z.len() || v.len() != z.len() || srs_len == 0 {
        Some(Error::LengthMismatch)
    } else if batch_error(z).is_some() {
        batch_error(z)
    } else if any_over_degree(polys, max_deg, srs_len) || any_over_degree(v, max_deg, srs_len) {
        Some(Error::OverDegree)
    } else {
        None
    }
}

/// The point of G1 that the verifier pairs with `h`:
/// `sum of lambda^i * c[i] - (sum of lambda^i * v_i(chi)) * g - Z(chi) * w + chi * w2`,
/// where `Z` is the vanishing polynomial of the points.
pub open spec fn left_point(
    c: Seq<G1>,
    g: G1,
    w: G1,
    w2: G1,
    z: Seq<nat>,
    v: Seq<Seq<nat>>,
    lambda: nat,
    chi: nat,
) -> G1 {
    let folded = folded_commitment(c, lambda, c.len());
    let less_values = g1_difference(folded, g1_scaled(g, folded_values(v, chi, lambda, c.len())));
    let less_vanishing = g1_difference(less_values, g1_scaled(w, poly_eval(vanishing(z), chi)));
    g1_sum(less_vanishing, g1_scaled(w2, chi))
}

/// Whether the verifier accepts the proof `(w, w2)`:
/// `e(left point, h) == e(w2, a * h)`.
pub open spec fn accepts(
    c: Seq<G1>,
    g: G1,
    h: G2,
    ah: G2,
    w: G1,
    w2: G1,
    z: Seq<nat>,
    v: Seq<Seq<nat>>,
    lambda: nat,
    chi: nat,
) -> bool {
    pairing_value(left_point(c, g, w, w2, z, v, lambda, chi), h) == pairing_value(w2, ah)
}

/// Why `verify` refuses its input, if it does.
pub open spec fn verify_error(c_len: nat, srs_len: nat, z: Seq<nat>, v_len: nat) -> Option<Error> {
    if c_len != z.len() || v_len != z.len() || srs_len == 0 {
        Some(Error::LengthMismatch)
    } else {
        batch_error(z)
    }
}

impl DJBA21 {
    /// The public key for the secret `sk` on the generators `g` and `h`.
    pub fn public_key(g: &G1, h: &G2, sk: &Scalar, max_deg: usize) -> (pk: DJBA21_PK)
        requires
            max_deg < usize::MAX,
        ensures
            pk.g2_one == *h,
            is_srs(pk.g1@, pk.g2_one, pk.g2_x, *g, sk@, max_deg as nat),
    {
        let (g1, g2_x) = derive_srs(g, h, sk, max_deg);
        DJBA21_PK { g1, g2_one: *h, g2_x }
    }
}

impl PolyCommit for DJBA21 {
    type PK = DJBA21_PK;

    type SK = Scalar;

    /// One element of G1 for each polynomial.
    type Commitment = Vec<G1>;

    /// The values of a polynomial on the points, as the polynomial of degree
    /// below their number that takes them.
    type Evaluation = Poly;

    /// Two elements of G1 for the whole batch.
    type Proof = (G1, G1);

    /// Two scalars: `lambda`, which folds the polynomials, and `chi`, the
    /// point of the challenge.
    type VerifierParams = (Scalar, Scalar);

    closed spec fn max_degree(&self) -> nat {
        self.max_deg as nat
    }

    fn new() -> (r: Self) {
        DJBA21 { max_deg: 0 }
    }

    /// The public key holds the powers of a sampled secret on sampled
    /// generators; the secret is returned beside it.
    fn setup(&mut self, max_deg: usize) -> (r: (DJBA21_PK, Scalar))
        ensures
            is_srs_of(r.0.g1@, r.0.g2_one, r.0.g2_x, r.1@, max_deg as nat),
    {
        let sk = sample_secret();
        let g = g1_random();
        let h = g2_random();
        self.max_deg = max_deg;
        let pk = DJBA21::public_key(&g, &h, &sk, max_deg);
        assert(is_srs(pk.g1@, pk.g2_one, pk.g2_x, g, sk@, max_deg as nat));
        (pk, sk)
    }

    /// One commitment for each polynomial: its value in the exponent.
    fn commit(&self, pk: &DJBA21_PK, poly: &[Poly]) -> (r: Result<Vec<G1>, Error>)
        ensures
            match r {
                Ok(c) => {
                    &&& !any_over_degree(poly_views(poly@), self.max_degree(), pk.g1@.len())
                    &&& c@.len() == poly@.len()
                    &&& forall|i: int|
                        0 <= i < c@.len() ==> #[trigger] c@[i] == msm(poly@[i]@, pk.g1@)
                },
                Err(e) => e == Error::OverDegree && any_over_degree(
                    poly_views(poly@),
                    self.max_degree(),
                    pk.g1@.len(),
                ),
            },
    {
        commit_batch(poly, &pk.g1, self.max_deg)
    }

    /// For each polynomial, the polynomial of degree below the number of
    /// points that agrees with it on the points. Where there is a
    /// polynomial, the points are found fit for interpolation on the way.
    /// [`evaluate_error`] says which input is refused, and how.
    fn evaluate(&self, poly: &[Poly], z: &[Scalar]) -> (r: Result<Vec<Poly>, Error>)
        ensures
            match r {
                Ok(v) => {
                    &&& evaluate_error(poly_views(poly@), residues(z@), self.max_degree()).is_none()
                    &&& poly_views(v@) == interpolants(poly_views(poly@), residues(z@))
                    &&& forall|i: int, j: int|
                        0 <= i < poly@.len() && 0 <= j < z@.len() ==> #[trigger] poly_eval(
                            v@[i]@,
                            z@[j]@,
                        ) == poly_eval(poly@[i]@, z@[j]@)
                    &&& forall|i: int| 0 <= i < v@.len() ==> (#[trigger] v@[i])@.len() <= z@.len()
                    &&& poly@.len() > 0 ==> interpolable(residues(z@))
                },
                Err(e) => evaluate_error(poly_views(poly@), residues(z@), self.max_degree())
                    == Some(e),
            },
    {
        let ghost fs = poly_views(poly@);
        let ghost zs = residues(z@);
        match check_batch(z) {
            Err(e) => {
                return Err(e);
            },
            Ok(_) => {},
        }
        if !check_degree_bound(poly, self.max_deg) {
            return Err(Error::OverDegree);
        }
        let mut ret: Vec<Poly> = Vec::new();
        let mut i: usize = 0;
        while i < poly.len()
            invariant
                i <= poly@.len(),
                fs == poly_views(poly@),
                zs == residues(z@),
                batch_error(zs).is_none(),
                !any_above_degree(fs, self.max_degree()),
                i > 0 ==> interpolable(zs),
                ret@.len() == i,
                forall|a: int| 0 <= a < i ==> (#[trigger] ret@[a])@ == lagrange(graph(fs[a], zs)),
                forall|a: int| 0 <= a < i ==> (#[trigger] ret@[a])@.len() <= z@.len(),
                forall|a: int, b: int|
                    0 <= a < i && 0 <= b < z@.len() ==> #[trigger] poly_eval(ret@[a]@, z@[b]@)
                        == poly_eval(poly@[a]@, z@[b]@),
            decreases poly@.len() - i,
        {
            let mut points: Vec<(Scalar, Scalar)> = Vec::new();
            let mut j: usize = 0;
            while j < z.len()
                invariant
                    j <= z@.len(),
                    i < poly@.len(),
                    fs == poly_views(poly@),
                    zs == residues(z@),
                    points@.len() == j,
                    forall|b: int|
                        0 <= b < j ==> (#[trigger] points@[b]).0@ == zs[b] && points@[b].1@
                            == poly_eval(fs[i as int], zs[b]),
                decreases z@.len() - j,
            {
                points.push((z[j], poly[i].evaluate(&z[j])));
                j = j + 1;
            }
            proof {
                assert(pair_residues(points@) =~= graph(fs[i as int], zs));
                assert(abscissas(graph(fs[i as int], zs)) =~= zs);
            }
            match lagrange_interpolate(points.as_slice()) {
                Ok(p) => {
                    proof {
                        assert forall|b: int| 0 <= b < z@.len() implies #[trigger] poly_eval(
                            p@,
                            z@[b]@,
                        ) == poly_eval(poly@[i as int]@, z@[b]@) by {
                            assert(points@[b].0@ == zs[b]);
                            assert(poly_eval(p@, points@[b].0@) == points@[b].1@);
                        }
                    }
                    ret.push(p);
                },
                Err(e) => {
                    return Err(e);
                },
            }
            i = i + 1;
        }
        assert(poly_views(ret@) =~= interpolants(fs, zs));
        Ok(ret)
    }

    /// The two proof elements: the values in the exponent of
    /// [`vanishing_quotient`] and of [`challenge_quotient`], for
    /// `ver_params = (lambda, chi)`. Where the evaluations agree with the
    /// polynomials on the points, both divisions leave no remainder.
    /// [`open_error`] says which input is refused, and how.
    fn open(
        &self,
        pk: &DJBA21_PK,
        poly: &[Poly],
        z: &[Scalar],
        v: &[Poly],
        ver_params: &(Scalar, Scalar),
    ) -> (r: Result<(G1, G1), Error>)
        ensures
            match r {
                Ok(p) => {
                    &&& open_error(
                        poly_views(poly@),
                        residues(z@),
                        poly_views(v@),
                        self.max_degree(),
                        pk.g1@.len(),
                    ).is_none()
                    &&& p.0 == msm(
                        vanishing_quotient(
                            poly_views(poly@),
                            poly_views(v@),
                            residues(z@),
                            ver_params.0@,
                        ),
                        pk.g1@,
                    )
                    &&& p.1 == msm(
                        challenge_quotient(
                            poly_views(poly@),
                            poly_views(v@),
                            residues(z@),
                            ver_params.0@,
                            ver_params.1@,
                        ),
                        pk.g1@,
                    )
                    &&& interpolable(residues(z@)) && agree_on(
                        poly_views(poly@),
                        poly_views(v@),
                        residues(z@),
                    ) ==> exact_opening(
                        poly_views(poly@),
                        poly_views(v@),
                        residues(z@),
                        ver_params.0@,
                        ver_params.1@,
                    )
                },
                Err(e) => open_error(
                    poly_views(poly@),
                    residues(z@),
                    poly_views(v@),
                    self.max_degree(),
                    pk.g1@.len(),
                ) == Some(e),
            },
    {
        let n = z.len();
        let ghost fs = poly_views(poly@);
        let ghost vs = poly_views(v@);
        let ghost zs = residues(z@);
        if poly.len() != n || v.len() != n || pk.g1.len() == 0 {
            return Err(Error::LengthMismatch);
        }
        match check_batch(z) {
            Err(e) => {
                return Err(e);
            },
            Ok(_) => {},
        }
        let polys_fit = check_degrees(poly, self.max_deg, pk.g1.len());
        let values_fit = check_degrees(v, self.max_deg, pk.g1.len());
        if !polys_fit || !values_fit {
            return Err(Error::OverDegree);
        }
        let lambda = &ver_params.0;
        let chi = &ver_params.1;
        let mut f = Poly::zero();
        let mut l = Poly::zero();
        let mut mid = Scalar::zero();
        let mut accum = Scalar::one();
        let mut i: usize = 0;
        while i < n
            invariant
                i <= n,
                poly@.len() == n,
                v@.len() == n,
                fs == poly_views(poly@),
                vs == poly_views(v@),
                !any_over_degree(fs, self.max_degree(), pk.g1@.len()),
                !any_over_degree(vs, self.max_degree(), pk.g1@.len()),
                accum@ == pow_mod(lambda@, i as nat),
                f@ == folded_difference(fs, vs, lambda@, i as nat),
                l@ == folded_polys(fs, lambda@, i as nat),
                mid@ == folded_values(vs, chi@, lambda@, i as nat),
                f@.len() <= pk.g1@.len(),
                l@.len() <= pk.g1@.len(),
            decreases n - i,
        {
            let d = poly[i].sub(&v[i]);
            let df = d.scale(&accum);
            let dl = poly[i].scale(&accum);
            proof {
                assert(!over_degree(fs[i as int], self.max_degree(), pk.g1@.len()));
                assert(!over_degree(vs[i as int], self.max_degree(), pk.g1@.len()));
                lemma_lengths(fs[i as int], vs[i as int], accum@);
                lemma_lengths(d@, d@, accum@);
                lemma_lengths(f@, df@, 0);
                lemma_lengths(l@, dl@, 0);
            }
            f = f.add(&df);
            l = l.add(&dl);
            let value = v[i].evaluate(chi);
            let t = scalar_mul(&accum, &value);
            mid = scalar_add(&mid, &t);
            accum = scalar_mul(lambda, &accum);
            i = i + 1;
        }
        let mut single: Vec<Scalar> = Vec::new();
        single.push(mid);
        assert(residues(single@) =~= seq![mid@]);
        let c = Poly::from_coefficients_vec(single);
        let l = l.sub(&c);
        let zt = match vanishing_tree(z) {
            Ok(p) => p,
            Err(e) => {
                return Err(e);
            },
        };
        let (w, r) = poly_div_rem(&f, &zt);
        proof {
            use_type_invariant(&w);
            use_type_invariant(&r);
            w.lemma_well_formed();
            r.lemma_well_formed();
            if interpolable(zs) && agree_on(fs, vs, zs) {
                lemma_divisions_exact(fs, vs, zs, lambda@, chi@, w@, r@);
            }
        }
        let first = eval_poly_over_g1(&w, &pk.g1);
        let zc = zt.evaluate(chi);
        let shifted = w.scale(&zc);
        proof {
            lemma_trim_normalized(seq![mid@]);
            lemma_lengths(folded_polys(fs, lambda@, n as nat), c@, 0);
            lemma_lengths(w@, w@, zc@);
            lemma_lengths(l@, shifted@, chi@);
        }
        let rest = l.sub(&shifted).divide_by_linear(chi);
        proof {
            lemma_lengths(poly_sub(l@, shifted@), l@, chi@);
        }
        let second = eval_poly_over_g1(&rest, &pk.g1);
        Ok((first, second))
    }

    /// Whether the pairing equation holds for the proof, for
    /// `ver_params = (lambda, chi)`. [`verify_error`] says which input is
    /// refused, and how.
    fn verify(
        c: &Vec<G1>,
        pk: &DJBA21_PK,
        p: &(G1, G1),
        z: &[Scalar],
        v: &[Poly],
        ver_params: &(Scalar, Scalar),
    ) -> (r: Result<bool, Error>)
        ensures
            match r {
                Ok(b) => {
                    &&& verify_error(c@.len(), pk.g1@.len(), residues(z@), v@.len()).is_none()
                    &&& b == accepts(
                        c@,
                        pk.g1@[0],
                        pk.g2_one,
                        pk.g2_x,
                        p.0,
                        p.1,
                        residues(z@),
                        poly_views(v@),
                        ver_params.0@,
                        ver_params.1@,
                    )
                },
                Err(e) => verify_error(c@.len(), pk.g1@.len(), residues(z@), v@.len()) == Some(e),
            },
    {
        let n = z.len();
        let ghost vs = poly_views(v@);
        if c.len() != n || v.len() != n || pk.g1.len() == 0 {
            return Err(Error::LengthMismatch);
        }
        match check_batch(z) {
            Err(e) => {
                return Err(e);
            },
            Ok(_) => {},
        }
        let lambda = &ver_params.0;
        let chi = &ver_params.1;
        let mut f = G1::identity();
        let mut mid = Scalar::zero();
        let mut accum = Scalar::one();
        let mut i: usize = 0;
        while i < n
            invariant
                i <= n,
                c@.len() == n,
                v@.len() == n,
                vs == poly_views(v@),
                accum@ == pow_mod(lambda@, i as nat),
                f == folded_commitment(c@, lambda@, i as nat),
                mid@ == folded_values(vs, chi@, lambda@, i as nat),
            decreases n - i,
        {
            let t = g1_scale(&c[i], &accum);
            f = g1_add(&f, &t);
            let value = v[i].evaluate(chi);
            let t = scalar_mul(&accum, &value);
            mid = scalar_add(&mid, &t);
            accum = scalar_mul(lambda, &accum);
            i = i + 1;
        }
        let gm = g1_scale(&pk.g1[0], &mid);
        let f = g1_sub(&f, &gm);
        let zt = match vanishing_tree(z) {
            Ok(p) => p,
            Err(e) => {
                return Err(e);
            },
        };
        let zc = zt.evaluate(chi);
        let wz = g1_scale(&p.0, &zc);
        let f = g1_sub(&f, &wz);
        let wc = g1_scale(&p.1, chi);
        let left = g1_add(&f, &wc);
        let lhs = pairing(&left, &pk.g2_one);
        let rhs = pairing(&p.1, &pk.g2_x);
        Ok(lhs.equals(&rhs))
    }
}

} // verus!
