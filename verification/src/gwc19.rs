//! The scheme of Gabizon, Williamson and Ciobotaru: one proof element for
//! each point, and two layers of randomness from the verifier.

use crate::curve::{
    g1_add, g1_difference, g1_random, g1_scale, g1_scaled, g1_sub, g1_sum, g2_random, pairing,
    pairing_value, G1, G2,
};
use crate::evaluation::lemma_eval_unfold;
use crate::field::{add_mod, modulus, mul_mod, pow_mod};
use crate::kzg10::{
    check_rows, check_square, evaluate_batch, row_lengths, row_residues, values_on,
};
use crate::poly_commit::{
    any_above_degree, any_over_degree, batch_error, check_batch, check_degree_bound, check_degrees,
    commit_batch, derive_srs, folded_commitment, is_srs, is_srs_of, over_degree, poly_views,
    sample_secret, Error, PolyCommit,
};
use crate::polynomial::{
    canonical, lemma_lengths, linear_quotient, poly_add, poly_eval, poly_mul, poly_scale, poly_sub,
    residues, Poly,
};
use crate::product::{constant, lemma_linear_quotient_exact, lemma_mul_linear_factor_linear};
use crate::roots::lemma_add_well_formed;
use crate::scalar::{scalar_add, scalar_mul, scalar_pow, scalars_random, Scalar};
use crate::utils::poly::{eval_poly_over_g1, linear_factor, msm};
use vstd::prelude::*;

verus! {

/// The batched scheme of Gabizon, Williamson and Ciobotaru.
#[derive(Debug)]
pub struct GWC19 {
    max_deg: usize,
}

/// The public key of [`GWC19`].
#[allow(non_camel_case_types)]
#[derive(Clone, Debug)]
pub struct GWC_PK {
    /// The powers `g, a * g, ..., a^t * g` of the secret in G1.
    pub g1_vec: Vec<G1>,
    /// A generator `h` of G2.
    pub g2_1: G2,
    /// The multiple `a * h` of that generator by the secret.
    pub g2_x: G2,
}

/// The quotients of the first `count` polynomials by `X - z`, folded with
/// the powers of `gamma`: the sum over `j` of
/// `gamma^j * (f_j - f_j(z)) / (X - z)`.
pub open spec fn combined_quotient(polys: Seq<Seq<nat>>, z: nat, gamma: nat, count: nat) -> Seq<nat>
    decreases count,
{
    if count == 0 {
        Seq::empty()
    } else {
        poly_add(
            combined_quotient(polys, z, gamma, (count - 1) as nat),
            poly_scale(linear_quotient(polys[count - 1], z), pow_mod(gamma, (count - 1) as nat)),
        )
    }
}

/// What the combined quotient is the quotient of: the sum over the first
/// `count` polynomials of `gamma^j * (f_j - f_j(z))`.
pub open spec fn combined_dividend(polys: Seq<Seq<nat>>, z: nat, gamma: nat, count: nat) -> Seq<nat>
    decreases count,
{
    if count == 0 {
        Seq::empty()
    } else {
        poly_add(
            combined_dividend(polys, z, gamma, (count - 1) as nat),
            poly_scale(
                poly_sub(polys[count - 1], constant(poly_eval(polys[count - 1], z))),
                pow_mod(gamma, (count - 1) as nat),
            ),
        )
    }
}

/// The division that gives the combined quotient leaves no remainder: the
/// combined quotient times `X - z` is the combined dividend.
pub proof fn lemma_combined_quotient_exact(polys: Seq<Seq<nat>>, z: nat, gamma: nat, count: nat)
    requires
        count <= polys.len(),
        forall|j: int| 0 <= j < polys.len() ==> canonical(#[trigger] polys[j]),
    ensures
        poly_mul(combined_quotient(polys, z, gamma, count), linear_factor(z)) == combined_dividend(
            polys,
            z,
            gamma,
            count,
        ),
    decreases count,
{
    if count > 0 {
        let j = count - 1;
        let h = combined_quotient(polys, z, gamma, j as nat);
        let q = linear_quotient(polys[j], z);
        lemma_combined_quotient_exact(polys, z, gamma, j as nat);
        assert(canonical(polys[j]));
        lemma_linear_quotient_exact(polys[j], z);
        assert(canonical(q)) by {
            assert forall|i: int| 0 <= i < q.len() implies #[trigger] q[i] < modulus() by {
                lemma_eval_unfold(polys[j].skip(i + 1), z);
            }
        }
        assert(canonical(h)) by {
            if j > 0 {
                lemma_add_well_formed(
                    combined_quotient(polys, z, gamma, (j - 1) as nat),
                    poly_scale(
                        linear_quotient(polys[j - 1], z),
                        pow_mod(gamma, (j - 1) as nat),
                    ),
                );
            }
        }
        lemma_mul_linear_factor_linear(h, q, pow_mod(gamma, j as nat), z);
    }
}

/// The proof: for each point, the value in the exponent of the combined
/// quotient at that point.
pub open spec fn combined_witnesses(
    polys: Seq<Seq<nat>>,
    z: Seq<nat>,
    gamma: Seq<nat>,
    srs: Seq<G1>,
) -> Seq<G1> {
    Seq::new(z.len(), |i: int| msm(combined_quotient(polys, z[i], gamma[i], polys.len()), srs))
}

/// Why `open` refuses its input, if it does.
pub open spec fn open_error(
    polys: Seq<Seq<nat>>,
    z: Seq<nat>,
    v: Seq<Seq<nat>>,
    gamma_len: nat,
    max_deg: nat,
    srs_len: nat,
) -> Option<Error> {
    if polys.len() != z.len() || v.len() != z.len() || !row_lengths(v, z.len()) || gamma_len
        != z.len() {
        Some(Error::LengthMismatch)
    } else if batch_error(z).is_some() {
        batch_error(z)
    } else if any_over_degree(polys, max_deg, srs_len) {
        Some(Error::OverDegree)
    } else {
        None
    }
}

/// The values of the first `count` polynomials at the point `i`, folded
/// with the powers of `gamma`: the sum over `j` of `gamma^j * v[j][i]`.
pub open spec fn folded_value(v: Seq<Seq<nat>>, i: int, gamma: nat, count: nat) -> nat
    decreases count,
{
    if count == 0 {
        0
    } else {
        add_mod(
            folded_value(v, i, gamma, (count - 1) as nat),
            mul_mod(v[count - 1][i], pow_mod(gamma, (count - 1) as nat)),
        )
    }
}

/// What the point `i` adds to the verifier's sum: the folded commitment
/// less the folded value times `g`, weighted by `r[i]`.
pub open spec fn weighted_term(
    c: Seq<G1>,
    g: G1,
    v: Seq<Seq<nat>>,
    gamma: Seq<nat>,
    r: Seq<nat>,
    i: int,
) -> G1 {
    g1_scaled(
        g1_difference(
            folded_commitment(c, gamma[i], c.len()),
            g1_scaled(g, folded_value(v, i, gamma[i], c.len())),
        ),
        r[i],
    )
}

/// The sum of the weighted terms of the first `count` points.
pub open spec fn weighted_sum(
    c: Seq<G1>,
    g: G1,
    v: Seq<Seq<nat>>,
    gamma: Seq<nat>,
    r: Seq<nat>,
    count: nat,
) -> G1
    decreases count,
{
    if count == 0 {
        G1::spec_identity()
    } else {
        g1_sum(
            weighted_sum(c, g, v, gamma, r, (count - 1) as nat),
            weighted_term(c, g, v, gamma, r, count - 1),
        )
    }
}

/// The left side of the pairing equation: `start` plus the sum over the
/// first `count` points of `(z[i] * r[i]) * p[i]`.
pub open spec fn left_sum(start: G1, p: Seq<G1>, z: Seq<nat>, r: Seq<nat>, count: nat) -> G1
    decreases count,
{
    if count == 0 {
        start
    } else {
        g1_sum(
            left_sum(start, p, z, r, (count - 1) as nat),
            g1_scaled(p[count - 1], mul_mod(z[count - 1], r[count - 1])),
        )
    }
}

/// The right side of the pairing equation: the sum over the first `count`
/// points of `r[i] * p[i]`.
pub open spec fn right_sum(p: Seq<G1>, r: Seq<nat>, count: nat) -> G1
    decreases count,
{
    if count == 0 {
        G1::spec_identity()
    } else {
        g1_sum(right_sum(p, r, (count - 1) as nat), g1_scaled(p[count - 1], r[count - 1]))
    }
}

/// Whether the verifier accepts with the weights `r`:
/// `e(F + sum of (z[i] * r[i]) * p[i], h) == e(sum of r[i] * p[i], a * h)`,
/// where `F` is the weighted sum over the points.
pub open spec fn accepts(
    c: Seq<G1>,
    g: G1,
    h: G2,
    ah: G2,
    p: Seq<G1>,
    z: Seq<nat>,
    v: Seq<Seq<nat>>,
    gamma: Seq<nat>,
    r: Seq<nat>,
) -> bool {
    pairing_value(left_sum(weighted_sum(c, g, v, gamma, r, z.len()), p, z, r, z.len()), h)
        == pairing_value(right_sum(p, r, z.len()), ah)
}

/// Why the verifier refuses its input, if it does.
pub open spec fn verify_error(
    c_len: nat,
    srs_len: nat,
    p_len: nat,
    z: Seq<nat>,
    v: Seq<Seq<nat>>,
    gamma_len: nat,
    r_len: nat,
) -> Option<Error> {
    let n = z.len();
    if c_len != n || p_len != n || v.len() != n || !row_lengths(v, n) || gamma_len != n || r_len
        != n || srs_len == 0 {
        Some(Error::LengthMismatch)
    } else {
        batch_error(z)
    }
}

/// Whether `r` can be the weights that the verifier samples for `n`
/// points: `n` residues, the first of them one.
pub open spec fn weights(r: Seq<nat>, n: nat) -> bool {
    &&& r.len() == n
    &&& n > 0 ==> r[0] == 1
    &&& forall|i: int| 0 <= i < r.len() ==> #[trigger] r[i] < modulus()
}

impl GWC19 {
    /// The public key for the secret `sk` on the generators `g` and `h`.
    pub fn public_key(g: &G1, h: &G2, sk: &Scalar, max_deg: usize) -> (pk: GWC_PK)
        requires
            max_deg < usize::MAX,
        ensures
            pk.g2_1 == *h,
            is_srs(pk.g1_vec@, pk.g2_1, pk.g2_x, *g, sk@, max_deg as nat),
    {
        let (g1_vec, g2_x) = derive_srs(g, h, sk, max_deg);
        GWC_PK { g1_vec, g2_1: *h, g2_x }
    }

    /// Whether the proof `p` is accepted with the weights `r`, one for each
    /// point. [`verify_error`] says which input is refused, and how.
    pub fn verify_with_weights(
        c: &Vec<G1>,
        pk: &GWC_PK,
        p: &Vec<G1>,
        z: &[Scalar],
        v: &[Vec<Scalar>],
        ver_params: &Vec<Scalar>,
        r: &[Scalar],
    ) -> (res: Result<bool, Error>)
        ensures
            match res {
                Ok(b) => {
                    &&& verify_error(
                        c@.len(),
                        pk.g1_vec@.len(),
                        p@.len(),
                        residues(z@),
                        row_residues(v@),
                        ver_params@.len(),
                        r@.len(),
                    ).is_none()
                    &&& b == accepts(
                        c@,
                        pk.g1_vec@[0],
                        pk.g2_1,
                        pk.g2_x,
                        p@,
                        residues(z@),
                        row_residues(v@),
                        residues(ver_params@),
                        residues(r@),
                    )
                },
                Err(e) => verify_error(
                    c@.len(),
                    pk.g1_vec@.len(),
                    p@.len(),
                    residues(z@),
                    row_residues(v@),
                    ver_params@.len(),
                    r@.len(),
                ) == Some(e),
            },
    {
        let n = z.len();
        let ghost zs = residues(z@);
        let ghost vs = row_residues(v@);
        let ghost gs = residues(ver_params@);
        let ghost rs = residues(r@);
        if c.len() != n || p.len() != n || v.len() != n || ver_params.len() != n || r.len() != n
            || pk.g1_vec.len() == 0 {
            return Err(Error::LengthMismatch);
        }
        let v_fits = check_rows(v, n);
        proof {
            if v_fits {
                assert forall|i: int| 0 <= i < vs.len() implies (#[trigger] vs[i]).len() == n by {
                    assert(v@[i]@.len() == n);
                }
            } else {
                let i = choose|i: int| 0 <= i < v@.len() && (#[trigger] v@[i])@.len() != n;
                assert(vs[i].len() != n);
            }
        }
        if !v_fits {
            return Err(Error::LengthMismatch);
        }
        match check_batch(z) {
            Err(e) => {
                return Err(e);
            },
            Ok(_) => {},
        }
        let g = &pk.g1_vec[0];
        let mut f = G1::identity();
        let mut i: usize = 0;
        while i < n
            invariant
                i <= n,
                n == z@.len(),
                c@.len() == n,
                v@.len() == n,
                ver_params@.len() == n,
                r@.len() == n,
                pk.g1_vec@.len() > 0,
                *g == pk.g1_vec@[0],
                vs == row_residues(v@),
                gs == residues(ver_params@),
                rs == residues(r@),
                row_lengths(vs, n as nat),
                f == weighted_sum(c@, *g, vs, gs, rs, i as nat),
            decreases n - i,
        {
            let mut fc = G1::identity();
            let mut j: usize = 0;
            while j < n
                invariant
                    j <= n,
                    i < n,
                    c@.len() == n,
                    ver_params@.len() == n,
                    gs == residues(ver_params@),
                    fc == folded_commitment(c@, gs[i as int], j as nat),
                decreases n - j,
            {
                let e = scalar_pow(&ver_params[i], j as u64);
                let t = g1_scale(&c[j], &e);
                fc = g1_add(&fc, &t);
                j = j + 1;
            }
            let mut fv = Scalar::zero();
            let mut j: usize = 0;
            while j < n
                invariant
                    j <= n,
                    i < n,
                    c@.len() == n,
                    v@.len() == n,
                    ver_params@.len() == n,
                    vs == row_residues(v@),
                    gs == residues(ver_params@),
                    row_lengths(vs, n as nat),
                    fv@ == folded_value(vs, i as int, gs[i as int], j as nat),
                decreases n - j,
            {
                assert(vs[j as int].len() == n);
                assert(vs[j as int] == residues(v@[j as int]@));
                let e = scalar_pow(&ver_params[i], j as u64);
                let t = scalar_mul(&v[j][i], &e);
                fv = scalar_add(&fv, &t);
                j = j + 1;
            }
            let gv = g1_scale(g, &fv);
            let d = g1_sub(&fc, &gv);
            let t = g1_scale(&d, &r[i]);
            f = g1_add(&f, &t);
            i = i + 1;
        }
        let mut lhs = f;
        let mut i: usize = 0;
        while i < n
            invariant
                i <= n,
                n == z@.len(),
                p@.len() == n,
                r@.len() == n,
                zs == residues(z@),
                rs == residues(r@),
                lhs == left_sum(f, p@, zs, rs, i as nat),
            decreases n - i,
        {
            let k = scalar_mul(&z[i], &r[i]);
            let t = g1_scale(&p[i], &k);
            lhs = g1_add(&lhs, &t);
            i = i + 1;
        }
        let mut rhs = G1::identity();
        let mut i: usize = 0;
        while i < n
            invariant
                i <= n,
                p@.len() == n,
                r@.len() == n,
                rs == residues(r@),
                rhs == right_sum(p@, rs, i as nat),
            decreases n - i,
        {
            let t = g1_scale(&p[i], &r[i]);
            rhs = g1_add(&rhs, &t);
            i = i + 1;
        }
        let left = pairing(&lhs, &pk.g2_1);
        let right = pairing(&rhs, &pk.g2_x);
        Ok(left.equals(&right))
    }
}

impl PolyCommit for GWC19 {
    type PK = GWC_PK;

    type SK = Scalar;

    /// One element of G1 for each polynomial.
    type Commitment = Vec<G1>;

    /// The values of a polynomial at each point.
    type Evaluation = Vec<Scalar>;

    /// One element of G1 for each point.
    type Proof = Vec<G1>;

    /// One scalar for each point.
    type VerifierParams = Vec<Scalar>;

    closed spec fn max_degree(&self) -> nat {
        self.max_deg as nat
    }

    fn new() -> (r: Self) {
        GWC19 { max_deg: 0 }
    }

    /// The public key holds the powers of a sampled secret on sampled
    /// generators; the secret is returned beside it.
    fn setup(&mut self, max_deg: usize) -> (r: (GWC_PK, Scalar))
        ensures
            is_srs_of(r.0.g1_vec@, r.0.g2_1, r.0.g2_x, r.1@, max_deg as nat),
    {
        let sk = sample_secret();
        let g = g1_random();
        let h = g2_random();
        self.max_deg = max_deg;
        let pk = GWC19::public_key(&g, &h, &sk, max_deg);
        assert(is_srs(pk.g1_vec@, pk.g2_1, pk.g2_x, g, sk@, max_deg as nat));
        (pk, sk)
    }

    /// One commitment for each polynomial: its value in the exponent.
    fn commit(&self, pk: &GWC_PK, poly: &[Poly]) -> (r: Result<Vec<G1>, Error>)
        ensures
            match r {
                Ok(c) => {
                    &&& !any_over_degree(poly_views(poly@), self.max_degree(), pk.g1_vec@.len())
                    &&& c@.len() == poly@.len()
                    &&& forall|i: int|
                        0 <= i < c@.len() ==> #[trigger] c@[i] == msm(poly@[i]@, pk.g1_vec@)
                },
                Err(e) => e == Error::OverDegree && any_over_degree(
                    poly_views(poly@),
                    self.max_degree(),
                    pk.g1_vec@.len(),
                ),
            },
    {
        commit_batch(poly, &pk.g1_vec, self.max_deg)
    }

    /// The matrix of the values of each polynomial at each point.
    /// `OverDegree` refuses a batch with a polynomial above the degree
    /// bound.
    fn evaluate(&self, poly: &[Poly], z: &[Scalar]) -> (r: Result<Vec<Vec<Scalar>>, Error>)
        ensures
            match r {
                Ok(v) => {
                    &&& !any_above_degree(poly_views(poly@), self.max_degree())
                    &&& row_residues(v@) == values_on(poly_views(poly@), residues(z@))
                },
                Err(e) => e == Error::OverDegree && any_above_degree(
                    poly_views(poly@),
                    self.max_degree(),
                ),
            },
    {
        if !check_degree_bound(poly, self.max_deg) {
            return Err(Error::OverDegree);
        }
        Ok(evaluate_batch(poly, z))
    }

    /// One proof element for each point: the value in the exponent of the
    /// quotients of all polynomials by `X - z[i]`, folded with the powers
    /// of `ver_params[i]`. Of the values `v` only the shape is read: they
    /// must be as many rows as there are polynomials, of as many entries as
    /// there are points. [`open_error`] says which input is refused, and
    /// how.
    fn open(
        &self,
        pk: &GWC_PK,
        poly: &[Poly],
        z: &[Scalar],
        v: &[Vec<Scalar>],
        ver_params: &Vec<Scalar>,
    ) -> (r: Result<Vec<G1>, Error>)
        ensures
            match r {
                Ok(p) => {
                    &&& open_error(
                        poly_views(poly@),
                        residues(z@),
                        row_residues(v@),
                        ver_params@.len(),
                        self.max_degree(),
                        pk.g1_vec@.len(),
                    ).is_none()
                    &&& p@ == combined_witnesses(
                        poly_views(poly@),
                        residues(z@),
                        residues(ver_params@),
                        pk.g1_vec@,
                    )
                },
                Err(e) => open_error(
                    poly_views(poly@),
                    residues(z@),
                    row_residues(v@),
                    ver_params@.len(),
                    self.max_degree(),
                    pk.g1_vec@.len(),
                ) == Some(e),
            },
    {
        let n = z.len();
        if poly.len() != n || !check_square(v, n) || ver_params.len() != n {
            return Err(Error::LengthMismatch);
        }
        match check_batch(z) {
            Err(e) => {
                return Err(e);
            },
            Ok(_) => {},
        }
        if !check_degrees(poly, self.max_deg, pk.g1_vec.len()) {
            return Err(Error::OverDegree);
        }
        let ghost fs = poly_views(poly@);
        let ghost zs = residues(z@);
        let ghost gs = residues(ver_params@);
        let mut proofs: Vec<G1> = Vec::new();
        let mut i: usize = 0;
        while i < n
            invariant
                i <= n,
                n == z@.len(),
                poly@.len() == n,
                ver_params@.len() == n,
                fs == poly_views(poly@),
                zs == residues(z@),
                gs == residues(ver_params@),
                !any_over_degree(fs, self.max_degree(), pk.g1_vec@.len()),
                proofs@.len() == i,
                forall|a: int|
                    0 <= a < i ==> #[trigger] proofs@[a] == msm(
                        combined_quotient(fs, zs[a], gs[a], fs.len()),
                        pk.g1_vec@,
                    ),
            decreases n - i,
        {
            let mut h = Poly::zero();
            let mut j: usize = 0;
            while j < n
                invariant
                    j <= n,
                    i < n,
                    n == z@.len(),
                    poly@.len() == n,
                    ver_params@.len() == n,
                    fs == poly_views(poly@),
                    zs == residues(z@),
                    gs == residues(ver_params@),
                    !any_over_degree(fs, self.max_degree(), pk.g1_vec@.len()),
                    h@ == combined_quotient(fs, zs[i as int], gs[i as int], j as nat),
                    h@.len() <= pk.g1_vec@.len(),
                decreases n - j,
            {
                let quot = poly[j].divide_by_linear(&z[i]);
                let e = scalar_pow(&ver_params[i], j as u64);
                let term = quot.scale(&e);
                proof {
                    assert(!over_degree(fs[j as int], self.max_degree(), pk.g1_vec@.len()));
                    lemma_lengths(fs[j as int], fs[j as int], zs[i as int]);
                    lemma_lengths(quot@, quot@, e@);
                    lemma_lengths(h@, term@, 0);
                }
                h = h.add(&term);
                j = j + 1;
            }
            proofs.push(eval_poly_over_g1(&h, &pk.g1_vec));
            i = i + 1;
        }
        assert(proofs@ =~= combined_witnesses(fs, zs, gs, pk.g1_vec@));
        Ok(proofs)
    }

    /// Whether the proof is accepted under weights sampled for this call,
    /// the first of them one. [`verify_error`] says which input is refused,
    /// and how; what is returned for given weights is what
    /// [`GWC19::verify_with_weights`] returns.
    fn verify(
        c: &Vec<G1>,
        pk: &GWC_PK,
        p: &Vec<G1>,
        z: &[Scalar],
        v: &[Vec<Scalar>],
        ver_params: &Vec<Scalar>,
    ) -> (res: Result<bool, Error>)
        ensures
            match res {
                Ok(b) => {
                    &&& verify_error(
                        c@.len(),
                        pk.g1_vec@.len(),
                        p@.len(),
                        residues(z@),
                        row_residues(v@),
                        ver_params@.len(),
                        z@.len(),
                    ).is_none()
                    &&& exists|r: Seq<nat>|
                        weights(r, z@.len()) && b == #[trigger] accepts(
                            c@,
                            pk.g1_vec@[0],
                            pk.g2_1,
                            pk.g2_x,
                            p@,
                            residues(z@),
                            row_residues(v@),
                            residues(ver_params@),
                            r,
                        )
                },
                Err(e) => verify_error(
                    c@.len(),
                    pk.g1_vec@.len(),
                    p@.len(),
                    residues(z@),
                    row_residues(v@),
                    ver_params@.len(),
                    z@.len(),
                ) == Some(e),
            },
    {
        let n = z.len();
        if n == 0 {
            return GWC19::verify_with_weights(c, pk, p, z, v, ver_params, z);
        }
        let mut r = scalars_random(n);
        r.set(0, Scalar::one());
        let res = GWC19::verify_with_weights(c, pk, p, z, v, ver_params, r.as_slice());
        proof {
            crate::polynomial::lemma_residues_below_modulus(r@);
            assert(weights(residues(r@), n as nat));
        }
        res
    }
}

} // verus!
