//! The scheme of Kate, Zaverucha and Goldberg, lifted to batches: one proof
//! element for each pair of a polynomial and a point, and no randomness
//! from the verifier.

use crate::curve::{
    g1_difference, g1_random, g1_scale, g1_scaled, g1_sub, g2_difference, g2_random, g2_scale,
    g2_scaled, g2_sub, pairing, pairing_value, G1, G2,
};
use crate::poly_commit::{
    any_above_degree, any_over_degree, batch_error, check_batch, check_degree_bound, check_degrees,
    commit_batch, derive_srs, is_srs, is_srs_of, over_degree, poly_views, sample_secret, Error,
    PolyCommit,
};
use crate::polynomial::{linear_quotient, poly_eval, residues, Poly};
use crate::scalar::Scalar;
use crate::utils::poly::{eval_poly_over_g1, msm};
use vstd::prelude::*;

verus! {

/// The batched scheme of Kate, Zaverucha and Goldberg.
#[derive(Debug)]
pub struct KZG10 {
    max_deg: usize,
}

/// The public key of [`KZG10`].
#[allow(non_camel_case_types)]
#[derive(Clone, Debug)]
pub struct KZG_PK {
    /// The powers `g, a * g, ..., a^t * g` of the secret in G1.
    pub g1_vec: Vec<G1>,
    /// A generator `h` of G2.
    pub g2_1: G2,
    /// The multiple `a * h` of that generator by the secret.
    pub g2_x: G2,
}

/// The values of each polynomial on each point.
pub open spec fn values_on(polys: Seq<Seq<nat>>, z: Seq<nat>) -> Seq<Seq<nat>> {
    Seq::new(polys.len(), |i: int| Seq::new(z.len(), |j: int| poly_eval(polys[i], z[j])))
}

/// The residues of the rows of a matrix of scalars.
pub open spec fn row_residues(v: Seq<Vec<Scalar>>) -> Seq<Seq<nat>> {
    v.map_values(|row: Vec<Scalar>| residues(row@))
}

/// The rows of a matrix of points.
pub open spec fn rows(p: Seq<Vec<G1>>) -> Seq<Seq<G1>> {
    p.map_values(|row: Vec<G1>| row@)
}

/// Whether every row of a matrix has `n` entries.
pub open spec fn row_lengths<T>(m: Seq<Seq<T>>, n: nat) -> bool {
    forall|i: int| 0 <= i < m.len() ==> (#[trigger] m[i]).len() == n
}

/// The proof element for the polynomial `f` and the point `z`: the value in
/// the exponent of the quotient `(f - f(z)) / (X - z)`.
pub open spec fn witness(f: Seq<nat>, z: nat, srs: Seq<G1>) -> G1 {
    msm(linear_quotient(f, z), srs)
}

/// The proof elements for each polynomial on each point.
pub open spec fn witnesses(polys: Seq<Seq<nat>>, z: Seq<nat>, srs: Seq<G1>) -> Seq<Seq<G1>> {
    Seq::new(polys.len(), |i: int| Seq::new(z.len(), |j: int| witness(polys[i], z[j], srs)))
}

/// Why `open` refuses its input, if it does.
pub open spec fn open_error(
    polys: Seq<Seq<nat>>,
    z: Seq<nat>,
    v: Seq<Seq<nat>>,
    max_deg: nat,
    srs_len: nat,
) -> Option<Error> {
    if polys.len() != z.len() || v.len() != z.len() || !row_lengths(v, z.len()) {
        Some(Error::LengthMismatch)
    } else if batch_error(z).is_some() {
        batch_error(z)
    } else if any_over_degree(polys, max_deg, srs_len) {
        Some(Error::OverDegree)
    } else {
        None
    }
}

/// The pairing equation for one commitment `c`, one proof element `w`, the
/// point `z` and the claimed value `v`:
/// `e(c - v * g, h) == e(w, a * h - z * h)`.
pub open spec fn opening_holds(c: G1, g: G1, h: G2, ah: G2, w: G1, z: nat, v: nat) -> bool {
    pairing_value(g1_difference(c, g1_scaled(g, v)), h) == pairing_value(
        w,
        g2_difference(ah, g2_scaled(h, z)),
    )
}

/// The pairing equation for the polynomial `i` and the point `j` of a
/// batch.
pub open spec fn opening_holds_at(
    c: Seq<G1>,
    g: G1,
    h: G2,
    ah: G2,
    p: Seq<Seq<G1>>,
    z: Seq<nat>,
    v: Seq<Seq<nat>>,
    i: int,
    j: int,
) -> bool {
    opening_holds(c[i], g, h, ah, p[i][j], z[j], v[i][j])
}

/// Whether the pairing equation holds for every polynomial and point.
pub open spec fn all_openings_hold(
    c: Seq<G1>,
    g: G1,
    h: G2,
    ah: G2,
    p: Seq<Seq<G1>>,
    z: Seq<nat>,
    v: Seq<Seq<nat>>,
) -> bool {
    forall|i: int, j: int|
        0 <= i < z.len() && 0 <= j < z.len() ==> #[trigger] opening_holds_at(
            c,
            g,
            h,
            ah,
            p,
            z,
            v,
            i,
            j,
        )
}

/// Why `verify` refuses its input, if it does.
pub open spec fn verify_error(
    c_len: nat,
    srs_len: nat,
    p: Seq<Seq<G1>>,
    z: Seq<nat>,
    v: Seq<Seq<nat>>,
) -> Option<Error> {
    let n = z.len();
    if c_len != n || p.len() != n || v.len() != n || !row_lengths(p, n) || !row_lengths(v, n)
        || srs_len == 0 {
        Some(Error::LengthMismatch)
    } else {
        batch_error(z)
    }
}

/// Whether every row of the matrix has `n` entries.
pub fn check_rows<T>(m: &[Vec<T>], n: usize) -> (r: bool)
    ensures
        r == (forall|i: int| 0 <= i < m@.len() ==> (#[trigger] m@[i])@.len() == n),
{
    let mut i: usize = 0;
    while i < m.len()
        invariant
            i <= m@.len(),
            forall|j: int| 0 <= j < i ==> (#[trigger] m@[j])@.len() == n,
        decreases m@.len() - i,
    {
        if m[i].len() != n {
            return false;
        }
        i = i + 1;
    }
    true
}

/// Whether the matrix of values has `n` rows of `n` entries each.
pub fn check_square(v: &[Vec<Scalar>], n: usize) -> (r: bool)
    ensures
        r == (row_residues(v@).len() == n && row_lengths(row_residues(v@), n as nat)),
{
    let ghost vs = row_residues(v@);
    if v.len() != n {
        return false;
    }
    let fits = check_rows(v, n);
    proof {
        if fits {
            assert forall|i: int| 0 <= i < vs.len() implies (#[trigger] vs[i]).len() == n by {
                assert(v@[i]@.len() == n);
            }
        } else {
            let i = choose|i: int| 0 <= i < v@.len() && (#[trigger] v@[i])@.len() != n;
            assert(vs[i].len() != n);
        }
    }
    fits
}

impl KZG10 {
    /// The public key for the secret `sk` on the generators `g` and `h`.
    pub fn public_key(g: &G1, h: &G2, sk: &Scalar, max_deg: usize) -> (pk: KZG_PK)
        requires
            max_deg < usize::MAX,
        ensures
            pk.g2_1 == *h,
            is_srs(pk.g1_vec@, pk.g2_1, pk.g2_x, *g, sk@, max_deg as nat),
    {
        let (g1_vec, g2_x) = derive_srs(g, h, sk, max_deg);
        KZG_PK { g1_vec, g2_1: *h, g2_x }
    }
}

impl PolyCommit for KZG10 {
    type PK = KZG_PK;

    type SK = Scalar;

    /// One element of G1 for each polynomial.
    type Commitment = Vec<G1>;

    /// The values of a polynomial at each point.
    type Evaluation = Vec<Scalar>;

    /// One element of G1 for each polynomial and each point.
    type Proof = Vec<Vec<G1>>;

    /// The scheme is not interactive.
    type VerifierParams = ();

    closed spec fn max_degree(&self) -> nat {
        self.max_deg as nat
    }

    fn new() -> (r: Self) {
        KZG10 { max_deg: 0 }
    }

    /// The public key holds the powers of a sampled secret on sampled
    /// generators; the secret is returned beside it.
    fn setup(&mut self, max_deg: usize) -> (r: (KZG_PK, Scalar))
        ensures
            is_srs_of(r.0.g1_vec@, r.0.g2_1, r.0.g2_x, r.1@, max_deg as nat),
    {
        let sk = sample_secret();
        let g = g1_random();
        let h = g2_random();
        self.max_deg = max_deg;
        let pk = KZG10::public_key(&g, &h, &sk, max_deg);
        assert(is_srs(pk.g1_vec@, pk.g2_1, pk.g2_x, g, sk@, max_deg as nat));
        assert(is_srs_of(pk.g1_vec@, pk.g2_1, pk.g2_x, sk@, max_deg as nat));
        (pk, sk)
    }

    /// One commitment for each polynomial: its value in the exponent.
    fn commit(&self, pk: &KZG_PK, poly: &[Poly]) -> (r: Result<Vec<G1>, Error>)
        ensures
            match r {
                Ok(c) => {
                    &&& !any_over_degree(poly_views(poly@), self.max_degree(), pk.g1_vec@.len())
                    &&& c@.len() == poly@.len()
                    &&& forall|i: int|
                        0 <= i < c@.len() ==> #[trigger] c@[i] == msm(poly@[i]@, pk.g1_vec@)
                },
                Err(e) => e == Error::OverDegree && any_over_degree(
                    poly_views(poly@),
                    self.max_degree(),
                    pk.g1_vec@.len(),
                ),
            },
    {
        commit_batch(poly, &pk.g1_vec, self.max_deg)
    }

    /// The matrix of the values of each polynomial at each point.
    /// `OverDegree` refuses a batch with a polynomial above the degree
    /// bound.
    fn evaluate(&self, poly: &[Poly], z: &[Scalar]) -> (r: Result<Vec<Vec<Scalar>>, Error>)
        ensures
            match r {
                Ok(v) => {
                    &&& !any_above_degree(poly_views(poly@), self.max_degree())
                    &&& row_residues(v@) == values_on(poly_views(poly@), residues(z@))
                },
                Err(e) => e == Error::OverDegree && any_above_degree(
                    poly_views(poly@),
                    self.max_degree(),
                ),
            },
    {
        if !check_degree_bound(poly, self.max_deg) {
            return Err(Error::OverDegree);
        }
        Ok(evaluate_batch(poly, z))
    }

    /// The matrix of proof elements: for the polynomial `i` and the point
    /// `j`, the value in the exponent of the quotient of the polynomial by
    /// `X - z[j]`. Of the values `v` only the shape is read: they must be
    /// as many rows as there are polynomials, of as many entries as there
    /// are points. [`open_error`] says which input is refused, and how.
    fn open(
        &self,
        pk: &KZG_PK,
        poly: &[Poly],
        z: &[Scalar],
        v: &[Vec<Scalar>],
        ver_params: &(),
    ) -> (r: Result<Vec<Vec<G1>>, Error>)
        ensures
            match r {
                Ok(p) => {
                    &&& open_error(
                        poly_views(poly@),
                        residues(z@),
                        row_residues(v@),
                        self.max_degree(),
                        pk.g1_vec@.len(),
                    ).is_none()
                    &&& rows(p@) == witnesses(poly_views(poly@), residues(z@), pk.g1_vec@)
                },
                Err(e) => open_error(
                    poly_views(poly@),
                    residues(z@),
                    row_residues(v@),
                    self.max_degree(),
                    pk.g1_vec@.len(),
                ) == Some(e),
            },
    {
        if poly.len() != z.len() || !check_square(v, z.len()) {
            return Err(Error::LengthMismatch);
        }
        match check_batch(z) {
            Err(e) => {
                return Err(e);
            },
            Ok(_) => {},
        }
        if !check_degrees(poly, self.max_deg, pk.g1_vec.len()) {
            return Err(Error::OverDegree);
        }
        let ghost fs = poly_views(poly@);
        let ghost zs = residues(z@);
        let mut proofs: Vec<Vec<G1>> = Vec::new();
        let mut i: usize = 0;
        while i < poly.len()
            invariant
                i <= poly@.len(),
                fs == poly_views(poly@),
                zs == residues(z@),
                !any_over_degree(fs, self.max_degree(), pk.g1_vec@.len()),
                proofs@.len() == i,
                forall|a: int|
                    0 <= a < i ==> (#[trigger] proofs@[a])@ == Seq::new(
                        zs.len(),
                        |j: int| witness(fs[a], zs[j], pk.g1_vec@),
                    ),
            decreases poly@.len() - i,
        {
            let mut row: Vec<G1> = Vec::new();
            let mut j: usize = 0;
            assert(!over_degree(fs[i as int], self.max_degree(), pk.g1_vec@.len()));
            while j < z.len()
                invariant
                    j <= z@.len(),
                    i < poly@.len(),
                    fs == poly_views(poly@),
                    zs == residues(z@),
                    fs[i as int].len() <= pk.g1_vec@.len(),
                    row@.len() == j,
                    forall|b: int|
                        0 <= b < j ==> #[trigger] row@[b] == witness(
                            fs[i as int],
                            zs[b],
                            pk.g1_vec@,
                        ),
                decreases z@.len() - j,
            {
                let quot = poly[i].divide_by_linear(&z[j]);
                row.push(eval_poly_over_g1(&quot, &pk.g1_vec));
                j = j + 1;
            }
            assert(row@ =~= Seq::new(zs.len(), |j: int| witness(fs[i as int], zs[j], pk.g1_vec@)));
            proofs.push(row);
            i = i + 1;
        }
        assert(rows(proofs@) =~= witnesses(fs, zs, pk.g1_vec@));
        Ok(proofs)
    }

    /// Whether the pairing equation holds for every polynomial and every
    /// point: `Ok(true)` if it does, `Ok(false)` if it fails for one pair.
    /// [`verify_error`] says which input is refused, and how.
    fn verify(
        c: &Vec<G1>,
        pk: &KZG_PK,
        p: &Vec<Vec<G1>>,
        z: &[Scalar],
        v: &[Vec<Scalar>],
        ver_params: &(),
    ) -> (r: Result<bool, Error>)
        ensures
            match r {
                Ok(b) => {
                    &&& verify_error(
                        c@.len(),
                        pk.g1_vec@.len(),
                        rows(p@),
                        residues(z@),
                        row_residues(v@),
                    ).is_none()
                    &&& b == all_openings_hold(
                        c@,
                        pk.g1_vec@[0],
                        pk.g2_1,
                        pk.g2_x,
                        rows(p@),
                        residues(z@),
                        row_residues(v@),
                    )
                },
                Err(e) => verify_error(
                    c@.len(),
                    pk.g1_vec@.len(),
                    rows(p@),
                    residues(z@),
                    row_residues(v@),
                ) == Some(e),
            },
    {
        let n = z.len();
        let ghost ps = rows(p@);
        let ghost zs = residues(z@);
        let ghost vs = row_residues(v@);
        if c.len() != n || p.len() != n || v.len() != n || pk.g1_vec.len() == 0 {
            return Err(Error::LengthMismatch);
        }
        let p_fits = check_rows(p.as_slice(), n);
        let v_fits = check_rows(v, n);
        proof {
            if p_fits {
                assert forall|i: int| 0 <= i < ps.len() implies (#[trigger] ps[i]).len() == n by {
                    assert(p@[i]@.len() == n);
                }
            } else {
                let i = choose|i: int| 0 <= i < p@.len() && (#[trigger] p@[i])@.len() != n;
                assert(ps[i].len() != n);
            }
            if v_fits {
                assert forall|i: int| 0 <= i < vs.len() implies (#[trigger] vs[i]).len() == n by {
                    assert(v@[i]@.len() == n);
                }
            } else {
                let i = choose|i: int| 0 <= i < v@.len() && (#[trigger] v@[i])@.len() != n;
                assert(vs[i].len() != n);
            }
        }
        if !p_fits || !v_fits {
            return Err(Error::LengthMismatch);
        }
        match check_batch(z) {
            Err(e) => {
                return Err(e);
            },
            Ok(_) => {},
        }
        let g = &pk.g1_vec[0];
        let mut i: usize = 0;
        while i < n
            invariant
                i <= n,
                n == z@.len(),
                c@.len() == n,
                p@.len() == n,
                v@.len() == n,
                pk.g1_vec@.len() > 0,
                *g == pk.g1_vec@[0],
                ps == rows(p@),
                zs == residues(z@),
                vs == row_residues(v@),
                row_lengths(ps, n as nat),
                row_lengths(vs, n as nat),
                batch_error(zs).is_none(),
                forall|a: int, b: int|
                    0 <= a < i && 0 <= b < n ==> #[trigger] opening_holds_at(
                        c@,
                        *g,
                        pk.g2_1,
                        pk.g2_x,
                        ps,
                        zs,
                        vs,
                        a,
                        b,
                    ),
            decreases n - i,
        {
            let mut j: usize = 0;
            assert(ps[i as int].len() == n);
            assert(vs[i as int].len() == n);
            while j < n
                invariant
                    j <= n,
                    i < n,
                    n == z@.len(),
                    c@.len() == n,
                    p@.len() == n,
                    v@.len() == n,
                    pk.g1_vec@.len() > 0,
                    *g == pk.g1_vec@[0],
                    ps == rows(p@),
                    zs == residues(z@),
                    vs == row_residues(v@),
                    ps[i as int].len() == n,
                    vs[i as int].len() == n,
                    row_lengths(ps, n as nat),
                    row_lengths(vs, n as nat),
                    batch_error(zs).is_none(),
                    forall|b: int|
                        0 <= b < j ==> #[trigger] opening_holds_at(
                            c@,
                            *g,
                            pk.g2_1,
                            pk.g2_x,
                            ps,
                            zs,
                            vs,
                            i as int,
                            b,
                        ),
                decreases n - j,
            {
                assert(ps[i as int] == p@[i as int]@);
                assert(vs[i as int] == residues(v@[i as int]@));
                let gv = g1_scale(g, &v[i][j]);
                let left = g1_sub(&c[i], &gv);
                let hz = g2_scale(&pk.g2_1, &z[j]);
                let right = g2_sub(&pk.g2_x, &hz);
                let lhs = pairing(&left, &pk.g2_1);
                let rhs = pairing(&p[i][j], &right);
                if !lhs.equals(&rhs) {
                    assert(!opening_holds_at(
                        c@,
                        *g,
                        pk.g2_1,
                        pk.g2_x,
                        ps,
                        zs,
                        vs,
                        i as int,
                        j as int,
                    ));
                    return Ok(false);
                }
                j = j + 1;
            }
            i = i + 1;
        }
        Ok(true)
    }
}

/// The values of each polynomial at each point.
pub fn evaluate_batch(poly: &[Poly], z: &[Scalar]) -> (v: Vec<Vec<Scalar>>)
    ensures
        row_residues(v@) == values_on(poly_views(poly@), residues(z@)),
{
    let ghost fs = poly_views(poly@);
    let ghost zs = residues(z@);
    let mut v: Vec<Vec<Scalar>> = Vec::new();
    let mut i: usize = 0;
    while i < poly.len()
        invariant
            i <= poly@.len(),
            fs == poly_views(poly@),
            zs == residues(z@),
            v@.len() == i,
            forall|a: int|
                0 <= a < i ==> residues((#[trigger] v@[a])@) == Seq::new(
                    zs.len(),
                    |j: int| poly_eval(fs[a], zs[j]),
                ),
        decreases poly@.len() - i,
    {
        let mut row: Vec<Scalar> = Vec::new();
        let mut j: usize = 0;
        while j < z.len()
            invariant
                j <= z@.len(),
                i < poly@.len(),
                fs == poly_views(poly@),
                zs == residues(z@),
                row@.len() == j,
                forall|b: int|
                    0 <= b < j ==> (#[trigger] row@[b])@ == poly_eval(fs[i as int], zs[b]),
            decreases z@.len() - j,
        {
            row.push(poly[i].evaluate(&z[j]));
            j = j + 1;
        }
        assert(residues(row@) =~= Seq::new(zs.len(), |j: int| poly_eval(fs[i as int], zs[j])));
        v.push(row);
        i = i + 1;
    }
    assert(row_residues(v@) =~= values_on(fs, zs));
    v
}

} // verus!
