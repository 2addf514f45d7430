//! The interface that the batched commitment schemes share.

use crate::curve::{g1_scale, g1_scaled, g1_sum, g2_scale, g2_scaled, G1, G2};
use crate::field::pow_mod;
use crate::polynomial::{residues, Poly};
use crate::scalar::{scalar_pow, scalars_random, Scalar};
use crate::utils::poly::{eval_poly_over_g1, msm};
use vstd::prelude::*;

verus! {

/// Why a scheme refused its input.
#[derive(Clone, Copy, Debug, PartialEq, Eq, Structural)]
pub enum Error {
    /// A polynomial's degree is above the bound fixed at setup, or above
    /// what the public key can commit to.
    OverDegree,
    /// Polynomials, points, values or proofs disagree in number.
    LengthMismatch,
    /// The size of the batch is not a power of two.
    NonPowerOfTwo,
    /// Two of the points are equal.
    DuplicatePoint,
    /// The arithmetic underneath could not do what was asked of it.
    AlgebraFault,
}

/// The largest batch that the schemes and the interpolation take. Up to it
/// the product tree of the vanishing polynomial stays within what the
/// polynomial multiplication accepts.
pub const MAX_BATCH: usize = 0x4000_0000;

/// Whether `n` is a power of two; zero is none.
pub open spec fn is_power_of_two(n: nat) -> bool
    decreases n,
{
    n == 1 || (n > 1 && n % 2 == 0 && is_power_of_two(n / 2))
}

/// Whether no two entries of the sequence are equal.
pub open spec fn distinct(s: Seq<nat>) -> bool {
    forall|i: int, j: int| 0 <= i < j < s.len() ==> s[i] != s[j]
}

/// Whether `n` is a power of two.
pub fn power_of_two(n: usize) -> (r: bool)
    ensures
        r == is_power_of_two(n as nat),
{
    if n == 0 {
        return false;
    }
    let mut m: usize = n;
    while m % 2 == 0
        invariant
            m > 0,
            is_power_of_two(m as nat) == is_power_of_two(n as nat),
        decreases m,
    {
        m = m / 2;
    }
    m == 1
}

/// Whether no two of the points are equal.
pub fn all_distinct(z: &[Scalar]) -> (r: bool)
    ensures
        r == distinct(residues(z@)),
{
    let mut j: usize = 0;
    while j < z.len()
        invariant
            j <= z@.len(),
            forall|a: int, b: int| 0 <= a < b < j ==> residues(z@)[a] != residues(z@)[b],
        decreases z@.len() - j,
    {
        let mut i: usize = 0;
        while i < j
            invariant
                i <= j < z@.len(),
                forall|a: int| 0 <= a < i ==> residues(z@)[a] != residues(z@)[j as int],
            decreases j - i,
        {
            if z[i].equals(&z[j]) {
                assert(residues(z@)[i as int] == residues(z@)[j as int]);
                return false;
            }
            i = i + 1;
        }
        j = j + 1;
    }
    true
}

/// Why a batch of points is refused, if it is: its size is not a power of
/// two, or above [`MAX_BATCH`], or two of its points are equal.
pub open spec fn batch_error(z: Seq<nat>) -> Option<Error> {
    if !is_power_of_two(z.len()) {
        Some(Error::NonPowerOfTwo)
    } else if z.len() > MAX_BATCH {
        Some(Error::AlgebraFault)
    } else if !distinct(z) {
        Some(Error::DuplicatePoint)
    } else {
        None
    }
}

/// Accepts a batch of points whose size is a power of two, not above
/// [`MAX_BATCH`], and whose points differ from one another.
pub fn check_batch(z: &[Scalar]) -> (r: Result<(), Error>)
    ensures
        match r {
            Ok(_) => batch_error(residues(z@)).is_none(),
            Err(e) => batch_error(residues(z@)) == Some(e),
        },
{
    if !power_of_two(z.len()) {
        Err(Error::NonPowerOfTwo)
    } else if z.len() > MAX_BATCH {
        Err(Error::AlgebraFault)
    } else if !all_distinct(z) {
        Err(Error::DuplicatePoint)
    } else {
        Ok(())
    }
}

/// A batched polynomial commitment scheme.
///
/// The prover sets the scheme up, commits to a batch of polynomials,
/// evaluates them on a batch of points and opens the evaluations; the
/// verifier only needs `verify`. Each scheme states in its own
/// implementation what its methods return.
pub trait PolyCommit: Sized {
    /// Public key.
    type PK;

    /// Secret key. It can be discarded after setup.
    type SK;

    /// Commitment to a batch of polynomials.
    type Commitment;

    /// The values of one polynomial on the batch of points, as a list of
    /// values or as a polynomial of low degree that takes them.
    type Evaluation;

    /// Proof of the evaluations of a batch of polynomials on a batch of
    /// points.
    type Proof;

    /// What the verifier chooses at random and sends to the prover.
    type VerifierParams;

    /// The bound on the degree of the polynomials that the scheme commits
    /// to.
    spec fn max_degree(&self) -> nat;

    /// A scheme that is not set up: its degree bound is zero.
    fn new() -> (r: Self)
        ensures
            r.max_degree() == 0,
    ;

    /// Sets the scheme up for polynomials of degree up to `max_deg`, with a
    /// secret sampled for the purpose.
    fn setup(&mut self, max_deg: usize) -> (r: (Self::PK, Self::SK))
        requires
            max_deg < usize::MAX,
        ensures
            final(self).max_degree() == max_deg,
    ;

    /// Commits to each of the polynomials.
    fn commit(&self, pk: &Self::PK, poly: &[Poly]) -> Result<Self::Commitment, Error>;

    /// Evaluates each of the polynomials on each of the points.
    fn evaluate(&self, poly: &[Poly], z: &[Scalar]) -> Result<Vec<Self::Evaluation>, Error>;

    /// Proves the evaluations `v` of the polynomials on the points `z`.
    fn open(
        &self,
        pk: &Self::PK,
        poly: &[Poly],
        z: &[Scalar],
        v: &[Self::Evaluation],
        ver_params: &Self::VerifierParams,
    ) -> Result<Self::Proof, Error>;

    /// Whether the proof `p` shows that the polynomials committed to in `c`
    /// have the evaluations `v` on the points `z`.
    fn verify(
        c: &Self::Commitment,
        pk: &Self::PK,
        p: &Self::Proof,
        z: &[Scalar],
        v: &[Self::Evaluation],
        ver_params: &Self::VerifierParams,
    ) -> Result<bool, Error>;
}

/// The coefficient sequences of a batch of polynomials.
pub open spec fn poly_views(polys: Seq<Poly>) -> Seq<Seq<nat>> {
    polys.map_values(|p: Poly| p@)
}

/// Whether the powers `g, alpha * g, ..., alpha^max_deg * g` in G1 and the
/// pair `(h, alpha * h)` in G2 are what a public key holds.
pub open spec fn is_srs(
    g1_vec: Seq<G1>,
    g2_1: G2,
    g2_x: G2,
    g: G1,
    alpha: nat,
    max_deg: nat,
) -> bool {
    &&& g1_vec.len() == max_deg + 1
    &&& forall|i: int|
        0 <= i <= max_deg ==> #[trigger] g1_vec[i] == g1_scaled(g, pow_mod(alpha, i as nat))
    &&& g2_x == g2_scaled(g2_1, alpha)
}

/// Whether a public key holds the powers of the secret `alpha` on some
/// generator of G1, and the pair for `alpha` on its generator of G2.
pub open spec fn is_srs_of(g1_vec: Seq<G1>, g2_1: G2, g2_x: G2, alpha: nat, max_deg: nat) -> bool {
    exists|g: G1| #[trigger] is_srs(g1_vec, g2_1, g2_x, g, alpha, max_deg)
}

/// A secret for a public key: a scalar sampled for the purpose.
pub(crate) fn sample_secret() -> (sk: Scalar) {
    let drawn = scalars_random(1);
    drawn[0]
}

/// The structured reference string with secret `sk` on the generators `g`
/// and `h`: the multiples of `g` by the powers of `sk` up to `max_deg`, and
/// the multiple of `h` by `sk`.
pub fn derive_srs(g: &G1, h: &G2, sk: &Scalar, max_deg: usize) -> (r: (Vec<G1>, G2))
    requires
        max_deg < usize::MAX,
    ensures
        is_srs(r.0@, *h, r.1, *g, sk@, max_deg as nat),
{
    let mut g1_vec: Vec<G1> = Vec::new();
    let mut i: usize = 0;
    while i < max_deg + 1
        invariant
            i <= max_deg + 1,
            max_deg < usize::MAX,
            g1_vec@.len() == i,
            forall|j: int|
                0 <= j < i ==> #[trigger] g1_vec@[j] == g1_scaled(*g, pow_mod(sk@, j as nat)),
        decreases max_deg + 1 - i,
    {
        let e = scalar_pow(sk, i as u64);
        g1_vec.push(g1_scale(g, &e));
        i = i + 1;
    }
    (g1_vec, g2_scale(h, sk))
}

/// The first `count` commitments folded with the powers of `gamma`: the
/// sum over `j` of `gamma^j * c[j]`.
pub open spec fn folded_commitment(c: Seq<G1>, gamma: nat, count: nat) -> G1
    decreases count,
{
    if count == 0 {
        G1::spec_identity()
    } else {
        g1_sum(
            folded_commitment(c, gamma, (count - 1) as nat),
            g1_scaled(c[count - 1], pow_mod(gamma, (count - 1) as nat)),
        )
    }
}

/// Whether the degree of one polynomial of the batch is above `max_deg`.
pub open spec fn any_above_degree(polys: Seq<Seq<nat>>, max_deg: nat) -> bool {
    exists|i: int| 0 <= i < polys.len() && (#[trigger] polys[i]).len() > max_deg + 1
}

/// Whether the degree of a polynomial is above `max_deg`, or the polynomial
/// too long for a reference string of `srs_len` points.
pub open spec fn over_degree(p: Seq<nat>, max_deg: nat, srs_len: nat) -> bool {
    p.len() > max_deg + 1 || p.len() > srs_len
}

/// Whether one polynomial of the batch is over the degree.
pub open spec fn any_over_degree(polys: Seq<Seq<nat>>, max_deg: nat, srs_len: nat) -> bool {
    exists|i: int| 0 <= i < polys.len() && over_degree(#[trigger] polys[i], max_deg, srs_len)
}

/// Whether no polynomial of the batch has a degree above `max_deg`.
pub fn check_degree_bound(polys: &[Poly], max_deg: usize) -> (r: bool)
    ensures
        r == !any_above_degree(poly_views(polys@), max_deg as nat),
{
    let mut i: usize = 0;
    while i < polys.len()
        invariant
            i <= polys@.len(),
            forall|j: int| 0 <= j < i ==> (#[trigger] poly_views(polys@)[j]).len() <= max_deg + 1,
        decreases polys@.len() - i,
    {
        if polys[i].degree() > max_deg {
            assert(poly_views(polys@)[i as int].len() > max_deg + 1);
            return false;
        }
        i = i + 1;
    }
    true
}

/// Whether no polynomial of the batch has a degree above `max_deg` or is
/// too long for a reference string of `srs_len` points.
pub fn check_degrees(polys: &[Poly], max_deg: usize, srs_len: usize) -> (r: bool)
    ensures
        r == !any_over_degree(poly_views(polys@), max_deg as nat, srs_len as nat),
{
    let mut i: usize = 0;
    while i < polys.len()
        invariant
            i <= polys@.len(),
            forall|j: int|
                0 <= j < i ==> !over_degree(
                    #[trigger] poly_views(polys@)[j],
                    max_deg as nat,
                    srs_len as nat,
                ),
        decreases polys@.len() - i,
    {
        if polys[i].len() > srs_len || polys[i].degree() > max_deg {
            assert(over_degree(poly_views(polys@)[i as int], max_deg as nat, srs_len as nat));
            return false;
        }
        i = i + 1;
    }
    true
}

/// The commitments to a batch of polynomials: for each, its value in the
/// exponent over the reference string. `OverDegree` refuses a batch with a
/// polynomial above the degree bound or too long for the reference string.
pub fn commit_batch(polys: &[Poly], srs: &Vec<G1>, max_deg: usize) -> (r: Result<Vec<G1>, Error>)
    ensures
        match r {
            Ok(c) => {
                &&& !any_over_degree(poly_views(polys@), max_deg as nat, srs@.len())
                &&& c@.len() == polys@.len()
                &&& forall|i: int| 0 <= i < c@.len() ==> #[trigger] c@[i] == msm(polys@[i]@, srs@)
            },
            Err(e) => e == Error::OverDegree && any_over_degree(
                poly_views(polys@),
                max_deg as nat,
                srs@.len(),
            ),
        },
{
    if !check_degrees(polys, max_deg, srs.len()) {
        return Err(Error::OverDegree);
    }
    let mut c: Vec<G1> = Vec::new();
    let mut i: usize = 0;
    while i < polys.len()
        invariant
            i <= polys@.len(),
            !any_over_degree(poly_views(polys@), max_deg as nat, srs@.len()),
            c@.len() == i,
            forall|j: int| 0 <= j < i ==> #[trigger] c@[j] == msm(polys@[j]@, srs@),
        decreases polys@.len() - i,
    {
        assert(!over_degree(poly_views(polys@)[i as int], max_deg as nat, srs@.len()));
        c.push(eval_poly_over_g1(&polys[i], srs));
        i = i + 1;
    }
    Ok(c)
}

} // verus!
