//! Dense univariate polynomials over the scalar field.
//!
//! A polynomial is the sequence of its coefficients, the constant term
//! first, without zeros at the high end; the zero polynomial is the empty
//! sequence. The spec functions of this module say what each operation is on
//! such sequences of residues.

use ark_bls12_381::Fr;
use ark_ff::{BigInt, PrimeField};
use ark_poly::DenseUVPolynomial;
use ark_poly::univariate::{DenseOrSparsePolynomial, DensePolynomial};
use crate::field::{add_mod, modulus, mul_mod, sub_mod};
use crate::product::{constant, lemma_linear_quotient_exact};
use crate::scalar::{scalar_add, scalar_mul, scalar_sub, Scalar};
use crate::utils::poly::linear_factor;
use vstd::prelude::*;

verus! {

/// The residues of a sequence of scalars.
pub open spec fn residues(s: Seq<Scalar>) -> Seq<nat> {
    s.map_values(|x: Scalar| x@)
}

/// The coefficient of `X^i`, which is zero beyond the stored ones.
pub open spec fn coeff(c: Seq<nat>, i: int) -> nat {
    if 0 <= i < c.len() {
        c[i]
    } else {
        0
    }
}

/// The polynomial without its constant term, divided by `X`.
pub open spec fn tail(c: Seq<nat>) -> Seq<nat> {
    if c.len() == 0 {
        c
    } else {
        c.skip(1)
    }
}

/// Whether every coefficient is a residue.
pub open spec fn canonical(c: Seq<nat>) -> bool {
    forall|i: int| 0 <= i < c.len() ==> #[trigger] c[i] < modulus()
}

/// A coefficient sequence is normalized when its highest coefficient is not
/// zero.
pub open spec fn normalized(c: Seq<nat>) -> bool {
    c.len() > 0 ==> c.last() != 0
}

/// The coefficient sequence without its zeros at the high end.
pub open spec fn trim(c: Seq<nat>) -> Seq<nat>
    decreases c.len(),
{
    if c.len() > 0 && c.last() == 0 {
        trim(c.drop_last())
    } else {
        c
    }
}

/// The degree of a polynomial; that of the zero polynomial is zero.
pub open spec fn degree(c: Seq<nat>) -> nat {
    if c.len() == 0 {
        0
    } else {
        (c.len() - 1) as nat
    }
}

/// The value of the polynomial at `x`.
pub open spec fn poly_eval(c: Seq<nat>, x: nat) -> nat
    decreases c.len(),
{
    if c.len() == 0 {
        0
    } else {
        add_mod(c[0], mul_mod(x, poly_eval(c.skip(1), x)))
    }
}

/// The longer of two lengths.
pub open spec fn longer(a: nat, b: nat) -> nat {
    if a >= b {
        a
    } else {
        b
    }
}

/// The sums of the coefficients of two polynomials, power by power.
pub open spec fn pointwise_sum(a: Seq<nat>, b: Seq<nat>) -> Seq<nat> {
    Seq::new(longer(a.len(), b.len()), |i: int| add_mod(coeff(a, i), coeff(b, i)))
}

/// The differences of the coefficients of two polynomials, power by power.
pub open spec fn pointwise_difference(a: Seq<nat>, b: Seq<nat>) -> Seq<nat> {
    Seq::new(longer(a.len(), b.len()), |i: int| sub_mod(coeff(a, i), coeff(b, i)))
}

/// The coefficients of a polynomial, each multiplied by `k`.
pub open spec fn pointwise_scaled(a: Seq<nat>, k: nat) -> Seq<nat> {
    Seq::new(a.len(), |i: int| mul_mod(a[i], k))
}

/// The sum of two polynomials.
pub open spec fn poly_add(a: Seq<nat>, b: Seq<nat>) -> Seq<nat> {
    trim(pointwise_sum(a, b))
}

/// The difference of two polynomials.
pub open spec fn poly_sub(a: Seq<nat>, b: Seq<nat>) -> Seq<nat> {
    trim(pointwise_difference(a, b))
}

/// The polynomial multiplied by the constant `k`.
pub open spec fn poly_scale(a: Seq<nat>, k: nat) -> Seq<nat> {
    trim(pointwise_scaled(a, k))
}

/// The polynomial multiplied by `X`.
pub open spec fn poly_shift(a: Seq<nat>) -> Seq<nat> {
    if a.len() == 0 {
        a
    } else {
        seq![0nat] + a
    }
}

/// The product of two polynomials: `(a0 + X * a') * b = a0 * b + X * (a' * b)`.
pub open spec fn poly_mul(a: Seq<nat>, b: Seq<nat>) -> Seq<nat>
    decreases a.len(),
{
    if a.len() == 0 {
        Seq::empty()
    } else {
        poly_add(poly_scale(b, a[0]), poly_shift(poly_mul(a.skip(1), b)))
    }
}

/// The quotient of `f` by `X - z`: its coefficient of `X^k` is the value at
/// `z` of the polynomial whose coefficients are those of `f` above `X^k`.
/// The remainder of that division is `poly_eval(f, z)`.
pub open spec fn linear_quotient(f: Seq<nat>, z: nat) -> Seq<nat> {
    if f.len() == 0 {
        f
    } else {
        Seq::new((f.len() - 1) as nat, |k: int| poly_eval(f.skip(k + 1), z))
    }
}

/// The quotient that `ark_poly` returns for the division of `f` by `g`.
pub uninterp spec fn poly_quotient(f: Seq<nat>, g: Seq<nat>) -> Seq<nat>;

/// The largest sum of the lengths of two polynomials that [`Poly::mul`]
/// takes. Up to it the scalar field holds the roots of unity that the fast
/// multiplication needs.
pub const MAX_PRODUCT_LEN: usize = 0x8000_0000;

/// Trimming leaves a normalized sequence, no longer than the given one.
pub proof fn lemma_trim_normalized(c: Seq<nat>)
    ensures
        normalized(trim(c)),
        trim(c).len() <= c.len(),
        forall|i: int| 0 <= i < trim(c).len() ==> #[trigger] trim(c)[i] == c[i],
        forall|i: int| trim(c).len() <= i < c.len() ==> #[trigger] c[i] == 0,
    decreases c.len(),
{
    if c.len() > 0 && c.last() == 0 {
        let d = c.drop_last();
        lemma_trim_normalized(d);
        assert forall|i: int| 0 <= i < trim(c).len() implies #[trigger] trim(c)[i] == c[i] by {
            assert(trim(d)[i] == d[i]);
        }
        assert forall|i: int| trim(c).len() <= i < c.len() implies #[trigger] c[i] == 0 by {
            if i < d.len() {
                assert(d[i] == 0);
            }
        }
    }
}

/// Trimming does not change a normalized sequence.
pub proof fn lemma_trim_of_normalized(c: Seq<nat>)
    requires
        normalized(c),
    ensures
        trim(c) == c,
{
}

/// A sum or a difference is no longer than the longer of its operands, a
/// multiple by a constant no longer than the polynomial, and a quotient by a
/// linear factor one shorter than the polynomial.
pub proof fn lemma_lengths(a: Seq<nat>, b: Seq<nat>, k: nat)
    ensures
        poly_add(a, b).len() <= a.len() || poly_add(a, b).len() <= b.len(),
        poly_sub(a, b).len() <= a.len() || poly_sub(a, b).len() <= b.len(),
        poly_scale(a, k).len() <= a.len(),
        linear_quotient(a, k).len() + 1 == a.len() || (a.len() == 0 && linear_quotient(a, k).len()
            == 0),
{
    lemma_trim_normalized(pointwise_sum(a, b));
    lemma_trim_normalized(pointwise_difference(a, b));
    lemma_trim_normalized(pointwise_scaled(a, k));
}

/// The residues of a sequence of scalars are all below the modulus.
pub proof fn lemma_residues_below_modulus(s: Seq<Scalar>)
    ensures
        forall|i: int| 0 <= i < s.len() ==> #[trigger] residues(s)[i] < modulus(),
{
    assert forall|i: int| 0 <= i < s.len() implies #[trigger] residues(s)[i] < modulus() by {
        s[i].lemma_below_modulus();
    }
}

/// A polynomial over the scalar field, in normalized form.
#[derive(Debug, PartialEq, Eq)]
pub struct Poly {
    coeffs: Vec<Scalar>,
}

impl View for Poly {
    type V = Seq<nat>;

    /// The residues of the coefficients, the constant term first.
    closed spec fn view(&self) -> Seq<nat> {
        residues(self.coeffs@)
    }
}

impl Clone for Poly {
    fn clone(&self) -> (r: Poly)
        ensures
            r@ == self@,
    {
        proof {
            use_type_invariant(self);
        }
        let mut c: Vec<Scalar> = Vec::new();
        let mut i: usize = 0;
        while i < self.coeffs.len()
            invariant
                i <= self.coeffs@.len(),
                c@ == self.coeffs@.take(i as int),
            decreases self.coeffs@.len() - i,
        {
            c.push(self.coeffs[i]);
            i = i + 1;
            assert(c@ =~= self.coeffs@.take(i as int));
        }
        assert(c@ =~= self.coeffs@);
        Poly { coeffs: c }
    }
}

impl Poly {
    /// The invariant of the type: the highest coefficient is not zero.
    #[verifier::type_invariant]
    pub closed spec fn well_formed(self) -> bool {
        normalized(residues(self.coeffs@))
    }

    /// The coefficients of a polynomial are residues.
    pub proof fn lemma_view_bounds(self)
        ensures
            canonical(self@),
    {
        lemma_residues_below_modulus(self.coeffs@);
    }

    /// What the invariant of the type says of the coefficients.
    pub proof fn lemma_well_formed(self)
        requires
            self.well_formed(),
        ensures
            normalized(self@),
            canonical(self@),
    {
        lemma_residues_below_modulus(self.coeffs@);
    }

    /// The polynomial with the given coefficients, the constant term first;
    /// zeros at the high end are dropped.
    pub fn from_coefficients_vec(coeffs: Vec<Scalar>) -> (r: Poly)
        ensures
            r@ == trim(residues(coeffs@)),
    {
        let mut c = coeffs;
        while c.len() > 0 && c[c.len() - 1].is_zero()
            invariant
                trim(residues(c@)) == trim(residues(coeffs@)),
            decreases c.len(),
        {
            proof {
                assert(residues(c@).drop_last() =~= residues(c@.drop_last()));
            }
            c.pop();
        }
        Poly { coeffs: c }
    }

    /// The polynomial with the given coefficients, the constant term first;
    /// zeros at the high end are dropped.
    pub fn from_coefficients_slice(coeffs: &[Scalar]) -> (r: Poly)
        ensures
            r@ == trim(residues(coeffs@)),
    {
        let mut c: Vec<Scalar> = Vec::new();
        let mut i: usize = 0;
        while i < coeffs.len()
            invariant
                i <= coeffs@.len(),
                c@ == coeffs@.take(i as int),
            decreases coeffs@.len() - i,
        {
            c.push(coeffs[i]);
            i = i + 1;
            assert(c@ =~= coeffs@.take(i as int));
        }
        assert(c@ =~= coeffs@);
        Poly::from_coefficients_vec(c)
    }

    /// The zero polynomial.
    pub fn zero() -> (r: Poly)
        ensures
            r@ == Seq::<nat>::empty(),
    {
        let c: Vec<Scalar> = Vec::new();
        assert(residues(c@) =~= Seq::<nat>::empty());
        Poly { coeffs: c }
    }

    /// The coefficients, the constant term first.
    pub fn coeffs(&self) -> (r: &[Scalar])
        ensures
            residues(r@) == self@,
            normalized(residues(r@)),
    {
        proof {
            use_type_invariant(self);
        }
        self.coeffs.as_slice()
    }

    /// The number of stored coefficients: one more than the degree, and zero
    /// for the zero polynomial.
    pub fn len(&self) -> (r: usize)
        ensures
            r == self@.len(),
    {
        self.coeffs.len()
    }

    /// Whether this is the zero polynomial.
    pub fn is_zero(&self) -> (r: bool)
        ensures
            r == (self@.len() == 0),
    {
        self.coeffs.len() == 0
    }

    /// The degree; that of the zero polynomial is zero.
    pub fn degree(&self) -> (r: usize)
        ensures
            r == degree(self@),
    {
        if self.coeffs.len() == 0 {
            0
        } else {
            self.coeffs.len() - 1
        }
    }

    /// The value of the polynomial at `x`, by Horner's rule.
    pub fn evaluate(&self, x: &Scalar) -> (r: Scalar)
        ensures
            r@ == poly_eval(self@, x@),
    {
        let mut acc = Scalar::zero();
        let mut i: usize = self.coeffs.len();
        assert(self@.skip(i as int) =~= Seq::<nat>::empty());
        while i > 0
            invariant
                i <= self.coeffs@.len(),
                acc@ == poly_eval(self@.skip(i as int), x@),
            decreases i,
        {
            i = i - 1;
            let t = scalar_mul(x, &acc);
            acc = scalar_add(&self.coeffs[i], &t);
            proof {
                assert(self@.skip(i as int).skip(1) =~= self@.skip(i + 1));
                assert(self@.skip(i as int)[0] == self.coeffs@[i as int]@);
            }
        }
        assert(self@.skip(0) =~= self@);
        acc
    }

    /// The sum of two polynomials.
    pub fn add(&self, other: &Poly) -> (r: Poly)
        ensures
            r@ == poly_add(self@, other@),
    {
        let n = if self.coeffs.len() >= other.coeffs.len() {
            self.coeffs.len()
        } else {
            other.coeffs.len()
        };
        let zero = Scalar::zero();
        let mut c: Vec<Scalar> = Vec::new();
        let mut i: usize = 0;
        while i < n
            invariant
                i <= n,
                c@.len() == i,
                zero@ == 0,
                n == if self@.len() >= other@.len() {
                    self@.len()
                } else {
                    other@.len()
                },
                forall|j: int|
                    0 <= j < i ==> (#[trigger] c@[j])@ == add_mod(
                        coeff(self@, j),
                        coeff(other@, j),
                    ),
            decreases n - i,
        {
            let a = if i < self.coeffs.len() {
                self.coeffs[i]
            } else {
                zero
            };
            let b = if i < other.coeffs.len() {
                other.coeffs[i]
            } else {
                zero
            };
            c.push(scalar_add(&a, &b));
            i = i + 1;
        }
        assert(residues(c@) =~= pointwise_sum(self@, other@));
        Poly::from_coefficients_vec(c)
    }

    /// The difference of two polynomials.
    pub fn sub(&self, other: &Poly) -> (r: Poly)
        ensures
            r@ == poly_sub(self@, other@),
    {
        let n = if self.coeffs.len() >= other.coeffs.len() {
            self.coeffs.len()
        } else {
            other.coeffs.len()
        };
        let zero = Scalar::zero();
        let mut c: Vec<Scalar> = Vec::new();
        let mut i: usize = 0;
        while i < n
            invariant
                i <= n,
                c@.len() == i,
                zero@ == 0,
                n == if self@.len() >= other@.len() {
                    self@.len()
                } else {
                    other@.len()
                },
                forall|j: int|
                    0 <= j < i ==> (#[trigger] c@[j])@ == sub_mod(
                        coeff(self@, j),
                        coeff(other@, j),
                    ),
            decreases n - i,
        {
            let a = if i < self.coeffs.len() {
                self.coeffs[i]
            } else {
                zero
            };
            let b = if i < other.coeffs.len() {
                other.coeffs[i]
            } else {
                zero
            };
            c.push(scalar_sub(&a, &b));
            i = i + 1;
        }
        assert(residues(c@) =~= pointwise_difference(self@, other@));
        Poly::from_coefficients_vec(c)
    }

    /// The polynomial multiplied by the constant `k`.
    pub fn scale(&self, k: &Scalar) -> (r: Poly)
        ensures
            r@ == poly_scale(self@, k@),
    {
        let mut c: Vec<Scalar> = Vec::new();
        let mut i: usize = 0;
        while i < self.coeffs.len()
            invariant
                i <= self.coeffs@.len(),
                c@.len() == i,
                forall|j: int| 0 <= j < i ==> (#[trigger] c@[j])@ == mul_mod(self@[j], k@),
            decreases self.coeffs@.len() - i,
        {
            c.push(scalar_mul(&self.coeffs[i], k));
            i = i + 1;
        }
        assert(residues(c@) =~= pointwise_scaled(self@, k@));
        Poly::from_coefficients_vec(c)
    }

    /// The quotient of the polynomial by `X - z`, by synthetic division.
    /// The remainder of that division is the value of the polynomial at `z`:
    /// the quotient times `X - z` is the polynomial less that value.
    pub fn divide_by_linear(&self, z: &Scalar) -> (r: Poly)
        ensures
            r@ == linear_quotient(self@, z@),
            poly_mul(r@, linear_factor(z@)) == poly_sub(self@, constant(poly_eval(self@, z@))),
    {
        proof {
            self.lemma_view_bounds();
            lemma_linear_quotient_exact(self@, z@);
        }
        let n = self.coeffs.len();
        if n <= 1 {
            assert(linear_quotient(self@, z@) =~= Seq::<nat>::empty());
            return Poly::zero();
        }
        let zero = Scalar::zero();
        let mut q: Vec<Scalar> = Vec::new();
        let mut i: usize = 0;
        while i < n - 1
            invariant
                i <= n - 1,
                q@.len() == i,
            decreases n - 1 - i,
        {
            q.push(zero);
            i = i + 1;
        }
        let mut acc = zero;
        let mut k: usize = n - 1;
        assert(self@.skip(n as int) =~= Seq::<nat>::empty());
        while k > 0
            invariant
                k <= n - 1,
                n == self.coeffs@.len(),
                q@.len() == n - 1,
                acc@ == poly_eval(self@.skip(k + 1), z@),
                forall|j: int|
                    k <= j < n - 1 ==> (#[trigger] q@[j])@ == poly_eval(self@.skip(j + 1), z@),
            decreases k,
        {
            let t = scalar_mul(z, &acc);
            acc = scalar_add(&self.coeffs[k], &t);
            proof {
                assert(self@.skip(k as int).skip(1) =~= self@.skip(k + 1));
                assert(self@.skip(k as int)[0] == self.coeffs@[k as int]@);
            }
            q.set(k - 1, acc);
            k = k - 1;
        }
        proof {
            use_type_invariant(self);
            self.lemma_view_bounds();
            assert(residues(q@) =~= linear_quotient(self@, z@));
            let top = self@.skip(n - 1);
            assert(top.skip(1) =~= Seq::<nat>::empty());
            assert(poly_eval(top.skip(1), z@) == 0);
            assert(mul_mod(z@, 0) == 0);
            assert(self@[n - 1] < modulus());
            assert(residues(q@).last() == self@.last());
            lemma_trim_of_normalized(residues(q@));
        }
        Poly::from_coefficients_vec(q)
    }

    /// The product of two polynomials; `None` where the sum of their lengths
    /// is above [`MAX_PRODUCT_LEN`].
    pub fn mul(&self, other: &Poly) -> (r: Option<Poly>)
        ensures
            r.is_some() == (self@.len() + other@.len() <= MAX_PRODUCT_LEN),
            r.is_some() ==> r.unwrap()@ == poly_mul(self@, other@),
    {
        if self.coeffs.len() <= MAX_PRODUCT_LEN && other.coeffs.len() <= MAX_PRODUCT_LEN
            - self.coeffs.len() {
            Some(poly_product(self, other))
        } else {
            None
        }
    }
}

/// The product of two polynomials, computed by `ark_poly`'s `*` on
/// `DensePolynomial`, which multiplies by fast Fourier transform. That needs
/// a subgroup of the field with at least as many elements as the product has
/// coefficients, which is there up to the bound required.
#[verifier::external_body]
pub(crate) fn poly_product(a: &Poly, b: &Poly) -> (r: Poly)
    requires
        a@.len() + b@.len() <= MAX_PRODUCT_LEN,
    ensures
        r@ == poly_mul(a@, b@),
{
    let f = |c: &Scalar| Fr::new(BigInt(c.to_limbs()));
    let g = |c: &Fr| Scalar::from_limbs(c.into_bigint().0).unwrap();
    let h = |p: &Poly| DensePolynomial::from_coefficients_vec(p.coeffs.iter().map(f).collect());
    let r = &h(a) * &h(b);
    Poly { coeffs: r.coeffs.iter().map(g).collect() }
}

/// The quotient and the remainder of the division of `f` by `g`, computed by
/// `ark_poly`'s `DenseOrSparsePolynomial::divide_with_q_and_r`: the quotient
/// times `g`, plus the remainder, is `f`; the quotient is no longer than `f`,
/// and the remainder is shorter than `g`.
#[verifier::external_body]
pub(crate) fn poly_div_rem(f: &Poly, g: &Poly) -> (r: (Poly, Poly))
    requires
        g@.len() > 0,
    ensures
        r.0@ == poly_quotient(f@, g@),
        poly_add(poly_mul(r.0@, g@), r.1@) == f@,
        r.0@.len() <= f@.len(),
        r.1@.len() < g@.len(),
{
    let a = |c: &Scalar| Fr::new(BigInt(c.to_limbs()));
    let b = |c: &Fr| Scalar::from_limbs(c.into_bigint().0).unwrap();
    let h = |p: &Poly| DensePolynomial::from_coefficients_vec(p.coeffs.iter().map(a).collect());
    let k = |p: DensePolynomial<Fr>| Poly { coeffs: p.coeffs.iter().map(b).collect() };
    let (q, r) = DenseOrSparsePolynomial::from(h(f))
        .divide_with_q_and_r(&DenseOrSparsePolynomial::from(h(g)))
        .unwrap();
    (k(q), k(r))
}

} // verus!
