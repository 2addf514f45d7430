//! The groups G1 and G2 of BLS12-381, the target group, and the pairing.
//!
//! A point is held by its affine coordinates, each a canonical residue of
//! the base field. The group law and the pairing are computed by `ark_ec` on
//! the curve that `ark_bls12_381` defines; this module states the curve
//! equations and names what the other calls return, and the rest of the
//! crate is proved relative to that.
//!
//! Nothing is proved of the functions of this module that call `ark_ec`.
//! Beside what each of them states, the points that they hand back are taken
//! to meet the invariant of their type: `ark_ff` hands out canonical
//! residues, and sums, differences, multiples and samples of points of a
//! group are points of that group.

use ark_bls12_381::{Bls12_381, Fq, Fq2, Fr, G1Affine, G1Projective, G2Affine, G2Projective};
use ark_ec::CurveGroup;
use ark_ec::pairing::Pairing;
use ark_ff::{BigInt, Field, PrimeField, UniformRand};
use crate::limbs::{limbs_less, limbs_value};
use crate::scalar::Scalar;
use vstd::prelude::*;

verus! {

/// The prime order of the base field of BLS12-381.
pub open spec fn base_modulus() -> nat {
    0x1a0111ea397fe69a4b1ba7b6434bacd764774b84f38512bf6730d2a0f6b0f6241eabfffeb153ffffb9feffffffffaaabnat
}

/// The limbs of the base field's modulus, least significant first.
pub fn base_modulus_limbs() -> (m: [u64; 6])
    ensures
        limbs_value(m@) == base_modulus(),
{
    let m: [u64; 6] = [
        0xb9fe_ffff_ffff_aaab,
        0x1eab_fffe_b153_ffff,
        0x6730_d2a0_f6b0_f624,
        0x6477_4b84_f385_12bf,
        0x4b1b_a7b6_434b_acd7,
        0x1a01_11ea_397f_e69a,
    ];
    proof {
        reveal_with_fuel(limbs_value, 7);
        assert(m@.skip(1).skip(1) =~= m@.skip(2));
        assert(m@.skip(2).skip(1) =~= m@.skip(3));
        assert(m@.skip(3).skip(1) =~= m@.skip(4));
        assert(m@.skip(4).skip(1) =~= m@.skip(5));
        assert(m@.skip(5).skip(1) =~= m@.skip(6));
    }
    m
}

/// An element of the base field: a coordinate of a point.
#[derive(Clone, Copy, Debug, PartialEq, Eq)]
pub struct Coordinate {
    limbs: [u64; 6],
}

impl View for Coordinate {
    type V = nat;

    /// The residue that the element stands for.
    closed spec fn view(&self) -> nat {
        limbs_value(self.limbs@) % base_modulus()
    }
}

impl Coordinate {
    #[verifier::type_invariant]
    closed spec fn canonical(self) -> bool {
        limbs_value(self.limbs@) < base_modulus()
    }

    /// The element with the given canonical limbs, least significant first;
    /// `None` where they stand for a number that is not below the modulus.
    pub fn from_limbs(limbs: [u64; 6]) -> (r: Option<Coordinate>)
        ensures
            r.is_some() == (limbs_value(limbs@) < base_modulus()),
            r.is_some() ==> r.unwrap()@ == limbs_value(limbs@),
    {
        let m = base_modulus_limbs();
        if limbs_less(limbs.as_slice(), m.as_slice()) {
            Some(Coordinate { limbs })
        } else {
            None
        }
    }

    /// The canonical limbs of the element, least significant first.
    pub fn to_limbs(&self) -> (l: [u64; 6])
        ensures
            limbs_value(l@) == self@,
    {
        proof {
            use_type_invariant(self);
        }
        self.limbs
    }

    /// The zero of the base field, as a value of specifications.
    pub closed spec fn spec_zero() -> Coordinate {
        Coordinate { limbs: [0, 0, 0, 0, 0, 0] }
    }

    /// The zero of the base field.
    pub fn zero() -> (r: Coordinate)
        ensures
            r == Coordinate::spec_zero(),
            r@ == 0,
    {
        let limbs: [u64; 6] = [0, 0, 0, 0, 0, 0];
        proof {
            reveal_with_fuel(limbs_value, 7);
            assert(limbs =~= Coordinate::spec_zero().limbs);
        }
        Coordinate { limbs }
    }
}

/// Whether two integers are the same residue of the base field.
pub open spec fn base_congruent(a: int, b: int) -> bool {
    a % (base_modulus() as int) == b % (base_modulus() as int)
}

/// Whether `(x, y)` solves the equation of the curve that carries G1:
/// `y^2 == x^3 + 4` in the base field.
pub open spec fn g1_on_curve(x: nat, y: nat) -> bool {
    base_congruent((y * y) as int, (x * x * x + 4) as int)
}

/// Whether the curve point `(x, y)` lies in the subgroup G1 of prime order,
/// as `ark_bls12_381` decides it.
pub uninterp spec fn g1_in_subgroup(x: nat, y: nat) -> bool;

/// A point of the group G1: affine coordinates, or the point at infinity,
/// which is the group's identity.
#[derive(Clone, Copy, Debug, PartialEq, Eq)]
pub struct G1 {
    x: Coordinate,
    y: Coordinate,
    infinity: bool,
}

/// The point that `ark_ec`'s `+` returns for two points of G1.
pub uninterp spec fn g1_sum(a: G1, b: G1) -> G1;

/// The point that `ark_ec`'s `-` returns for two points of G1.
pub uninterp spec fn g1_difference(a: G1, b: G1) -> G1;

/// The point that `ark_ec`'s `*` returns for a point of G1 and the scalar
/// with residue `k`.
pub uninterp spec fn g1_scaled(p: G1, k: nat) -> G1;

impl G1 {
    #[verifier::type_invariant]
    closed spec fn in_group(self) -> bool {
        if self.infinity {
            self.x@ == 0 && self.y@ == 0
        } else {
            g1_on_curve(self.x@, self.y@) && g1_in_subgroup(self.x@, self.y@)
        }
    }

    /// The identity of G1, as a value of specifications.
    pub closed spec fn spec_identity() -> G1 {
        G1 { x: Coordinate::spec_zero(), y: Coordinate::spec_zero(), infinity: true }
    }

    /// Whether the point is the identity, in specifications.
    pub closed spec fn spec_is_identity(self) -> bool {
        self.infinity
    }

    /// The identity of G1: the point at infinity.
    pub fn identity() -> (r: G1)
        ensures
            r == G1::spec_identity(),
            r.spec_is_identity(),
    {
        let z = Coordinate::zero();
        G1 { x: z, y: z, infinity: true }
    }
}

/// Whether coordinates solve the curve equation of G1, asked of `ark_ec`'s
/// `Affine::is_on_curve`, which compares the square of `y` with the cube of
/// `x` plus the curve's constant, four.
#[verifier::external_body]
fn g1_check_curve(x: &Coordinate, y: &Coordinate) -> (r: bool)
    ensures
        r == g1_on_curve(x@, y@),
{
    let f = |c: Coordinate| Fq::new(BigInt(c.limbs));
    G1Affine::new_unchecked(f(*x), f(*y)).is_on_curve()
}

/// Whether a curve point lies in G1, asked of `ark_ec`'s
/// `Affine::is_in_correct_subgroup_assuming_on_curve`.
#[verifier::external_body]
fn g1_check_subgroup(x: &Coordinate, y: &Coordinate) -> (r: bool)
    requires
        g1_on_curve(x@, y@),
    ensures
        r == g1_in_subgroup(x@, y@),
{
    let f = |c: Coordinate| Fq::new(BigInt(c.limbs));
    G1Affine::new_unchecked(f(*x), f(*y)).is_in_correct_subgroup_assuming_on_curve()
}

impl G1 {
    /// The point of G1 with the given affine coordinates; `None` where they
    /// are not the coordinates of a point of G1.
    pub fn new(x: Coordinate, y: Coordinate) -> (r: Option<G1>)
        ensures
            r.is_some() == (g1_on_curve(x@, y@) && g1_in_subgroup(x@, y@)),
            r.is_some() ==> r.unwrap().spec_x() == x@ && r.unwrap().spec_y() == y@
                && !r.unwrap().spec_is_identity(),
    {
        if g1_check_curve(&x, &y) && g1_check_subgroup(&x, &y) {
            Some(G1 { x, y, infinity: false })
        } else {
            None
        }
    }

    /// The first affine coordinate, in specifications (zero at infinity).
    pub closed spec fn spec_x(self) -> nat {
        self.x@
    }

    /// The second affine coordinate, in specifications (zero at infinity).
    pub closed spec fn spec_y(self) -> nat {
        self.y@
    }

    /// The first affine coordinate (zero at infinity).
    pub fn x(&self) -> (r: Coordinate)
        ensures
            r@ == self.spec_x(),
    {
        self.x
    }

    /// The second affine coordinate (zero at infinity).
    pub fn y(&self) -> (r: Coordinate)
        ensures
            r@ == self.spec_y(),
    {
        self.y
    }

    /// Whether the point is the identity of G1.
    pub fn is_identity(&self) -> (r: bool)
        ensures
            r == self.spec_is_identity(),
    {
        self.infinity
    }
}

/// The sum of two points of G1, computed by `ark_ec`'s `+` and brought back
/// to affine coordinates.
#[verifier::external_body]
pub(crate) fn g1_add(a: &G1, b: &G1) -> (r: G1)
    ensures
        r == g1_sum(*a, *b),
{
    let f = |c: Coordinate| Fq::new(BigInt(c.limbs));
    let g = |c: Fq| Coordinate { limbs: c.into_bigint().0 };
    let h = |p: &G1| G1Affine { x: f(p.x), y: f(p.y), infinity: p.infinity };
    let s = (h(a) + h(b)).into_affine();
    G1 { x: g(s.x), y: g(s.y), infinity: s.infinity }
}

/// The difference of two points of G1, computed by `ark_ec`'s `-` and
/// brought back to affine coordinates.
#[verifier::external_body]
pub(crate) fn g1_sub(a: &G1, b: &G1) -> (r: G1)
    ensures
        r == g1_difference(*a, *b),
{
    let f = |c: Coordinate| Fq::new(BigInt(c.limbs));
    let g = |c: Fq| Coordinate { limbs: c.into_bigint().0 };
    let h = |p: &G1| G1Affine { x: f(p.x), y: f(p.y), infinity: p.infinity };
    let s = (h(a) - h(b)).into_affine();
    G1 { x: g(s.x), y: g(s.y), infinity: s.infinity }
}

/// The multiple of a point of G1 by a scalar, computed by `ark_ec`'s `*`
/// and brought back to affine coordinates.
#[verifier::external_body]
pub(crate) fn g1_scale(p: &G1, k: &Scalar) -> (r: G1)
    ensures
        r == g1_scaled(*p, k@),
{
    let f = |c: Coordinate| Fq::new(BigInt(c.limbs));
    let g = |c: Fq| Coordinate { limbs: c.into_bigint().0 };
    let h = |p: &G1| G1Affine { x: f(p.x), y: f(p.y), infinity: p.infinity };
    let s = (h(p) * Fr::new(BigInt(k.to_limbs()))).into_affine();
    G1 { x: g(s.x), y: g(s.y), infinity: s.infinity }
}

/// A point of G1 sampled by `ark_ec`'s `UniformRand::rand` from the
/// generator that `ark_std::test_rng` hands out. Nothing is promised of
/// which point it is.
#[verifier::external_body]
pub(crate) fn g1_random() -> (r: G1) {
    let g = |c: Fq| Coordinate { limbs: c.into_bigint().0 };
    let s = G1Projective::rand(&mut ark_std::test_rng()).into_affine();
    G1 { x: g(s.x), y: g(s.y), infinity: s.infinity }
}

/// Whether `(x, y)` solves the equation of the curve that carries G2:
/// `y^2 == x^3 + 4 * (1 + u)` in the quadratic extension of the base field,
/// where a coordinate `(c0, c1)` is `c0 + c1 * u` and `u^2 == -1`. The first
/// line compares the parts without `u`, the second the parts with it.
pub open spec fn g2_on_curve(x: (nat, nat), y: (nat, nat)) -> bool {
    let (x0, x1) = (x.0 as int, x.1 as int);
    let (y0, y1) = (y.0 as int, y.1 as int);
    &&& base_congruent(y0 * y0 - y1 * y1, x0 * x0 * x0 - 3 * x0 * x1 * x1 + 4)
    &&& base_congruent(2 * y0 * y1, 3 * x0 * x0 * x1 - x1 * x1 * x1 + 4)
}

/// Whether the curve point `(x, y)` lies in the subgroup G2 of prime order,
/// as `ark_bls12_381` decides it.
pub uninterp spec fn g2_in_subgroup(x: (nat, nat), y: (nat, nat)) -> bool;

/// A point of the group G2: affine coordinates in the quadratic extension of
/// the base field, or the point at infinity, which is the group's identity.
#[derive(Clone, Copy, Debug, PartialEq, Eq)]
pub struct G2 {
    x: (Coordinate, Coordinate),
    y: (Coordinate, Coordinate),
    infinity: bool,
}

/// The point that `ark_ec`'s `-` returns for two points of G2.
pub uninterp spec fn g2_difference(a: G2, b: G2) -> G2;

/// The point that `ark_ec`'s `*` returns for a point of G2 and the scalar
/// with residue `k`.
pub uninterp spec fn g2_scaled(p: G2, k: nat) -> G2;

/// Whether coordinates solve the curve equation of G2, asked of `ark_ec`'s
/// `Affine::is_on_curve`, which compares the square of `y` with the cube of
/// `x` plus the curve's constant, `4 + 4 * u`.
#[verifier::external_body]
fn g2_check_curve(x: &(Coordinate, Coordinate), y: &(Coordinate, Coordinate)) -> (r: bool)
    ensures
        r == g2_on_curve((x.0@, x.1@), (y.0@, y.1@)),
{
    let f = |c: Coordinate| Fq::new(BigInt(c.limbs));
    G2Affine::new_unchecked(Fq2::new(f(x.0), f(x.1)), Fq2::new(f(y.0), f(y.1))).is_on_curve()
}

/// Whether a curve point lies in G2, asked of `ark_ec`'s
/// `Affine::is_in_correct_subgroup_assuming_on_curve`.
#[verifier::external_body]
fn g2_check_subgroup(x: &(Coordinate, Coordinate), y: &(Coordinate, Coordinate)) -> (r: bool)
    requires
        g2_on_curve((x.0@, x.1@), (y.0@, y.1@)),
    ensures
        r == g2_in_subgroup((x.0@, x.1@), (y.0@, y.1@)),
{
    let f = |c: Coordinate| Fq::new(BigInt(c.limbs));
    G2Affine::new_unchecked(Fq2::new(f(x.0), f(x.1)), Fq2::new(f(y.0), f(y.1)))
        .is_in_correct_subgroup_assuming_on_curve()
}

impl G2 {
    #[verifier::type_invariant]
    closed spec fn in_group(self) -> bool {
        if self.infinity {
            self.x.0@ == 0 && self.x.1@ == 0 && self.y.0@ == 0 && self.y.1@ == 0
        } else {
            g2_on_curve(self.spec_x(), self.spec_y()) && g2_in_subgroup(
                self.spec_x(),
                self.spec_y(),
            )
        }
    }

    /// The first affine coordinate, in specifications (zero at infinity).
    pub closed spec fn spec_x(self) -> (nat, nat) {
        (self.x.0@, self.x.1@)
    }

    /// The second affine coordinate, in specifications (zero at infinity).
    pub closed spec fn spec_y(self) -> (nat, nat) {
        (self.y.0@, self.y.1@)
    }

    /// Whether the point is the identity, in specifications.
    pub closed spec fn spec_is_identity(self) -> bool {
        self.infinity
    }

    /// The identity of G2: the point at infinity.
    pub fn identity() -> (r: G2)
        ensures
            r.spec_is_identity(),
            r.spec_x() == (0nat, 0nat),
            r.spec_y() == (0nat, 0nat),
    {
        let z = Coordinate::zero();
        G2 { x: (z, z), y: (z, z), infinity: true }
    }

    /// The point of G2 with the given affine coordinates; `None` where they
    /// are not the coordinates of a point of G2.
    pub fn new(x: (Coordinate, Coordinate), y: (Coordinate, Coordinate)) -> (r: Option<G2>)
        ensures
            r.is_some() == (g2_on_curve((x.0@, x.1@), (y.0@, y.1@)) && g2_in_subgroup(
                (x.0@, x.1@),
                (y.0@, y.1@),
            )),
            r.is_some() ==> r.unwrap().spec_x() == (x.0@, x.1@) && r.unwrap().spec_y() == (
                y.0@,
                y.1@,
            ) && !r.unwrap().spec_is_identity(),
    {
        if g2_check_curve(&x, &y) && g2_check_subgroup(&x, &y) {
            Some(G2 { x, y, infinity: false })
        } else {
            None
        }
    }

    /// The first affine coordinate (zero at infinity).
    pub fn x(&self) -> (r: (Coordinate, Coordinate))
        ensures
            (r.0@, r.1@) == self.spec_x(),
    {
        self.x
    }

    /// The second affine coordinate (zero at infinity).
    pub fn y(&self) -> (r: (Coordinate, Coordinate))
        ensures
            (r.0@, r.1@) == self.spec_y(),
    {
        self.y
    }

    /// Whether the point is the identity of G2.
    pub fn is_identity(&self) -> (r: bool)
        ensures
            r == self.spec_is_identity(),
    {
        self.infinity
    }
}

/// The difference of two points of G2, computed by `ark_ec`'s `-` and
/// brought back to affine coordinates.
#[verifier::external_body]
pub(crate) fn g2_sub(a: &G2, b: &G2) -> (r: G2)
    ensures
        r == g2_difference(*a, *b),
{
    let f = |c: Coordinate| Fq::new(BigInt(c.limbs));
    let g = |c: Fq| Coordinate { limbs: c.into_bigint().0 };
    let h = |p: &G2| G2Affine {
        x: Fq2::new(f(p.x.0), f(p.x.1)),
        y: Fq2::new(f(p.y.0), f(p.y.1)),
        infinity: p.infinity,
    };
    let s = (h(a) - h(b)).into_affine();
    G2 { x: (g(s.x.c0), g(s.x.c1)), y: (g(s.y.c0), g(s.y.c1)), infinity: s.infinity }
}

/// The multiple of a point of G2 by a scalar, computed by `ark_ec`'s `*`
/// and brought back to affine coordinates.
#[verifier::external_body]
pub(crate) fn g2_scale(p: &G2, k: &Scalar) -> (r: G2)
    ensures
        r == g2_scaled(*p, k@),
{
    let f = |c: Coordinate| Fq::new(BigInt(c.limbs));
    let g = |c: Fq| Coordinate { limbs: c.into_bigint().0 };
    let h = |p: &G2| G2Affine {
        x: Fq2::new(f(p.x.0), f(p.x.1)),
        y: Fq2::new(f(p.y.0), f(p.y.1)),
        infinity: p.infinity,
    };
    let s = (h(p) * Fr::new(BigInt(k.to_limbs()))).into_affine();
    G2 { x: (g(s.x.c0), g(s.x.c1)), y: (g(s.y.c0), g(s.y.c1)), infinity: s.infinity }
}

/// A point of G2 sampled by `ark_ec`'s `UniformRand::rand` from the
/// generator that `ark_std::test_rng` hands out. Nothing is promised of
/// which point it is.
#[verifier::external_body]
pub(crate) fn g2_random() -> (r: G2) {
    let g = |c: Fq| Coordinate { limbs: c.into_bigint().0 };
    let s = G2Projective::rand(&mut ark_std::test_rng()).into_affine();
    G2 { x: (g(s.x.c0), g(s.x.c1)), y: (g(s.y.c0), g(s.y.c1)), infinity: s.infinity }
}

/// An element of the target group: the value of a pairing, held as the
/// canonical limbs of its twelve base-field coefficients.
#[derive(Debug, PartialEq, Eq)]
pub struct Gt {
    limbs: Vec<u64>,
}

impl View for Gt {
    type V = Seq<u64>;

    closed spec fn view(&self) -> Seq<u64> {
        self.limbs@
    }
}

/// The limbs of the element of the target group that `ark_ec`'s
/// `Pairing::pairing` returns for a point of G1 and a point of G2.
pub uninterp spec fn pairing_value(p: G1, q: G2) -> Seq<u64>;

/// The pairing of a point of G1 with a point of G2, computed by `ark_ec`'s
/// `Pairing::pairing` on BLS12-381.
#[verifier::external_body]
pub(crate) fn pairing(p: &G1, q: &G2) -> (r: Gt)
    ensures
        r@ == pairing_value(*p, *q),
{
    let f = |c: Coordinate| Fq::new(BigInt(c.limbs));
    let a = G1Affine { x: f(p.x), y: f(p.y), infinity: p.infinity };
    let b = G2Affine {
        x: Fq2::new(f(q.x.0), f(q.x.1)),
        y: Fq2::new(f(q.y.0), f(q.y.1)),
        infinity: q.infinity,
    };
    let e = Bls12_381::pairing(a, b).0;
    Gt { limbs: e.to_base_prime_field_elements().flat_map(|c| c.into_bigint().0).collect() }
}

impl Gt {
    /// Whether two elements of the target group are the same.
    pub fn equals(&self, other: &Gt) -> (r: bool)
        ensures
            r == (self@ == other@),
    {
        if self.limbs.len() != other.limbs.len() {
            return false;
        }
        let mut i: usize = 0;
        while i < self.limbs.len()
            invariant
                i <= self.limbs.len(),
                self.limbs.len() == other.limbs.len(),
                forall|j: int| 0 <= j < i ==> self.limbs@[j] == other.limbs@[j],
            decreases self.limbs.len() - i,
        {
            if self.limbs[i] != other.limbs[i] {
                return false;
            }
            i = i + 1;
        }
        assert(self.limbs@ =~= other.limbs@);
        true
    }
}

} // verus!
