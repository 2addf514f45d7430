//! Elements of the scalar field.
//!
//! A [`Scalar`] holds the canonical residue of a field element as four
//! little-endian 64-bit limbs. The arithmetic itself is done by `ark_ff` on
//! `ark_bls12_381::Fr`; the functions that call it state the result as
//! arithmetic modulo [`modulus`].
//!
//! Nothing is proved of the functions of this module that call `ark_ff`.
//! Beside what each of them states, the scalars that they hand back are
//! taken to be canonical, as the residues are that `ark_ff` hands out.

use ark_bls12_381::Fr;
use ark_ff::{BigInt, Field, PrimeField, UniformRand};
use crate::field::{add_mod, modulus, mul_mod, neg_mod, pow_mod, sub_mod};
use crate::limbs::{lemma_limbs_value_injective, limbs_less, limbs_value};
use vstd::prelude::*;

verus! {

/// An element of the scalar field, in canonical form.
#[derive(Clone, Copy, Debug, PartialEq, Eq)]
pub struct Scalar {
    limbs: [u64; 4],
}

impl View for Scalar {
    type V = nat;

    /// The residue that the element stands for.
    closed spec fn view(&self) -> nat {
        limbs_value(self.limbs@) % modulus()
    }
}

/// The limbs of the field's modulus, least significant first.
pub fn modulus_limbs() -> (m: [u64; 4])
    ensures
        limbs_value(m@) == modulus(),
{
    let m: [u64; 4] = [
        0xffff_ffff_0000_0001,
        0x53bd_a402_fffe_5bfe,
        0x3339_d808_09a1_d805,
        0x73ed_a753_299d_7d48,
    ];
    proof {
        reveal_with_fuel(limbs_value, 5);
        assert(m@.skip(1).skip(1) =~= m@.skip(2));
        assert(m@.skip(2).skip(1) =~= m@.skip(3));
        assert(m@.skip(3).skip(1) =~= m@.skip(4));
    }
    m
}

impl Scalar {
    #[verifier::type_invariant]
    closed spec fn canonical(self) -> bool {
        limbs_value(self.limbs@) < modulus()
    }

    /// Every scalar stands for a residue below the modulus.
    pub proof fn lemma_below_modulus(self)
        ensures
            self@ < modulus(),
    {
    }

    /// The element with the given canonical limbs, least significant first;
    /// `None` where they stand for a number that is not below the modulus.
    pub fn from_limbs(limbs: [u64; 4]) -> (r: Option<Scalar>)
        ensures
            r.is_some() == (limbs_value(limbs@) < modulus()),
            r.is_some() ==> r.unwrap()@ == limbs_value(limbs@),
    {
        let m = modulus_limbs();
        if limbs_less(limbs.as_slice(), m.as_slice()) {
            Some(Scalar { limbs })
        } else {
            None
        }
    }

    /// The canonical limbs of the element, least significant first.
    pub fn to_limbs(&self) -> (l: [u64; 4])
        ensures
            limbs_value(l@) == self@,
    {
        proof {
            use_type_invariant(self);
        }
        self.limbs
    }

    /// The zero of the field.
    pub fn zero() -> (r: Scalar)
        ensures
            r@ == 0,
    {
        let limbs: [u64; 4] = [0, 0, 0, 0];
        proof {
            reveal_with_fuel(limbs_value, 5);
        }
        Scalar { limbs }
    }

    /// The one of the field.
    pub fn one() -> (r: Scalar)
        ensures
            r@ == 1,
    {
        let limbs: [u64; 4] = [1, 0, 0, 0];
        proof {
            reveal_with_fuel(limbs_value, 5);
        }
        Scalar { limbs }
    }

    /// Whether two elements are the same residue.
    pub fn equals(&self, other: &Scalar) -> (r: bool)
        ensures
            r == (self@ == other@),
    {
        proof {
            use_type_invariant(self);
            use_type_invariant(other);
            if self@ == other@ {
                lemma_limbs_value_injective(self.limbs@, other.limbs@);
            }
            if self.limbs[0] == other.limbs[0] && self.limbs[1] == other.limbs[1]
                && self.limbs[2] == other.limbs[2] && self.limbs[3] == other.limbs[3] {
                assert(self.limbs@ =~= other.limbs@);
            }
        }
        self.limbs[0] == other.limbs[0] && self.limbs[1] == other.limbs[1] && self.limbs[2]
            == other.limbs[2] && self.limbs[3] == other.limbs[3]
    }

    /// Whether the element is the zero of the field.
    pub fn is_zero(&self) -> (r: bool)
        ensures
            r == (self@ == 0),
    {
        let z = Scalar::zero();
        self.equals(&z)
    }
}

/// The sum of two field elements, computed by `ark_ff`'s `+` on `Fr`: the
/// sum of the residues, reduced modulo the field's order.
#[verifier::external_body]
pub(crate) fn scalar_add(a: &Scalar, b: &Scalar) -> (r: Scalar)
    ensures
        r@ == add_mod(a@, b@),
{
    let x = Fr::new(BigInt(a.limbs)) + Fr::new(BigInt(b.limbs));
    Scalar { limbs: x.into_bigint().0 }
}

/// The difference of two field elements, computed by `ark_ff`'s `-` on `Fr`:
/// the difference of the residues, reduced modulo the field's order.
#[verifier::external_body]
pub(crate) fn scalar_sub(a: &Scalar, b: &Scalar) -> (r: Scalar)
    ensures
        r@ == sub_mod(a@, b@),
{
    let x = Fr::new(BigInt(a.limbs)) - Fr::new(BigInt(b.limbs));
    Scalar { limbs: x.into_bigint().0 }
}

/// The additive inverse of a field element, computed by `ark_ff`'s unary `-`
/// on `Fr`.
#[verifier::external_body]
pub(crate) fn scalar_neg(a: &Scalar) -> (r: Scalar)
    ensures
        r@ == neg_mod(a@),
{
    let x = -Fr::new(BigInt(a.limbs));
    Scalar { limbs: x.into_bigint().0 }
}

/// The product of two field elements, computed by `ark_ff`'s `*` on `Fr`:
/// the product of the residues, reduced modulo the field's order.
#[verifier::external_body]
pub(crate) fn scalar_mul(a: &Scalar, b: &Scalar) -> (r: Scalar)
    ensures
        r@ == mul_mod(a@, b@),
{
    let x = Fr::new(BigInt(a.limbs)) * Fr::new(BigInt(b.limbs));
    Scalar { limbs: x.into_bigint().0 }
}

/// The power of a field element, computed by `ark_ff`'s `Field::pow` with a
/// one-limb exponent: `e` factors `a`, and one for `e == 0`.
#[verifier::external_body]
pub(crate) fn scalar_pow(a: &Scalar, e: u64) -> (r: Scalar)
    ensures
        r@ == pow_mod(a@, e as nat),
{
    let x = Fr::new(BigInt(a.limbs)).pow([e]);
    Scalar { limbs: x.into_bigint().0 }
}

/// The multiplicative inverse of a field element, computed by `ark_ff`'s
/// `Field::inverse`: `None` for zero and for zero only, else the element
/// whose product with `a` is one.
#[verifier::external_body]
pub(crate) fn scalar_inverse(a: &Scalar) -> (r: Option<Scalar>)
    ensures
        r.is_none() == (a@ == 0),
        r.is_some() ==> mul_mod(a@, r.unwrap()@) == 1,
{
    match Fr::new(BigInt(a.limbs)).inverse() {
        Some(x) => Some(Scalar { limbs: x.into_bigint().0 }),
        None => None,
    }
}

/// As many field elements as asked for, sampled one after the other by
/// `ark_ff`'s `UniformRand::rand` from one generator that
/// `ark_std::test_rng` hands out. Nothing is promised of their values.
#[verifier::external_body]
pub(crate) fn scalars_random(n: usize) -> (r: Vec<Scalar>)
    ensures
        r@.len() == n,
{
    let mut rng = ark_std::test_rng();
    (0..n).map(|_| Scalar { limbs: Fr::rand(&mut rng).into_bigint().0 }).collect()
}

} // verus!
