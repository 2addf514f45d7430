//! Arithmetic of the scalar field, as mathematics on natural numbers.
//!
//! Every contract of the crate that speaks of a field element speaks of its
//! residue, a natural number below [`modulus`].

use vstd::arithmetic::div_mod::{
    lemma_add_mod_noop, lemma_mod_twice, lemma_mul_mod_noop, lemma_mul_mod_noop_left,
    lemma_mul_mod_noop_right, lemma_small_mod, lemma_sub_mod_noop,
};
use vstd::arithmetic::mul::lemma_mul_is_associative;
use vstd::prelude::*;

verus! {

/// The prime order of the scalar field of BLS12-381, which is also the order
/// of the groups G1, G2 and GT.
pub open spec fn modulus() -> nat {
    0x73eda753299d7d483339d80809a1d80553bda402fffe5bfeffffffff00000001nat
}

/// `a + b` in the scalar field.
pub open spec fn add_mod(a: nat, b: nat) -> nat {
    (a + b) % modulus()
}

/// `a - b` in the scalar field.
pub open spec fn sub_mod(a: nat, b: nat) -> nat {
    ((a as int - b as int) % (modulus() as int)) as nat
}

/// `-a` in the scalar field.
pub open spec fn neg_mod(a: nat) -> nat {
    sub_mod(0, a)
}

/// `a * b` in the scalar field.
pub open spec fn mul_mod(a: nat, b: nat) -> nat {
    (a * b) % modulus()
}

/// `a` raised to the power `e` in the scalar field.
pub open spec fn pow_mod(a: nat, e: nat) -> nat
    decreases e,
{
    if e == 0 {
        1
    } else {
        mul_mod(a, pow_mod(a, (e - 1) as nat))
    }
}

/// The multiplicative inverse of `a` in the scalar field, where it has one.
pub open spec fn inv_mod(a: nat) -> nat {
    choose|b: nat| b < modulus() && mul_mod(a, b) == 1
}

/// Whether `a` has a multiplicative inverse in the scalar field.
pub open spec fn is_unit(a: nat) -> bool {
    exists|b: nat| b < modulus() && #[trigger] mul_mod(a, b) == 1
}

/// Multiplication in the scalar field is associative.
pub proof fn lemma_mul_mod_associative(a: nat, b: nat, c: nat)
    ensures
        mul_mod(a, mul_mod(b, c)) == mul_mod(mul_mod(a, b), c),
{
    let m = modulus() as int;
    lemma_mul_mod_noop_right(a as int, (b * c) as int, m);
    lemma_mul_mod_noop_left((a * b) as int, c as int, m);
    lemma_mul_is_associative(a as int, b as int, c as int);
}

/// A residue has at most one multiplicative inverse.
pub proof fn lemma_inverse_unique(a: nat, b: nat)
    requires
        b < modulus(),
        mul_mod(a, b) == 1,
    ensures
        inv_mod(a) == b,
{
    let c = inv_mod(a);
    assert(c < modulus() && mul_mod(a, c) == 1);
    lemma_mul_mod_associative(b, a, c);
    assert(mul_mod(b, a) == mul_mod(a, b)) by {
        assert(b * a == a * b) by (nonlinear_arith);
    }
    assert(mul_mod(b, 1) == b) by {
        assert(b * 1 == b);
        lemma_small_mod(b, modulus());
    }
    assert(mul_mod(1, c) == c) by {
        assert(1 * c == c);
        lemma_small_mod(c, modulus());
    }
}

/// Whether two integers are the same residue of the scalar field.
pub open spec fn congruent(a: int, b: int) -> bool {
    a % (modulus() as int) == b % (modulus() as int)
}

/// Two residues that are congruent are equal.
pub proof fn lemma_congruent_residues(a: nat, b: nat)
    requires
        a < modulus(),
        b < modulus(),
        congruent(a as int, b as int),
    ensures
        a == b,
{
    lemma_small_mod(a, modulus());
    lemma_small_mod(b, modulus());
}

/// The sum in the field of two residues is congruent to the sum of any
/// integers that they are congruent to.
pub proof fn lemma_add_congruent(a: nat, b: nat, x: int, y: int)
    requires
        congruent(a as int, x),
        congruent(b as int, y),
    ensures
        congruent(add_mod(a, b) as int, x + y),
        add_mod(a, b) < modulus(),
{
    let m = modulus() as int;
    lemma_add_mod_noop(a as int, b as int, m);
    lemma_add_mod_noop(x, y, m);
    lemma_mod_twice((a + b) as int, m);
}

/// The difference in the field of two residues is congruent to the
/// difference of any integers that they are congruent to.
pub proof fn lemma_sub_congruent(a: nat, b: nat, x: int, y: int)
    requires
        congruent(a as int, x),
        congruent(b as int, y),
    ensures
        congruent(sub_mod(a, b) as int, x - y),
        sub_mod(a, b) < modulus(),
{
    let m = modulus() as int;
    lemma_sub_mod_noop(a as int, b as int, m);
    lemma_sub_mod_noop(x, y, m);
    lemma_mod_twice(a as int - b as int, m);
}

/// The product in the field of two residues is congruent to the product of
/// any integers that they are congruent to.
pub proof fn lemma_mul_congruent(a: nat, b: nat, x: int, y: int)
    requires
        congruent(a as int, x),
        congruent(b as int, y),
    ensures
        congruent(mul_mod(a, b) as int, x * y),
        mul_mod(a, b) < modulus(),
{
    let m = modulus() as int;
    lemma_mul_mod_noop(a as int, b as int, m);
    lemma_mul_mod_noop(x, y, m);
    lemma_mod_twice((a * b) as int, m);
}

/// Multiplication in the field distributes over addition.
pub proof fn lemma_mul_mod_distributes(x: nat, a: nat, b: nat)
    ensures
        mul_mod(x, add_mod(a, b)) == add_mod(mul_mod(x, a), mul_mod(x, b)),
{
    let (xi, ai, bi) = (x as int, a as int, b as int);
    lemma_add_congruent(a, b, ai, bi);
    lemma_mul_congruent(x, add_mod(a, b), xi, ai + bi);
    lemma_mul_congruent(x, a, xi, ai);
    lemma_mul_congruent(x, b, xi, bi);
    lemma_add_congruent(mul_mod(x, a), mul_mod(x, b), xi * ai, xi * bi);
    assert(xi * (ai + bi) == xi * ai + xi * bi) by (nonlinear_arith);
    lemma_congruent_residues(mul_mod(x, add_mod(a, b)), add_mod(mul_mod(x, a), mul_mod(x, b)));
}

/// Multiplication in the field is commutative.
pub proof fn lemma_mul_mod_commutative(a: nat, b: nat)
    ensures
        mul_mod(a, b) == mul_mod(b, a),
{
    assert(a * b == b * a) by (nonlinear_arith);
}

/// Sums of sums in the field can be regrouped:
/// `(a + b) + (c + d) == (a + c) + (b + d)`.
pub proof fn lemma_add_mod_interchange(a: nat, b: nat, c: nat, d: nat)
    ensures
        add_mod(add_mod(a, b), add_mod(c, d)) == add_mod(add_mod(a, c), add_mod(b, d)),
{
    let (ai, bi, ci, di) = (a as int, b as int, c as int, d as int);
    lemma_add_congruent(a, b, ai, bi);
    lemma_add_congruent(c, d, ci, di);
    lemma_add_congruent(add_mod(a, b), add_mod(c, d), ai + bi, ci + di);
    lemma_add_congruent(a, c, ai, ci);
    lemma_add_congruent(b, d, bi, di);
    lemma_add_congruent(add_mod(a, c), add_mod(b, d), ai + ci, bi + di);
    lemma_congruent_residues(
        add_mod(add_mod(a, b), add_mod(c, d)),
        add_mod(add_mod(a, c), add_mod(b, d)),
    );
}

/// Zero is neutral for the addition of residues and absorbs in
/// multiplication; one is neutral for the multiplication of residues.
pub proof fn lemma_zero_and_one(a: nat)
    ensures
        mul_mod(a, 0) == 0,
        mul_mod(0, a) == 0,
        a < modulus() ==> add_mod(a, 0) == a && add_mod(0, a) == a && mul_mod(a, 1) == a
            && mul_mod(1, a) == a,
{
    assert(a * 0 == 0 && 0 * a == 0) by (nonlinear_arith);
    assert(a * 1 == a && 1 * a == a) by (nonlinear_arith);
    if a < modulus() {
        lemma_small_mod(a, modulus());
    }
}

} // verus!
