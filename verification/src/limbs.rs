//! Numbers held as little-endian 64-bit limbs.

use vstd::prelude::*;

verus! {

/// The natural number that little-endian 64-bit limbs stand for.
pub open spec fn limbs_value(l: Seq<u64>) -> nat
    decreases l.len(),
{
    if l.len() == 0 {
        0
    } else {
        (l[0] as nat) + 0x1_0000_0000_0000_0000 * limbs_value(l.skip(1))
    }
}

/// Two limb sequences of one length that stand for the same number are the
/// same sequence.
pub proof fn lemma_limbs_value_injective(a: Seq<u64>, b: Seq<u64>)
    requires
        a.len() == b.len(),
        limbs_value(a) == limbs_value(b),
    ensures
        a == b,
    decreases a.len(),
{
    if a.len() > 0 {
        let ha = limbs_value(a.skip(1));
        let hb = limbs_value(b.skip(1));
        assert(ha == hb && a[0] == b[0]) by {
            if ha < hb {
                assert(0x1_0000_0000_0000_0000 * ha + 0x1_0000_0000_0000_0000
                    <= 0x1_0000_0000_0000_0000 * hb);
            }
            if hb < ha {
                assert(0x1_0000_0000_0000_0000 * hb + 0x1_0000_0000_0000_0000
                    <= 0x1_0000_0000_0000_0000 * ha);
            }
        }
        lemma_limbs_value_injective(a.skip(1), b.skip(1));
        assert(a =~= seq![a[0]] + a.skip(1));
        assert(b =~= seq![b[0]] + b.skip(1));
    } else {
        assert(a =~= b);
    }
}

/// The order of two numbers is the order of their most significant limbs
/// that differ: `a` and `b` agree above index `i`.
pub proof fn lemma_limbs_value_order(a: Seq<u64>, b: Seq<u64>, i: int)
    requires
        a.len() == b.len(),
        0 <= i < a.len(),
        a.skip(i + 1) == b.skip(i + 1),
        a[i] < b[i],
    ensures
        limbs_value(a) < limbs_value(b),
    decreases i,
{
    if i == 0 {
    } else {
        assert(a.skip(1).skip(i) =~= a.skip(i + 1));
        assert(b.skip(1).skip(i) =~= b.skip(i + 1));
        lemma_limbs_value_order(a.skip(1), b.skip(1), i - 1);
        let ha = limbs_value(a.skip(1));
        let hb = limbs_value(b.skip(1));
        assert(0x1_0000_0000_0000_0000 * ha + 0x1_0000_0000_0000_0000
            <= 0x1_0000_0000_0000_0000 * hb);
    }
}

/// Whether the number that `a` stands for is below the one that `b` stands
/// for.
pub(crate) fn limbs_less(a: &[u64], b: &[u64]) -> (r: bool)
    requires
        a@.len() == b@.len(),
    ensures
        r == (limbs_value(a@) < limbs_value(b@)),
{
    let mut i: usize = a.len();
    while i > 0
        invariant
            i <= a@.len(),
            a@.len() == b@.len(),
            a@.skip(i as int) == b@.skip(i as int),
        decreases i,
    {
        i = i - 1;
        if a[i] < b[i] {
            proof {
                lemma_limbs_value_order(a@, b@, i as int);
            }
            return true;
        }
        if a[i] > b[i] {
            proof {
                lemma_limbs_value_order(b@, a@, i as int);
            }
            return false;
        }
        assert(a@.skip(i as int) =~= seq![a@[i as int]] + a@.skip(i + 1));
        assert(b@.skip(i as int) =~= seq![b@[i as int]] + b@.skip(i + 1));
    }
    assert(a@.skip(0) =~= a@);
    assert(b@.skip(0) =~= b@);
    false
}

} // verus!
