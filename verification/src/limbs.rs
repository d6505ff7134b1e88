//! Little-endian sequences of 64-bit limbs and the natural numbers they denote.
//!
//! Everything here is specification and proof: the executable arithmetic on
//! limb vectors lives with the number types and is justified by these lemmas.

use vstd::prelude::*;
use vstd::arithmetic::power2::{lemma2_to64, lemma2_to64_rest, lemma_pow2_adds, pow2};

verus! {

/// The weight of one limb position relative to the one below it: 2^64.
pub open spec fn radix() -> nat {
    0x1_0000_0000_0000_0000
}

/// The natural number denoted by the limbs `s`, least significant limb first.
pub open spec fn limbs_value(s: Seq<u64>) -> nat
    decreases s.len(),
{
    if s.len() == 0 {
        0
    } else {
        s[0] as nat + radix() * limbs_value(s.drop_first())
    }
}

/// The limb at position `i`, where positions past the end read as zero.
pub open spec fn limb_at(s: Seq<u64>, i: int) -> u64 {
    if 0 <= i < s.len() {
        s[i]
    } else {
        0
    }
}

/// The limbs above the lowest one; the empty sequence is its own tail.
pub open spec fn tail(s: Seq<u64>) -> Seq<u64> {
    if s.len() == 0 {
        s
    } else {
        s.drop_first()
    }
}

/// Limbs are significant when the highest one, if any, is not zero.
pub open spec fn is_trimmed(s: Seq<u64>) -> bool {
    s.len() == 0 || s.last() != 0
}

/// The limbs of `s - 1` when limb `j` is the lowest non-zero limb of `s`.
pub open spec fn borrowed(s: Seq<u64>, j: int) -> Seq<u64> {
    Seq::new(
        s.len(),
        |i: int|
            if i < j {
                u64::MAX
            } else if i == j {
                (s[i] - 1) as u64
            } else {
                s[i]
            },
    )
}

/// The limbs of `s / 2`: every limb shifted down one bit, taking in the low
/// bit of the limb above.
pub open spec fn halved(s: Seq<u64>) -> Seq<u64> {
    Seq::new(
        s.len(),
        |i: int| (s[i] / 2 + (limb_at(s, i + 1) % 2) * 0x8000_0000_0000_0000) as u64,
    )
}

/// A number is its lowest limb plus the radix times the number of its tail.
pub proof fn lemma_value_split(s: Seq<u64>)
    ensures
        limbs_value(s) == limb_at(s, 0) as nat + radix() * limbs_value(tail(s)),
        forall|i: int| 0 <= i ==> limb_at(tail(s), i) == limb_at(s, i + 1),
{
    if s.len() == 0 {
        assert(limbs_value(s) == 0);
    }
}

/// A single limb denotes itself.
pub proof fn lemma_value_single(x: u64)
    ensures
        limbs_value(seq![x]) == x as nat,
{
    let s = seq![x];
    assert(s.drop_first().len() == 0);
    assert(limbs_value(s.drop_first()) == 0);
}

/// Limbs that are all zero denote zero, and only those do.
pub proof fn lemma_value_zero(s: Seq<u64>)
    ensures
        limbs_value(s) == 0 <==> (forall|i: int| 0 <= i < s.len() ==> s[i] == 0),
    decreases s.len(),
{
    if s.len() > 0 {
        let t = s.drop_first();
        lemma_value_zero(t);
        if limbs_value(s) == 0 {
            assert(limbs_value(t) == 0) by (nonlinear_arith)
                requires
                    s[0] as nat + radix() * limbs_value(t) == 0,
                    radix() > 0,
            ;
            assert forall|i: int| 0 <= i < s.len() implies s[i] == 0 by {
                if i > 0 {
                    assert(t[i - 1] == s[i]);
                }
            }
        }
        if forall|i: int| 0 <= i < s.len() ==> s[i] == 0 {
            assert forall|i: int| 0 <= i < t.len() implies t[i] == 0 by {
                assert(t[i] == s[i + 1]);
            }
        }
    }
}

/// Limbs that agree at every position denote the same number, whatever
/// their lengths.
pub proof fn lemma_same_limbs_same_value(a: Seq<u64>, b: Seq<u64>)
    requires
        forall|i: int| 0 <= i ==> limb_at(a, i) == limb_at(b, i),
    ensures
        limbs_value(a) == limbs_value(b),
    decreases a.len() + b.len(),
{
    if a.len() + b.len() > 0 {
        lemma_value_split(a);
        lemma_value_split(b);
        assert forall|i: int| 0 <= i implies limb_at(tail(a), i) == limb_at(tail(b), i) by {
            assert(limb_at(a, i + 1) == limb_at(b, i + 1));
        }
        lemma_same_limbs_same_value(tail(a), tail(b));
        assert(limb_at(a, 0) == limb_at(b, 0));
    }
}

/// The highest position at which two numbers differ decides their order.
pub proof fn lemma_highest_difference_decides(a: Seq<u64>, b: Seq<u64>, j: int)
    requires
        0 <= j,
        limb_at(a, j) < limb_at(b, j),
        forall|i: int| j < i ==> limb_at(a, i) == limb_at(b, i),
    ensures
        limbs_value(a) < limbs_value(b),
    decreases j,
{
    lemma_value_split(a);
    lemma_value_split(b);
    let (ta, tb) = (tail(a), tail(b));
    if j == 0 {
        assert forall|i: int| 0 <= i implies limb_at(ta, i) == limb_at(tb, i) by {
            assert(limb_at(a, i + 1) == limb_at(b, i + 1));
        }
        lemma_same_limbs_same_value(ta, tb);
    } else {
        assert(limb_at(ta, j - 1) < limb_at(tb, j - 1));
        assert forall|i: int| j - 1 < i implies limb_at(ta, i) == limb_at(tb, i) by {
            assert(limb_at(a, i + 1) == limb_at(b, i + 1));
        }
        lemma_highest_difference_decides(ta, tb, j - 1);
        assert(radix() * limbs_value(ta) + radix() <= radix() * limbs_value(tb))
            by (nonlinear_arith)
            requires
                limbs_value(ta) < limbs_value(tb),
        ;
    }
}

/// A number and its lowest limb have the same parity.
pub proof fn lemma_value_parity(s: Seq<u64>)
    ensures
        limbs_value(s) % 2 == limb_at(s, 0) as nat % 2,
{
    lemma_value_split(s);
    let t = limbs_value(tail(s));
    assert(radix() * t == 2 * (0x8000_0000_0000_0000 * t));
}

/// Borrowing from the lowest non-zero limb takes one off the number.
pub proof fn lemma_borrowed_value(s: Seq<u64>, j: int)
    requires
        0 <= j < s.len(),
        s[j] > 0,
        forall|i: int| 0 <= i < j ==> s[i] == 0,
    ensures
        limbs_value(borrowed(s, j)) + 1 == limbs_value(s),
    decreases j,
{
    let out = borrowed(s, j);
    if j == 0 {
        assert(out.drop_first() =~= s.drop_first());
    } else {
        let t = s.drop_first();
        assert(t[j - 1] == s[j]);
        assert forall|i: int| 0 <= i < j - 1 implies t[i] == 0 by {
            assert(t[i] == s[i + 1]);
        }
        lemma_borrowed_value(t, j - 1);
        assert(out.drop_first() =~= borrowed(t, j - 1));
        assert(radix() * limbs_value(t) == radix() * limbs_value(borrowed(t, j - 1)) + radix())
            by (nonlinear_arith)
            requires
                limbs_value(borrowed(t, j - 1)) + 1 == limbs_value(t),
        ;
    }
}

/// Shifting every limb down one bit halves the number.
pub proof fn lemma_halved_value(s: Seq<u64>)
    ensures
        limbs_value(halved(s)) == limbs_value(s) / 2,
    decreases s.len(),
{
    if s.len() > 0 {
        let t = s.drop_first();
        let out = halved(s);
        lemma_halved_value(t);
        assert(out.drop_first() =~= halved(t)) by {
            assert forall|i: int| 0 <= i < t.len() implies out.drop_first()[i] == halved(t)[i] by {
                assert(limb_at(s, i + 2) == limb_at(t, i + 1));
            }
        }
        lemma_value_parity(t);
        assert(limb_at(s, 1) == limb_at(t, 0));
        let v = limbs_value(t);
        let q = v / 2;
        let bit = v % 2;
        assert(radix() * v == 2 * (radix() * q) + 2 * (0x8000_0000_0000_0000 * bit))
            by (nonlinear_arith)
            requires
                v == 2 * q + bit,
                radix() == 2 * 0x8000_0000_0000_0000,
        ;
        assert(out[0] == s[0] / 2 + bit * 0x8000_0000_0000_0000);
    }
}

/// A number is below the radix raised to the number of its limbs.
pub proof fn lemma_value_bound(s: Seq<u64>)
    ensures
        limbs_value(s) < pow2(64 * s.len()),
    decreases s.len(),
{
    lemma2_to64();
    lemma2_to64_rest();
    if s.len() > 0 {
        let t = s.drop_first();
        lemma_value_bound(t);
        lemma_pow2_adds(64, 64 * t.len());
        assert(64 + 64 * t.len() == 64 * s.len());
        assert(radix() * limbs_value(t) + radix() <= radix() * pow2(64 * t.len()))
            by (nonlinear_arith)
            requires
                limbs_value(t) < pow2(64 * t.len()),
        ;
    }
}

/// Significant limbs that are more in number denote the greater number.
pub proof fn lemma_longer_trimmed_is_greater(s: Seq<u64>, m: Seq<u64>)
    requires
        is_trimmed(s),
        s.len() > m.len(),
    ensures
        limbs_value(s) > limbs_value(m),
    decreases s.len(),
{
    let t = s.drop_first();
    if m.len() == 0 {
        lemma_value_zero(s);
        assert(s[s.len() - 1] != 0);
    } else {
        let u = m.drop_first();
        assert(t.last() == s.last());
        lemma_longer_trimmed_is_greater(t, u);
        assert(radix() * limbs_value(t) >= radix() * limbs_value(u) + radix())
            by (nonlinear_arith)
            requires
                limbs_value(t) > limbs_value(u),
        ;
    }
}

} // verus!
