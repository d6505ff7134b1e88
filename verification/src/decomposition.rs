//! Writing `n - 1` as an odd number times a power of two.

use crate::backend::MAX_LIMBS;
use crate::limbs::lemma_value_bound;
use crate::natural::Natural;
use vstd::arithmetic::power2::{
    lemma2_to64, lemma_pow2_pos, lemma_pow2_strictly_increases, lemma_pow2_unfold, pow2,
};
use vstd::prelude::*;

verus! {

/// How often two divides `m`; zero for `m = 0`.
pub open spec fn valuation(m: nat) -> nat
    decreases m,
{
    if m == 0 || m % 2 == 1 {
        0
    } else {
        1 + valuation(m / 2)
    }
}

/// What is left of `m` once every factor of two is divided out.
pub open spec fn odd_part(m: nat) -> nat
    decreases m,
{
    if m == 0 || m % 2 == 1 {
        m
    } else {
        odd_part(m / 2)
    }
}

/// Whether `m = d * 2^r` with `d` odd.
pub open spec fn is_decomposition(m: nat, d: nat, r: nat) -> bool {
    d * pow2(r) == m && d % 2 == 1
}

/// A number has at most one decomposition: that of [`odd_part`] and
/// [`valuation`].
pub proof fn lemma_decomposition_unique(m: nat, d: nat, r: nat)
    requires
        is_decomposition(m, d, r),
    ensures
        d == odd_part(m),
        r == valuation(m),
    decreases r,
{
    if r == 0 {
        lemma2_to64();
    } else {
        let below = (r - 1) as nat;
        let half = d * pow2(below);
        lemma_pow2_unfold(r);
        lemma_pow2_pos(below);
        assert(m == 2 * half) by (nonlinear_arith)
            requires
                m == d * pow2(r),
                pow2(r) == 2 * pow2(below),
                half == d * pow2(below),
        ;
        assert(half > 0) by (nonlinear_arith)
            requires
                half == d * pow2(below),
                d >= 1,
                pow2(below) > 0,
        ;
        lemma_decomposition_unique(half, d, below);
    }
}

/// Every positive number has a decomposition.
pub proof fn lemma_decomposition_exists(m: nat)
    requires
        m > 0,
    ensures
        is_decomposition(m, odd_part(m), valuation(m)),
    decreases m,
{
    if m % 2 == 1 {
        lemma2_to64();
    } else {
        lemma_decomposition_exists(m / 2);
        let (d, r) = (odd_part(m / 2), valuation(m / 2));
        lemma_pow2_unfold(r + 1);
        assert(d * pow2(r + 1) == m) by (nonlinear_arith)
            requires
                d * pow2(r) == m / 2,
                pow2(r + 1) == 2 * pow2(r),
                m == 2 * (m / 2),
        ;
    }
}

/// Factors the powers of two out of `n - 1`.
///
/// Returns the odd `d` and the count `r` with `n - 1 = d * 2^r`. The count
/// is below the bit length of `n`, so it fits its type with room to spare.
pub fn decompose(n: &Natural) -> (out: (Natural, u64))
    requires
        n@ >= 2,
    ensures
        is_decomposition((n@ - 1) as nat, out.0@, out.1 as nat),
        out.0@ == odd_part((n@ - 1) as nat),
        out.1 == valuation((n@ - 1) as nat),
{
    let limbs = n.limbs();
    let mut d = n.decrement();
    let mut r: u64 = 0;
    proof {
        lemma_value_bound(limbs@);
        lemma2_to64();
        if limbs@.len() < MAX_LIMBS {
            lemma_pow2_strictly_increases(64 * limbs@.len(), 64 * MAX_LIMBS as nat);
        }
    }
    while d.is_even()
        invariant
            n@ < pow2(64 * MAX_LIMBS as nat),
            d@ > 0,
            d@ * pow2(r as nat) == n@ - 1,
            r < 64 * MAX_LIMBS,
        decreases d@,
    {
        proof {
            let next = (r + 1) as nat;
            lemma_pow2_unfold(next);
            assert((d@ / 2) * pow2(next) == n@ - 1) by (nonlinear_arith)
                requires
                    d@ * pow2(r as nat) == n@ - 1,
                    pow2(next) == 2 * pow2(r as nat),
                    d@ == 2 * (d@ / 2),
            ;
            assert(pow2(next) <= n@ - 1) by (nonlinear_arith)
                requires
                    (d@ / 2) * pow2(next) == n@ - 1,
                    d@ / 2 >= 1,
            ;
            if next > 64 * MAX_LIMBS {
                lemma_pow2_strictly_increases(64 * MAX_LIMBS as nat, next);
            }
        }
        d = d.halve();
        r += 1;
    }
    proof {
        lemma_decomposition_unique((n@ - 1) as nat, d@, r as nat);
    }
    (d, r)
}

} // verus!
