//! One round of the test: whether a base proves a number composite.

use crate::decomposition::{
    is_decomposition, lemma_decomposition_exists, odd_part, valuation,
};
use crate::natural::Natural;
use crate::primes::{is_prime_number, lemma_fermat_little, lemma_square_roots_of_one};
use vstd::arithmetic::div_mod::{lemma_fundamental_div_mod, lemma_mod_bound};
use vstd::arithmetic::power::{lemma_pow_mod_noop, lemma_pow_multiplies, lemma_square_is_pow2, pow};
use vstd::arithmetic::power2::{lemma2_to64, lemma_pow2_unfold, pow2};
use vstd::prelude::*;

verus! {

/// The residue that a round looks at after `j` squarings:
/// `a^(d * 2^j) mod n`.
pub open spec fn residue(a: nat, n: nat, d: nat, j: nat) -> int {
    pow(a as int, d * pow2(j)) % (n as int)
}

/// Whether the base `a` proves `n` composite, given `n - 1 = d * 2^r`.
///
/// It does unless `a^d` is 1 or -1 modulo `n`, or one of the `r - 1`
/// squarings that follow is -1 modulo `n`.
pub open spec fn is_witness(a: nat, n: nat, d: nat, r: nat) -> bool {
    &&& residue(a, n, d, 0) != 1
    &&& residue(a, n, d, 0) != n - 1
    &&& forall|j: nat| 1 <= j < r ==> #[trigger] residue(a, n, d, j) != n - 1
}

/// Whether the base `a` proves `n` composite.
pub open spec fn strong_witness(a: nat, n: nat) -> bool {
    is_witness(a, n, odd_part((n - 1) as nat), valuation((n - 1) as nat))
}

/// One squaring takes the residue after `j` squarings to that after
/// `j + 1`.
pub proof fn lemma_residue_step(a: nat, n: nat, d: nat, j: nat)
    requires
        n > 0,
    ensures
        residue(a, n, d, j + 1) == pow(residue(a, n, d, j), 2) % (n as int),
{
    let e = d * pow2(j);
    lemma_pow2_unfold(j + 1);
    assert(d * pow2(j + 1) == e * 2) by (nonlinear_arith)
        requires
            e == d * pow2(j),
            pow2(j + 1) == 2 * pow2(j),
    ;
    lemma_pow_multiplies(a as int, e, 2);
    lemma_pow_mod_noop(pow(a as int, e), 2, n as int);
}

/// Modulo a prime, a residue of 1 after `j` squarings is preceded by a
/// residue of -1, unless the residues are 1 from the start.
proof fn lemma_residue_chain(p: nat, a: nat, d: nat, j: nat)
    requires
        is_prime_number(p as int),
        residue(a, p, d, j) == 1,
    ensures
        residue(a, p, d, 0) == 1 || exists|i: nat| i < j && #[trigger] residue(a, p, d, i) == p - 1,
    decreases j,
{
    if j > 0 {
        let before = (j - 1) as nat;
        let x = residue(a, p, d, before);
        lemma_residue_step(a, p, d, before);
        lemma_mod_bound(pow(a as int, d * pow2(before)), p as int);
        lemma_square_is_pow2(x);
        lemma_square_roots_of_one(p as int, x);
        if x == 1 {
            lemma_residue_chain(p, a, d, before);
        }
    }
}

/// No base that a prime does not divide proves the prime composite.
pub proof fn lemma_prime_has_no_witness(p: nat, a: nat, d: nat, r: nat)
    requires
        is_prime_number(p as int),
        a % p != 0,
        is_decomposition((p - 1) as nat, d, r),
    ensures
        !is_witness(a, p, d, r),
{
    lemma_fermat_little(p as int, a as int);
    assert(residue(a, p, d, r) == 1);
    lemma_residue_chain(p, a, d, r);
}

/// A number that some base which it does not divide proves composite is
/// not prime.
pub proof fn lemma_witness_proves_composite(n: nat, a: nat)
    requires
        n >= 2,
        a % n != 0,
        strong_witness(a, n),
    ensures
        !is_prime_number(n as int),
{
    if is_prime_number(n as int) {
        lemma_decomposition_exists((n - 1) as nat);
        lemma_prime_has_no_witness(n, a, odd_part((n - 1) as nat), valuation((n - 1) as nat));
    }
}

/// Base 2 proves every even number from four on composite.
pub proof fn lemma_two_proves_even_composite(n: nat)
    requires
        n >= 4,
        n % 2 == 0,
    ensures
        strong_witness(2, n),
{
    let m = (n - 1) as nat;
    let x = pow(2, m);
    let y = pow(2, (m - 1) as nat);
    lemma2_to64();
    assert(m * pow2(0) == m);
    assert(x == 2 * y) by {
        reveal(pow);
    }
    lemma_fundamental_div_mod(x, n as int);
    let q = x / (n as int);
    let h = n as int / 2;
    assert(x % (n as int) == 2 * (y - h * q)) by (nonlinear_arith)
        requires
            x == 2 * y,
            n == 2 * h,
            x == n * q + x % (n as int),
    ;
}

/// Runs one round of the test: whether the base `a` proves `n` composite,
/// given the decomposition `n - 1 = d * 2^r`.
pub fn miller_rabin_iteration(a: &Natural, n: &Natural, d: &Natural, r: u64) -> (witness: bool)
    requires
        n@ > 0,
    ensures
        witness == is_witness(a@, n@, d@, r as nat),
{
    let n_minus_one = n.decrement();
    let one = Natural::from_u64(1);
    let two = Natural::from_u64(2);
    let mut x = a.pow_mod(d, n);
    proof {
        lemma2_to64();
        assert(d@ * pow2(0) == d@);
    }
    if x.equals(&one) || x.equals(&n_minus_one) {
        return false;
    }
    let mut count: u64 = 1;
    while count < r
        invariant
            n@ > 0,
            n_minus_one@ == n@ - 1,
            two@ == 2,
            1 <= count,
            x@ == residue(a@, n@, d@, (count - 1) as nat),
            forall|j: nat| 1 <= j < count ==> #[trigger] residue(a@, n@, d@, j) != n@ - 1,
        decreases r - count,
    {
        proof {
            lemma_residue_step(a@, n@, d@, (count - 1) as nat);
        }
        x = x.pow_mod(&two, n);
        if x.equals(&n_minus_one) {
            return false;
        }
        count += 1;
    }
    true
}

} // verus!
