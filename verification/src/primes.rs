//! Prime numbers and the facts about them that the test rests on: Euclid's
//! lemma, Fermat's little theorem, and the square roots of one.

use vstd::arithmetic::div_mod::{
    lemma_fundamental_div_mod, lemma_mod_bound, lemma_mod_equivalence, lemma_mod_multiples_basic,
    lemma_mod_multiples_vanish, lemma_mul_mod_noop_general, lemma_small_mod,
};
use vstd::arithmetic::mul::lemma_mul_is_commutative;
use vstd::arithmetic::power::{lemma_pow0, pow};
use vstd::prelude::*;

verus! {

/// Whether `n` is a prime number: at least two, and divisible by nothing
/// strictly between one and itself.
pub open spec fn is_prime_number(n: int) -> bool {
    n >= 2 && forall|d: int| 1 < d < n ==> #[trigger] (n % d) != 0
}

/// The product `1 * 2 * ... * n`.
pub open spec fn factorial(n: nat) -> nat
    decreases n,
{
    if n == 0 {
        1
    } else {
        n * factorial((n - 1) as nat)
    }
}

/// The product of the members of `s`.
pub open spec fn product(s: Seq<int>) -> int
    decreases s.len(),
{
    if s.len() == 0 {
        1
    } else {
        product(s.drop_last()) * s.last()
    }
}

/// The residues of the first `k` positive multiples of `a` modulo `p`.
pub open spec fn multiples(a: int, p: int, k: nat) -> Seq<int> {
    Seq::new(k, |i: int| (a * (i + 1)) % p)
}

/// A multiple of `p` leaves no remainder.
proof fn lemma_multiple_divisible(p: int, t: int)
    requires
        p > 0,
    ensures
        (p * t) % p == 0,
{
    lemma_mod_multiples_basic(t, p);
    lemma_mul_is_commutative(p, t);
}

/// What leaves no remainder is a multiple.
proof fn lemma_divisible_multiple(p: int, x: int)
    requires
        p > 0,
        x % p == 0,
    ensures
        x == p * (x / p),
{
    lemma_fundamental_div_mod(x, p);
}

/// Euclid's lemma for a first factor between zero and `p`.
proof fn lemma_euclid_small(p: int, a: int, b: int)
    requires
        is_prime_number(p),
        0 < a < p,
        (a * b) % p == 0,
    ensures
        b % p == 0,
    decreases a,
{
    if a == 1 {
        assert(a * b == b) by (nonlinear_arith)
            requires
                a == 1,
        ;
    } else {
        let q = p / a;
        let s = p % a;
        lemma_fundamental_div_mod(p, a);
        lemma_mod_bound(p, a);
        assert(s != 0);
        let t = (a * b) / p;
        lemma_divisible_multiple(p, a * b);
        assert(s * b == p * (b - q * t)) by (nonlinear_arith)
            requires
                p == a * q + s,
                a * b == p * t,
        ;
        lemma_multiple_divisible(p, b - q * t);
        lemma_euclid_small(p, s, b);
    }
}

/// Euclid's lemma: a prime that divides a product divides one of the
/// factors.
pub proof fn lemma_prime_divides_product(p: int, a: int, b: int)
    requires
        is_prime_number(p),
        (a * b) % p == 0,
    ensures
        a % p == 0 || b % p == 0,
{
    if a % p != 0 {
        lemma_mul_mod_noop_general(a, b, p);
        lemma_mod_bound(a, p);
        lemma_euclid_small(p, a % p, b);
    }
}

/// Modulo a prime, one has no square roots but 1 and -1.
pub proof fn lemma_square_roots_of_one(p: int, x: int)
    requires
        is_prime_number(p),
        0 <= x < p,
        (x * x) % p == 1,
    ensures
        x == 1 || x == p - 1,
{
    lemma_small_mod(1, p as nat);
    lemma_mod_equivalence(x * x, 1, p);
    assert((x - 1) * (x + 1) == x * x - 1) by (nonlinear_arith);
    lemma_prime_divides_product(p, x - 1, x + 1);
    if (x - 1) % p == 0 {
        lemma_mod_equivalence(x, 1, p);
        lemma_small_mod(x as nat, p as nat);
    } else {
        lemma_mod_equivalence(x, -1, p);
        lemma_small_mod(x as nat, p as nat);
        lemma_mod_multiples_vanish(-1, p - 1, p);
        assert(p * (-1) + (p - 1) == -1);
        lemma_small_mod((p - 1) as nat, p as nat);
    }
}

/// Taking one member out of a sequence divides its product by that member.
proof fn lemma_product_remove(s: Seq<int>, j: int)
    requires
        0 <= j < s.len(),
    ensures
        product(s) == product(s.remove(j)) * s[j],
    decreases s.len(),
{
    if j == s.len() - 1 {
        assert(s.remove(j) =~= s.drop_last());
    } else {
        let front = s.drop_last();
        let rest = s.remove(j);
        lemma_product_remove(front, j);
        assert(rest.drop_last() =~= front.remove(j));
        assert(rest.last() == s.last());
        let u = product(front.remove(j));
        assert((u * s[j]) * s.last() == (u * s.last()) * s[j]) by (nonlinear_arith);
    }
}

/// Taking the member `m` out of distinct members of `1 ..= m` leaves
/// distinct members of `1 ..= m - 1`.
proof fn lemma_remove_greatest(s: Seq<int>, m: nat, j: int)
    requires
        s.no_duplicates(),
        forall|i: int| 0 <= i < s.len() ==> 1 <= #[trigger] s[i] <= m,
        0 <= j < s.len(),
        s[j] == m,
    ensures
        s.remove(j).len() == s.len() - 1,
        s.remove(j).no_duplicates(),
        forall|i: int| 0 <= i < s.remove(j).len() ==> 1 <= #[trigger] s.remove(j)[i] <= m - 1,
{
    let rest = s.remove(j);
    assert forall|i: int| 0 <= i < rest.len() implies 1 <= #[trigger] rest[i] <= m - 1 by {
        if i < j {
            assert(rest[i] == s[i]);
        } else {
            assert(rest[i] == s[i + 1]);
        }
    }
    assert forall|i: int, k: int| 0 <= i < rest.len() && 0 <= k < rest.len() && i != k implies rest[i]
        != rest[k] by {
        let si = if i < j {
            i
        } else {
            i + 1
        };
        let sk = if k < j {
            k
        } else {
            k + 1
        };
        assert(rest[i] == s[si] && rest[k] == s[sk]);
    }
}

/// Distinct members of `1 ..= m` are at most `m` in number.
proof fn lemma_distinct_members_bounded(s: Seq<int>, m: nat)
    requires
        s.no_duplicates(),
        forall|i: int| 0 <= i < s.len() ==> 1 <= #[trigger] s[i] <= m,
    ensures
        s.len() <= m,
    decreases m,
{
    if m == 0 {
        if s.len() > 0 {
            assert(1 <= s[0] <= 0);
        }
    } else if exists|j: int| 0 <= j < s.len() && s[j] == m {
        let j = choose|j: int| 0 <= j < s.len() && s[j] == m;
        lemma_remove_greatest(s, m, j);
        lemma_distinct_members_bounded(s.remove(j), (m - 1) as nat);
    } else {
        assert forall|i: int| 0 <= i < s.len() implies 1 <= #[trigger] s[i] <= m - 1 by {
            assert(s[i] != m);
        }
        lemma_distinct_members_bounded(s, (m - 1) as nat);
    }
}

/// The product of `m` distinct members of `1 ..= m` is `m!`.
proof fn lemma_permutation_product(s: Seq<int>, m: nat)
    requires
        s.len() == m,
        s.no_duplicates(),
        forall|i: int| 0 <= i < s.len() ==> 1 <= #[trigger] s[i] <= m,
    ensures
        product(s) == factorial(m),
    decreases m,
{
    if m > 0 {
        if !exists|j: int| 0 <= j < s.len() && s[j] == m {
            assert forall|i: int| 0 <= i < s.len() implies 1 <= #[trigger] s[i] <= m - 1 by {
                assert(s[i] != m);
            }
            lemma_distinct_members_bounded(s, (m - 1) as nat);
        }
        let j = choose|j: int| 0 <= j < s.len() && s[j] == m;
        lemma_remove_greatest(s, m, j);
        lemma_permutation_product(s.remove(j), (m - 1) as nat);
        lemma_product_remove(s, j);
        lemma_mul_is_commutative(factorial((m - 1) as nat) as int, m as int);
    }
}

/// The product of the first `k` multiples of `a` is `a^k * k!`, also
/// modulo `p`.
proof fn lemma_product_of_multiples(a: int, p: int, k: nat)
    requires
        p > 0,
    ensures
        product(multiples(a, p, k)) % p == (pow(a, k) * factorial(k)) % p,
    decreases k,
{
    let s = multiples(a, p, k);
    if k == 0 {
        lemma_pow0(a);
    } else {
        let front = multiples(a, p, (k - 1) as nat);
        assert(s.drop_last() =~= front);
        lemma_product_of_multiples(a, p, (k - 1) as nat);
        let u = product(front);
        let v = pow(a, (k - 1) as nat) * factorial((k - 1) as nat);
        assert(s.last() == (a * k) % p);
        lemma_mul_mod_noop_general(u, a * k, p);
        lemma_mul_mod_noop_general(v, a * k, p);
        assert(pow(a, k) == a * pow(a, (k - 1) as nat)) by {
            reveal(pow);
        }
        assert(v * (a * k) == pow(a, k) * factorial(k)) by (nonlinear_arith)
            requires
                v == pow(a, (k - 1) as nat) * factorial((k - 1) as nat),
                pow(a, k) == a * pow(a, (k - 1) as nat),
                factorial(k) == k * factorial((k - 1) as nat),
        ;
    }
}

/// Modulo a prime `p`, the first `p - 1` multiples of a number that `p`
/// does not divide are the numbers `1 ..= p - 1` in some order.
proof fn lemma_multiples_permute(p: int, a: int)
    requires
        is_prime_number(p),
        a % p != 0,
    ensures
        multiples(a, p, (p - 1) as nat).no_duplicates(),
        forall|i: int|
            0 <= i < p - 1 ==> 1 <= #[trigger] multiples(a, p, (p - 1) as nat)[i] <= p - 1,
{
    let s = multiples(a, p, (p - 1) as nat);
    assert forall|i: int| 0 <= i < p - 1 implies 1 <= #[trigger] s[i] <= p - 1 by {
        lemma_mod_bound(a * (i + 1), p);
        if s[i] == 0 {
            lemma_prime_divides_product(p, a, i + 1);
            lemma_small_mod((i + 1) as nat, p as nat);
        }
    }
    assert forall|i: int, j: int| 0 <= i < s.len() && 0 <= j < s.len() && i != j implies s[i]
        != s[j] by {
        if s[i] == s[j] {
            lemma_mod_equivalence(a * (i + 1), a * (j + 1), p);
            assert(a * (i + 1) - a * (j + 1) == a * (i - j)) by (nonlinear_arith);
            lemma_prime_divides_product(p, a, i - j);
            lemma_mod_equivalence(i, j, p);
            lemma_small_mod(i as nat, p as nat);
            lemma_small_mod(j as nat, p as nat);
        }
    }
}

/// A prime does not divide the factorial of a smaller number.
proof fn lemma_factorial_not_divisible(p: int, k: nat)
    requires
        is_prime_number(p),
        k < p,
    ensures
        factorial(k) % (p as nat) != 0,
    decreases k,
{
    if k == 0 {
        lemma_small_mod(1, p as nat);
    } else {
        lemma_factorial_not_divisible(p, (k - 1) as nat);
        if factorial(k) % (p as nat) == 0 {
            lemma_prime_divides_product(p, k as int, factorial((k - 1) as nat) as int);
            lemma_small_mod(k, p as nat);
        }
    }
}

/// Fermat's little theorem: `a^(p - 1)` is 1 modulo a prime `p` that does
/// not divide `a`.
pub proof fn lemma_fermat_little(p: int, a: int)
    requires
        is_prime_number(p),
        a % p != 0,
    ensures
        pow(a, (p - 1) as nat) % p == 1,
{
    let k = (p - 1) as nat;
    let s = multiples(a, p, k);
    lemma_multiples_permute(p, a);
    lemma_permutation_product(s, k);
    lemma_product_of_multiples(a, p, k);
    let f = factorial(k) as int;
    let w = pow(a, k);
    lemma_mod_equivalence(w * f, f, p);
    assert(w * f - f == (w - 1) * f) by (nonlinear_arith);
    lemma_prime_divides_product(p, w - 1, f);
    lemma_factorial_not_divisible(p, k);
    lemma_mod_equivalence(w, 1, p);
    lemma_small_mod(1, p as nat);
}

} // verus!
