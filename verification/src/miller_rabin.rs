//! The test itself: which bases are tried, how the rounds are run, and what
//! the verdict says.

use crate::backend::find_witness_parallel;
use crate::bigint::BigInt;
use crate::decomposition::{decompose, lemma_decomposition_exists, odd_part, valuation};
use crate::natural::Natural;
use crate::primes::is_prime_number;
use crate::witness::{
    is_witness, lemma_prime_has_no_witness, lemma_two_proves_even_composite,
    miller_rabin_iteration, strong_witness,
};
use vstd::arithmetic::div_mod::lemma_small_mod;
use vstd::prelude::*;

verus! {

/// The largest input on which the fixed bases are used: `2^64 - 1`.
pub const DETERMINISTIC_LIMIT: u64 = 0xffff_ffff_ffff_ffff;

/// How the rounds of one test are run.
#[derive(Clone, Copy, Debug, PartialEq, Eq)]
pub enum Evaluation {
    /// On the worker threads of the global pool, giving up the remaining
    /// rounds once one has found a witness.
    Parallel,
    /// One after the other on the calling thread, stopping at the first
    /// witness.
    Sequential,
}

/// The bases tried on inputs up to [`DETERMINISTIC_LIMIT`]: the first
/// twelve primes, in order.
pub open spec fn fixed_bases() -> Seq<nat> {
    seq![2, 3, 5, 7, 11, 13, 17, 19, 23, 29, 31, 37]
}

/// The predicate "is below `bound`".
pub open spec fn below(bound: nat) -> spec_fn(nat) -> bool {
    |a: nat| a < bound
}

/// The bases tried on an input `n` up to [`DETERMINISTIC_LIMIT`]: the fixed
/// bases below `n - 1`.
pub open spec fn deterministic_bases(n: nat) -> Seq<nat> {
    fixed_bases().filter(below((n - 1) as nat))
}

/// Whether `bases` can be the outcome of drawing `k` bases for `n`: there
/// are `k` of them, each below `n - 1`.
pub open spec fn is_draw(bases: Seq<nat>, n: nat, k: nat) -> bool {
    bases.len() == k && forall|i: int| 0 <= i < bases.len() ==> bases[i] < n - 1
}

/// The numbers that the witnesses denote.
pub open spec fn values(witnesses: Seq<Natural>) -> Seq<nat> {
    witnesses.map_values(|w: Natural| w@)
}

/// Whether one of `bases` proves `n` composite, given `n - 1 = d * 2^r`.
pub open spec fn any_witness(bases: Seq<nat>, n: nat, d: nat, r: nat) -> bool {
    exists|i: int| 0 <= i < bases.len() && #[trigger] is_witness(bases[i], n, d, r)
}

/// Whether `n` passes the test to every one of `bases`.
pub open spec fn passes(n: nat, bases: Seq<nat>) -> bool {
    forall|i: int| 0 <= i < bases.len() ==> !#[trigger] strong_witness(bases[i], n)
}

/// Whether `verdict` is an answer that the test may give on `n` with `k`
/// random rounds.
///
/// Below two the answer is no, and two and three are prime. Up to
/// [`DETERMINISTIC_LIMIT`] the answer is that of the fixed bases. Above it
/// the answer is that of some draw of `k` bases.
pub open spec fn is_verdict(n: int, k: nat, verdict: bool) -> bool {
    if n <= 1 {
        !verdict
    } else if n <= 3 {
        verdict
    } else if n <= DETERMINISTIC_LIMIT {
        verdict == passes(n as nat, deterministic_bases(n as nat))
    } else {
        exists|bases: Seq<nat>|
            is_draw(bases, n as nat, k) && verdict == #[trigger] passes(n as nat, bases)
    }
}

/// What a filter keeps is a member of the sequence that it filters.
proof fn lemma_filter_keeps_members(s: Seq<nat>, keep: spec_fn(nat) -> bool, i: int)
    requires
        0 <= i < s.filter(keep).len(),
    ensures
        s.contains(s.filter(keep)[i]),
        keep(s.filter(keep)[i]),
    decreases s.len(),
{
    reveal(Seq::filter);
    if s.len() > 0 {
        let front = s.drop_last();
        let kept = front.filter(keep);
        if i < kept.len() {
            lemma_filter_keeps_members(front, keep, i);
            let j = choose|j: int| 0 <= j < front.len() && front[j] == kept[i];
            assert(s[j] == kept[i]);
        } else {
            assert(s[s.len() - 1] == s.last());
        }
    }
}

/// A prime passes the test to all bases that it does not divide: the test
/// never takes a prime for composite on such bases.
pub proof fn lemma_prime_passes(p: nat, bases: Seq<nat>)
    requires
        is_prime_number(p as int),
        forall|i: int| 0 <= i < bases.len() ==> #[trigger] bases[i] % p != 0,
    ensures
        passes(p, bases),
{
    lemma_decomposition_exists((p - 1) as nat);
    assert forall|i: int| 0 <= i < bases.len() implies !#[trigger] strong_witness(bases[i], p) by {
        assert(bases[i] % p != 0);
        lemma_prime_has_no_witness(
            p,
            bases[i],
            odd_part((p - 1) as nat),
            valuation((p - 1) as nat),
        );
    }
}

/// A prime passes the test to any draw that does not hold zero.
pub proof fn lemma_prime_passes_draw(p: nat, k: nat, bases: Seq<nat>)
    requires
        is_prime_number(p as int),
        is_draw(bases, p, k),
        !bases.contains(0),
    ensures
        passes(p, bases),
{
    assert forall|i: int| 0 <= i < bases.len() implies #[trigger] bases[i] % p != 0 by {
        assert(bases.contains(bases[i]));
        lemma_small_mod(bases[i], p);
    }
    lemma_prime_passes(p, bases);
}

/// A prime passes the test to the fixed bases.
pub proof fn lemma_prime_passes_fixed_bases(p: nat)
    requires
        is_prime_number(p as int),
    ensures
        passes(p, deterministic_bases(p)),
{
    let keep = below((p - 1) as nat);
    let bases = deterministic_bases(p);
    assert forall|i: int| 0 <= i < bases.len() implies #[trigger] bases[i] % p != 0 by {
        lemma_filter_keeps_members(fixed_bases(), keep, i);
        let j = choose|j: int| 0 <= j < fixed_bases().len() && fixed_bases()[j] == bases[i];
        assert(fixed_bases()[j] >= 2);
        lemma_small_mod(bases[i], p);
    }
    lemma_prime_passes(p, bases);
}

/// An even number from four on fails the test to the fixed bases.
pub proof fn lemma_even_fails_fixed_bases(n: nat)
    requires
        n >= 4,
        n % 2 == 0,
    ensures
        !passes(n, deterministic_bases(n)),
{
    let keep = below((n - 1) as nat);
    let bases = deterministic_bases(n);
    assert(fixed_bases()[0] == 2 && keep(2));
    fixed_bases().lemma_filter_contains(keep, 0);
    let i = choose|i: int| 0 <= i < bases.len() && bases[i] == 2;
    lemma_two_proves_even_composite(n);
    assert(strong_witness(bases[i], n));
}

/// Up to [`DETERMINISTIC_LIMIT`] an even number above two is always found
/// composite.
pub proof fn lemma_bounded_even_verdict(n: int, k: nat, verdict: bool)
    requires
        2 < n <= DETERMINISTIC_LIMIT,
        n % 2 == 0,
        is_verdict(n, k, verdict),
    ensures
        !verdict,
{
    lemma_even_fails_fixed_bases(n as nat);
}

/// Up to [`DETERMINISTIC_LIMIT`] a prime is always found prime.
pub proof fn lemma_bounded_prime_verdict(n: int, k: nat, verdict: bool)
    requires
        is_prime_number(n),
        n <= DETERMINISTIC_LIMIT,
        is_verdict(n, k, verdict),
    ensures
        verdict,
{
    if n > 3 {
        lemma_prime_passes_fixed_bases(n as nat);
    }
}

/// Up to [`DETERMINISTIC_LIMIT`] the verdict depends on the input alone:
/// two tests of the same number agree, whatever their numbers of rounds.
pub proof fn lemma_bounded_verdict_unique(n: int, k1: nat, k2: nat, verdict1: bool, verdict2: bool)
    requires
        n <= DETERMINISTIC_LIMIT,
        is_verdict(n, k1, verdict1),
        is_verdict(n, k2, verdict2),
    ensures
        verdict1 == verdict2,
{
}

/// The fixed bases below `n_minus_one`, in order.
pub fn fixed_witnesses(n_minus_one: &Natural) -> (out: Vec<Natural>)
    ensures
        values(out@) == fixed_bases().filter(below(n_minus_one@)),
{
    let samples: Vec<u8> = vec![2, 3, 5, 7, 11, 13, 17, 19, 23, 29, 31, 37];
    let ghost keep = below(n_minus_one@);
    let mut out: Vec<Natural> = Vec::new();
    let mut i: usize = 0;
    proof {
        reveal(Seq::filter);
        assert(fixed_bases().take(0).filter(keep) =~= Seq::<nat>::empty());
        assert(values(out@) =~= Seq::<nat>::empty());
    }
    while i < samples.len()
        invariant
            i <= samples@.len() == fixed_bases().len(),
            forall|j: int| 0 <= j < samples@.len() ==> samples@[j] as nat == fixed_bases()[j],
            keep == below(n_minus_one@),
            values(out@) == fixed_bases().take(i as int).filter(keep),
        decreases samples@.len() - i,
    {
        let m = Natural::from_u64(samples[i] as u64);
        proof {
            let before = fixed_bases().take(i as int);
            let now = fixed_bases().take(i + 1);
            reveal(Seq::filter);
            assert(now.drop_last() =~= before);
            assert(now.last() == m@);
            assert(values(out@.push(m)) =~= values(out@).push(m@));
        }
        if m.lt(n_minus_one) {
            out.push(m);
        }
        i += 1;
    }
    proof {
        assert(fixed_bases().take(i as int) =~= fixed_bases());
    }
    out
}

/// Draws `k` bases from the uniform distribution on `0 .. n_minus_one`.
pub fn random_witnesses(n_minus_one: &Natural, k: usize) -> (out: Vec<Natural>)
    requires
        n_minus_one@ > 0,
    ensures
        is_draw(values(out@), n_minus_one@ + 1, k as nat),
{
    let mut out: Vec<Natural> = Vec::new();
    while out.len() < k
        invariant
            n_minus_one@ > 0,
            out@.len() <= k,
            forall|i: int| 0 <= i < out@.len() ==> (#[trigger] out@[i])@ < n_minus_one@,
        decreases k - out@.len(),
    {
        let m = Natural::random_below(n_minus_one);
        // Every draw is in range; the check only guards the collection.
        if m.lt(n_minus_one) {
            out.push(m);
        }
    }
    out
}

/// The bases to try on `n`: the fixed bases below `n - 1` if `n` is at most
/// [`DETERMINISTIC_LIMIT`], and `k` fresh random bases otherwise.
pub fn choose_witnesses(n: &Natural, k: usize) -> (out: Vec<Natural>)
    requires
        n@ >= 2,
    ensures
        n@ <= DETERMINISTIC_LIMIT ==> values(out@) == deterministic_bases(n@),
        n@ > DETERMINISTIC_LIMIT ==> is_draw(values(out@), n@, k as nat),
{
    let n_minus_one = n.decrement();
    if n.le(&Natural::from_u64(DETERMINISTIC_LIMIT)) {
        fixed_witnesses(&n_minus_one)
    } else {
        random_witnesses(&n_minus_one, k)
    }
}

/// Whether one of the witnesses proves `n` composite, given the
/// decomposition `n - 1 = d * 2^r`; the rounds are run one after the other.
pub fn find_witness_sequential(witnesses: &Vec<Natural>, n: &Natural, d: &Natural, r: u64) -> (found:
    bool)
    requires
        n@ > 0,
    ensures
        found == any_witness(values(witnesses@), n@, d@, r as nat),
{
    let mut i: usize = 0;
    while i < witnesses.len()
        invariant
            n@ > 0,
            i <= witnesses@.len(),
            forall|j: int|
                0 <= j < i ==> !#[trigger] is_witness(values(witnesses@)[j], n@, d@, r as nat),
        decreases witnesses@.len() - i,
    {
        if miller_rabin_iteration(&witnesses[i], n, d, r) {
            assert(is_witness(values(witnesses@)[i as int], n@, d@, r as nat));
            return true;
        }
        i += 1;
    }
    false
}

/// Whether one of the witnesses proves `n` composite, given the
/// decomposition `n - 1 = d * 2^r`. Both ways of running the rounds give
/// the same answer.
pub fn find_witness(
    witnesses: &Vec<Natural>,
    n: &Natural,
    d: &Natural,
    r: u64,
    evaluation: Evaluation,
) -> (found: bool)
    requires
        n@ > 0,
    ensures
        found == any_witness(values(witnesses@), n@, d@, r as nat),
{
    match evaluation {
        Evaluation::Parallel => find_witness_parallel(witnesses, n, d, r),
        Evaluation::Sequential => find_witness_sequential(witnesses, n, d, r),
    }
}

/// Whether `n` passes the test to every one of the given witnesses.
pub fn verdict(n: &Natural, witnesses: &Vec<Natural>, evaluation: Evaluation) -> (pass: bool)
    requires
        n@ >= 2,
    ensures
        pass == passes(n@, values(witnesses@)),
{
    let (d, r) = decompose(n);
    let found = find_witness(witnesses, n, &d, r, evaluation);
    proof {
        let bases = values(witnesses@);
        if found {
            let i = choose|i: int|
                0 <= i < bases.len() && #[trigger] is_witness(bases[i], n@, d@, r as nat);
            assert(strong_witness(bases[i], n@));
        } else {
            assert forall|i: int| 0 <= i < bases.len() implies !#[trigger] strong_witness(
                bases[i],
                n@,
            ) by {
                assert(!is_witness(bases[i], n@, d@, r as nat));
            }
        }
    }
    !found
}

/// Tests whether `n` is prime, running the rounds as `evaluation` says.
///
/// `false` means that some base proves `n` composite, or that `n` is below
/// two. `true` means that no base that was tried does. Up to
/// [`DETERMINISTIC_LIMIT`] the bases are fixed, `k` plays no part, and a
/// prime is always found prime. Above it `k` random bases are drawn, so two
/// calls may disagree.
pub fn is_prime_with(n: &BigInt, k: usize, evaluation: Evaluation) -> (probably_prime: bool)
    ensures
        is_verdict(n@, k as nat, probably_prime),
        n@ <= DETERMINISTIC_LIMIT && is_prime_number(n@) ==> probably_prime,
{
    if n.is_negative() {
        return false;
    }
    let m = n.magnitude();
    if m.le(&Natural::from_u64(1)) {
        return false;
    }
    if m.le(&Natural::from_u64(3)) {
        return true;
    }
    let witnesses = choose_witnesses(m, k);
    let pass = verdict(m, &witnesses, evaluation);
    proof {
        let bases = values(witnesses@);
        assert(m@ == n@ as nat);
        if n@ > DETERMINISTIC_LIMIT {
            assert(is_draw(bases, n@ as nat, k as nat) && pass == passes(n@ as nat, bases));
        } else if is_prime_number(n@) {
            lemma_bounded_prime_verdict(n@, k as nat, pass);
        }
    }
    pass
}

/// Tests whether `n` is prime by the Miller-Rabin test, with `k` random
/// rounds where `n` is above [`DETERMINISTIC_LIMIT`]. The rounds run in
/// parallel.
///
/// See [`is_prime_with`] for what the answer means.
pub fn is_prime(n: &BigInt, k: usize) -> (probably_prime: bool)
    ensures
        is_verdict(n@, k as nat, probably_prime),
        n@ <= DETERMINISTIC_LIMIT && is_prime_number(n@) ==> probably_prime,
{
    is_prime_with(n, k, Evaluation::Parallel)
}

} // verus!
