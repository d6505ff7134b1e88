use rug::integer::{IsPrime, Order};
use rug::Integer;
use rug_miller_rabin::{is_prime, is_prime_with, BigInt, Evaluation, Natural};

fn signed(i: &Integer) -> BigInt {
    let magnitude = Natural::from_limbs(i.to_digits::<u64>(Order::Lsf)).unwrap();
    BigInt::new(*i < 0, magnitude)
}

fn two_to(e: u32) -> Integer {
    Integer::from(1) << e
}

fn word(x: u64) -> BigInt {
    BigInt::from_u64(x)
}

fn by_trial_division(n: u64) -> bool {
    if n < 2 {
        return false;
    }
    let mut d = 2;
    while d * d <= n {
        if n % d == 0 {
            return false;
        }
        d += 1;
    }
    true
}

#[test]
fn numbers_below_two_are_not_prime() {
    for k in [0usize, 1, 16, 64] {
        assert!(!is_prime(&word(0), k));
        assert!(!is_prime(&word(1), k));
        assert!(!is_prime(&signed(&Integer::from(-1)), k));
        assert!(!is_prime(&signed(&Integer::from(-2)), k));
        assert!(!is_prime(&signed(&Integer::from(-7)), k));
        assert!(!is_prime(&signed(&(Integer::from(1) - two_to(127))), k));
        assert!(!is_prime(&BigInt::new(true, Natural::from_u64(0)), k));
        assert!(!is_prime(&BigInt::new(true, Natural::from_u64(3)), k));
    }
}

#[test]
fn two_and_three_are_prime() {
    for k in [0usize, 1, 16, 64] {
        assert!(is_prime(&word(2), k));
        assert!(is_prime(&word(3), k));
    }
}

#[test]
fn small_primes_are_prime_for_every_count_of_rounds() {
    let primes: [u64; 23] =
        [5, 7, 11, 13, 17, 19, 23, 29, 31, 37, 41, 43, 47, 53, 59, 61, 67, 71, 73, 79, 83, 89, 97];
    for p in primes {
        for k in [1usize, 2, 16] {
            assert!(is_prime(&word(p), k));
        }
    }
}

#[test]
fn bounded_verdict_matches_trial_division() {
    for n in 0u64..3000 {
        assert_eq!(is_prime(&word(n), 16), by_trial_division(n), "{}", n);
    }
}

#[test]
fn bounded_verdict_matches_the_reference_test() {
    let mut x: u64 = 0x9e37_79b9_7f4a_7c15;
    for _ in 0..300 {
        x = x.wrapping_mul(6364136223846793005).wrapping_add(1442695040888963407);
        let n = x | 1;
        let expected = Integer::from(n).is_probably_prime(40) != IsPrime::No;
        assert_eq!(is_prime(&word(n), 16), expected, "{}", n);
    }
}

#[test]
fn bounded_verdict_sees_through_pseudoprimes() {
    // Carmichael numbers and strong pseudoprimes to the first few prime bases.
    let composites: [u64; 9] = [
        561,
        1105,
        1729,
        2047,
        1_373_653,
        25_326_001,
        3_215_031_751,
        341_550_071_728_321,
        3_825_123_056_546_413_051,
    ];
    for n in composites {
        assert!(!is_prime(&word(n), 16), "{}", n);
    }
}

#[test]
fn bounded_verdict_at_the_top_of_the_range() {
    assert!(is_prime(&word(18_446_744_073_709_551_557), 16));
    assert!(!is_prime(&word(18_446_744_073_709_551_559), 16));
    assert!(!is_prime(&word(u64::MAX), 16));
    assert!(is_prime(&word((1 << 61) - 1), 16));
}

#[test]
fn bounded_verdict_ignores_the_count_of_rounds() {
    for n in [4u64, 9, 97, 561, 7919, 0x7fff_ffff, 3_215_031_751, u64::MAX] {
        let expected = is_prime(&word(n), 16);
        for k in [0usize, 1, 3, 100] {
            assert_eq!(is_prime(&word(n), k), expected);
        }
    }
}

#[test]
fn even_numbers_above_two_are_composite() {
    for n in [4u64, 6, 8, 10, 100, 1 << 40, u64::MAX - 1] {
        assert!(!is_prime(&word(n), 16));
    }
    assert!(!is_prime(&signed(&two_to(127)), 16));
}

#[test]
fn large_primes_are_never_taken_for_composite() {
    let primes: [Integer; 4] = [
        two_to(127) - 1u32,
        two_to(89) - 1u32,
        two_to(521) - 1u32,
        Integer::from(u64::MAX) + 14u32,
    ];
    for p in &primes {
        assert_ne!(p.is_probably_prime(40), IsPrime::No);
        for k in [1usize, 4, 16, 64] {
            assert!(is_prime(&signed(p), k));
        }
    }
}

#[test]
fn large_composites_are_found_out() {
    let p: Integer = two_to(127) - 1u32;
    let q: Integer = two_to(89) - 1u32;
    let composites: [Integer; 5] = [
        Integer::from(&p * &q),
        Integer::from(&p * &p),
        two_to(127) - 3u32,
        Integer::from(u64::MAX) + 2u32,
        Integer::from(Integer::parse_radix(b"318665857834031151167461", 10).unwrap()),
    ];
    for c in &composites {
        assert!(!is_prime(&signed(c), 16));
        assert!(!is_prime(&signed(c), 64));
    }
}

#[test]
fn no_rounds_above_the_limit_let_every_number_pass() {
    let c: Integer = Integer::from(u64::MAX) + 2u32;
    assert!(is_prime(&signed(&c), 0));
    assert!(is_prime_with(&signed(&c), 0, Evaluation::Sequential));
}

#[test]
fn repeated_tests_agree() {
    for n in [0u64, 1, 2, 3, 4, 91, 97, 561, 0x7fff_ffff, u64::MAX] {
        let first = is_prime(&word(n), 16);
        for _ in 0..5 {
            assert_eq!(is_prime(&word(n), 16), first);
        }
    }
    let p: Integer = two_to(127) - 1u32;
    for _ in 0..5 {
        assert!(is_prime(&signed(&p), 16));
    }
}

#[test]
fn both_evaluations_give_the_same_verdict() {
    for n in 0u64..500 {
        assert_eq!(
            is_prime_with(&word(n), 16, Evaluation::Parallel),
            is_prime_with(&word(n), 16, Evaluation::Sequential)
        );
    }
    let p: Integer = two_to(127) - 1u32;
    let c: Integer = two_to(127) - 3u32;
    for evaluation in [Evaluation::Parallel, Evaluation::Sequential] {
        assert!(is_prime_with(&signed(&p), 16, evaluation));
        assert!(!is_prime_with(&signed(&c), 16, evaluation));
    }
}

#[test]
fn named_scenarios() {
    assert!(is_prime(&word(0x7FFF_FFFF), 16));
    assert!(!is_prime(&word(0xFFFF_FFFF_FFFF_FFFF), 16));
    assert!(is_prime(&signed(&(two_to(127) - 1u32)), 16));
    assert!(!is_prime(&signed(&(two_to(127) - 3u32)), 16));
}

#[test]
fn leading_zero_limbs_do_not_matter() {
    let padded = BigInt::new(false, Natural::from_limbs(vec![97, 0, 0]).unwrap());
    assert!(is_prime(&padded, 16));
    let padded = BigInt::new(false, Natural::from_limbs(vec![91, 0]).unwrap());
    assert!(!is_prime(&padded, 16));
    let padded = BigInt::new(false, Natural::from_limbs(vec![1, 0, 0, 0]).unwrap());
    assert!(!is_prime(&padded, 16));
}
