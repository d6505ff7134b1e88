use rug::integer::Order;
use rug::Integer;
use rug_miller_rabin::miller_rabin::{
    choose_witnesses, find_witness, find_witness_sequential, fixed_witnesses, random_witnesses,
};
use rug_miller_rabin::{
    decompose, miller_rabin_iteration, verdict, Evaluation, Natural, DETERMINISTIC_LIMIT,
};

fn power_of_two(e: u32) -> Integer {
    Integer::from(1) << e
}

fn num(x: u64) -> Natural {
    Natural::from_u64(x)
}

fn to_integer(n: &Natural) -> Integer {
    Integer::from_digits(n.limbs().as_slice(), Order::Lsf)
}

fn to_natural(i: &Integer) -> Natural {
    Natural::from_limbs(i.to_digits::<u64>(Order::Lsf)).unwrap()
}

fn words(witnesses: &Vec<Natural>) -> Vec<Integer> {
    witnesses.iter().map(to_integer).collect()
}

#[test]
fn decompose_small_numbers() {
    let (d, r) = decompose(&num(13));
    assert!(d.equals(&num(3)));
    assert_eq!(r, 2);
    let (d, r) = decompose(&num(2));
    assert!(d.equals(&num(1)));
    assert_eq!(r, 0);
    let (d, r) = decompose(&num(3));
    assert!(d.equals(&num(1)));
    assert_eq!(r, 1);
    let (d, r) = decompose(&num(4));
    assert!(d.equals(&num(3)));
    assert_eq!(r, 0);
    let (d, r) = decompose(&num(561));
    assert!(d.equals(&num(35)));
    assert_eq!(r, 4);
    let (d, r) = decompose(&num(0x7fff_ffff));
    assert!(d.equals(&num(0x3fff_ffff)));
    assert_eq!(r, 1);
}

#[test]
fn decompose_gives_an_odd_part_and_the_power_of_two() {
    for n in 2u64..2000 {
        let (d, r) = decompose(&num(n));
        let d = to_integer(&d);
        assert!(d.is_odd());
        assert_eq!(d << (r as u32), n - 1);
    }
}

#[test]
fn decompose_across_limbs() {
    let n: Integer = power_of_two(200) + 1u32;
    let (d, r) = decompose(&to_natural(&n));
    assert!(d.equals(&num(1)));
    assert_eq!(r, 200);
    let n: Integer = power_of_two(130) * 45u32 + 1u32;
    let (d, r) = decompose(&to_natural(&n));
    assert!(d.equals(&num(45)));
    assert_eq!(r, 130);
    let n: Integer = power_of_two(127) - 1u32;
    let (d, r) = decompose(&to_natural(&n));
    assert_eq!(to_integer(&d), power_of_two(126) - 1u32);
    assert_eq!(r, 1);
}

#[test]
fn round_finds_witnesses_of_nine() {
    // 9 - 1 = 1 * 2^3; the residues of 2 are 2, 4, 7: none is 1 or 8.
    assert!(miller_rabin_iteration(&num(2), &num(9), &num(1), 3));
    // 8 is -1 modulo 9.
    assert!(!miller_rabin_iteration(&num(8), &num(9), &num(1), 3));
    assert!(!miller_rabin_iteration(&num(1), &num(9), &num(1), 3));
}

#[test]
fn round_passes_primes() {
    // 7 - 1 = 3 * 2: 2^3 = 8 is 1 modulo 7.
    assert!(!miller_rabin_iteration(&num(2), &num(7), &num(3), 1));
    // 3^3 = 27 is -1 modulo 7.
    assert!(!miller_rabin_iteration(&num(3), &num(7), &num(3), 1));
    // 13 - 1 = 3 * 4: 2^3 = 8, then 8^2 = 64 is -1 modulo 13.
    assert!(!miller_rabin_iteration(&num(2), &num(13), &num(3), 2));
    for a in 1u64..96 {
        assert!(!miller_rabin_iteration(&num(a), &num(97), &num(3), 5));
    }
}

#[test]
fn round_squares_one_time_less_than_the_count() {
    // 2^3 = 8, 8^2 = 64 = 13 mod 17, 13^2 = 169 = 16 mod 17.
    assert!(!miller_rabin_iteration(&num(2), &num(17), &num(3), 3));
    assert!(miller_rabin_iteration(&num(2), &num(17), &num(3), 2));
    assert!(miller_rabin_iteration(&num(2), &num(17), &num(3), 1));
    assert!(miller_rabin_iteration(&num(2), &num(17), &num(3), 0));
}

#[test]
fn round_with_no_squaring_still_looks_at_the_first_residue() {
    // An even number has r = 0: 2^3 = 0 modulo 4.
    assert!(miller_rabin_iteration(&num(2), &num(4), &num(3), 0));
    // 3^3 = 27 = 3 = -1 modulo 4.
    assert!(!miller_rabin_iteration(&num(3), &num(4), &num(3), 0));
    assert!(!miller_rabin_iteration(&num(1), &num(4), &num(3), 0));
}

#[test]
fn round_takes_base_zero_for_a_witness() {
    assert!(miller_rabin_iteration(&num(0), &num(7), &num(3), 1));
    assert!(miller_rabin_iteration(&num(0), &num(9), &num(1), 3));
}

#[test]
fn round_modulo_one() {
    assert!(!miller_rabin_iteration(&num(5), &num(1), &num(3), 2));
}

#[test]
fn round_detects_strong_pseudoprime_with_another_base() {
    // 2047 = 23 * 89 passes base 2 and fails base 3; 2046 = 1023 * 2.
    assert!(!miller_rabin_iteration(&num(2), &num(2047), &num(1023), 1));
    assert!(miller_rabin_iteration(&num(3), &num(2047), &num(1023), 1));
}

#[test]
fn fixed_witnesses_are_the_first_primes_below_the_bound() {
    let all: Vec<u64> = vec![2, 3, 5, 7, 11, 13, 17, 19, 23, 29, 31, 37];
    assert_eq!(words(&fixed_witnesses(&num(99))), all);
    assert_eq!(words(&fixed_witnesses(&num(38))), all);
    assert_eq!(words(&fixed_witnesses(&num(37))), &all[..11]);
    assert_eq!(words(&fixed_witnesses(&num(4))), vec![2u64, 3]);
    assert_eq!(words(&fixed_witnesses(&num(3))), vec![2u64]);
    assert_eq!(words(&fixed_witnesses(&num(2))), Vec::<u64>::new());
    assert_eq!(words(&fixed_witnesses(&num(0))), Vec::<u64>::new());
    assert_eq!(words(&fixed_witnesses(&Natural::from_limbs(vec![0, 1]).unwrap())), all);
}

#[test]
fn random_witnesses_are_as_many_as_asked_and_in_range() {
    let bound = Natural::from_limbs(vec![7, 0, 1]).unwrap();
    for k in [0usize, 1, 5, 64] {
        let drawn = random_witnesses(&bound, k);
        assert_eq!(drawn.len(), k);
        for w in &drawn {
            assert!(w.lt(&bound));
        }
    }
    let drawn = random_witnesses(&num(1), 9);
    assert_eq!(drawn.len(), 9);
    for w in &drawn {
        assert!(w.equals(&num(0)));
    }
}

#[test]
fn choice_of_witnesses_turns_at_the_limit() {
    assert_eq!(DETERMINISTIC_LIMIT, u64::MAX);
    let all: Vec<u64> = vec![2, 3, 5, 7, 11, 13, 17, 19, 23, 29, 31, 37];
    assert_eq!(words(&choose_witnesses(&num(u64::MAX), 3)), all);
    assert_eq!(words(&choose_witnesses(&num(5), 30)), vec![2u64, 3]);
    assert_eq!(words(&choose_witnesses(&num(4), 30)), vec![2u64]);
    let above = Natural::from_limbs(vec![0, 1]).unwrap();
    let drawn = choose_witnesses(&above, 3);
    assert_eq!(drawn.len(), 3);
    for w in &drawn {
        assert!(w.lt(&num(u64::MAX)));
    }
    assert_eq!(choose_witnesses(&above, 0).len(), 0);
    assert_eq!(choose_witnesses(&above, 40).len(), 40);
}

#[test]
fn search_agrees_between_the_two_evaluations() {
    let bases: Vec<Natural> = (1u64..40).map(num).collect();
    for n in [9u64, 15, 97, 561, 2047, 7919, 1_000_003, 3_215_031_751] {
        let (d, r) = decompose(&num(n));
        let sequential = find_witness_sequential(&bases, &num(n), &d, r);
        assert_eq!(find_witness(&bases, &num(n), &d, r, Evaluation::Sequential), sequential);
        assert_eq!(find_witness(&bases, &num(n), &d, r, Evaluation::Parallel), sequential);
    }
}

#[test]
fn search_finds_a_witness_wherever_it_stands() {
    let (d, r) = decompose(&num(2047));
    for evaluation in [Evaluation::Parallel, Evaluation::Sequential] {
        assert!(!find_witness(&vec![], &num(2047), &d, r, evaluation));
        assert!(!find_witness(&vec![num(2)], &num(2047), &d, r, evaluation));
        assert!(!find_witness(&vec![num(2), num(1), num(2046)], &num(2047), &d, r, evaluation));
        assert!(find_witness(&vec![num(3)], &num(2047), &d, r, evaluation));
        assert!(find_witness(&vec![num(2), num(1), num(3)], &num(2047), &d, r, evaluation));
        assert!(find_witness(&vec![num(3), num(2), num(1)], &num(2047), &d, r, evaluation));
        assert!(find_witness(&vec![num(2), num(3), num(1)], &num(2047), &d, r, evaluation));
    }
}

#[test]
fn verdict_goes_by_the_given_witnesses() {
    for evaluation in [Evaluation::Parallel, Evaluation::Sequential] {
        assert!(verdict(&num(2047), &vec![num(2)], evaluation));
        assert!(!verdict(&num(2047), &vec![num(2), num(3)], evaluation));
        assert!(verdict(&num(2047), &vec![], evaluation));
        assert!(verdict(&num(97), &(1u64..96).map(num).collect(), evaluation));
        assert!(!verdict(&num(91), &(2u64..12).map(num).collect(), evaluation));
    }
}

#[test]
fn verdict_on_a_prime_fails_only_with_base_zero() {
    let p: Integer = power_of_two(127) - 1u32;
    let n = to_natural(&p);
    let bases: Vec<Natural> = (1u64..60).map(num).collect();
    assert!(verdict(&n, &bases, Evaluation::Sequential));
    assert!(verdict(&n, &bases, Evaluation::Parallel));
    assert!(!verdict(&n, &vec![num(0)], Evaluation::Sequential));
    assert!(!verdict(&n, &vec![num(5), num(0)], Evaluation::Parallel));
}
