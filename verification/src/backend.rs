//! The arithmetic that is left to `rug`, and the randomness left to `rand`.
//!
//! Each function here hands limb vectors to an outside routine and hands its
//! answer back as limbs. Their contracts are not proved: they restate what
//! the outside documentation and source promise, and everything else in the
//! crate is proved from them.

use crate::limbs::{is_trimmed, limbs_value};
use crate::miller_rabin::{any_witness, values};
use crate::natural::Natural;
use crate::witness::miller_rabin_iteration;
use rayon::iter::{IntoParallelRefIterator, ParallelIterator};
use rug::integer::Order;
use rug::rand::{ThreadRandGen, ThreadRandState};
use rug::Integer;
use vstd::arithmetic::power::pow;
use vstd::prelude::*;

verus! {

/// The most limbs a number may have: `2^26 - 1`.
///
/// `rug` counts the bits of the limbs it is given in a `usize`, and GMP
/// gives up on numbers whose limb count does not fit its size fields. With
/// at most this many 64-bit limbs the bit count stays below `2^32`, which
/// meets both on 32-bit and on 64-bit targets.
pub const MAX_LIMBS: usize = 0x3ff_ffff;

/// The word generator behind every random draw: the thread-local generator
/// of `rand`, asked afresh for each word.
struct Seed {}

/// Calls `rand::random::<u32>`. Nothing is claimed of the word it returns.
#[verifier::external_body]
fn random_word() -> u32 {
    rand::random()
}

impl ThreadRandGen for Seed {
    fn gen(&mut self) -> u32 {
        random_word()
    }
}

/// Calls `rug::Integer::pow_mod_ref` and completes the returned value.
///
/// Claimed: for a non-negative exponent and a non-zero modulus the call
/// answers, and the answer is the least non-negative residue of
/// `base ^ exponent` modulo `modulus` (with `0 ^ 0 = 1`), written with no
/// leading zero limb, as `to_digits` does.
#[verifier::external_body]
pub(crate) fn pow_mod_limbs(base: &Vec<u64>, exponent: &Vec<u64>, modulus: &Vec<u64>) -> (out: Vec<
    u64,
>)
    requires
        base@.len() <= MAX_LIMBS,
        exponent@.len() <= MAX_LIMBS,
        modulus@.len() <= MAX_LIMBS,
        limbs_value(modulus@) > 0,
    ensures
        limbs_value(out@) == pow(limbs_value(base@) as int, limbs_value(exponent@)) % (limbs_value(
            modulus@,
        ) as int),
        is_trimmed(out@),
{
    let base = Integer::from_digits(base.as_slice(), Order::Lsf);
    let exponent = Integer::from_digits(exponent.as_slice(), Order::Lsf);
    let modulus = Integer::from_digits(modulus.as_slice(), Order::Lsf);
    let power = base.pow_mod_ref(&exponent, &modulus).unwrap();
    Integer::from(power).to_digits::<u64>(Order::Lsf)
}

/// Calls `rug::Integer::random_below` with a generator state made by
/// `rug::rand::ThreadRandState::new_custom` over a fresh [`Seed`].
///
/// Claimed: for a positive bound the result is a natural number below the
/// bound, written with no leading zero limb. Which number it is depends on
/// the words drawn, so nothing more is said.
#[verifier::external_body]
pub(crate) fn random_below_limbs(bound: &Vec<u64>) -> (out: Vec<u64>)
    requires
        bound@.len() <= MAX_LIMBS,
        limbs_value(bound@) > 0,
    ensures
        limbs_value(out@) < limbs_value(bound@),
        is_trimmed(out@),
{
    let mut seed = Seed {  };
    let mut state = ThreadRandState::new_custom(&mut seed);
    let bound = Integer::from_digits(bound.as_slice(), Order::Lsf);
    bound.random_below(&mut state).to_digits::<u64>(Order::Lsf)
}

/// Calls rayon's `par_iter` on the witnesses and `find_any` with one round
/// of the test as the predicate.
///
/// Claimed: `find_any` returns an item exactly if the predicate holds of
/// some item, whichever thread finds it and however many rounds are given
/// up; the predicate is [`miller_rabin_iteration`], whose answer is that of
/// its contract.
#[verifier::external_body]
pub(crate) fn find_witness_parallel(
    witnesses: &Vec<Natural>,
    n: &Natural,
    d: &Natural,
    r: u64,
) -> (found: bool)
    requires
        n@ > 0,
    ensures
        found == any_witness(values(witnesses@), n@, d@, r as nat),
{
    witnesses.par_iter().find_any(|a| miller_rabin_iteration(a, n, d, r)).is_some()
}

} // verus!
