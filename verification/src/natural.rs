//! Natural numbers of arbitrary size, held as 64-bit limbs.

use crate::backend::{pow_mod_limbs, random_below_limbs, MAX_LIMBS};
use crate::limbs::{
    borrowed, halved, lemma_borrowed_value, lemma_halved_value, lemma_highest_difference_decides,
    lemma_longer_trimmed_is_greater, lemma_same_limbs_same_value, lemma_value_parity,
    lemma_value_single, lemma_value_zero, limb_at, limbs_value,
};
use vstd::arithmetic::div_mod::lemma_mod_bound;
use vstd::arithmetic::power::pow;
use vstd::prelude::*;

verus! {

/// A natural number.
///
/// The limbs are little-endian and may carry leading zeros; two values with
/// different limbs can denote the same number, so compare with
/// [`Natural::equals`] and the other comparisons, which go by [`View`].
#[derive(Debug)]
pub struct Natural {
    limbs: Vec<u64>,
}

impl View for Natural {
    type V = nat;

    closed spec fn view(&self) -> nat {
        limbs_value(self.limbs@)
    }
}

/// How the numbers of two limb vectors compare: -1, 0 or 1 as the first is
/// less than, equal to or greater than the second.
fn compare_limbs(a: &Vec<u64>, b: &Vec<u64>) -> (sign: i8)
    ensures
        sign == -1 || sign == 0 || sign == 1,
        sign == -1 <==> limbs_value(a@) < limbs_value(b@),
        sign == 1 <==> limbs_value(a@) > limbs_value(b@),
{
    let mut i: usize = if a.len() > b.len() {
        a.len()
    } else {
        b.len()
    };
    while i > 0
        invariant
            forall|k: int| i <= k ==> limb_at(a@, k) == limb_at(b@, k),
        decreases i,
    {
        i -= 1;
        let x: u64 = if i < a.len() {
            a[i]
        } else {
            0
        };
        let y: u64 = if i < b.len() {
            b[i]
        } else {
            0
        };
        if x < y {
            proof {
                lemma_highest_difference_decides(a@, b@, i as int);
            }
            return -1;
        }
        if x > y {
            proof {
                lemma_highest_difference_decides(b@, a@, i as int);
            }
            return 1;
        }
    }
    proof {
        lemma_same_limbs_same_value(a@, b@);
    }
    0
}

impl Clone for Natural {
    fn clone(&self) -> (out: Self)
        ensures
            out@ == self@,
    {
        proof {
            use_type_invariant(self);
        }
        let limbs = self.limbs.clone();
        assert(limbs@ =~= self.limbs@);
        Natural { limbs }
    }
}

impl Natural {
    #[verifier::type_invariant]
    spec fn within_capacity(&self) -> bool {
        self.limbs@.len() <= MAX_LIMBS
    }

    /// The number `x`.
    pub fn from_u64(x: u64) -> (out: Natural)
        ensures
            out@ == x,
    {
        let limbs: Vec<u64> = vec![x];
        proof {
            assert(limbs@ =~= seq![x]);
            lemma_value_single(x);
        }
        Natural { limbs }
    }

    /// The number with the given little-endian limbs, or `None` if there are
    /// more than [`MAX_LIMBS`] of them.
    pub fn from_limbs(limbs: Vec<u64>) -> (out: Option<Natural>)
        ensures
            out.is_some() <==> limbs@.len() <= MAX_LIMBS,
            out matches Some(n) ==> n@ == limbs_value(limbs@),
    {
        if limbs.len() <= MAX_LIMBS {
            Some(Natural { limbs })
        } else {
            None
        }
    }

    /// The little-endian limbs of the number, as they are held.
    pub fn limbs(&self) -> (limbs: &Vec<u64>)
        ensures
            limbs_value(limbs@) == self@,
            limbs@.len() <= MAX_LIMBS,
    {
        proof {
            use_type_invariant(self);
        }
        &self.limbs
    }

    /// Whether `self < other`.
    pub fn lt(&self, other: &Natural) -> (less: bool)
        ensures
            less == (self@ < other@),
    {
        compare_limbs(&self.limbs, &other.limbs) == -1
    }

    /// Whether `self <= other`.
    pub fn le(&self, other: &Natural) -> (at_most: bool)
        ensures
            at_most == (self@ <= other@),
    {
        compare_limbs(&self.limbs, &other.limbs) != 1
    }

    /// Whether `self` and `other` are the same number.
    pub fn equals(&self, other: &Natural) -> (same: bool)
        ensures
            same == (self@ == other@),
    {
        compare_limbs(&self.limbs, &other.limbs) == 0
    }

    /// Whether the number is even.
    pub fn is_even(&self) -> (even: bool)
        ensures
            even == (self@ % 2 == 0),
    {
        proof {
            lemma_value_parity(self.limbs@);
        }
        self.limbs.len() == 0 || self.limbs[0] % 2 == 0
    }

    /// The number minus one.
    pub fn decrement(&self) -> (out: Natural)
        requires
            self@ > 0,
        ensures
            out@ == self@ - 1,
    {
        proof {
            use_type_invariant(self);
            lemma_value_zero(self.limbs@);
        }
        let n = self.limbs.len();
        let mut limbs: Vec<u64> = Vec::new();
        let mut i: usize = 0;
        while i < n && self.limbs[i] == 0
            invariant
                n == self.limbs@.len(),
                i <= n,
                limbs@.len() == i,
                forall|k: int| 0 <= k < i ==> self.limbs@[k] == 0,
                forall|k: int| 0 <= k < i ==> limbs@[k] == u64::MAX,
            decreases n - i,
        {
            limbs.push(u64::MAX);
            i += 1;
        }
        let ghost lowest = i as int;
        limbs.push(self.limbs[i] - 1);
        i += 1;
        while i < n
            invariant
                n == self.limbs@.len(),
                0 <= lowest < i <= n,
                limbs@.len() == i,
                forall|k: int| 0 <= k < i ==> limbs@[k] == borrowed(self.limbs@, lowest)[k],
            decreases n - i,
        {
            limbs.push(self.limbs[i]);
            i += 1;
        }
        proof {
            assert(limbs@ =~= borrowed(self.limbs@, lowest));
            lemma_borrowed_value(self.limbs@, lowest);
        }
        Natural { limbs }
    }

    /// Half the number, rounded down.
    pub fn halve(&self) -> (out: Natural)
        ensures
            out@ == self@ / 2,
    {
        proof {
            use_type_invariant(self);
        }
        let n = self.limbs.len();
        let mut limbs: Vec<u64> = Vec::new();
        let mut i: usize = 0;
        while i < n
            invariant
                n == self.limbs@.len(),
                i <= n,
                limbs@.len() == i,
                forall|k: int| 0 <= k < i ==> limbs@[k] == halved(self.limbs@)[k],
            decreases n - i,
        {
            let carried: u64 = if i + 1 < n {
                self.limbs[i + 1] % 2
            } else {
                0
            };
            limbs.push(self.limbs[i] / 2 + carried * 0x8000_0000_0000_0000);
            i += 1;
        }
        proof {
            assert(limbs@ =~= halved(self.limbs@));
            lemma_halved_value(self.limbs@);
        }
        Natural { limbs }
    }

    /// `self ^ exponent` modulo `modulus`, by the backend's modular
    /// exponentiation.
    pub fn pow_mod(&self, exponent: &Natural, modulus: &Natural) -> (out: Natural)
        requires
            modulus@ > 0,
        ensures
            out@ == pow(self@ as int, exponent@) % (modulus@ as int),
            out@ < modulus@,
    {
        proof {
            use_type_invariant(self);
            use_type_invariant(exponent);
            use_type_invariant(modulus);
        }
        let limbs = pow_mod_limbs(&self.limbs, &exponent.limbs, &modulus.limbs);
        proof {
            lemma_mod_bound(pow(self@ as int, exponent@), modulus@ as int);
            if limbs@.len() > modulus.limbs@.len() {
                lemma_longer_trimmed_is_greater(limbs@, modulus.limbs@);
            }
        }
        Natural { limbs }
    }

    /// A number below `bound`, drawn by the backend from the uniform
    /// distribution on `0 .. bound`. Two calls may differ.
    pub fn random_below(bound: &Natural) -> (out: Natural)
        requires
            bound@ > 0,
        ensures
            out@ < bound@,
    {
        proof {
            use_type_invariant(bound);
        }
        let limbs = random_below_limbs(&bound.limbs);
        proof {
            if limbs@.len() > bound.limbs@.len() {
                lemma_longer_trimmed_is_greater(limbs@, bound.limbs@);
            }
        }
        Natural { limbs }
    }
}

} // verus!
