//! Integers of either sign: a natural number and a sign flag.

use crate::natural::Natural;
use vstd::prelude::*;

verus! {

/// An integer of arbitrary size.
///
/// The sign flag of zero is ignored: both flags denote zero.
#[derive(Debug)]
pub struct BigInt {
    negative: bool,
    magnitude: Natural,
}

impl View for BigInt {
    type V = int;

    closed spec fn view(&self) -> int {
        if self.negative {
            -(self.magnitude@ as int)
        } else {
            self.magnitude@ as int
        }
    }
}

impl Clone for BigInt {
    fn clone(&self) -> (out: Self)
        ensures
            out@ == self@,
    {
        BigInt { negative: self.negative, magnitude: self.magnitude.clone() }
    }
}

impl BigInt {
    /// The integer `-magnitude` if `negative` is set, else `magnitude`.
    pub fn new(negative: bool, magnitude: Natural) -> (out: BigInt)
        ensures
            out@ == if negative {
                -(magnitude@ as int)
            } else {
                magnitude@ as int
            },
    {
        BigInt { negative, magnitude }
    }

    /// The integer `x`.
    pub fn from_u64(x: u64) -> (out: BigInt)
        ensures
            out@ == x,
    {
        BigInt { negative: false, magnitude: Natural::from_u64(x) }
    }

    /// Whether the integer is below zero.
    pub fn is_negative(&self) -> (negative: bool)
        ensures
            negative == (self@ < 0),
    {
        self.negative && !self.magnitude.equals(&Natural::from_u64(0))
    }

    /// The absolute value of the integer.
    pub fn magnitude(&self) -> (magnitude: &Natural)
        ensures
            magnitude@ == if self@ < 0 {
                -self@
            } else {
                self@
            },
    {
        &self.magnitude
    }
}

} // verus!
