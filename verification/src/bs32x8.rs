//! The rule of the lane-wide pricer that is a decision, not arithmetic:
//! the clamp of the normal distribution function.
//!
//! The pricer evaluates the distribution function by a formula that holds
//! an exponential, which for an argument far from zero leaves the range of
//! the numbers. It therefore reports a probability of zero below a lower
//! limit of the argument and of one above an upper limit, slot by slot
//! and without a branch on the lane as a whole.

use vstd::arithmetic::power2::{lemma2_to64, lemma_pow2_adds, pow2};
use vstd::prelude::*;
use crate::consts::LANES;
use crate::ieee::{exponent, fraction, less, lt, scaled};
use crate::lane::Lane;

verus! {

/// Bit pattern of the argument below which the probability is zero: minus
/// one hundred thousand.
pub const CDF_LOWER_LIMIT: u32 = 0xc7c3_5000;

/// Bit pattern of the argument above which the probability is one: one
/// hundred thousand.
pub const CDF_UPPER_LIMIT: u32 = 0x47c3_5000;

/// Bit pattern of the probability zero.
pub const PROBABILITY_ZERO: u32 = 0;

/// Bit pattern of the probability one.
pub const PROBABILITY_ONE: u32 = 0x3f80_0000;

/// The probability that the pricer reports for `argument`, given what the
/// formula made of it: one above the upper limit, else zero below the
/// lower limit, else the formula's value. An argument that is not a
/// number is beyond neither limit.
pub open spec fn clamped(argument: u32, formula: u32) -> u32 {
    if less(CDF_UPPER_LIMIT, argument) {
        PROBABILITY_ONE
    } else if less(argument, CDF_LOWER_LIMIT) {
        PROBABILITY_ZERO
    } else {
        formula
    }
}

/// Clamps the distribution function over a lane: slot by slot, the
/// probability for the argument in `argument`, given the formula's value
/// in `formula`.
pub fn clamp_probability(argument: &Lane, formula: &Lane) -> (probability: Lane)
    ensures
        probability@ == Seq::new(LANES as nat, |i: int| clamped(argument@[i], formula@[i])),
{
    let mut bits: [u32; 8] = [0u32; 8];
    let mut i: usize = 0;
    while i < 8
        invariant
            i <= 8,
            forall|j: int| 0 <= j < i ==> bits@[j] == clamped(argument@[j], formula@[j]),
        decreases 8 - i,
    {
        let x: u32 = argument.bits[i];
        bits[i] = if lt(CDF_UPPER_LIMIT, x) {
            PROBABILITY_ONE
        } else if lt(x, CDF_LOWER_LIMIT) {
            PROBABILITY_ZERO
        } else {
            formula.bits[i]
        };
        i += 1;
    }
    let probability = Lane { bits };
    assert(probability@ =~= Seq::new(LANES as nat, |i: int| clamped(argument@[i], formula@[i])));
    probability
}

/// A clamped probability lies between zero and one wherever the formula's
/// value does, and beyond the limits whatever the formula gave.
pub proof fn lemma_clamped_is_probability(argument: u32, formula: u32)
    ensures
        less(CDF_UPPER_LIMIT, argument) || less(argument, CDF_LOWER_LIMIT) ==> clamped(
            argument,
            formula,
        ) == PROBABILITY_ZERO || clamped(argument, formula) == PROBABILITY_ONE,
        !less(formula, PROBABILITY_ZERO) && !less(PROBABILITY_ONE, formula) ==> !less(
            clamped(argument, formula),
            PROBABILITY_ZERO,
        ) && !less(PROBABILITY_ONE, clamped(argument, formula)),
{
}

/// The limits stand for the numbers they are named after: in units of 2
/// to the power -149, of which the number one holds 2 to the power 149,
/// the upper limit holds a hundred thousand times as many, and the lower
/// limit as many below zero.
pub proof fn lemma_limit_values()
    ensures
        scaled(PROBABILITY_ZERO) == 0,
        scaled(PROBABILITY_ONE) == pow2(149),
        scaled(CDF_UPPER_LIMIT) == 100000 * pow2(149),
        scaled(CDF_LOWER_LIMIT) == -100000 * pow2(149),
{
    lemma2_to64();
    assert(exponent(PROBABILITY_ONE) == 127 && fraction(PROBABILITY_ONE) == 0);
    assert(exponent(CDF_UPPER_LIMIT) == 143 && fraction(CDF_UPPER_LIMIT) == 0x43_5000);
    assert(exponent(CDF_LOWER_LIMIT) == 143 && fraction(CDF_LOWER_LIMIT) == 0x43_5000);
    lemma_pow2_adds(23, 126);
    lemma_pow2_adds(7, 142);
    let p = pow2(142) as int;
    assert((0x80_0000 + 0x43_5000) * p == 100000 * (128 * p)) by (nonlinear_arith);
}

} // verus!
