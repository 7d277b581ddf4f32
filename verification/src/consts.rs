use vstd::arithmetic::power2::{lemma2_to64, lemma_pow2_adds, pow2};
use vstd::prelude::*;
use crate::ieee::{exponent, fraction, scaled};

verus! {

/// Whether an option gives the right to buy (call) or to sell (put).
/// A put orders before a call.
#[derive(PartialEq, Eq, PartialOrd, Debug, Copy, Clone, Structural)]
pub enum OptionDir {
    PUT,
    CALL,
}

/// Number of contracts that are solved together in one lane.
pub const LANES: usize = 8;

/// Bit pattern of the volatility 0%, the lower end of the search domain.
pub const VOL_FLOOR: u32 = 0;

/// Bit pattern of the volatility 500%, the upper end of the search domain
/// (sign 0, exponent 129, fraction one quarter: 1.25 * 4).
pub const VOL_CEILING: u32 = 0x40a0_0000;

/// The ends of the search domain stand for the numbers zero and five: in
/// units of 2 to the power -149, of which the number one holds 2 to the
/// power 149, the lower end holds none and the upper end five times as
/// many as one.
pub proof fn lemma_domain_values()
    ensures
        scaled(VOL_FLOOR) == 0,
        scaled(VOL_CEILING) == 5 * pow2(149),
{
    lemma2_to64();
    assert(exponent(VOL_CEILING) == 129 && fraction(VOL_CEILING) == 0x20_0000);
    lemma_pow2_adds(21, 128);
    let p = pow2(128) as int;
    assert((0x80_0000 + 0x20_0000) * p == 5 * (0x20_0000 * p)) by (nonlinear_arith);
}

} // verus!
