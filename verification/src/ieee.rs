//! Single-precision values as their 32-bit patterns.
//!
//! The library never computes with these values; it only classifies and
//! compares them, which the bit pattern alone decides: bit 31 is the sign,
//! the low 31 bits are the magnitude, and a magnitude above that of
//! infinity is not a number.

use vstd::arithmetic::power2::{
    lemma_pow2_pos, lemma_pow2_strictly_increases, lemma_pow2_unfold, pow2,
};
use vstd::prelude::*;

verus! {

/// The sign bit.
pub const SIGN: u32 = 0x8000_0000;

/// Magnitude of infinity: exponent field all ones, fraction zero.
pub const INFINITY: u32 = 0x7f80_0000;

/// The pattern without its sign bit.
pub open spec fn magnitude(b: u32) -> u32 {
    if b >= SIGN {
        (b - SIGN) as u32
    } else {
        b
    }
}

/// The pattern is not a number.
pub open spec fn is_nan(b: u32) -> bool {
    magnitude(b) > INFINITY
}

/// The pattern is one of the two zeros.
pub open spec fn is_zero(b: u32) -> bool {
    magnitude(b) == 0
}

/// Position of a number on the line of all single-precision numbers: the
/// magnitude, negated under a set sign bit. Both zeros stand at 0.
pub open spec fn rank(b: u32) -> int {
    if b >= SIGN {
        -(magnitude(b) as int)
    } else {
        b as int
    }
}

/// `a < b` as the arithmetic defines it: false as soon as one side is not a
/// number.
pub open spec fn less(a: u32, b: u32) -> bool {
    !is_nan(a) && !is_nan(b) && rank(a) < rank(b)
}

/// `a <= b` as the arithmetic defines it.
pub open spec fn less_eq(a: u32, b: u32) -> bool {
    !is_nan(a) && !is_nan(b) && rank(a) <= rank(b)
}

/// `a == b` as the arithmetic defines it: the zeros are equal to each other,
/// and what is not a number equals nothing.
pub open spec fn same(a: u32, b: u32) -> bool {
    !is_nan(a) && !is_nan(b) && rank(a) == rank(b)
}

/// The exponent field: the eight bits below the sign.
pub open spec fn exponent(b: u32) -> nat {
    (magnitude(b) / 0x80_0000) as nat
}

/// The fraction field: the low 23 bits.
pub open spec fn fraction(b: u32) -> nat {
    (magnitude(b) % 0x80_0000) as nat
}

/// The absolute value that a pattern stands for, counted in units of the
/// smallest positive number, 2 to the power -149: the fraction alone under
/// an exponent field of zero, else the fraction with its leading one,
/// doubled once for each step of the exponent above one. Infinity counts
/// as the power of two above the largest finite number.
pub open spec fn scaled_magnitude(b: u32) -> nat {
    if exponent(b) == 0 {
        fraction(b)
    } else {
        (0x80_0000 + fraction(b)) * pow2((exponent(b) - 1) as nat)
    }
}

/// The number that a pattern stands for, in the same units.
pub open spec fn scaled(b: u32) -> int {
    if b >= SIGN {
        -(scaled_magnitude(b) as int)
    } else {
        scaled_magnitude(b) as int
    }
}

/// A larger magnitude stands for a larger absolute value.
proof fn lemma_scaled_magnitude_increases(a: u32, b: u32)
    requires
        magnitude(a) < magnitude(b),
    ensures
        scaled_magnitude(a) < scaled_magnitude(b),
{
    let k: int = 0x80_0000;
    let (ea, fa) = (exponent(a), fraction(a) as int);
    let (eb, fb) = (exponent(b), fraction(b) as int);
    if ea == eb {
        if ea != 0 {
            let p = pow2((ea - 1) as nat) as int;
            lemma_pow2_pos((ea - 1) as nat);
            assert((k + fa) * p < (k + fb) * p) by (nonlinear_arith)
                requires
                    fa < fb,
                    p > 0,
            ;
        }
    } else {
        assert(ea < eb);
        let q = pow2((eb - 1) as nat) as int;
        lemma_pow2_pos((eb - 1) as nat);
        assert(k * q <= (k + fb) * q) by (nonlinear_arith)
            requires
                fb >= 0,
                q > 0,
        ;
        if ea == 0 {
            assert(k <= k * q) by (nonlinear_arith)
                requires
                    q >= 1,
                    k > 0,
            ;
        } else {
            let p = pow2((ea - 1) as nat) as int;
            lemma_pow2_pos((ea - 1) as nat);
            lemma_pow2_unfold(ea);
            assert((k + fa) * p < k * (2 * p)) by (nonlinear_arith)
                requires
                    fa < k,
                    p > 0,
            ;
            if ea < eb - 1 {
                lemma_pow2_strictly_increases(ea, (eb - 1) as nat);
            }
            assert(k * (2 * p) <= k * q) by (nonlinear_arith)
                requires
                    2 * p <= q,
                    k > 0,
            ;
        }
    }
}

/// The order of the ranks is the order of the numbers: a pattern ranks
/// below another exactly where it stands for the smaller number, and two
/// patterns rank alike exactly where they stand for the same number.
pub proof fn lemma_rank_orders_as_value(a: u32, b: u32)
    ensures
        rank(a) < rank(b) <==> scaled(a) < scaled(b),
        rank(a) == rank(b) <==> scaled(a) == scaled(b),
{
    assert(scaled_magnitude(0) == 0);
    if magnitude(a) < magnitude(b) {
        lemma_scaled_magnitude_increases(a, b);
    }
    if magnitude(b) < magnitude(a) {
        lemma_scaled_magnitude_increases(b, a);
    }
    if 0 < magnitude(a) {
        lemma_scaled_magnitude_increases(0, a);
    }
    if 0 < magnitude(b) {
        lemma_scaled_magnitude_increases(0, b);
    }
}

/// `less` is the order of the numbers, among patterns that are numbers.
pub proof fn lemma_less_is_numeric(a: u32, b: u32)
    ensures
        less(a, b) <==> !is_nan(a) && !is_nan(b) && scaled(a) < scaled(b),
        less_eq(a, b) <==> !is_nan(a) && !is_nan(b) && scaled(a) <= scaled(b),
        same(a, b) <==> !is_nan(a) && !is_nan(b) && scaled(a) == scaled(b),
{
    lemma_rank_orders_as_value(a, b);
}

/// Rank of a pattern, computed.
fn rank_of(b: u32) -> (r: i64)
    ensures
        r == rank(b),
{
    if b >= SIGN {
        -((b - SIGN) as i64)
    } else {
        b as i64
    }
}

/// Tests whether the pattern is not a number.
pub fn nan(b: u32) -> (r: bool)
    ensures
        r == is_nan(b),
{
    if b >= SIGN {
        b - SIGN > INFINITY
    } else {
        b > INFINITY
    }
}

/// Tests whether the pattern is a zero of either sign.
pub fn zero(b: u32) -> (r: bool)
    ensures
        r == is_zero(b),
{
    b == 0 || b == SIGN
}

/// Tests `a < b`.
pub fn lt(a: u32, b: u32) -> (r: bool)
    ensures
        r == less(a, b),
{
    !nan(a) && !nan(b) && rank_of(a) < rank_of(b)
}

/// Tests `a <= b`.
pub fn le(a: u32, b: u32) -> (r: bool)
    ensures
        r == less_eq(a, b),
{
    !nan(a) && !nan(b) && rank_of(a) <= rank_of(b)
}

} // verus!
