//! Order, sign and integer part of IEEE 754 binary64 values, read off their
//! bit patterns.

use vstd::prelude::*;
use vstd::arithmetic::power2::{lemma2_to64, lemma_pow2_pos, lemma_pow2_strictly_increases, pow2};
use vstd::bits::{lemma_u64_shl_is_mul, lemma_u64_shr_is_div};

verus! {

/// The sign bit of a binary64 pattern.
pub const SIGN_BIT: u64 = 0x8000_0000_0000_0000;

/// The pattern of positive infinity; every larger magnitude is a NaN.
pub const POSITIVE_INFINITY: u64 = 0x7ff0_0000_0000_0000;

/// The pattern of negative infinity.
pub const NEGATIVE_INFINITY: u64 = 0xfff0_0000_0000_0000;

/// Two to the power 52: the weight of the exponent field in a pattern and the
/// bit that a normal value's significand has above its 52 fraction bits.
pub const HIDDEN_BIT: u64 = 0x10_0000_0000_0000;

/// The pattern with the sign bit cleared.
pub open spec fn magnitude(bits: u64) -> int {
    if bits >= SIGN_BIT {
        bits - SIGN_BIT
    } else {
        bits as int
    }
}

/// A pattern is a NaN when its magnitude lies above that of infinity.
pub open spec fn is_nan(bits: u64) -> bool {
    magnitude(bits) > POSITIVE_INFINITY
}

/// An integer that orders the non-NaN patterns as their values are ordered.
/// Both zeros have rank 0.
pub open spec fn rank(bits: u64) -> int {
    if bits >= SIGN_BIT {
        -magnitude(bits)
    } else {
        magnitude(bits)
    }
}

/// `a < b` as doubles: false whenever either side is a NaN.
pub open spec fn less(a: u64, b: u64) -> bool {
    !is_nan(a) && !is_nan(b) && rank(a) < rank(b)
}

/// `a <= b` as doubles: false whenever either side is a NaN.
pub open spec fn at_most(a: u64, b: u64) -> bool {
    !is_nan(a) && !is_nan(b) && rank(a) <= rank(b)
}

/// The pattern of the absolute value: the sign bit cleared, NaN or not.
pub open spec fn absolute(bits: u64) -> u64 {
    magnitude(bits) as u64
}

/// The biased exponent field.
pub open spec fn exponent(bits: u64) -> int {
    magnitude(bits) / (HIDDEN_BIT as int)
}

/// The fraction field.
pub open spec fn fraction(bits: u64) -> int {
    magnitude(bits) % (HIDDEN_BIT as int)
}

/// The greatest integer not above `|x|`, for a finite double `x`. A normal
/// value is `(2^52 + fraction) * 2^(exponent - 1075)`; with an exponent field
/// below 1023 the value lies below one.
pub open spec fn floor_of(bits: u64) -> int {
    let e = exponent(bits);
    let significand = HIDDEN_BIT + fraction(bits);
    if e < 1023 {
        0
    } else if e < 1075 {
        significand / (pow2((1075 - e) as nat) as int)
    } else {
        significand * pow2((e - 1075) as nat)
    }
}

/// `x.floor()` as an index, cut off at `cap`: zero for a NaN and for a value
/// below one, negative values included, `cap` for a value whose floor lies
/// at or above it, positive infinity included, and the floor otherwise.
pub open spec fn capped_floor_of(bits: u64, cap: usize) -> int {
    if is_nan(bits) || bits >= SIGN_BIT {
        0
    } else if bits == POSITIVE_INFINITY || floor_of(bits) >= cap {
        cap as int
    } else {
        floor_of(bits)
    }
}

/// The capped floor is an index no greater than the cap.
pub proof fn lemma_capped_floor_bounds(bits: u64, cap: usize)
    ensures
        0 <= capped_floor_of(bits, cap) <= cap,
{
    let e = exponent(bits);
    let significand = HIDDEN_BIT + fraction(bits);
    if 1023 <= e < 1075 {
        let divisor = pow2((1075 - e) as nat) as int;
        lemma_pow2_pos((1075 - e) as nat);
        assert(significand / divisor >= 0) by (nonlinear_arith)
            requires
                significand >= 0,
                divisor > 0,
        ;
    } else if e >= 1075 {
        let factor = pow2((e - 1075) as nat) as int;
        assert(significand * factor >= 0) by (nonlinear_arith)
            requires
                significand >= 0,
                factor >= 0,
        ;
    }
}

/// `bits > 0.0` as a double.
pub open spec fn positive(bits: u64) -> bool {
    0 < bits <= POSITIVE_INFINITY
}

/// Whether the pattern is a NaN.
pub fn nan(bits: u64) -> (r: bool)
    ensures
        r == is_nan(bits),
{
    let cleared: u64 = if bits >= SIGN_BIT { bits - SIGN_BIT } else { bits };
    cleared > POSITIVE_INFINITY
}

/// Whether `a < b` holds of the doubles with these patterns.
pub fn less_than(a: u64, b: u64) -> (r: bool)
    ensures
        r == less(a, b),
{
    if nan(a) || nan(b) {
        false
    } else if a >= SIGN_BIT {
        if b >= SIGN_BIT {
            a > b
        } else {
            a != SIGN_BIT || b != 0
        }
    } else {
        b < SIGN_BIT && a < b
    }
}

/// Whether `a <= b` holds of the doubles with these patterns.
pub fn no_more_than(a: u64, b: u64) -> (r: bool)
    ensures
        r == at_most(a, b),
{
    !nan(a) && !nan(b) && !less_than(b, a)
}

/// The pattern of `|x|` for the double `x` with this pattern.
pub fn abs(bits: u64) -> (r: u64)
    ensures
        r == absolute(bits),
        rank(r) == magnitude(bits),
        is_nan(r) == is_nan(bits),
{
    if bits >= SIGN_BIT {
        bits - SIGN_BIT
    } else {
        bits
    }
}

/// `min(x.floor() as usize, cap)` for the double `x` with this pattern.
pub fn capped_floor(bits: u64, cap: usize) -> (index: usize)
    ensures
        index == capped_floor_of(bits, cap),
        index <= cap,
{
    if bits >= POSITIVE_INFINITY {
        return if bits == POSITIVE_INFINITY { cap } else { 0 };
    }
    let e: u64 = bits >> 52;
    let f: u64 = bits & 0xf_ffff_ffff_ffff;
    assert(e == bits / 0x10_0000_0000_0000 && f == bits % 0x10_0000_0000_0000 && e < 2047)
        by (bit_vector)
        requires
            e == bits >> 52,
            f == bits & 0xf_ffff_ffff_ffff,
            bits < 0x7ff0_0000_0000_0000,
    ;
    if e < 1023 {
        return 0;
    }
    let significand: u64 = HIDDEN_BIT + f;
    let floor: u64 = if e < 1075 {
        let shift: u64 = 1075 - e;
        proof {
            lemma_u64_shr_is_div(significand, shift);
        }
        significand >> shift
    } else {
        let shift: u64 = e - 1075;
        proof {
            lemma2_to64();
            lemma_pow2_pos(shift as nat);
            if shift >= 12 {
                if shift > 12 {
                    lemma_pow2_strictly_increases(12, shift as nat);
                }
                assert(significand * pow2(shift as nat) >= 0x1_0000_0000_0000_0000)
                    by (nonlinear_arith)
                    requires
                        significand >= 0x10_0000_0000_0000,
                        pow2(shift as nat) >= 0x1000,
                ;
            } else {
                if shift < 11 {
                    lemma_pow2_strictly_increases(shift as nat, 11);
                }
                assert(significand * pow2(shift as nat) <= u64::MAX) by (nonlinear_arith)
                    requires
                        significand < 0x20_0000_0000_0000,
                        0 < pow2(shift as nat) <= 0x800,
                ;
                lemma_u64_shl_is_mul(significand, shift);
            }
        }
        if shift >= 12 {
            return cap;
        }
        significand << shift
    };
    if floor >= cap as u64 {
        cap
    } else {
        floor as usize
    }
}

/// Whether the double with this pattern is strictly greater than zero.
pub fn is_positive(bits: u64) -> (r: bool)
    ensures
        r == positive(bits),
        r == less(0, bits),
{
    0 < bits && bits <= POSITIVE_INFINITY
}

} // verus!
