//! Numbers in the IEEE 754 binary64 format, read from their 64 bits.
//!
//! The functions that are drawn compute in binary64. Their results reach this
//! crate as bit patterns, and are read here into fixed-point numbers: so it is
//! decided by exact integer arithmetic which results are points of the plane,
//! which are too large for that, which are infinite and which are no numbers at
//! all. The centre and the height of a view are binary64 numbers too, and are
//! kept as they are.

use crate::colorize::{color_of, lemma_boundary_colors, ComplexSample};
use crate::colormap::{valid_stops, ColorStop};
use crate::plane::PlanePoint;
use vstd::arithmetic::div_mod::lemma_basic_div;
use vstd::arithmetic::power2::{
    lemma2_to64, lemma2_to64_rest, lemma_pow2_pos, lemma_pow2_strictly_increases,
    lemma_pow2_unfold, pow2,
};
use vstd::prelude::*;

verus! {

/// Two to the power 52: the number of values of the fraction field.
pub const FRACTION_LIMIT: u64 = 0x10_0000_0000_0000;

/// The sign bit: set for negative numbers.
pub open spec fn sign_of(bits: u64) -> bool {
    bits >= 0x8000_0000_0000_0000
}

/// The exponent field: the eleven bits below the sign bit.
pub open spec fn exponent_of(bits: u64) -> int {
    (bits as int / FRACTION_LIMIT as int) % 2048
}

/// The fraction field: the lowest 52 bits.
pub open spec fn fraction_of(bits: u64) -> int {
    bits as int % FRACTION_LIMIT as int
}

/// The bits are no number.
pub open spec fn is_nan(bits: u64) -> bool {
    exponent_of(bits) == 2047 && fraction_of(bits) != 0
}

/// The bits are plus or minus infinity.
pub open spec fn is_infinite(bits: u64) -> bool {
    exponent_of(bits) == 2047 && fraction_of(bits) == 0
}

/// The bits are a number above zero: a positive finite number, or plus
/// infinity.
pub open spec fn is_positive(bits: u64) -> bool {
    !sign_of(bits) && !is_nan(bits) && bits != 0
}

/// The significand of a finite number, as an integer: the fraction, with the
/// implicit leading bit unless the number is subnormal.
pub open spec fn significand_of(bits: u64) -> int {
    if exponent_of(bits) == 0 {
        fraction_of(bits)
    } else {
        fraction_of(bits) + FRACTION_LIMIT
    }
}

/// The power of two by which the significand of a finite number is scaled
/// once the number is written in fixed point: the magnitude of the number,
/// times two to the power 32, is the significand times two to this power.
pub open spec fn fixed_power_of(bits: u64) -> int {
    if exponent_of(bits) == 0 {
        -1042
    } else {
        exponent_of(bits) - 1043
    }
}

/// The bits are a finite number.
pub open spec fn is_finite(bits: u64) -> bool {
    exponent_of(bits) != 2047
}

/// The finite number that the bits stand for, exactly, as numerator and
/// positive denominator: the significand with its sign, times its power of
/// two.
pub open spec fn exact_of(bits: u64) -> (int, int) {
    let p = fixed_power_of(bits) - 32;
    let s = if sign_of(bits) {
        -significand_of(bits)
    } else {
        significand_of(bits)
    };
    if p >= 0 {
        (s * pow2(p as nat), 1)
    } else {
        (s, pow2((-p) as nat) as int)
    }
}

/// The magnitude of a finite number in fixed point, rounded down.
pub open spec fn fixed_magnitude_of(bits: u64) -> int {
    let p = fixed_power_of(bits);
    if p >= 0 {
        significand_of(bits) * pow2(p as nat)
    } else {
        significand_of(bits) / (pow2((-p) as nat) as int)
    }
}

/// The fixed-point number that the bits stand for, rounded towards zero, if
/// they are a finite number in the range of the plane's coordinates.
pub open spec fn fixed_of(bits: u64) -> Option<i64> {
    if exponent_of(bits) == 2047 {
        None
    } else {
        let m = fixed_magnitude_of(bits);
        let v = if sign_of(bits) {
            -m
        } else {
            m
        };
        if i64::MIN <= v <= i64::MAX {
            Some(v as i64)
        } else {
            None
        }
    }
}

/// The value that the two parts of a complex number stand for: undefined where
/// a part is no number, else infinite where a part is infinite, else large
/// where a part is beyond the fixed-point range, else the point with these
/// coordinates.
pub open spec fn sample_of(re: u64, im: u64) -> ComplexSample {
    if is_nan(re) || is_nan(im) {
        ComplexSample::Undefined
    } else if is_infinite(re) || is_infinite(im) {
        ComplexSample::Infinite
    } else {
        match (fixed_of(re), fixed_of(im)) {
            (Some(x), Some(y)) => ComplexSample::Finite(PlanePoint { re: x, im: y }),
            _ => ComplexSample::Large,
        }
    }
}

/// Two to the power `e`.
fn power_of_two(e: u32) -> (p: u64)
    requires
        e <= 63,
    ensures
        p == pow2(e as nat),
{
    let mut p: u64 = 1;
    let mut i: u32 = 0;
    proof {
        lemma2_to64();
    }
    while i < e
        invariant
            i <= e <= 63,
            p == pow2(i as nat),
        decreases e - i,
    {
        proof {
            lemma2_to64_rest();
            if i < 62 {
                lemma_pow2_strictly_increases(i as nat, 62);
            }
            lemma_pow2_unfold((i + 1) as nat);
        }
        p = p * 2;
        i += 1;
    }
    p
}

/// The fixed-point number that the bits stand for, rounded towards zero, if
/// they are a finite number in the range of the plane's coordinates.
pub fn fixed_from_bits(bits: u64) -> (r: Option<i64>)
    ensures
        r == fixed_of(bits),
{
    let exponent: u64 = (bits / FRACTION_LIMIT) % 2048;
    let fraction: u64 = bits % FRACTION_LIMIT;
    let negative = bits >= 0x8000_0000_0000_0000;
    if exponent == 2047 {
        return None;
    }
    let significand: u64 = if exponent == 0 { fraction } else { fraction + FRACTION_LIMIT };
    let magnitude: u64 = if exponent >= 1055 {
        // the significand has its leading bit, so the magnitude is 2^64 at least
        proof {
            let p = (exponent - 1043) as nat;
            lemma2_to64();
            if p > 12 {
                lemma_pow2_strictly_increases(12, p);
            }
            assert(pow2(12) == 4096) by {
                lemma_pow2_unfold(12);
                lemma_pow2_unfold(11);
                lemma_pow2_unfold(10);
                lemma_pow2_unfold(9);
            }
            assert(significand * pow2(p) >= 0x10_0000_0000_0000 * 4096) by (nonlinear_arith)
                requires
                    significand >= 0x10_0000_0000_0000,
                    pow2(p) >= 4096,
            ;
        }
        return None;
    } else if exponent >= 1043 {
        let p = power_of_two((exponent - 1043) as u32);
        proof {
            lemma2_to64();
            assert(pow2(11) == 2048) by {
                lemma_pow2_unfold(11);
                lemma_pow2_unfold(10);
                lemma_pow2_unfold(9);
            }
            if exponent < 1054 {
                lemma_pow2_strictly_increases((exponent - 1043) as nat, 11);
            }
            assert(significand * p < 0x20_0000_0000_0000 * 2048) by (nonlinear_arith)
                requires
                    significand < 0x20_0000_0000_0000,
                    p <= 2048,
            ;
        }
        significand * p
    } else {
        let k: u64 = if exponent == 0 { 1042 } else { 1043 - exponent };
        if k >= 53 {
            proof {
                lemma2_to64_rest();
                if k > 53 {
                    lemma_pow2_strictly_increases(53, k as nat);
                }
                lemma_basic_div(significand as int, pow2(k as nat) as int);
            }
            0
        } else {
            let p = power_of_two(k as u32);
            proof {
                lemma_pow2_pos(k as nat);
            }
            significand / p
        }
    };
    if negative {
        if magnitude > 0x8000_0000_0000_0000 {
            None
        } else if magnitude == 0x8000_0000_0000_0000 {
            Some(i64::MIN)
        } else {
            Some(-(magnitude as i64))
        }
    } else if magnitude > 0x7fff_ffff_ffff_ffff {
        None
    } else {
        Some(magnitude as i64)
    }
}

/// The value that the two parts of a complex number stand for.
pub fn sample_from_bits(re: u64, im: u64) -> (s: ComplexSample)
    ensures
        s == sample_of(re, im),
{
    if bits_are_nan(re) || bits_are_nan(im) {
        return ComplexSample::Undefined;
    }
    if bits_are_infinite(re) || bits_are_infinite(im) {
        return ComplexSample::Infinite;
    }
    match (fixed_from_bits(re), fixed_from_bits(im)) {
        (Some(x), Some(y)) => ComplexSample::Finite(PlanePoint { re: x, im: y }),
        _ => ComplexSample::Large,
    }
}

/// Whether the bits are plus or minus infinity.
pub fn bits_are_infinite(bits: u64) -> (b: bool)
    ensures
        b == is_infinite(bits),
{
    (bits / FRACTION_LIMIT) % 2048 == 2047 && bits % FRACTION_LIMIT == 0
}

/// Whether the bits are a number above zero.
pub fn bits_are_positive(bits: u64) -> (b: bool)
    ensures
        b == is_positive(bits),
{
    bits != 0 && bits < 0x8000_0000_0000_0000 && !bits_are_nan(bits)
}

/// Whether the bits are no number.
pub fn bits_are_nan(bits: u64) -> (b: bool)
    ensures
        b == is_nan(bits),
{
    (bits / FRACTION_LIMIT) % 2048 == 2047 && bits % FRACTION_LIMIT != 0
}

/// A complex number with a part that is no number has the first colour of the
/// map; any other with an infinite part has the last. No bits are without a
/// colour of the map.
pub proof fn lemma_special_values(re: u64, im: u64, stops: Seq<ColorStop>)
    requires
        valid_stops(stops),
    ensures
        is_nan(re) || is_nan(im) ==> color_of(sample_of(re, im), stops) == stops[0].color,
        !is_nan(re) && !is_nan(im) && (is_infinite(re) || is_infinite(im)) ==> color_of(
            sample_of(re, im),
            stops,
        ) == stops[stops.len() - 1].color,
{
    lemma_boundary_colors(stops);
}

} // verus!
