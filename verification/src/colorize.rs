//! From a value of the function to a colour.
//!
//! The colour encodes the magnitude of the value: the magnitude `m` is
//! compressed to the position `m / (m + 1)` of the colour map, so that zero has
//! the map's first colour and large values approach its last.

use crate::color::{Rgba, UNIT};
use crate::colormap::{lemma_sample_clamps, sample_at, valid_stops, ColorMap, ColorStop};
use crate::plane::{PlanePoint, ONE};
use crate::view::lemma_product_bound;
use vstd::prelude::*;

verus! {

/// A value of the function that is drawn.
#[derive(Clone, Copy, Debug, PartialEq, Eq, Structural)]
pub enum ComplexSample {
    /// A point of the plane.
    Finite(PlanePoint),
    /// A finite value beyond the range of fixed-point coordinates.
    Large,
    /// An infinite value, as at a pole.
    Infinite,
    /// No value at all, as the quotient of zero by zero.
    Undefined,
}

/// `r` is the square root of `n`, rounded down.
pub open spec fn is_isqrt(n: int, r: int) -> bool {
    0 <= r && r * r <= n < (r + 1) * (r + 1)
}

/// The square root of `n`, rounded down.
pub open spec fn isqrt(n: int) -> int {
    choose|r: int| is_isqrt(n, r)
}

/// Squaring keeps the order of natural numbers.
pub proof fn lemma_square_monotone(a: int, b: int)
    by (nonlinear_arith)
    requires
        0 <= a <= b,
    ensures
        a * a <= b * b,
{
}

/// A number has at most one rounded-down square root.
pub proof fn lemma_isqrt_unique(n: int, r1: int, r2: int)
    requires
        is_isqrt(n, r1),
        is_isqrt(n, r2),
    ensures
        r1 == r2,
{
    if r1 < r2 {
        lemma_square_monotone(r1 + 1, r2);
    } else if r2 < r1 {
        lemma_square_monotone(r2 + 1, r1);
    }
}

/// The square root of `n`, rounded down.
pub fn integer_sqrt(n: u128) -> (r: u64)
    ensures
        is_isqrt(n as int, r as int),
        r as int == isqrt(n as int),
{
    let mut lo: u128 = 0;
    let mut hi: u128 = 0x1_0000_0000_0000_0000;
    assert(0x1_0000_0000_0000_0000int * 0x1_0000_0000_0000_0000int
        == 0x1_0000_0000_0000_0000_0000_0000_0000_0000int) by (nonlinear_arith);
    while hi - lo > 1
        invariant
            lo < hi <= 0x1_0000_0000_0000_0000,
            lo * lo <= n < hi * hi,
        decreases hi - lo,
    {
        let mid: u128 = lo + (hi - lo) / 2;
        proof {
            lemma_product_bound(
                mid as int,
                mid as int,
                0xffff_ffff_ffff_ffff,
                0xffff_ffff_ffff_ffff,
            );
            assert(0xffff_ffff_ffff_ffffint * 0xffff_ffff_ffff_ffffint
                < 0x1_0000_0000_0000_0000_0000_0000_0000_0000int) by (nonlinear_arith);
        }
        if mid * mid <= n {
            lo = mid;
        } else {
            hi = mid;
        }
    }
    assert(hi == lo + 1);
    assert(is_isqrt(n as int, lo as int));
    proof {
        lemma_isqrt_unique(n as int, lo as int, isqrt(n as int));
    }
    lo as u64
}

/// The square of the distance of `z` from the origin.
pub open spec fn norm_squared(z: PlanePoint) -> int {
    z.re * z.re + z.im * z.im
}

/// The distance of `z` from the origin, rounded down to a fixed-point number.
pub open spec fn magnitude(z: PlanePoint) -> int {
    isqrt(norm_squared(z))
}

/// The fixed-point magnitude `m` compressed to a position of the colour map:
/// `m / (m + 1)`, rounded down.
pub open spec fn compress(m: int) -> int {
    (UNIT * m) / (m + ONE)
}

/// The position of the colour map that stands for a value: a point has the
/// position of its magnitude, a large value the last position before the end
/// of the map, which every magnitude from 65 535 on has, an infinite value the
/// end of the map, and an undefined one its start.
pub open spec fn position_of(s: ComplexSample) -> int {
    match s {
        ComplexSample::Finite(z) => compress(magnitude(z)),
        ComplexSample::Large => UNIT - 1,
        ComplexSample::Infinite => UNIT as int,
        ComplexSample::Undefined => 0,
    }
}

/// The colour of a value under a colour map.
pub open spec fn color_of(s: ComplexSample, stops: Seq<ColorStop>) -> Rgba {
    sample_at(stops, position_of(s))
}

/// A compressed magnitude is a position short of the end of the map, and a
/// larger magnitude has no smaller position.
pub proof fn lemma_compress(m1: int, m2: int)
    requires
        0 <= m1 <= m2,
    ensures
        0 <= compress(m1) <= compress(m2) < UNIT,
        compress(0) == 0,
{
    let u = UNIT as int;
    let one = ONE as int;
    let q1 = (u * m1) / (m1 + one);
    let q2 = (u * m2) / (m2 + one);
    assert(0 <= q1 && q1 * (m1 + one) <= u * m1 < (q1 + 1) * (m1 + one)) by (nonlinear_arith)
        requires
            q1 == (u * m1) / (m1 + one),
            0 <= m1,
            0 < one,
            0 < u,
    ;
    assert(0 <= q2 && q2 * (m2 + one) <= u * m2 < (q2 + 1) * (m2 + one)) by (nonlinear_arith)
        requires
            q2 == (u * m2) / (m2 + one),
            0 <= m2,
            0 < one,
            0 < u,
    ;
    assert(u * m2 < u * (m2 + one)) by (nonlinear_arith)
        requires
            0 < one,
            0 < u,
    ;
    assert(q2 >= u ==> q2 * (m2 + one) >= u * (m2 + one)) by (nonlinear_arith)
        requires
            0 <= m2,
            0 < one,
    ;
    // q1 <= u * m1 / (m1 + one) <= u * m2 / (m2 + one) < q2 + 1
    assert(u * m1 < u * (m1 + one)) by (nonlinear_arith)
        requires
            0 < one,
            0 < u,
    ;
    assert(q1 >= u ==> q1 * (m1 + one) >= u * (m1 + one)) by (nonlinear_arith)
        requires
            0 <= m1,
            0 < one,
    ;
    assert(q1 <= q2) by {
        if q1 > q2 {
            // then u * m2 < q1 * (m2 + one), while q1 * (m1 + one) <= u * m1
            assert((q2 + 1) * (m2 + one) <= q1 * (m2 + one)) by (nonlinear_arith)
                requires
                    q2 + 1 <= q1,
                    0 <= m2,
                    0 < one,
            ;
            assert(q1 * (m2 - m1) <= u * (m2 - m1)) by (nonlinear_arith)
                requires
                    q1 <= u,
                    0 <= m2 - m1,
            ;
            assert(q1 * (m2 + one) == q1 * (m1 + one) + q1 * (m2 - m1)) by (nonlinear_arith);
            assert(u * m2 == u * m1 + u * (m2 - m1)) by (nonlinear_arith);
        }
    }
    assert((u * 0) / (0 + one) == 0) by (nonlinear_arith)
        requires
            0 < one,
    ;
}

/// Every magnitude from 65 535 on has the last position before the end of the
/// map.
pub proof fn lemma_compress_large(m: int)
    requires
        m >= 65_535 * ONE,
    ensures
        compress(m) == UNIT - 1,
{
    let u = UNIT as int;
    let one = ONE as int;
    let q = (u * m) / (m + one);
    assert((u - 1) * (m + one) <= u * m < u * (m + one)) by (nonlinear_arith)
        requires
            m >= (u - 1) * one,
            0 < one,
            0 < u,
    ;
    assert(q == u - 1) by (nonlinear_arith)
        requires
            q == (u * m) / (m + one),
            (u - 1) * (m + one) <= u * m < u * (m + one),
            0 < m + one,
    ;
}

/// A larger number has no smaller square root.
pub proof fn lemma_isqrt_monotone(n1: int, n2: int)
    requires
        0 <= n1 <= n2,
    ensures
        0 <= isqrt(n1) <= isqrt(n2),
{
    lemma_isqrt_exists(n1);
    lemma_isqrt_exists(n2);
    let r1 = isqrt(n1);
    let r2 = isqrt(n2);
    if r2 < r1 {
        lemma_square_monotone(r2 + 1, r1);
    }
}

/// Every natural number has a rounded-down square root.
pub proof fn lemma_isqrt_exists(n: int)
    requires
        0 <= n,
    ensures
        is_isqrt(n, isqrt(n)),
    decreases n,
{
    if n == 0 {
        assert(is_isqrt(0, 0));
    } else {
        lemma_isqrt_exists(n - 1);
        let r = isqrt(n - 1);
        if (r + 1) * (r + 1) <= n {
            assert(n < (r + 2) * (r + 2)) by (nonlinear_arith)
                requires
                    n - 1 < (r + 1) * (r + 1),
                    0 <= r,
            ;
            assert(is_isqrt(n, r + 1));
        } else {
            assert(is_isqrt(n, r));
        }
    }
}

/// Whatever the value, its position lies on the colour map; a point further
/// from the origin has no smaller position, a large value has no smaller
/// position than any point, and no finite value reaches the position of an
/// infinite one.
pub proof fn lemma_position_monotone(z1: PlanePoint, z2: PlanePoint)
    requires
        norm_squared(z1) <= norm_squared(z2),
    ensures
        0 <= position_of(ComplexSample::Finite(z1)) <= position_of(ComplexSample::Finite(z2))
            <= position_of(ComplexSample::Large) < position_of(ComplexSample::Infinite),
{
    assert(0 <= norm_squared(z1)) by (nonlinear_arith)
        requires
            norm_squared(z1) == z1.re * z1.re + z1.im * z1.im,
    ;
    lemma_isqrt_monotone(norm_squared(z1), norm_squared(z2));
    lemma_compress(magnitude(z1), magnitude(z2));
}

/// An infinite value has the last colour of the map and an undefined value
/// the first, as the origin has: every value has a colour of the map.
pub proof fn lemma_boundary_colors(stops: Seq<ColorStop>)
    requires
        valid_stops(stops),
    ensures
        color_of(ComplexSample::Infinite, stops) == stops[stops.len() - 1].color,
        color_of(ComplexSample::Undefined, stops) == stops[0].color,
        color_of(ComplexSample::Finite(PlanePoint { re: 0, im: 0 }), stops) == stops[0].color,
{
    lemma_sample_clamps(stops, UNIT as int);
    lemma_sample_clamps(stops, 0);
    let z = PlanePoint { re: 0, im: 0 };
    assert(norm_squared(z) == 0) by (nonlinear_arith)
        requires
            norm_squared(z) == z.re * z.re + z.im * z.im,
            z.re == 0,
            z.im == 0,
    ;
    assert(is_isqrt(0, 0));
    lemma_isqrt_exists(0);
    lemma_isqrt_unique(0, 0, isqrt(0));
    lemma_compress(0, 0);
}

/// The absolute value of a coordinate.
fn abs_coordinate(x: i64) -> (r: u128)
    ensures
        r == if x >= 0 {
            x as int
        } else {
            -(x as int)
        },
        r <= 0x8000_0000_0000_0000,
{
    if x >= 0 {
        x as u128
    } else {
        let y: i64 = -(x + 1);
        (y as u128) + 1
    }
}

/// The distance of `z` from the origin, rounded down to a fixed-point number.
pub fn sample_magnitude(z: PlanePoint) -> (m: u64)
    ensures
        m as int == magnitude(z),
{
    let a = abs_coordinate(z.re);
    let b = abs_coordinate(z.im);
    proof {
        lemma_product_bound(a as int, a as int, 0x8000_0000_0000_0000, 0x8000_0000_0000_0000);
        lemma_product_bound(b as int, b as int, 0x8000_0000_0000_0000, 0x8000_0000_0000_0000);
        assert(0x8000_0000_0000_0000int * 0x8000_0000_0000_0000int
            == 0x4000_0000_0000_0000_0000_0000_0000_0000int) by (nonlinear_arith);
        assert(a * a == z.re * z.re) by (nonlinear_arith)
            requires
                a == z.re || a == -z.re,
        ;
        assert(b * b == z.im * z.im) by (nonlinear_arith)
            requires
                b == z.im || b == -z.im,
        ;
    }
    integer_sqrt(a * a + b * b)
}

/// The position of the colour map that stands for a value.
pub fn sample_position(s: ComplexSample) -> (t: u32)
    ensures
        t as int == position_of(s),
        t <= UNIT,
{
    match s {
        ComplexSample::Finite(z) => {
            let m: u128 = sample_magnitude(z) as u128;
            proof {
                lemma_compress(m as int, m as int);
                lemma_product_bound(UNIT as int, m as int, UNIT as int, 0xffff_ffff_ffff_ffff);
            }
            let q: u128 = (UNIT as u128) * m / (m + (ONE as u128));
            q as u32
        },
        ComplexSample::Large => UNIT - 1,
        ComplexSample::Infinite => UNIT,
        ComplexSample::Undefined => 0,
    }
}

/// The colour of a value under a colour map.
pub fn complex_color(s: ComplexSample, map: &ColorMap) -> (c: Rgba)
    ensures
        c == color_of(s, map@),
{
    map.sample(sample_position(s))
}

} // verus!
