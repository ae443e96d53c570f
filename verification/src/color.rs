//! Colours, and the interpolation between two of them.
//!
//! Positions on a colour map are fixed-point numbers: `UNIT` stands for 1.

use vstd::prelude::*;

verus! {

/// The fixed-point representation of the position 1 on a colour map.
pub const UNIT: u32 = 65_536;

/// A colour of four channels with eight bits each.
#[derive(Clone, Copy, Debug, PartialEq, Eq, Structural)]
pub struct Rgba {
    pub r: u8,
    pub g: u8,
    pub b: u8,
    pub a: u8,
}

impl Rgba {
    /// The four bytes of the colour: red, green, blue, alpha.
    pub open spec fn bytes(self) -> Seq<u8> {
        seq![self.r, self.g, self.b, self.a]
    }

    /// The four bytes of the colour: red, green, blue, alpha.
    pub fn to_bytes(self) -> (b: [u8; 4])
        ensures
            b@ == self.bytes(),
    {
        let b = [self.r, self.g, self.b, self.a];
        assert(b@ =~= self.bytes());
        b
    }
}

/// The value of one channel `num / den` of the way from `c0` to `c1`, rounded
/// towards `c0`.
pub open spec fn lerp_channel(c0: int, c1: int, num: int, den: int) -> int {
    if den <= 0 {
        c0
    } else if c1 >= c0 {
        c0 + ((c1 - c0) * num) / den
    } else {
        c0 - ((c0 - c1) * num) / den
    }
}

/// The colour `num / den` of the way from `c0` to `c1`, channel by channel.
pub open spec fn lerp_color(c0: Rgba, c1: Rgba, num: int, den: int) -> Rgba {
    Rgba {
        r: lerp_channel(c0.r as int, c1.r as int, num, den) as u8,
        g: lerp_channel(c0.g as int, c1.g as int, num, den) as u8,
        b: lerp_channel(c0.b as int, c1.b as int, num, den) as u8,
        a: lerp_channel(c0.a as int, c1.a as int, num, den) as u8,
    }
}

/// An interpolated channel lies between its two ends, which it takes for
/// `num == 0` and `num == den`.
pub proof fn lemma_lerp_channel_bounds(c0: int, c1: int, num: int, den: int)
    requires
        0 <= num <= den,
        0 < den,
    ensures
        c0 <= c1 ==> c0 <= lerp_channel(c0, c1, num, den) <= c1,
        c1 <= c0 ==> c1 <= lerp_channel(c0, c1, num, den) <= c0,
        num == 0 ==> lerp_channel(c0, c1, num, den) == c0,
        num == den ==> lerp_channel(c0, c1, num, den) == c1,
{
    let d = if c1 >= c0 { c1 - c0 } else { c0 - c1 };
    assert(0 <= (d * num) / den <= d) by (nonlinear_arith)
        requires
            0 <= num <= den,
            0 < den,
            0 <= d,
    ;
    assert(num == 0 ==> (d * num) / den == 0) by (nonlinear_arith)
        requires
            0 < den,
    ;
    assert(num == den ==> (d * num) / den == d) by (nonlinear_arith)
        requires
            0 < den,
    ;
}

/// At its ends an interpolated colour is the end's colour, whatever the other
/// end is.
pub proof fn lemma_lerp_color_ends(c0: Rgba, c1: Rgba, den: int)
    requires
        0 < den,
    ensures
        lerp_color(c0, c1, 0, den) == c0,
        lerp_color(c0, c1, den, den) == c1,
{
    lemma_lerp_channel_bounds(c0.r as int, c1.r as int, 0, den);
    lemma_lerp_channel_bounds(c0.g as int, c1.g as int, 0, den);
    lemma_lerp_channel_bounds(c0.b as int, c1.b as int, 0, den);
    lemma_lerp_channel_bounds(c0.a as int, c1.a as int, 0, den);
    lemma_lerp_channel_bounds(c0.r as int, c1.r as int, den, den);
    lemma_lerp_channel_bounds(c0.g as int, c1.g as int, den, den);
    lemma_lerp_channel_bounds(c0.b as int, c1.b as int, den, den);
    lemma_lerp_channel_bounds(c0.a as int, c1.a as int, den, den);
}

/// One step of `num` moves an interpolated channel by no more than the slope
/// of the segment, rounded up.
pub proof fn lemma_lerp_channel_step(c0: int, c1: int, num: int, den: int)
    requires
        0 <= num < den,
    ensures
        c0 <= c1 ==> 0 <= lerp_channel(c0, c1, num + 1, den) - lerp_channel(c0, c1, num, den)
            <= (c1 - c0) / den + 1,
        c1 <= c0 ==> 0 <= lerp_channel(c0, c1, num, den) - lerp_channel(c0, c1, num + 1, den)
            <= (c0 - c1) / den + 1,
{
    let d = if c1 >= c0 { c1 - c0 } else { c0 - c1 };
    assert(0 <= (d * (num + 1)) / den - (d * num) / den <= d / den + 1) by (nonlinear_arith)
        requires
            0 <= num < den,
            0 <= d,
    ;
    assert(d == 0 ==> (d * (num + 1)) / den == 0 && (d * num) / den == 0) by (nonlinear_arith)
        requires
            0 < den,
    ;
}

/// Between its ends an interpolated channel moves one way only: from `c0`
/// towards `c1` as `num` grows.
pub proof fn lemma_lerp_channel_monotone(c0: int, c1: int, num1: int, num2: int, den: int)
    requires
        0 <= num1 <= num2 <= den,
        0 < den,
    ensures
        c0 <= c1 ==> lerp_channel(c0, c1, num1, den) <= lerp_channel(c0, c1, num2, den),
        c1 <= c0 ==> lerp_channel(c0, c1, num1, den) >= lerp_channel(c0, c1, num2, den),
{
    let d = if c1 >= c0 { c1 - c0 } else { c0 - c1 };
    assert((d * num1) / den <= (d * num2) / den) by (nonlinear_arith)
        requires
            0 <= num1 <= num2,
            0 < den,
            0 <= d,
    ;
    assert(d == 0 ==> (d * num1) / den == 0 && (d * num2) / den == 0) by (nonlinear_arith)
        requires
            0 < den,
    ;
}

/// How far two channel values are apart.
pub open spec fn channel_distance(x: u8, y: u8) -> int {
    if x >= y {
        x - y
    } else {
        y - x
    }
}

/// Two colours are within `d` of each other in every channel.
pub open spec fn colors_within(x: Rgba, y: Rgba, d: int) -> bool {
    &&& channel_distance(x.r, y.r) <= d
    &&& channel_distance(x.g, y.g) <= d
    &&& channel_distance(x.b, y.b) <= d
    &&& channel_distance(x.a, y.a) <= d
}

/// One step of `num` moves an interpolated colour by no more than
/// `255 / den + 1` in any channel.
pub proof fn lemma_lerp_color_step(c0: Rgba, c1: Rgba, num: int, den: int)
    requires
        0 <= num < den,
    ensures
        colors_within(
            lerp_color(c0, c1, num, den),
            lerp_color(c0, c1, num + 1, den),
            255int / den + 1,
        ),
{
    lemma_lerp_u8_step(c0.r, c1.r, num, den);
    lemma_lerp_u8_step(c0.g, c1.g, num, den);
    lemma_lerp_u8_step(c0.b, c1.b, num, den);
    lemma_lerp_u8_step(c0.a, c1.a, num, den);
}

proof fn lemma_lerp_u8_step(c0: u8, c1: u8, num: int, den: int)
    requires
        0 <= num < den,
    ensures
        channel_distance(
            lerp_channel(c0 as int, c1 as int, num, den) as u8,
            lerp_channel(c0 as int, c1 as int, num + 1, den) as u8,
        ) <= 255int / den + 1,
{
    lemma_lerp_channel_bounds(c0 as int, c1 as int, num, den);
    lemma_lerp_channel_bounds(c0 as int, c1 as int, num + 1, den);
    lemma_lerp_channel_step(c0 as int, c1 as int, num, den);
    let d = if c1 >= c0 { c1 - c0 } else { c0 - c1 };
    assert(d / den <= 255int / den) by (nonlinear_arith)
        requires
            0 <= d <= 255,
            0 < den,
    ;
}

/// The smaller of `num` and `den`.
pub open spec fn capped(num: int, den: int) -> int {
    if num <= den {
        num
    } else {
        den
    }
}

/// Interpolates one channel: the value `num / den` of the way from `c0` to
/// `c1`, rounded towards `c0`. An empty segment has the value `c0`, and beyond
/// the end of the segment the value stays `c1`.
pub fn lerp_u8(c0: u8, c1: u8, num: u32, den: u32) -> (c: u8)
    ensures
        c as int == lerp_channel(c0 as int, c1 as int, capped(num as int, den as int), den as int),
{
    if den == 0 {
        return c0;
    }
    let n: u64 = if num <= den { num as u64 } else { den as u64 };
    proof {
        lemma_lerp_channel_bounds(c0 as int, c1 as int, n as int, den as int);
    }
    if c1 >= c0 {
        let d: u64 = (c1 - c0) as u64;
        assert(d * n <= 255 * 0xffff_ffff) by (nonlinear_arith)
            requires
                d <= 255,
                n <= 0xffff_ffff,
        ;
        let step: u64 = d * n / (den as u64);
        c0 + (step as u8)
    } else {
        let d: u64 = (c0 - c1) as u64;
        assert(d * n <= 255 * 0xffff_ffff) by (nonlinear_arith)
            requires
                d <= 255,
                n <= 0xffff_ffff,
        ;
        let step: u64 = d * n / (den as u64);
        c0 - (step as u8)
    }
}

/// Interpolates a colour, channel by channel.
pub fn lerp_rgba(c0: Rgba, c1: Rgba, num: u32, den: u32) -> (c: Rgba)
    ensures
        c == lerp_color(c0, c1, capped(num as int, den as int), den as int),
{
    Rgba {
        r: lerp_u8(c0.r, c1.r, num, den),
        g: lerp_u8(c0.g, c1.g, num, den),
        b: lerp_u8(c0.b, c1.b, num, den),
        a: lerp_u8(c0.a, c1.a, num, den),
    }
}

} // verus!
