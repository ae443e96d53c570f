//! Values of functions as fixed-point numbers.
//!
//! The value of a function at a sample is held with 32 fractional bits: the
//! `i64` number `x` stands for the real number `x / ONE`. Colours have eight
//! bits for each channel, and these numbers are far finer than a colour can
//! show.

use vstd::prelude::*;

verus! {

/// The fixed-point representation of the number 1.
pub const ONE: i64 = 4_294_967_296;

/// A point of the complex plane in fixed-point coordinates.
#[derive(Clone, Copy, Debug, PartialEq, Eq, Structural)]
pub struct PlanePoint {
    pub re: i64,
    pub im: i64,
}

} // verus!
