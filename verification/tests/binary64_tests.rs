use tinydc::binary64::{
    bits_are_infinite, bits_are_nan, bits_are_positive, fixed_from_bits, sample_from_bits,
};
use tinydc::color::Rgba;
use tinydc::colorize::{complex_color, ComplexSample};
use tinydc::registry::get_color_map;
use tinydc::plane::{PlanePoint, ONE};

fn fixed(x: f64) -> Option<i64> {
    fixed_from_bits(x.to_bits())
}

fn sample(re: f64, im: f64) -> ComplexSample {
    sample_from_bits(re.to_bits(), im.to_bits())
}

#[test]
fn whole_numbers_are_exact() {
    assert_eq!(fixed(0.0), Some(0));
    assert_eq!(fixed(-0.0), Some(0));
    assert_eq!(fixed(1.0), Some(ONE));
    assert_eq!(fixed(-1.0), Some(-ONE));
    assert_eq!(fixed(2.0), Some(2 * ONE));
    assert_eq!(fixed(1000.0), Some(1000 * ONE));
    assert_eq!(fixed(-123_456.0), Some(-123_456 * ONE));
}

#[test]
fn binary_fractions_are_exact() {
    assert_eq!(fixed(0.5), Some(ONE / 2));
    assert_eq!(fixed(-0.25), Some(-ONE / 4));
    assert_eq!(fixed(1.5), Some(ONE + ONE / 2));
    assert_eq!(fixed(-2.75), Some(-(2 * ONE + 3 * (ONE / 4))));
    // the smallest fixed-point step
    assert_eq!(fixed(1.0 / ONE as f64), Some(1));
    assert_eq!(fixed(-1.0 / ONE as f64), Some(-1));
    assert_eq!(fixed(3.0 + 5.0 / ONE as f64), Some(3 * ONE + 5));
}

#[test]
fn other_numbers_are_rounded_towards_zero() {
    assert_eq!(fixed(1.0 / 3.0), Some(ONE / 3));
    assert_eq!(fixed(-1.0 / 3.0), Some(-(ONE / 3)));
    assert_eq!(fixed(0.1), Some(429_496_729));
    assert_eq!(fixed(-0.1), Some(-429_496_729));
    // just below one step
    assert_eq!(fixed(0.999 / ONE as f64), Some(0));
    assert_eq!(fixed(-0.999 / ONE as f64), Some(0));
    assert_eq!(fixed(1.999 / ONE as f64), Some(1));
}

#[test]
fn tiny_numbers_are_zero() {
    assert_eq!(fixed(1e-20), Some(0));
    assert_eq!(fixed(-1e-300), Some(0));
    assert_eq!(fixed(f64::MIN_POSITIVE), Some(0));
    // subnormal numbers
    assert_eq!(fixed(f64::MIN_POSITIVE / 4.0), Some(0));
    assert_eq!(fixed_from_bits(1), Some(0));
    assert_eq!(fixed_from_bits((1 << 52) - 1), Some(0));
    assert_eq!(fixed_from_bits((1 << 63) | 1), Some(0));
}

#[test]
fn the_largest_numbers_in_range() {
    let limit = 2_147_483_648.0; // 2^31
    assert_eq!(fixed(limit), None);
    assert_eq!(fixed(-limit), Some(i64::MIN));
    assert_eq!(fixed(limit - 1.0), Some(i64::MAX - ONE + 1));
    assert_eq!(fixed(-limit - 1.0), None);
    // the binary64 number just below 2^31
    let below = f64::from_bits(limit.to_bits() - 1);
    assert_eq!(fixed(below), Some(i64::MAX - 1023));
    assert_eq!(fixed(-below), Some(-(i64::MAX - 1023)));
}

#[test]
fn large_numbers_are_out_of_range() {
    assert_eq!(fixed(1e10), None);
    assert_eq!(fixed(-1e10), None);
    assert_eq!(fixed(4_294_967_296.0), None);
    assert_eq!(fixed(1e300), None);
    assert_eq!(fixed(f64::MAX), None);
    assert_eq!(fixed(f64::MIN), None);
}

#[test]
fn infinities_and_nan_are_no_fixed_point_numbers() {
    assert_eq!(fixed(f64::INFINITY), None);
    assert_eq!(fixed(f64::NEG_INFINITY), None);
    assert_eq!(fixed(f64::NAN), None);
}

#[test]
fn nan_is_told_from_infinity() {
    assert!(bits_are_nan(f64::NAN.to_bits()));
    assert!(bits_are_nan((-f64::NAN).to_bits()));
    assert!(bits_are_nan(0x7ff0_0000_0000_0001));
    assert!(bits_are_nan(0xffff_ffff_ffff_ffff));
    assert!(!bits_are_nan(f64::INFINITY.to_bits()));
    assert!(!bits_are_nan(f64::NEG_INFINITY.to_bits()));
    assert!(!bits_are_nan(f64::MAX.to_bits()));
    assert!(!bits_are_nan(0));
    assert!(!bits_are_nan(1.0f64.to_bits()));
}

#[test]
fn finite_numbers_are_points() {
    assert_eq!(
        sample(1.5, -0.25),
        ComplexSample::Finite(PlanePoint { re: ONE + ONE / 2, im: -ONE / 4 })
    );
    assert_eq!(sample(0.0, 0.0), ComplexSample::Finite(PlanePoint { re: 0, im: 0 }));
}

#[test]
fn a_part_that_is_no_number_makes_the_value_undefined() {
    assert_eq!(sample(f64::NAN, f64::NAN), ComplexSample::Undefined);
    assert_eq!(sample(f64::NAN, 0.0), ComplexSample::Undefined);
    assert_eq!(sample(1.0, f64::NAN), ComplexSample::Undefined);
    assert_eq!(sample(f64::NAN, f64::INFINITY), ComplexSample::Undefined);
    assert_eq!(sample(f64::NEG_INFINITY, f64::NAN), ComplexSample::Undefined);
}

#[test]
fn an_infinite_part_makes_the_value_infinite() {
    assert_eq!(sample(f64::INFINITY, 0.0), ComplexSample::Infinite);
    assert_eq!(sample(0.0, f64::NEG_INFINITY), ComplexSample::Infinite);
    assert_eq!(sample(f64::INFINITY, f64::NEG_INFINITY), ComplexSample::Infinite);
    assert_eq!(sample(f64::INFINITY, 1e300), ComplexSample::Infinite);
}

#[test]
fn a_finite_part_beyond_the_range_makes_the_value_large() {
    assert_eq!(sample(1e10, 0.0), ComplexSample::Large);
    assert_eq!(sample(0.0, -1e300), ComplexSample::Large);
    assert_eq!(sample(2_147_483_648.0, 0.0), ComplexSample::Large);
    assert_eq!(sample(f64::MAX, f64::MIN), ComplexSample::Large);
}

#[test]
fn large_values_have_the_color_of_their_magnitude() {
    let m = get_color_map("gray");
    // 65535 / 65536 of the way from black to white
    let nearly_white = Rgba { r: 254, g: 254, b: 254, a: 255 };
    assert_eq!(complex_color(sample(1e10, 0.0), &m), nearly_white);
    assert_eq!(complex_color(sample(0.0, -1e300), &m), nearly_white);
    assert_eq!(complex_color(sample(70_000.0, 0.0), &m), nearly_white);
    assert_eq!(complex_color(sample(2_147_483_647.0, 0.0), &m), nearly_white);
}

#[test]
fn infinity_is_told_from_other_numbers() {
    assert!(bits_are_infinite(f64::INFINITY.to_bits()));
    assert!(bits_are_infinite(f64::NEG_INFINITY.to_bits()));
    assert!(!bits_are_infinite(f64::NAN.to_bits()));
    assert!(!bits_are_infinite(f64::MAX.to_bits()));
    assert!(!bits_are_infinite(0));
}

#[test]
fn numbers_above_zero_are_told_from_the_rest() {
    for x in [1.0, 1e-300, f64::MIN_POSITIVE, f64::from_bits(1), f64::MAX, f64::INFINITY] {
        assert!(bits_are_positive(x.to_bits()));
    }
    for x in [0.0, -0.0, -1.0, -1e-300, f64::MIN, f64::NEG_INFINITY, f64::NAN, -f64::NAN] {
        assert!(!bits_are_positive(x.to_bits()));
    }
    assert!(!bits_are_positive(0x7ff0_0000_0000_0001));
    assert!(!bits_are_positive(0xffff_ffff_ffff_ffff));
}

#[test]
fn special_values_have_boundary_colors() {
    let m = get_color_map("inferno");
    let first = Rgba { r: 0, g: 0, b: 4, a: 255 };
    let last = Rgba { r: 252, g: 255, b: 164, a: 255 };
    assert_eq!(complex_color(sample(f64::INFINITY, 0.0), &m), last);
    assert_eq!(complex_color(sample(f64::NAN, f64::NAN), &m), first);
    assert_eq!(complex_color(sample(0.0, 0.0), &m), first);
    let reciprocal_of_zero = 1.0 / 0.0f64;
    let zero_by_zero = 0.0 / 0.0f64;
    assert_eq!(complex_color(sample(reciprocal_of_zero, 0.0), &m), last);
    assert_eq!(complex_color(sample(zero_by_zero, zero_by_zero), &m), first);
}
