use tinydc::registry::get_color_map;
use tinydc::view::{pixel_coordinates, Config, ConfigError, GridPoint, Ratio, MAX_SIDE};

fn bits(x: f64) -> u64 {
    x.to_bits()
}

fn config(w: usize, h: usize, s: usize, re: f64, im: f64, fovy: f64) -> Config {
    Config::new(get_color_map("gray"), w, h, s, bits(re), bits(im), bits(fovy)).unwrap()
}

fn error(w: usize, h: usize, s: usize, re: f64, im: f64, fovy: f64) -> ConfigError {
    Config::new(get_color_map("gray"), w, h, s, bits(re), bits(im), bits(fovy)).unwrap_err()
}

/// The point of the plane of a sample, computed as a program that draws does.
fn plane(c: &Config, px: usize, py: usize) -> (f64, f64) {
    let z = pixel_coordinates(px, py, c);
    let half = f64::from_bits(c.fovy()) / 2.0;
    let x = z.re.num as f64 / z.re.den as f64 * half + f64::from_bits(c.center_real());
    let y = z.im.num as f64 / z.im.den as f64 * half + f64::from_bits(c.center_imag());
    (x, y)
}

fn ratio(num: i128, den: i128) -> Ratio {
    Ratio { num, den }
}

#[test]
fn config_keeps_its_parameters() {
    let c = config(640, 480, 2, 3.0, -5.0, 4.0);
    assert_eq!(c.width(), 640);
    assert_eq!(c.height(), 480);
    assert_eq!(c.supersampling(), 2);
    assert_eq!(c.sample_width(), 1280);
    assert_eq!(c.sample_height(), 960);
    assert_eq!(c.sample_count(), 1280 * 960);
    assert_eq!(c.byte_len(), 1280 * 960 * 4);
    assert_eq!(f64::from_bits(c.center_real()), 3.0);
    assert_eq!(f64::from_bits(c.center_imag()), -5.0);
    assert_eq!(f64::from_bits(c.fovy()), 4.0);
    assert_eq!(c.map().len(), 2);
    let d = c.clone();
    assert_eq!(d.sample_width(), 1280);
    assert_eq!(d.center_real(), c.center_real());
    assert_eq!(d.fovy(), c.fovy());
}

#[test]
fn config_rejects_zero_dimensions() {
    assert_eq!(error(0, 4, 1, 0.0, 0.0, 1.0), ConfigError::ZeroDimension);
    assert_eq!(error(4, 0, 1, 0.0, 0.0, 1.0), ConfigError::ZeroDimension);
    assert_eq!(error(4, 4, 0, 0.0, 0.0, 1.0), ConfigError::ZeroDimension);
    // a zero dimension is reported before anything else
    assert_eq!(error(0, 4, 1, 0.0, 0.0, 0.0), ConfigError::ZeroDimension);
}

#[test]
fn config_rejects_grids_that_are_too_large() {
    assert_eq!(error(MAX_SIDE, 1, 2, 0.0, 0.0, 1.0), ConfigError::TooLarge);
    assert_eq!(error(1, MAX_SIDE, 2, 0.0, 0.0, 1.0), ConfigError::TooLarge);
    assert_eq!(error(usize::MAX, 1, usize::MAX, 0.0, 0.0, 1.0), ConfigError::TooLarge);
    assert_eq!(error(MAX_SIDE, MAX_SIDE, 1, 0.0, 0.0, 1.0), ConfigError::TooLarge);
}

#[test]
fn config_rejects_a_field_of_view_that_is_not_above_zero() {
    assert_eq!(error(4, 4, 1, 0.0, 0.0, 0.0), ConfigError::NonPositiveFov);
    assert_eq!(error(4, 4, 1, 0.0, 0.0, -0.0), ConfigError::NonPositiveFov);
    assert_eq!(error(4, 4, 1, 0.0, 0.0, -1.0), ConfigError::NonPositiveFov);
    assert_eq!(error(4, 4, 1, 0.0, 0.0, -1e-300), ConfigError::NonPositiveFov);
    assert_eq!(error(4, 4, 1, 0.0, 0.0, f64::NEG_INFINITY), ConfigError::NonPositiveFov);
    assert_eq!(error(4, 4, 1, 0.0, 0.0, f64::NAN), ConfigError::NonPositiveFov);
    assert_eq!(error(4, 4, 1, 0.0, 0.0, -f64::NAN), ConfigError::NonPositiveFov);
}

#[test]
fn config_accepts_every_field_of_view_above_zero() {
    for fovy in [1.0, 2.0, 1e-12, 1e-300, f64::MIN_POSITIVE, 1e300, f64::MAX, f64::INFINITY] {
        assert_eq!(f64::from_bits(config(4, 4, 1, 0.0, 0.0, fovy).fovy()), fovy);
    }
    // the smallest number above zero
    assert_eq!(config(4, 4, 1, 0.0, 0.0, f64::from_bits(1)).fovy(), 1);
}

#[test]
fn config_accepts_every_centre() {
    for x in [0.0, -0.0, 1e300, -1e300, 4_294_967_296.0, f64::MAX, f64::MIN, f64::INFINITY] {
        let c = config(4, 4, 1, x, -x, 1.0);
        assert_eq!(c.center_real(), bits(x));
        assert_eq!(c.center_imag(), bits(-x));
    }
    assert_eq!(config(4, 4, 1, f64::NAN, 0.0, 1.0).center_real(), bits(f64::NAN));
}

#[test]
fn corners_of_the_unit_view() {
    let c = config(4, 4, 1, 0.0, 0.0, 2.0);
    assert_eq!(
        pixel_coordinates(0, 0, &c),
        GridPoint { re: ratio(-12, 12), im: ratio(3, 3) }
    );
    assert_eq!(
        pixel_coordinates(3, 3, &c),
        GridPoint { re: ratio(12, 12), im: ratio(-3, 3) }
    );
    assert_eq!(plane(&c, 0, 0), (-1.0, 1.0));
    assert_eq!(plane(&c, 3, 3), (1.0, -1.0));
    assert_eq!(plane(&c, 3, 0), (1.0, 1.0));
    assert_eq!(plane(&c, 0, 3), (-1.0, -1.0));
}

#[test]
fn interior_samples_of_the_unit_view() {
    let c = config(4, 4, 1, 0.0, 0.0, 2.0);
    // exactly a third of the way from the centre to the edge
    assert_eq!(
        pixel_coordinates(1, 1, &c),
        GridPoint { re: ratio(-4, 12), im: ratio(1, 3) }
    );
    assert_eq!(
        pixel_coordinates(2, 2, &c),
        GridPoint { re: ratio(4, 12), im: ratio(-1, 3) }
    );
    let (x, y) = plane(&c, 1, 1);
    assert!((x + 1.0 / 3.0).abs() < 1e-12);
    assert!((y - 1.0 / 3.0).abs() < 1e-12);
    assert!(x * x + y * y < 2.0);
    let (x, y) = plane(&c, 2, 1);
    assert!((x - 1.0 / 3.0).abs() < 1e-12);
    assert!((y - 1.0 / 3.0).abs() < 1e-12);
}

#[test]
fn corners_follow_the_aspect_ratio() {
    let c = config(200, 100, 1, 10.0, 20.0, 6.0);
    assert_eq!(pixel_coordinates(0, 0, &c).re, ratio(-199 * 200, 199 * 100));
    assert_eq!(pixel_coordinates(199, 99, &c).re, ratio(199 * 200, 199 * 100));
    assert_eq!(plane(&c, 0, 0), (4.0, 23.0));
    assert_eq!(plane(&c, 199, 99), (16.0, 17.0));
}

#[test]
fn corners_do_not_depend_on_supersampling() {
    let c = config(20, 10, 3, 1.0, -1.0, 2.0);
    assert_eq!(c.sample_width(), 60);
    assert_eq!(c.sample_height(), 30);
    assert_eq!(plane(&c, 0, 0), (-1.0, 0.0));
    assert_eq!(plane(&c, 59, 29), (3.0, -2.0));
}

#[test]
fn a_single_column_or_row_samples_the_centre() {
    let c = config(1, 5, 1, 7.0, -3.0, 2.0);
    assert_eq!(pixel_coordinates(0, 0, &c).re, ratio(0, 1));
    assert_eq!(plane(&c, 0, 0), (7.0, -2.0));
    assert_eq!(plane(&c, 0, 2), (7.0, -3.0));
    assert_eq!(plane(&c, 0, 4), (7.0, -4.0));
    let c = config(5, 1, 1, 7.0, -3.0, 2.0);
    assert_eq!(pixel_coordinates(0, 0, &c).im, ratio(0, 1));
    assert_eq!(plane(&c, 0, 0), (2.0, -3.0));
    assert_eq!(plane(&c, 4, 0), (12.0, -3.0));
    let c = config(1, 1, 1, 7.0, -3.0, 2.0);
    assert_eq!(pixel_coordinates(0, 0, &c), GridPoint { re: ratio(0, 1), im: ratio(0, 1) });
    assert_eq!(plane(&c, 0, 0), (7.0, -3.0));
}

#[test]
fn an_odd_grid_has_the_centre_in_the_middle() {
    let c = config(5, 5, 1, 9.0, -9.0, 2.0);
    assert_eq!(pixel_coordinates(2, 2, &c), GridPoint { re: ratio(0, 20), im: ratio(0, 4) });
    assert_eq!(plane(&c, 2, 2), (9.0, -9.0));
}

#[test]
fn samples_are_symmetric_about_the_centre() {
    let c = config(7, 5, 2, 1.0, 2.0, 3.5);
    for py in 0..c.sample_height() {
        for px in 0..c.sample_width() {
            let z = pixel_coordinates(px, py, &c);
            let w = pixel_coordinates(c.sample_width() - 1 - px, c.sample_height() - 1 - py, &c);
            assert_eq!((z.re.num, z.re.den), (-w.re.num, w.re.den));
            assert_eq!((z.im.num, z.im.den), (-w.im.num, w.im.den));
        }
    }
}

#[test]
fn different_samples_are_different_points() {
    // a view of the smallest height above zero still tells its samples apart
    let c = config(9, 6, 2, -1.0, 1.0, f64::from_bits(1));
    for py in 0..c.sample_height() {
        for px in 1..c.sample_width() {
            let a = pixel_coordinates(px - 1, py, &c).re;
            let b = pixel_coordinates(px, py, &c).re;
            assert!(a.den > 0 && b.den > 0);
            assert!(a.num * b.den < b.num * a.den);
        }
    }
    for px in 0..c.sample_width() {
        for py in 1..c.sample_height() {
            let a = pixel_coordinates(px, py - 1, &c).im;
            let b = pixel_coordinates(px, py, &c).im;
            assert!(a.den > 0 && b.den > 0);
            assert!(a.num * b.den > b.num * a.den);
        }
    }
}

#[test]
fn samples_stay_within_the_view() {
    let c = config(9, 6, 2, 0.0, 0.0, 1.0);
    for py in 0..c.sample_height() {
        for px in 0..c.sample_width() {
            let z = pixel_coordinates(px, py, &c);
            // |re| <= w / h and |im| <= 1
            assert!(z.re.num.abs() * 6 <= 9 * z.re.den);
            assert!(z.im.num.abs() <= z.im.den);
        }
    }
}

#[test]
fn the_largest_grid_has_exact_corners() {
    let c = config(MAX_SIDE, 1, 1, 0.0, 0.0, 1.0);
    let m = (MAX_SIDE - 1) as i128;
    assert_eq!(pixel_coordinates(0, 0, &c).re, ratio(-m * MAX_SIDE as i128, m));
    assert_eq!(pixel_coordinates(MAX_SIDE - 1, 0, &c).re, ratio(m * MAX_SIDE as i128, m));
    assert_eq!(pixel_coordinates(1, 0, &c).re, ratio((2 - m) * MAX_SIDE as i128, m));
}

#[test]
fn moving_the_centre_leaves_the_offsets_alone() {
    let a = config(6, 4, 1, 0.0, 0.0, 2.0);
    let b = config(6, 4, 1, 12.5, -98.25, 2.0);
    for py in 0..4 {
        for px in 0..6 {
            assert_eq!(pixel_coordinates(px, py, &a), pixel_coordinates(px, py, &b));
            let (x, y) = plane(&a, px, py);
            let (u, v) = plane(&b, px, py);
            assert!((u - x - 12.5).abs() < 1e-12);
            assert!((v - y + 98.25).abs() < 1e-12);
        }
    }
}

#[test]
fn indices_count_row_by_row() {
    let c = config(4, 3, 1, 0.0, 0.0, 2.0);
    assert_eq!(c.pixel_of_index(0), (0, 0));
    assert_eq!(c.pixel_of_index(3), (3, 0));
    assert_eq!(c.pixel_of_index(4), (0, 1));
    assert_eq!(c.pixel_of_index(11), (3, 2));
    assert_eq!(c.index_of_pixel(0, 0), 0);
    assert_eq!(c.index_of_pixel(3, 0), 3);
    assert_eq!(c.index_of_pixel(0, 1), 4);
    assert_eq!(c.index_of_pixel(3, 2), 11);
}

#[test]
fn indices_and_samples_correspond() {
    let c = config(5, 3, 2, 0.0, 0.0, 2.0);
    for i in 0..c.sample_count() {
        let (px, py) = c.pixel_of_index(i);
        assert!(px < c.sample_width());
        assert!(py < c.sample_height());
        assert_eq!(c.index_of_pixel(px, py), i);
    }
    for py in 0..c.sample_height() {
        for px in 0..c.sample_width() {
            assert_eq!(c.pixel_of_index(c.index_of_pixel(px, py)), (px, py));
        }
    }
}
