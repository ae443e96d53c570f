//! The view: which rectangle of the complex plane a picture shows, and on which
//! grid it is sampled.
//!
//! The centre and the height of the view are binary64 numbers, held by their
//! bits. Where a sample lies relative to the centre is an exact quotient of
//! integers, in units of half the height of the view: the point of the sample
//! in column `px` and row `py` is
//!
//! ```text
//! re = center_real + offset_real(px) * fovy / 2
//! im = center_imag + offset_imag(py) * fovy / 2
//! ```
//!
//! No rounding takes place in this module.

use crate::binary64::{bits_are_positive, exact_of, is_positive};
use crate::colormap::{valid_stops, ColorMap, ColorStop};
use vstd::arithmetic::div_mod::{lemma_fundamental_div_mod, lemma_fundamental_div_mod_converse};
use vstd::prelude::*;

verus! {

/// The largest number of samples along one side of the grid.
pub const MAX_SIDE: usize = 4_294_967_295;

/// An exact quotient of two integers, with a positive denominator.
#[derive(Clone, Copy, Debug, PartialEq, Eq, Structural)]
pub struct Ratio {
    pub num: i128,
    pub den: i128,
}

/// Where a sample lies relative to the centre of the view, in units of half the
/// height of the view: `re` to the right of the centre and `im` above it.
#[derive(Clone, Copy, Debug, PartialEq, Eq, Structural)]
pub struct GridPoint {
    pub re: Ratio,
    pub im: Ratio,
}

/// Why a set of parameters is no view.
#[derive(Clone, Copy, Debug, PartialEq, Eq, Structural)]
pub enum ConfigError {
    /// The width, the height or the supersampling factor is zero.
    ZeroDimension,
    /// A side of the sampling grid is longer than `MAX_SIDE`, or the picture's
    /// bytes cannot be counted in a `usize`.
    TooLarge,
    /// The height of the view is not a number above zero.
    NonPositiveFov,
}

/// The mathematical content of a `Config`.
pub struct ConfigView {
    pub w: int,
    pub h: int,
    pub supersampling: int,
    /// The bits of the real part of the centre.
    pub center_real: u64,
    /// The bits of the imaginary part of the centre.
    pub center_imag: u64,
    /// The bits of the height of the view.
    pub fovy: u64,
    pub map: Seq<ColorStop>,
}

impl ConfigView {
    /// The number of samples in a row.
    pub open spec fn sw(self) -> int {
        self.supersampling * self.w
    }

    /// The number of rows of samples.
    pub open spec fn sh(self) -> int {
        self.supersampling * self.h
    }

    /// The number of bytes of a picture, four for each sample.
    pub open spec fn byte_len(self) -> int {
        self.sw() * self.sh() * 4
    }

    /// What `Config::new` answers for these parameters.
    pub open spec fn check(self) -> Result<(), ConfigError> {
        if self.w < 1 || self.h < 1 || self.supersampling < 1 {
            Err(ConfigError::ZeroDimension)
        } else if self.sw() > MAX_SIDE || self.sh() > MAX_SIDE || self.byte_len() > usize::MAX {
            Err(ConfigError::TooLarge)
        } else if !is_positive(self.fovy) {
            Err(ConfigError::NonPositiveFov)
        } else {
            Ok(())
        }
    }

    /// The parameters describe a view.
    pub open spec fn valid(self) -> bool {
        self.check() is Ok
    }
}

/// How far right of the centre the samples of column `px` lie, as numerator
/// and denominator: the column is brought to `[-1, 1]` and scaled by the aspect
/// ratio `w / h`. A grid of one column samples the centre.
pub open spec fn offset_real(v: ConfigView, px: int) -> (int, int) {
    if v.sw() <= 1 {
        (0, 1)
    } else {
        ((2 * px - (v.sw() - 1)) * v.w, (v.sw() - 1) * v.h)
    }
}

/// How far above the centre the samples of row `py` lie, as numerator and
/// denominator: the row is brought to `[-1, 1]`, where row 0 is the top of the
/// picture and has the largest imaginary part. A grid of one row samples the
/// centre.
pub open spec fn offset_imag(v: ConfigView, py: int) -> (int, int) {
    if v.sh() <= 1 {
        (0, 1)
    } else {
        ((v.sh() - 1) - 2 * py, v.sh() - 1)
    }
}

/// The quotient `a` is less than the quotient `b`; both have positive
/// denominators.
pub open spec fn quotient_less(a: (int, int), b: (int, int)) -> bool {
    a.0 * b.1 < b.0 * a.1
}

/// The quotients `a` and `b` are the same number; both have positive
/// denominators.
pub open spec fn quotient_equal(a: (int, int), b: (int, int)) -> bool {
    a.0 * b.1 == b.0 * a.1
}

/// The sum of two quotients.
pub open spec fn quotient_sum(a: (int, int), b: (int, int)) -> (int, int) {
    (a.0 * b.1 + b.0 * a.1, a.1 * b.1)
}

/// The difference of two quotients.
pub open spec fn quotient_difference(a: (int, int), b: (int, int)) -> (int, int) {
    (a.0 * b.1 - b.0 * a.1, a.1 * b.1)
}

/// The product of two quotients.
pub open spec fn quotient_product(a: (int, int), b: (int, int)) -> (int, int) {
    (a.0 * b.0, a.1 * b.1)
}

/// The real part of the point of the sample in column `px`, exactly: the
/// centre, and the offset of the column times half the height of the view.
/// The centre and the height are finite numbers here.
pub open spec fn plane_real(v: ConfigView, px: int) -> (int, int) {
    quotient_sum(
        exact_of(v.center_real),
        quotient_product(offset_real(v, px), quotient_product(exact_of(v.fovy), (1, 2))),
    )
}

/// The imaginary part of the point of the sample in row `py`, exactly: the
/// centre, and the offset of the row times half the height of the view. The
/// centre and the height are finite numbers here.
pub open spec fn plane_imag(v: ConfigView, py: int) -> (int, int) {
    quotient_sum(
        exact_of(v.center_imag),
        quotient_product(offset_imag(v, py), quotient_product(exact_of(v.fovy), (1, 2))),
    )
}

/// In a product of two products, the inner factors can change places.
proof fn lemma_mul_swap(a: int, b: int, c: int, d: int)
    by (nonlinear_arith)
    ensures
        (a * b) * (c * d) == (a * c) * (b * d),
        (a * b) * (c * d) == (a * d) * (b * c),
{
}

/// A product is distributed over a sum or a difference.
proof fn lemma_mul_distributes(p: int, q: int, r: int)
    by (nonlinear_arith)
    ensures
        (p + q) * r == p * r + q * r,
        (p - q) * r == p * r - q * r,
{
}

/// Two sums with the same second term differ by as much as their first terms.
pub proof fn lemma_shifted_sum(a: (int, int), b: (int, int), t: (int, int))
    ensures
        quotient_equal(
            quotient_difference(quotient_sum(b, t), quotient_sum(a, t)),
            quotient_difference(b, a),
        ),
{
    let (a1, a2) = a;
    let (b1, b2) = b;
    let (n, d) = t;
    let dd = d * d;
    let m = b2 * a2;
    let x = b1 * a2 - a1 * b2;
    // the two cross products of the sums
    lemma_mul_distributes(b1 * d, n * b2, a2 * d);
    lemma_mul_swap(b1, d, a2, d);
    lemma_mul_swap(n, b2, a2, d);
    lemma_mul_distributes(a1 * d, n * a2, b2 * d);
    lemma_mul_swap(a1, d, b2, d);
    lemma_mul_swap(n, a2, b2, d);
    assert(a2 * b2 == m) by (nonlinear_arith)
        requires
            m == b2 * a2,
    ;
    assert((b1 * d + n * b2) * (a2 * d) == (b1 * a2) * dd + (n * d) * m);
    assert((a1 * d + n * a2) * (b2 * d) == (a1 * b2) * dd + (n * d) * m);
    // their difference, and the product of the denominators
    lemma_mul_distributes(b1 * a2, a1 * b2, dd);
    lemma_mul_swap(b2, d, a2, d);
    assert((b2 * d) * (a2 * d) == m * dd);
    assert((x * dd) * m == x * (m * dd)) by (nonlinear_arith);
}

/// Three factors can be multiplied in any grouping and order.
proof fn lemma_mul_regroup(a: int, b: int, c: int)
    by (nonlinear_arith)
    ensures
        a * (b * c) == (a * c) * b,
        (a * b) * c == (b * c) * a,
{
}

/// A centre plus a multiple of a length is the same number for equal
/// multipliers, however they are written as quotients.
pub proof fn lemma_sum_of_equal(c: (int, int), o1: (int, int), o2: (int, int), h: (int, int))
    requires
        quotient_equal(o1, o2),
    ensures
        quotient_equal(
            quotient_sum(c, quotient_product(o1, h)),
            quotient_sum(c, quotient_product(o2, h)),
        ),
{
    let a = c.0 * h.1;
    let b = h.0 * c.1;
    let d = c.1 * h.1;
    lemma_mul_regroup(c.0, o1.1, h.1);
    lemma_mul_regroup(o1.0, h.0, c.1);
    lemma_mul_regroup(c.1, o1.1, h.1);
    lemma_mul_regroup(c.0, o2.1, h.1);
    lemma_mul_regroup(o2.0, h.0, c.1);
    lemma_mul_regroup(c.1, o2.1, h.1);
    assert(quotient_sum(c, quotient_product(o1, h)) == (a * o1.1 + b * o1.0, d * o1.1));
    assert(quotient_sum(c, quotient_product(o2, h)) == (a * o2.1 + b * o2.0, d * o2.1));
    lemma_mul_distributes(a * o1.1, b * o1.0, d * o2.1);
    lemma_mul_swap(a, o1.1, d, o2.1);
    lemma_mul_swap(b, o1.0, d, o2.1);
    lemma_mul_distributes(a * o2.1, b * o2.0, d * o1.1);
    lemma_mul_swap(a, o2.1, d, o1.1);
    lemma_mul_swap(b, o2.0, d, o1.1);
    assert(o1.1 * o2.1 == o2.1 * o1.1) by (nonlinear_arith);
}

/// A product of bounded natural numbers is bounded by the product of the
/// bounds.
pub proof fn lemma_product_bound(x: int, y: int, bx: int, by: int)
    by (nonlinear_arith)
    requires
        0 <= x <= bx,
        0 <= y <= by,
    ensures
        0 <= x * y <= bx * by,
{
}

/// No sample lies further from the centre than the edge of the view: half the
/// height of the view above or below, and that times the aspect ratio to the
/// left or right.
pub proof fn lemma_offsets_bounded(v: ConfigView, px: int, py: int)
    requires
        v.valid(),
        0 <= px < v.sw(),
        0 <= py < v.sh(),
    ensures
        0 < offset_real(v, px).1,
        0 < offset_imag(v, py).1,
        !quotient_less(offset_real(v, px), (-v.w, v.h)),
        !quotient_less((v.w, v.h), offset_real(v, px)),
        !quotient_less(offset_imag(v, py), (-1, 1)),
        !quotient_less((1, 1), offset_imag(v, py)),
{
    lemma_sides_positive(v);
    if v.sw() > 1 {
        let m = v.sw() - 1;
        let k = 2 * px - m;
        assert(0 < m * v.h) by (nonlinear_arith)
            requires
                0 < m,
                0 < v.h,
        ;
        assert(-v.w * (m * v.h) <= (k * v.w) * v.h <= v.w * (m * v.h)) by (nonlinear_arith)
            requires
                -m <= k <= m,
                0 < v.w,
                0 < v.h,
        ;
    } else {
        assert(0 * v.h == 0 && -v.w * 1 <= 0 <= v.w * 1) by (nonlinear_arith)
            requires
                0 < v.w,
        ;
    }
}

/// The column and row of the sample of index `i`, where samples are counted
/// row by row from the top left.
pub open spec fn pixel_of(v: ConfigView, i: int) -> (int, int) {
    (i % v.sw(), i / v.sw())
}

/// The index of the sample in column `px` and row `py`.
pub open spec fn index_of(v: ConfigView, px: int, py: int) -> int {
    py * v.sw() + px
}

/// Every index below the number of samples names a sample of the grid, and
/// that sample has this index.
pub proof fn lemma_pixel_of_index(v: ConfigView, i: int)
    requires
        v.valid(),
        0 <= i < v.sw() * v.sh(),
    ensures
        0 <= pixel_of(v, i).0 < v.sw(),
        0 <= pixel_of(v, i).1 < v.sh(),
        index_of(v, pixel_of(v, i).0, pixel_of(v, i).1) == i,
{
    let sw = v.sw();
    let sh = v.sh();
    assert(0 < sw && 0 < sh) by (nonlinear_arith)
        requires
            sw == v.supersampling * v.w,
            sh == v.supersampling * v.h,
            0 < v.supersampling,
            0 < v.w,
            0 < v.h,
    ;
    lemma_fundamental_div_mod(i, sw);
    let q = i / sw;
    assert(0 <= q < sh) by (nonlinear_arith)
        requires
            i == sw * q + i % sw,
            0 <= i % sw < sw,
            0 <= i < sw * sh,
            0 < sw,
    ;
    assert(q * sw == sw * q) by (nonlinear_arith);
}

/// Every sample of the grid has an index below the number of samples, and
/// that index names this sample: samples and indices correspond one to one.
pub proof fn lemma_index_of_pixel(v: ConfigView, px: int, py: int)
    requires
        v.valid(),
        0 <= px < v.sw(),
        0 <= py < v.sh(),
    ensures
        0 <= index_of(v, px, py) < v.sw() * v.sh(),
        pixel_of(v, index_of(v, px, py)) == (px, py),
{
    let sw = v.sw();
    let sh = v.sh();
    assert(0 <= py * sw + px < sw * sh) by (nonlinear_arith)
        requires
            0 <= px < sw,
            0 <= py < sh,
    ;
    assert(sw * py == py * sw) by (nonlinear_arith);
    lemma_fundamental_div_mod_converse(py * sw + px, sw, py, px);
}

/// The first sample lies in the top left corner of the view and the last in
/// the bottom right corner: at the aspect ratio left and right of the centre,
/// and at 1 above and below it. Along a side with a single sample, the sample
/// lies at the centre.
pub proof fn lemma_corners(v: ConfigView)
    requires
        v.valid(),
    ensures
        v.sw() > 1 ==> quotient_equal(offset_real(v, 0), (-v.w, v.h)),
        v.sw() > 1 ==> quotient_equal(offset_real(v, v.sw() - 1), (v.w, v.h)),
        v.sh() > 1 ==> offset_imag(v, 0) == (v.sh() - 1, v.sh() - 1),
        v.sh() > 1 ==> offset_imag(v, v.sh() - 1) == (-(v.sh() - 1), v.sh() - 1),
        v.sw() == 1 ==> offset_real(v, 0) == (0int, 1int),
        v.sh() == 1 ==> offset_imag(v, 0) == (0int, 1int),
{
    lemma_sides_positive(v);
    if v.sw() > 1 {
        let m = v.sw() - 1;
        assert(((0 - m) * v.w) * v.h == -v.w * (m * v.h)) by (nonlinear_arith);
        assert(((2 * m - m) * v.w) * v.h == v.w * (m * v.h)) by (nonlinear_arith);
    }
}

/// The corners of the picture are the corners of the view, exactly: the first
/// sample lies at the centre less the aspect ratio times half the height, and
/// plus half the height; the last sample at the centre plus the aspect ratio
/// times half the height, and less half the height.
pub proof fn lemma_plane_corners(v: ConfigView)
    requires
        v.valid(),
        v.sw() > 1,
        v.sh() > 1,
    ensures
        quotient_equal(
            plane_real(v, 0),
            quotient_sum(
                exact_of(v.center_real),
                quotient_product((-v.w, v.h), quotient_product(exact_of(v.fovy), (1, 2))),
            ),
        ),
        quotient_equal(
            plane_real(v, v.sw() - 1),
            quotient_sum(
                exact_of(v.center_real),
                quotient_product((v.w, v.h), quotient_product(exact_of(v.fovy), (1, 2))),
            ),
        ),
        quotient_equal(
            plane_imag(v, 0),
            quotient_sum(
                exact_of(v.center_imag),
                quotient_product((1, 1), quotient_product(exact_of(v.fovy), (1, 2))),
            ),
        ),
        quotient_equal(
            plane_imag(v, v.sh() - 1),
            quotient_sum(
                exact_of(v.center_imag),
                quotient_product((-1, 1), quotient_product(exact_of(v.fovy), (1, 2))),
            ),
        ),
{
    lemma_corners(v);
    let half = quotient_product(exact_of(v.fovy), (1, 2));
    lemma_sum_of_equal(exact_of(v.center_real), offset_real(v, 0), (-v.w, v.h), half);
    lemma_sum_of_equal(exact_of(v.center_real), offset_real(v, v.sw() - 1), (v.w, v.h), half);
    lemma_sum_of_equal(exact_of(v.center_imag), offset_imag(v, 0), (1, 1), half);
    lemma_sum_of_equal(exact_of(v.center_imag), offset_imag(v, v.sh() - 1), (-1, 1), half);
}

/// Different samples are different points: further right in the grid is
/// further right in the plane, and further down in the grid is further down
/// in the plane. Samples and points of the plane correspond one to one.
pub proof fn lemma_coordinates_distinct(v: ConfigView, px1: int, py1: int, px2: int, py2: int)
    requires
        v.valid(),
        0 <= px1 < v.sw(),
        0 <= px2 < v.sw(),
        0 <= py1 < v.sh(),
        0 <= py2 < v.sh(),
    ensures
        px1 < px2 ==> quotient_less(offset_real(v, px1), offset_real(v, px2)),
        py1 < py2 ==> quotient_less(offset_imag(v, py2), offset_imag(v, py1)),
        quotient_equal(offset_real(v, px1), offset_real(v, px2)) ==> px1 == px2,
        quotient_equal(offset_imag(v, py1), offset_imag(v, py2)) ==> py1 == py2,
{
    lemma_sides_positive(v);
    if v.sw() > 1 {
        let m = v.sw() - 1;
        let d = m * v.h;
        assert(0 < d) by (nonlinear_arith)
            requires
                d == m * v.h,
                0 < m,
                0 < v.h,
        ;
        let n1 = (2 * px1 - m) * v.w;
        let n2 = (2 * px2 - m) * v.w;
        assert(px1 < px2 ==> n1 * d < n2 * d) by (nonlinear_arith)
            requires
                n1 == (2 * px1 - m) * v.w,
                n2 == (2 * px2 - m) * v.w,
                0 < v.w,
                0 < d,
        ;
        assert(px2 < px1 ==> n2 * d < n1 * d) by (nonlinear_arith)
            requires
                n1 == (2 * px1 - m) * v.w,
                n2 == (2 * px2 - m) * v.w,
                0 < v.w,
                0 < d,
        ;
    }
    if v.sh() > 1 {
        let m = v.sh() - 1;
        let n1 = m - 2 * py1;
        let n2 = m - 2 * py2;
        assert(py1 < py2 ==> n2 * m < n1 * m) by (nonlinear_arith)
            requires
                n1 == m - 2 * py1,
                n2 == m - 2 * py2,
                0 < m,
        ;
        assert(py2 < py1 ==> n1 * m < n2 * m) by (nonlinear_arith)
            requires
                n1 == m - 2 * py1,
                n2 == m - 2 * py2,
                0 < m,
        ;
    }
}

/// Moving the centre of the view moves the point of every sample by exactly
/// as much: the offsets from the centre depend on the grid alone, so the
/// position of each sample relative to every other is unchanged.
pub proof fn lemma_center_shift(v1: ConfigView, v2: ConfigView, px: int, py: int)
    requires
        v2 == (ConfigView { center_real: v2.center_real, center_imag: v2.center_imag, ..v1 }),
    ensures
        offset_real(v2, px) == offset_real(v1, px),
        offset_imag(v2, py) == offset_imag(v1, py),
        quotient_equal(
            quotient_difference(plane_real(v2, px), plane_real(v1, px)),
            quotient_difference(exact_of(v2.center_real), exact_of(v1.center_real)),
        ),
        quotient_equal(
            quotient_difference(plane_imag(v2, py), plane_imag(v1, py)),
            quotient_difference(exact_of(v2.center_imag), exact_of(v1.center_imag)),
        ),
{
    let half = quotient_product(exact_of(v1.fovy), (1, 2));
    lemma_shifted_sum(
        exact_of(v1.center_real),
        exact_of(v2.center_real),
        quotient_product(offset_real(v1, px), half),
    );
    lemma_shifted_sum(
        exact_of(v1.center_imag),
        exact_of(v2.center_imag),
        quotient_product(offset_imag(v1, py), half),
    );
}

/// A picture to render: the size of the image, the supersampling factor, the
/// centre and height of the view, and the colour map.
#[derive(Debug)]
pub struct Config {
    map: ColorMap,
    w: usize,
    h: usize,
    supersampling: usize,
    center_real: u64,
    center_imag: u64,
    fovy: u64,
    sw: usize,
    sh: usize,
}

impl View for Config {
    type V = ConfigView;

    closed spec fn view(&self) -> ConfigView {
        ConfigView {
            w: self.w as int,
            h: self.h as int,
            supersampling: self.supersampling as int,
            center_real: self.center_real,
            center_imag: self.center_imag,
            fovy: self.fovy,
            map: self.map@,
        }
    }
}

impl Clone for Config {
    /// A configuration of the same picture.
    fn clone(&self) -> (c: Config)
        ensures
            c@ == self@,
    {
        proof {
            use_type_invariant(self);
        }
        Config {
            map: self.map.clone(),
            w: self.w,
            h: self.h,
            supersampling: self.supersampling,
            center_real: self.center_real,
            center_imag: self.center_imag,
            fovy: self.fovy,
            sw: self.sw,
            sh: self.sh,
        }
    }
}

impl Config {
    #[verifier::type_invariant]
    spec fn well_formed(&self) -> bool {
        &&& self@.valid()
        &&& self.sw == self@.sw()
        &&& self.sh == self@.sh()
    }

    /// Makes a configuration, or says why the parameters describe none. The
    /// centre of the view and its height `fovy` are binary64 numbers, given by
    /// their bits; the width of the view follows from the aspect ratio `w / h`.
    /// Every height above zero is a view.
    pub fn new(
        map: ColorMap,
        w: usize,
        h: usize,
        supersampling: usize,
        center_real: u64,
        center_imag: u64,
        fovy: u64,
    ) -> (r: Result<Config, ConfigError>)
        ensures
            match r {
                Ok(c) => c@ == config_view(
                    map@,
                    w,
                    h,
                    supersampling,
                    center_real,
                    center_imag,
                    fovy,
                ) && c@.valid(),
                Err(e) => config_view(
                    map@,
                    w,
                    h,
                    supersampling,
                    center_real,
                    center_imag,
                    fovy,
                ).check() == Err::<(), ConfigError>(e),
            },
    {
        let ghost v = config_view(map@, w, h, supersampling, center_real, center_imag, fovy);
        if w < 1 || h < 1 || supersampling < 1 {
            return Err(ConfigError::ZeroDimension);
        }
        let sw = match side_length(supersampling, w) {
            Some(n) => n,
            None => {
                return Err(ConfigError::TooLarge);
            },
        };
        let sh = match side_length(supersampling, h) {
            Some(n) => n,
            None => {
                return Err(ConfigError::TooLarge);
            },
        };
        assert(sw * sh * 4 == v.byte_len());
        proof {
            lemma_product_bound(sw as int, sh as int, 4_294_967_295, 4_294_967_295);
        }
        if (sw as u128) * (sh as u128) * 4 > usize::MAX as u128 {
            return Err(ConfigError::TooLarge);
        }
        if !bits_are_positive(fovy) {
            return Err(ConfigError::NonPositiveFov);
        }
        Ok(Config { map, w, h, supersampling, center_real, center_imag, fovy, sw, sh })
    }

    /// The colour map.
    pub fn map(&self) -> (m: &ColorMap)
        ensures
            m@ == self@.map,
            valid_stops(self@.map),
    {
        // a colour map vouches for its stops whenever it is asked for them
        let _ = self.map.len();
        &self.map
    }

    /// The width of the image in pixels.
    pub fn width(&self) -> (n: usize)
        ensures
            n == self@.w,
    {
        self.w
    }

    /// The height of the image in pixels.
    pub fn height(&self) -> (n: usize)
        ensures
            n == self@.h,
    {
        self.h
    }

    /// The number of samples along each side of a pixel.
    pub fn supersampling(&self) -> (n: usize)
        ensures
            n == self@.supersampling,
    {
        self.supersampling
    }

    /// The number of samples in a row of the grid.
    pub fn sample_width(&self) -> (n: usize)
        ensures
            n == self@.sw(),
            1 <= n <= MAX_SIDE,
            self@.valid(),
    {
        proof {
            use_type_invariant(self);
            lemma_sides_positive(self@);
        }
        self.sw
    }

    /// The number of rows of the grid.
    pub fn sample_height(&self) -> (n: usize)
        ensures
            n == self@.sh(),
            1 <= n <= MAX_SIDE,
            self@.valid(),
    {
        proof {
            use_type_invariant(self);
            lemma_sides_positive(self@);
        }
        self.sh
    }

    /// The number of samples of the grid.
    pub fn sample_count(&self) -> (n: usize)
        ensures
            n == self@.sw() * self@.sh(),
            n * 4 == self@.byte_len(),
            self@.valid(),
    {
        proof {
            use_type_invariant(self);
            lemma_sides_positive(self@);
        }
        assert(self.sw * self.sh <= self.sw * self.sh * 4) by (nonlinear_arith)
            requires
                0 <= self.sw,
                0 <= self.sh,
        ;
        self.sw * self.sh
    }

    /// The number of bytes of the picture.
    pub fn byte_len(&self) -> (n: usize)
        ensures
            n == self@.byte_len(),
            self@.valid(),
    {
        self.sample_count() * 4
    }

    /// The bits of the real part of the centre of the view.
    pub fn center_real(&self) -> (bits: u64)
        ensures
            bits == self@.center_real,
    {
        self.center_real
    }

    /// The bits of the imaginary part of the centre of the view.
    pub fn center_imag(&self) -> (bits: u64)
        ensures
            bits == self@.center_imag,
    {
        self.center_imag
    }

    /// The bits of the height of the view, a number above zero.
    pub fn fovy(&self) -> (bits: u64)
        ensures
            bits == self@.fovy,
            is_positive(bits),
    {
        proof {
            use_type_invariant(self);
        }
        self.fovy
    }

    /// The column and row of the sample of index `i`.
    pub fn pixel_of_index(&self, i: usize) -> (p: (usize, usize))
        requires
            i < self@.sw() * self@.sh(),
        ensures
            (p.0 as int, p.1 as int) == pixel_of(self@, i as int),
            p.0 < self@.sw(),
            p.1 < self@.sh(),
    {
        proof {
            use_type_invariant(self);
            lemma_pixel_of_index(self@, i as int);
            lemma_fundamental_div_mod(i as int, self.sw as int);
        }
        let py = i / self.sw;
        assert(py * self.sw == self.sw * py) by (nonlinear_arith);
        let px = i - py * self.sw;
        (px, py)
    }

    /// The index of the sample in column `px` and row `py`.
    pub fn index_of_pixel(&self, px: usize, py: usize) -> (i: usize)
        requires
            px < self@.sw(),
            py < self@.sh(),
        ensures
            i == index_of(self@, px as int, py as int),
            i < self@.sw() * self@.sh(),
    {
        proof {
            use_type_invariant(self);
            lemma_index_of_pixel(self@, px as int, py as int);
            assert(0 <= py * self.sw) by (nonlinear_arith)
                requires
                    0 <= py,
                    0 <= self.sw,
            ;
            assert(self.sw * self.sh <= self.sw * self.sh * 4) by (nonlinear_arith)
                requires
                    0 <= self.sw,
                    0 <= self.sh,
            ;
        }
        py * self.sw + px
    }
}

/// A valid view has at least one sample along each side.
pub proof fn lemma_sides_positive(v: ConfigView)
    requires
        v.valid(),
    ensures
        1 <= v.sw() <= MAX_SIDE,
        1 <= v.sh() <= MAX_SIDE,
        v.w <= v.sw(),
        v.h <= v.sh(),
{
    assert(v.w <= v.supersampling * v.w && v.h <= v.supersampling * v.h) by (nonlinear_arith)
        requires
            1 <= v.supersampling,
            1 <= v.w,
            1 <= v.h,
    ;
}

/// Where the sample in column `px` and row `py` of the sampling grid lies
/// relative to the centre of the view, exactly. Column 0 is the left edge of
/// the view and the last column its right edge; row 0 is the top edge and the
/// last row the bottom edge.
pub fn pixel_coordinates(px: usize, py: usize, config: &Config) -> (z: GridPoint)
    requires
        px < config@.sw(),
        py < config@.sh(),
    ensures
        (z.re.num as int, z.re.den as int) == offset_real(config@, px as int),
        (z.im.num as int, z.im.den as int) == offset_imag(config@, py as int),
        z.re.den > 0,
        z.im.den > 0,
{
    proof {
        use_type_invariant(config);
        lemma_sides_positive(config@);
    }
    let re = if config.sw <= 1 {
        Ratio { num: 0, den: 1 }
    } else {
        let m: i128 = (config.sw - 1) as i128;
        let k: i128 = 2 * (px as i128) - m;
        proof {
            let a = if k >= 0 { k as int } else { -k };
            lemma_product_bound(a, config.w as int, 4_294_967_295, 4_294_967_295);
            lemma_product_bound(m as int, config.h as int, 4_294_967_295, 4_294_967_295);
            assert(k * config.w == a * config.w || k * config.w == -(a * config.w))
                by (nonlinear_arith)
                requires
                    a == k || a == -k,
            ;
            assert(0 < m * config.h) by (nonlinear_arith)
                requires
                    0 < m,
                    0 < config.h,
            ;
        }
        Ratio { num: k * (config.w as i128), den: m * (config.h as i128) }
    };
    let im = if config.sh <= 1 {
        Ratio { num: 0, den: 1 }
    } else {
        let m: i128 = (config.sh - 1) as i128;
        Ratio { num: m - 2 * (py as i128), den: m }
    };
    GridPoint { re, im }
}

/// The configuration that `Config::new` is asked for.
pub open spec fn config_view(
    map: Seq<ColorStop>,
    w: usize,
    h: usize,
    supersampling: usize,
    center_real: u64,
    center_imag: u64,
    fovy: u64,
) -> ConfigView {
    ConfigView {
        w: w as int,
        h: h as int,
        supersampling: supersampling as int,
        center_real,
        center_imag,
        fovy,
        map,
    }
}

/// The length `factor * side` of a side of the sampling grid, where it is at
/// most `MAX_SIDE`.
fn side_length(factor: usize, side: usize) -> (r: Option<usize>)
    ensures
        match r {
            Some(n) => n == factor * side && n <= MAX_SIDE,
            None => factor * side > MAX_SIDE,
        },
{
    match factor.checked_mul(side) {
        Some(n) => if n <= MAX_SIDE {
            Some(n)
        } else {
            None
        },
        None => None,
    }
}

} // verus!
