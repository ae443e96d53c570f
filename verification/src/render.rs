//! Rendering: every sample of the grid is mapped to its place in the view, the
//! function is evaluated there, and the value is given its colour. The
//! samples are independent of one another, so a picture can be rendered whole
//! or in pieces, in any order, with the same bytes as the result.

use crate::color::Rgba;
use crate::colorize::{color_of, complex_color, ComplexSample};
use crate::view::{
    offset_imag, offset_real, pixel_coordinates, pixel_of, Config, ConfigView, GridPoint, Ratio,
};
use vstd::prelude::*;

verus! {

/// Where the sample of index `i` lies relative to the centre of the view.
pub open spec fn sample_point(v: ConfigView, i: int) -> GridPoint {
    let p = pixel_of(v, i);
    let x = offset_real(v, p.0);
    let y = offset_imag(v, p.1);
    GridPoint {
        re: Ratio { num: x.0 as i128, den: x.1 as i128 },
        im: Ratio { num: y.0 as i128, den: y.1 as i128 },
    }
}

/// The byte of index `k` of a colour: red, green, blue, alpha.
pub open spec fn channel(c: Rgba, k: int) -> u8 {
    if k == 0 {
        c.r
    } else if k == 1 {
        c.g
    } else if k == 2 {
        c.b
    } else {
        c.a
    }
}

/// `c` is a colour that `f` can give the sample of index `i`.
pub open spec fn shaded_by<F: Fn(GridPoint) -> ComplexSample>(
    f: F,
    v: ConfigView,
    i: int,
    c: Rgba,
) -> bool {
    exists|s: ComplexSample| #[trigger]
        call_ensures(f, (sample_point(v, i),), s) && c == color_of(s, v.map)
}

/// The colour that the bytes `data` hold for the sample of index `i`, where
/// `data` starts with the sample of index `first`.
pub open spec fn color_in(data: Seq<u8>, first: int, i: int) -> Rgba {
    let k = 4 * (i - first);
    Rgba { r: data[k], g: data[k + 1], b: data[k + 2], a: data[k + 3] }
}

/// `data` is a rendering by `f` of the samples from index `first` up to, not
/// including, index `end`: four bytes for each sample, in order.
pub open spec fn renders<F: Fn(GridPoint) -> ComplexSample>(
    f: F,
    v: ConfigView,
    first: int,
    end: int,
    data: Seq<u8>,
) -> bool {
    &&& data.len() == 4 * (end - first)
    &&& forall|i: int| first <= i < end ==> #[trigger] shaded_by(f, v, i, color_in(data, first, i))
}

/// `f` can be called on every place of a view.
pub open spec fn total<F: Fn(GridPoint) -> ComplexSample>(f: F) -> bool {
    forall|z: GridPoint| #[trigger] call_requires(f, (z,))
}

/// `f` computes the mathematical function `g`: whatever `f` returns for a
/// point is the value of `g` there.
pub open spec fn computes<F: Fn(GridPoint) -> ComplexSample>(
    f: F,
    g: spec_fn(GridPoint) -> ComplexSample,
) -> bool {
    forall|z: GridPoint, s: ComplexSample| #[trigger] call_ensures(f, (z,), s) ==> s == g(z)
}

/// The colour of the sample of index `i` in the picture of `g`.
pub open spec fn pixel_color(
    v: ConfigView,
    g: spec_fn(GridPoint) -> ComplexSample,
    i: int,
) -> Rgba {
    color_of(g(sample_point(v, i)), v.map)
}

/// The bytes of the samples from index `first` up to, not including, index
/// `end` in the picture of `g`.
pub open spec fn picture_part(
    v: ConfigView,
    g: spec_fn(GridPoint) -> ComplexSample,
    first: int,
    end: int,
) -> Seq<u8> {
    Seq::new(
        (4 * (end - first)) as nat,
        |k: int| channel(pixel_color(v, g, first + k / 4), k % 4),
    )
}

/// The picture of `g`: the bytes of all samples, row by row from the top
/// left.
pub open spec fn picture(v: ConfigView, g: spec_fn(GridPoint) -> ComplexSample) -> Seq<u8> {
    picture_part(v, g, 0, v.sw() * v.sh())
}

/// Renderings of two adjoining ranges of samples, one after the other, are a
/// rendering of the two ranges together.
pub proof fn lemma_renders_concat<F: Fn(GridPoint) -> ComplexSample>(
    f: F,
    v: ConfigView,
    first: int,
    mid: int,
    end: int,
    d1: Seq<u8>,
    d2: Seq<u8>,
)
    requires
        first <= mid <= end,
        renders(f, v, first, mid, d1),
        renders(f, v, mid, end, d2),
    ensures
        renders(f, v, first, end, d1 + d2),
{
    let d = d1 + d2;
    assert forall|i: int| first <= i < end implies #[trigger] shaded_by(
        f,
        v,
        i,
        color_in(d, first, i),
    ) by {
        if i < mid {
            assert(shaded_by(f, v, i, color_in(d1, first, i)));
            assert(color_in(d, first, i) == color_in(d1, first, i));
        } else {
            assert(shaded_by(f, v, i, color_in(d2, mid, i)));
            assert(color_in(d, first, i) == color_in(d2, mid, i));
        }
    }
}

/// A rendering of a range of samples, cut at a sample, is a rendering of each
/// of the two parts.
pub proof fn lemma_renders_split<F: Fn(GridPoint) -> ComplexSample>(
    f: F,
    v: ConfigView,
    first: int,
    mid: int,
    end: int,
    d: Seq<u8>,
)
    requires
        first <= mid <= end,
        renders(f, v, first, end, d),
    ensures
        renders(f, v, first, mid, d.subrange(0, 4 * (mid - first))),
        renders(f, v, mid, end, d.subrange(4 * (mid - first), 4 * (end - first))),
{
    let d1 = d.subrange(0, 4 * (mid - first));
    let d2 = d.subrange(4 * (mid - first), 4 * (end - first));
    assert forall|i: int| first <= i < mid implies #[trigger] shaded_by(
        f,
        v,
        i,
        color_in(d1, first, i),
    ) by {
        assert(shaded_by(f, v, i, color_in(d, first, i)));
        assert(color_in(d1, first, i) == color_in(d, first, i));
    }
    assert forall|i: int| mid <= i < end implies #[trigger] shaded_by(
        f,
        v,
        i,
        color_in(d2, mid, i),
    ) by {
        assert(shaded_by(f, v, i, color_in(d, first, i)));
        assert(color_in(d2, mid, i) == color_in(d, first, i));
    }
}

/// Where `f` computes a function `g`, every rendering by `f` of a range of
/// samples is that part of the picture of `g`.
pub proof fn lemma_rendering_is_picture<F: Fn(GridPoint) -> ComplexSample>(
    f: F,
    g: spec_fn(GridPoint) -> ComplexSample,
    v: ConfigView,
    first: int,
    end: int,
    d: Seq<u8>,
)
    requires
        first <= end,
        computes(f, g),
        renders(f, v, first, end, d),
    ensures
        d == picture_part(v, g, first, end),
{
    let p = picture_part(v, g, first, end);
    assert forall|k: int| 0 <= k < d.len() implies d[k] == p[k] by {
        let i = first + k / 4;
        assert(shaded_by(f, v, i, color_in(d, first, i)));
        let s = choose|s: ComplexSample| #[trigger]
            call_ensures(f, (sample_point(v, i),), s) && color_in(d, first, i) == color_of(
                s,
                v.map,
            );
        assert(s == g(sample_point(v, i)));
        assert(color_in(d, first, i) == pixel_color(v, g, i));
    }
    assert(d =~= p);
}

/// A rendering by `f` is the picture of every function that `f` computes.
proof fn lemma_every_picture<F: Fn(GridPoint) -> ComplexSample>(
    f: F,
    v: ConfigView,
    first: int,
    end: int,
    d: Seq<u8>,
)
    requires
        first <= end,
        renders(f, v, first, end, d),
    ensures
        forall|g: spec_fn(GridPoint) -> ComplexSample| #[trigger]
            computes(f, g) ==> d == picture_part(v, g, first, end),
{
    assert forall|g: spec_fn(GridPoint) -> ComplexSample| #[trigger] computes(f, g) implies d
        == picture_part(v, g, first, end) by {
        lemma_rendering_is_picture(f, g, v, first, end, d);
    }
}

/// Two renderings of the same samples by a function that computes are the
/// same bytes, however each of them was put together.
pub proof fn lemma_renderings_agree<F: Fn(GridPoint) -> ComplexSample>(
    f: F,
    g: spec_fn(GridPoint) -> ComplexSample,
    v: ConfigView,
    first: int,
    end: int,
    d1: Seq<u8>,
    d2: Seq<u8>,
)
    requires
        first <= end,
        computes(f, g),
        renders(f, v, first, end, d1),
        renders(f, v, first, end, d2),
    ensures
        d1 == d2,
{
    lemma_rendering_is_picture(f, g, v, first, end, d1);
    lemma_rendering_is_picture(f, g, v, first, end, d2);
}

/// The picture depends on the view through its grid and its colour map only:
/// where the function is the same at every sample, moving the centre of the
/// view or changing its height leaves every colour unchanged.
pub proof fn lemma_picture_of_grid(
    v1: ConfigView,
    v2: ConfigView,
    g: spec_fn(GridPoint) -> ComplexSample,
)
    requires
        v2 == (ConfigView {
            center_real: v2.center_real,
            center_imag: v2.center_imag,
            fovy: v2.fovy,
            ..v1
        }),
    ensures
        picture(v2, g) == picture(v1, g),
{
    assert(picture(v2, g) =~= picture(v1, g));
}

/// The colour of the sample of index `i`.
pub fn shade<F: Fn(GridPoint) -> ComplexSample>(config: &Config, f: &F, i: usize) -> (c: Rgba)
    requires
        total(*f),
        i < config@.sw() * config@.sh(),
    ensures
        shaded_by(*f, config@, i as int, c),
        forall|g: spec_fn(GridPoint) -> ComplexSample| #[trigger]
            computes(*f, g) ==> c == pixel_color(config@, g, i as int),
{
    let p = config.pixel_of_index(i);
    let z = pixel_coordinates(p.0, p.1, config);
    let s = f(z);
    assert(call_ensures(*f, (sample_point(config@, i as int),), s));
    complex_color(s, config.map())
}

/// Renders the samples from index `first` up to, not including, index `end`.
pub fn render_range<F: Fn(GridPoint) -> ComplexSample>(
    config: &Config,
    f: &F,
    first: usize,
    end: usize,
) -> (data: Vec<u8>)
    requires
        total(*f),
        first <= end <= config@.sw() * config@.sh(),
    ensures
        renders(*f, config@, first as int, end as int, data@),
        forall|g: spec_fn(GridPoint) -> ComplexSample| #[trigger]
            computes(*f, g) ==> data@ == picture_part(config@, g, first as int, end as int),
{
    let mut data: Vec<u8> = Vec::new();
    let mut i: usize = first;
    while i < end
        invariant
            total(*f),
            first <= i <= end <= config@.sw() * config@.sh(),
            renders(*f, config@, first as int, i as int, data@),
        decreases end - i,
    {
        let ghost before = data@;
        let c = shade(config, f, i);
        data.push(c.r);
        data.push(c.g);
        data.push(c.b);
        data.push(c.a);
        proof {
            assert forall|j: int| first <= j < i + 1 implies #[trigger] shaded_by(
                *f,
                config@,
                j,
                color_in(data@, first as int, j),
            ) by {
                if j < i {
                    assert(shaded_by(*f, config@, j, color_in(before, first as int, j)));
                    assert(color_in(data@, first as int, j) == color_in(before, first as int, j));
                } else {
                    assert(color_in(data@, first as int, j) == c);
                }
            }
        }
        i += 1;
    }
    proof {
        lemma_every_picture(*f, config@, first as int, end as int, data@);
    }
    data
}

/// Renders the whole picture as `render` does, in pieces of `chunk` samples
/// that are rendered one after the other and put together.
pub fn render_chunked<F: Fn(GridPoint) -> ComplexSample>(
    config: &Config,
    f: &F,
    chunk: usize,
) -> (data: Vec<u8>)
    requires
        total(*f),
        chunk >= 1,
    ensures
        renders(*f, config@, 0, config@.sw() * config@.sh(), data@),
        data@.len() == config@.byte_len(),
        forall|g: spec_fn(GridPoint) -> ComplexSample| #[trigger]
            computes(*f, g) ==> data@ == picture(config@, g),
{
    let n = config.sample_count();
    let mut data: Vec<u8> = Vec::new();
    let mut first: usize = 0;
    while first < n
        invariant
            total(*f),
            chunk >= 1,
            first <= n,
            n == config@.sw() * config@.sh(),
            renders(*f, config@, 0, first as int, data@),
        decreases n - first,
    {
        let end = if chunk < n - first { first + chunk } else { n };
        let mut piece = render_range(config, f, first, end);
        proof {
            lemma_renders_concat(*f, config@, 0, first as int, end as int, data@, piece@);
        }
        data.append(&mut piece);
        first = end;
    }
    proof {
        lemma_every_picture(*f, config@, 0, n as int, data@);
    }
    data
}

/// Renders the whole picture: four bytes for each sample, row by row from the
/// top left.
pub fn render<F: Fn(GridPoint) -> ComplexSample>(config: &Config, f: &F) -> (data: Vec<u8>)
    requires
        total(*f),
    ensures
        renders(*f, config@, 0, config@.sw() * config@.sh(), data@),
        data@.len() == config@.byte_len(),
        forall|g: spec_fn(GridPoint) -> ComplexSample| #[trigger]
            computes(*f, g) ==> data@ == picture(config@, g),
{
    let n = config.sample_count();
    render_range(config, f, 0, n)
}

} // verus!
