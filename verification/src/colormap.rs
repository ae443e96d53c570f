//! Colour maps: ordered tables of stops with linear interpolation between them.

use crate::color::{
    colors_within, lemma_lerp_channel_bounds, lemma_lerp_channel_monotone, lemma_lerp_color_ends,
    lemma_lerp_color_step, lerp_color, lerp_rgba, Rgba, UNIT,
};
use vstd::prelude::*;

verus! {

/// One control point of a colour map: a position in `0..=UNIT` and its colour.
#[derive(Clone, Copy, Debug, PartialEq, Eq, Structural)]
pub struct ColorStop {
    pub pos: u32,
    pub color: Rgba,
}

/// Why a table of stops is no colour map.
#[derive(Clone, Copy, Debug, PartialEq, Eq, Structural)]
pub enum ColorMapError {
    /// Fewer than two stops.
    TooFewStops,
    /// The first stop is not at position 0.
    FirstNotZero,
    /// The last stop is not at position `UNIT`.
    LastNotUnit,
    /// Some stop is not strictly to the right of the stops before it.
    NotIncreasing,
}

/// Positions grow strictly from each stop to every later one.
pub open spec fn increasing(stops: Seq<ColorStop>) -> bool {
    forall|i: int, j: int|
        0 <= i < j < stops.len() ==> (#[trigger] stops[i]).pos < (#[trigger] stops[j]).pos
}

/// The stops form a colour map: at least two of them, from position 0 to
/// position `UNIT`, strictly increasing.
pub open spec fn valid_stops(stops: Seq<ColorStop>) -> bool {
    &&& stops.len() >= 2
    &&& stops[0].pos == 0
    &&& stops[stops.len() - 1].pos == UNIT
    &&& increasing(stops)
}

/// What `ColorMap::new` answers for a table of stops.
pub open spec fn check_stops(stops: Seq<ColorStop>) -> Result<(), ColorMapError> {
    if stops.len() < 2 {
        Err(ColorMapError::TooFewStops)
    } else if stops[0].pos != 0 {
        Err(ColorMapError::FirstNotZero)
    } else if stops[stops.len() - 1].pos != UNIT {
        Err(ColorMapError::LastNotUnit)
    } else if !increasing(stops) {
        Err(ColorMapError::NotIncreasing)
    } else {
        Ok(())
    }
}

/// A position brought into `0..=UNIT`.
pub open spec fn clamp_unit(t: int) -> int {
    if t < 0 {
        0
    } else if t > UNIT {
        UNIT as int
    } else {
        t
    }
}

/// The first segment at or after `k` whose right end is not left of `t`.
pub open spec fn bracket_from(stops: Seq<ColorStop>, t: int, k: int) -> int
    decreases stops.len() - k,
{
    if k + 2 >= stops.len() || t <= stops[k + 1].pos {
        k
    } else {
        bracket_from(stops, t, k + 1)
    }
}

/// The colour of segment `i` of `stops` at position `t`.
pub open spec fn segment_color(stops: Seq<ColorStop>, i: int, t: int) -> Rgba {
    lerp_color(
        stops[i].color,
        stops[i + 1].color,
        t - stops[i].pos,
        stops[i + 1].pos - stops[i].pos,
    )
}

/// The colour of the map `stops` at position `t`: `t` is clamped to the unit
/// interval, and the colour is interpolated within the first segment that
/// holds it.
pub open spec fn sample_at(stops: Seq<ColorStop>, t: int) -> Rgba {
    let tc = clamp_unit(t);
    segment_color(stops, bracket_from(stops, tc, 0), tc)
}

/// The segment that `bracket_from` finds holds `t`.
pub proof fn lemma_bracket_from(stops: Seq<ColorStop>, t: int, k: int)
    requires
        valid_stops(stops),
        0 <= k <= stops.len() - 2,
        stops[k].pos <= t <= UNIT,
        k > 0 ==> stops[k].pos < t,
    ensures
        k <= bracket_from(stops, t, k) <= stops.len() - 2,
        stops[bracket_from(stops, t, k)].pos <= t <= stops[bracket_from(stops, t, k) + 1].pos,
        bracket_from(stops, t, k) > 0 ==> stops[bracket_from(stops, t, k)].pos < t,
    decreases stops.len() - k,
{
    if k + 2 >= stops.len() || t <= stops[k + 1].pos {
    } else {
        lemma_bracket_from(stops, t, k + 1);
    }
}

/// Whichever segment holds `t`, the map's colour at `t` is that segment's: where
/// two segments meet, both give the colour of the stop between them.
pub proof fn lemma_sample_any_bracket(stops: Seq<ColorStop>, t: int, i: int)
    requires
        valid_stops(stops),
        0 <= i <= stops.len() - 2,
        stops[i].pos <= t <= stops[i + 1].pos,
    ensures
        sample_at(stops, t) == segment_color(stops, i, t),
{
    assert(stops[i + 1].pos <= stops[stops.len() - 1].pos);
    assert(stops[0].pos <= stops[i].pos);
    let b = bracket_from(stops, t, 0);
    lemma_bracket_from(stops, t, 0);
    if i < b {
        assert(stops[i + 1].pos <= stops[b].pos);
    } else if i > b {
        assert(stops[b + 1].pos <= stops[i].pos);
        assert(i == b + 1);
        lemma_lerp_color_ends(
            stops[b].color,
            stops[b + 1].color,
            stops[b + 1].pos - stops[b].pos,
        );
        lemma_lerp_color_ends(
            stops[i].color,
            stops[i + 1].color,
            stops[i + 1].pos - stops[i].pos,
        );
    }
}

/// At the position of a stop the map has the stop's colour: no jump where two
/// segments meet. In particular the map starts with its first colour and ends
/// with its last.
pub proof fn lemma_sample_at_stop(stops: Seq<ColorStop>, i: int)
    requires
        valid_stops(stops),
        0 <= i < stops.len(),
    ensures
        sample_at(stops, stops[i].pos as int) == stops[i].color,
        sample_at(stops, 0) == stops[0].color,
        sample_at(stops, UNIT as int) == stops[stops.len() - 1].color,
{
    let n = stops.len() as int;
    lemma_sample_any_bracket(stops, 0, 0);
    lemma_lerp_color_ends(stops[0].color, stops[1].color, stops[1].pos - stops[0].pos);
    lemma_sample_any_bracket(stops, UNIT as int, n - 2);
    lemma_lerp_color_ends(
        stops[n - 2].color,
        stops[n - 1].color,
        stops[n - 1].pos - stops[n - 2].pos,
    );
    assert(stops[0].pos <= stops[i].pos <= stops[n - 1].pos);
    if i < n - 1 {
        lemma_sample_any_bracket(stops, stops[i].pos as int, i);
        lemma_lerp_color_ends(
            stops[i].color,
            stops[i + 1].color,
            stops[i + 1].pos - stops[i].pos,
        );
    }
}

/// Within a segment of width `w`, moving one position step changes no channel
/// by more than `255 / w + 1`: the map has no jumps.
pub proof fn lemma_sample_step(stops: Seq<ColorStop>, t: int, i: int)
    requires
        valid_stops(stops),
        0 <= i <= stops.len() - 2,
        stops[i].pos <= t < stops[i + 1].pos,
    ensures
        colors_within(
            sample_at(stops, t),
            sample_at(stops, t + 1),
            255int / (stops[i + 1].pos - stops[i].pos) + 1,
        ),
{
    lemma_sample_any_bracket(stops, t, i);
    lemma_sample_any_bracket(stops, t + 1, i);
    lemma_lerp_color_step(
        stops[i].color,
        stops[i + 1].color,
        t - stops[i].pos,
        stops[i + 1].pos - stops[i].pos,
    );
}

/// Within a segment whose red grows from left to right, the red of the map
/// grows with the position; likewise for the other channels. So on a map
/// from black to white a larger position is a lighter colour.
pub proof fn lemma_sample_monotone(stops: Seq<ColorStop>, i: int, t1: int, t2: int)
    requires
        valid_stops(stops),
        0 <= i <= stops.len() - 2,
        stops[i].pos <= t1 <= t2 <= stops[i + 1].pos,
    ensures
        stops[i].color.r <= stops[i + 1].color.r ==> sample_at(stops, t1).r <= sample_at(
            stops,
            t2,
        ).r,
        stops[i].color.g <= stops[i + 1].color.g ==> sample_at(stops, t1).g <= sample_at(
            stops,
            t2,
        ).g,
        stops[i].color.b <= stops[i + 1].color.b ==> sample_at(stops, t1).b <= sample_at(
            stops,
            t2,
        ).b,
        stops[i].color.a <= stops[i + 1].color.a ==> sample_at(stops, t1).a <= sample_at(
            stops,
            t2,
        ).a,
{
    lemma_sample_any_bracket(stops, t1, i);
    lemma_sample_any_bracket(stops, t2, i);
    let c0 = stops[i].color;
    let c1 = stops[i + 1].color;
    let n1 = t1 - stops[i].pos;
    let n2 = t2 - stops[i].pos;
    let den = stops[i + 1].pos - stops[i].pos;
    lemma_lerp_channel_monotone(c0.r as int, c1.r as int, n1, n2, den);
    lemma_lerp_channel_monotone(c0.g as int, c1.g as int, n1, n2, den);
    lemma_lerp_channel_monotone(c0.b as int, c1.b as int, n1, n2, den);
    lemma_lerp_channel_monotone(c0.a as int, c1.a as int, n1, n2, den);
    lemma_lerp_channel_bounds(c0.r as int, c1.r as int, n1, den);
    lemma_lerp_channel_bounds(c0.g as int, c1.g as int, n1, den);
    lemma_lerp_channel_bounds(c0.b as int, c1.b as int, n1, den);
    lemma_lerp_channel_bounds(c0.a as int, c1.a as int, n1, den);
    lemma_lerp_channel_bounds(c0.r as int, c1.r as int, n2, den);
    lemma_lerp_channel_bounds(c0.g as int, c1.g as int, n2, den);
    lemma_lerp_channel_bounds(c0.b as int, c1.b as int, n2, den);
    lemma_lerp_channel_bounds(c0.a as int, c1.a as int, n2, den);
}

/// Positions outside the unit interval count as its nearer end.
pub proof fn lemma_sample_clamps(stops: Seq<ColorStop>, t: int)
    requires
        valid_stops(stops),
    ensures
        t <= 0 ==> sample_at(stops, t) == stops[0].color,
        t >= UNIT ==> sample_at(stops, t) == stops[stops.len() - 1].color,
{
    lemma_sample_at_stop(stops, 0);
}

/// An immutable colour map.
#[derive(Debug)]
pub struct ColorMap {
    stops: Vec<ColorStop>,
}

impl View for ColorMap {
    type V = Seq<ColorStop>;

    closed spec fn view(&self) -> Seq<ColorStop> {
        self.stops@
    }
}

impl Clone for ColorMap {
    /// A colour map with the same stops.
    fn clone(&self) -> (m: ColorMap)
        ensures
            m@ == self@,
    {
        proof {
            use_type_invariant(self);
        }
        let n = self.stops.len();
        let mut stops: Vec<ColorStop> = Vec::new();
        let mut i: usize = 0;
        while i < n
            invariant
                n == self.stops@.len(),
                i <= n,
                stops@ == self.stops@.subrange(0, i as int),
            decreases n - i,
        {
            stops.push(self.stops[i]);
            assert(stops@ =~= self.stops@.subrange(0, i + 1));
            i += 1;
        }
        assert(stops@ =~= self.stops@);
        ColorMap { stops }
    }
}

impl ColorMap {
    #[verifier::type_invariant]
    spec fn well_formed(&self) -> bool {
        valid_stops(self.stops@)
    }

    /// Makes a colour map of a table of stops, or says what is wrong with the
    /// table.
    pub fn new(stops: Vec<ColorStop>) -> (r: Result<ColorMap, ColorMapError>)
        ensures
            match r {
                Ok(m) => check_stops(stops@) is Ok && m@ == stops@ && valid_stops(m@),
                Err(e) => check_stops(stops@) == Err::<(), ColorMapError>(e),
            },
    {
        let n = stops.len();
        if n < 2 {
            return Err(ColorMapError::TooFewStops);
        }
        if stops[0].pos != 0 {
            return Err(ColorMapError::FirstNotZero);
        }
        if stops[n - 1].pos != UNIT {
            return Err(ColorMapError::LastNotUnit);
        }
        let mut i: usize = 0;
        while i < n - 1
            invariant
                n == stops.len(),
                n >= 2,
                i <= n - 1,
                stops@[0].pos == 0,
                stops@[n - 1].pos == UNIT,
                forall|a: int, b: int|
                    0 <= a < b <= i ==> (#[trigger] stops@[a]).pos < (#[trigger] stops@[b]).pos,
            decreases n - i,
        {
            if stops[i].pos >= stops[i + 1].pos {
                assert(!(stops@[i as int].pos < stops@[i + 1].pos));
                return Err(ColorMapError::NotIncreasing);
            }
            i += 1;
        }
        Ok(ColorMap { stops })
    }

    /// Makes a colour map of a table that is known to be valid.
    pub(crate) fn from_valid(stops: Vec<ColorStop>) -> (m: ColorMap)
        requires
            valid_stops(stops@),
        ensures
            m@ == stops@,
    {
        ColorMap { stops }
    }

    /// The number of stops: two at least.
    pub fn len(&self) -> (n: usize)
        ensures
            n == self@.len(),
            valid_stops(self@),
    {
        proof {
            use_type_invariant(self);
        }
        self.stops.len()
    }

    /// The stop of index `i`.
    pub fn stop(&self, i: usize) -> (s: ColorStop)
        requires
            i < self@.len(),
        ensures
            s == self@[i as int],
    {
        self.stops[i]
    }

    /// The colour at position `t`, where `UNIT` stands for 1 and larger values
    /// count as 1: the colour interpolated between the two stops that `t` lies
    /// between.
    pub fn sample(&self, t: u32) -> (c: Rgba)
        ensures
            c == sample_at(self@, t as int),
            forall|i: int|
                0 <= i <= self@.len() - 2 && self@[i].pos <= clamp_unit(t as int) <= self@[i
                    + 1].pos ==> c == #[trigger] segment_color(self@, i, clamp_unit(t as int)),
            valid_stops(self@),
    {
        proof {
            use_type_invariant(self);
            assert forall|i: int|
                0 <= i <= self@.len() - 2 && self@[i].pos <= clamp_unit(t as int) <= self@[i
                    + 1].pos implies sample_at(self@, t as int) == #[trigger] segment_color(
                self@,
                i,
                clamp_unit(t as int),
            ) by {
                lemma_sample_any_bracket(self@, clamp_unit(t as int), i);
            }
        }
        let tc: u32 = if t > UNIT { UNIT } else { t };
        let n = self.stops.len();
        let mut i: usize = 0;
        while i + 2 < n && tc > self.stops[i + 1].pos
            invariant
                n == self.stops@.len(),
                valid_stops(self.stops@),
                i <= n - 2,
                tc <= UNIT,
                self.stops@[i as int].pos <= tc,
                i > 0 ==> self.stops@[i as int].pos < tc,
                bracket_from(self.stops@, tc as int, 0) == bracket_from(
                    self.stops@,
                    tc as int,
                    i as int,
                ),
            decreases n - i,
        {
            i += 1;
        }
        proof {
            lemma_bracket_from(self.stops@, tc as int, i as int);
            assert(self.stops@[i as int].pos < self.stops@[i as int + 1].pos);
        }
        let lo = self.stops[i];
        let hi = self.stops[i + 1];
        lerp_rgba(lo.color, hi.color, tc - lo.pos, hi.pos - lo.pos)
    }
}

} // verus!
