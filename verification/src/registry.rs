//! The built-in colour maps, by name.

use crate::color::Rgba;
use crate::colormap::{valid_stops, ColorMap, ColorStop};
use vstd::prelude::*;

verus! {

/// A built-in colour map.
#[derive(Clone, Copy, Debug, PartialEq, Eq, Structural)]
pub enum Scheme {
    Inferno,
    Magma,
    Plasma,
    Viridis,
    Gray,
}

/// The scheme that stands in for a name that is not known.
pub open spec fn default_scheme() -> Scheme {
    Scheme::Inferno
}

/// The name of a scheme.
pub open spec fn scheme_name(scheme: Scheme) -> Seq<char> {
    match scheme {
        Scheme::Inferno => "inferno"@,
        Scheme::Magma => "magma"@,
        Scheme::Plasma => "plasma"@,
        Scheme::Viridis => "viridis"@,
        Scheme::Gray => "gray"@,
    }
}

/// The scheme at place `i` of the collection of built-in colour maps.
pub open spec fn scheme_at(i: int) -> Scheme {
    if i == 0 {
        Scheme::Inferno
    } else if i == 1 {
        Scheme::Magma
    } else if i == 2 {
        Scheme::Plasma
    } else if i == 3 {
        Scheme::Viridis
    } else {
        Scheme::Gray
    }
}

/// The names of the built-in colour maps, in the order of the collection.
pub open spec fn builtin_names() -> Seq<Seq<char>> {
    Seq::new(5, |i: int| scheme_name(scheme_at(i)))
}

/// The first place at or after `k` where `names` holds `name`.
pub open spec fn first_named(names: Seq<Seq<char>>, name: Seq<char>, k: int) -> Option<int>
    decreases names.len() - k,
{
    if k < 0 || k >= names.len() {
        None
    } else if names[k] == name {
        Some(k)
    } else {
        first_named(names, name, k + 1)
    }
}

/// The scheme of a name, if it is the name of one.
pub open spec fn scheme_of_name(name: Seq<char>) -> Option<Scheme> {
    match first_named(builtin_names(), name, 0) {
        Some(i) => Some(scheme_at(i)),
        None => None,
    }
}

/// The scheme that a name selects: its own, or the default where the name is
/// not known.
pub open spec fn scheme_or_default(name: Seq<char>) -> Scheme {
    match scheme_of_name(name) {
        Some(s) => s,
        None => default_scheme(),
    }
}

/// A colour map with its name.
#[derive(Debug)]
pub struct NamedMap {
    pub name: String,
    pub map: ColorMap,
}

/// The names of a collection of colour maps, in order.
pub open spec fn names_of(maps: Seq<NamedMap>) -> Seq<Seq<char>> {
    Seq::new(maps.len(), |i: int| maps[i].name@)
}

/// `maps` is the collection of the built-in colour maps.
pub open spec fn is_builtin(maps: Seq<NamedMap>) -> bool {
    &&& names_of(maps) == builtin_names()
    &&& forall|i: int| 0 <= i < 5 ==> (#[trigger] maps[i]).map@ == scheme_stops(scheme_at(i))
}

/// The stop at position `pos` with the opaque colour of the given red, green
/// and blue.
pub open spec fn opaque_stop(pos: u32, r: u8, g: u8, b: u8) -> ColorStop {
    ColorStop { pos, color: Rgba { r, g, b, a: 255 } }
}

/// The stops of a built-in colour map.
pub open spec fn scheme_stops(scheme: Scheme) -> Seq<ColorStop> {
    match scheme {
        Scheme::Inferno => seq![
            opaque_stop(0, 0, 0, 4),
            opaque_stop(16384, 87, 16, 110),
            opaque_stop(32768, 188, 55, 84),
            opaque_stop(49152, 249, 142, 9),
            opaque_stop(65536, 252, 255, 164),
        ],
        Scheme::Magma => seq![
            opaque_stop(0, 0, 0, 4),
            opaque_stop(16384, 81, 18, 124),
            opaque_stop(32768, 183, 55, 121),
            opaque_stop(49152, 252, 137, 97),
            opaque_stop(65536, 252, 253, 191),
        ],
        Scheme::Plasma => seq![
            opaque_stop(0, 13, 8, 135),
            opaque_stop(16384, 126, 3, 168),
            opaque_stop(32768, 204, 71, 120),
            opaque_stop(49152, 248, 149, 64),
            opaque_stop(65536, 240, 249, 33),
        ],
        Scheme::Viridis => seq![
            opaque_stop(0, 68, 1, 84),
            opaque_stop(16384, 59, 82, 139),
            opaque_stop(32768, 33, 145, 140),
            opaque_stop(49152, 94, 201, 98),
            opaque_stop(65536, 253, 231, 37),
        ],
        Scheme::Gray => seq![opaque_stop(0, 0, 0, 0), opaque_stop(65_536, 255, 255, 255)],
    }
}

/// Every built-in table of stops is a colour map.
pub proof fn lemma_schemes_valid(scheme: Scheme)
    ensures
        valid_stops(scheme_stops(scheme)),
{
    let s = scheme_stops(scheme);
    assert forall|i: int, j: int| 0 <= i < j < s.len() implies (#[trigger] s[i]).pos < (
    #[trigger] s[j]).pos by {
        if s.len() == 2 {
            assert(i == 0 && j == 1);
        } else {
            assert(s[0].pos == 0);
            assert(s[1].pos == 16_384);
            assert(s[2].pos == 32_768);
            assert(s[3].pos == 49_152);
            assert(s[4].pos == 65_536);
        }
    }
}

fn make_stop(pos: u32, r: u8, g: u8, b: u8) -> (s: ColorStop)
    ensures
        s == opaque_stop(pos, r, g, b),
{
    ColorStop { pos, color: Rgba { r, g, b, a: 255 } }
}

/// The colour map of a scheme.
pub fn color_map(scheme: Scheme) -> (m: ColorMap)
    ensures
        m@ == scheme_stops(scheme),
        valid_stops(m@),
{
    let mut stops: Vec<ColorStop> = Vec::new();
    match scheme {
        Scheme::Inferno => {
            stops.push(make_stop(0, 0, 0, 4));
            stops.push(make_stop(16384, 87, 16, 110));
            stops.push(make_stop(32768, 188, 55, 84));
            stops.push(make_stop(49152, 249, 142, 9));
            stops.push(make_stop(65536, 252, 255, 164));
        },
        Scheme::Magma => {
            stops.push(make_stop(0, 0, 0, 4));
            stops.push(make_stop(16384, 81, 18, 124));
            stops.push(make_stop(32768, 183, 55, 121));
            stops.push(make_stop(49152, 252, 137, 97));
            stops.push(make_stop(65536, 252, 253, 191));
        },
        Scheme::Plasma => {
            stops.push(make_stop(0, 13, 8, 135));
            stops.push(make_stop(16384, 126, 3, 168));
            stops.push(make_stop(32768, 204, 71, 120));
            stops.push(make_stop(49152, 248, 149, 64));
            stops.push(make_stop(65536, 240, 249, 33));
        },
        Scheme::Viridis => {
            stops.push(make_stop(0, 68, 1, 84));
            stops.push(make_stop(16384, 59, 82, 139));
            stops.push(make_stop(32768, 33, 145, 140));
            stops.push(make_stop(49152, 94, 201, 98));
            stops.push(make_stop(65536, 253, 231, 37));
        },
        Scheme::Gray => {
            stops.push(make_stop(0, 0, 0, 0));
            stops.push(make_stop(65_536, 255, 255, 255));
        },
    }
    proof {
        lemma_schemes_valid(scheme);
        assert(stops@ =~= scheme_stops(scheme));
    }
    ColorMap::from_valid(stops)
}

/// The scheme at place `i` of the collection of built-in colour maps.
fn scheme_at_place(i: usize) -> (scheme: Scheme)
    ensures
        scheme == scheme_at(i as int),
{
    if i == 0 {
        Scheme::Inferno
    } else if i == 1 {
        Scheme::Magma
    } else if i == 2 {
        Scheme::Plasma
    } else if i == 3 {
        Scheme::Viridis
    } else {
        Scheme::Gray
    }
}

/// The name of a scheme.
fn name_of(scheme: Scheme) -> (name: String)
    ensures
        name@ == scheme_name(scheme),
{
    match scheme {
        Scheme::Inferno => "inferno".to_owned(),
        Scheme::Magma => "magma".to_owned(),
        Scheme::Plasma => "plasma".to_owned(),
        Scheme::Viridis => "viridis".to_owned(),
        Scheme::Gray => "gray".to_owned(),
    }
}

/// The collection of the built-in colour maps, each with its name.
pub fn get_all_color_maps() -> (maps: Vec<NamedMap>)
    ensures
        is_builtin(maps@),
        maps@.len() == 5,
{
    let mut maps: Vec<NamedMap> = Vec::new();
    let mut i: usize = 0;
    while i < 5
        invariant
            i <= 5,
            maps@.len() == i,
            forall|k: int|
                0 <= k < i ==> (#[trigger] maps@[k]).name@ == scheme_name(scheme_at(k))
                    && maps@[k].map@ == scheme_stops(scheme_at(k)),
        decreases 5 - i,
    {
        let scheme = scheme_at_place(i);
        maps.push(NamedMap { name: name_of(scheme), map: color_map(scheme) });
        i += 1;
    }
    assert(names_of(maps@) =~= builtin_names());
    maps
}

/// The first place of `maps` that holds a colour map of the given name.
pub fn find_color_map(maps: &Vec<NamedMap>, name: &str) -> (r: Option<usize>)
    ensures
        match r {
            Some(i) => first_named(names_of(maps@), name@, 0) == Some(i as int) && i < maps@.len(),
            None => first_named(names_of(maps@), name@, 0) is None,
        },
{
    let key = name.to_owned();
    let mut i: usize = 0;
    while i < maps.len()
        invariant
            i <= maps@.len(),
            key@ == name@,
            first_named(names_of(maps@), name@, 0) == first_named(names_of(maps@), name@, i as int),
        decreases maps@.len() - i,
    {
        if maps[i].name == key {
            return Some(i);
        }
        i += 1;
    }
    None
}

/// The scheme of a name, if it is the name of one.
pub fn scheme_by_name(name: &str) -> (r: Option<Scheme>)
    ensures
        r == scheme_of_name(name@),
{
    let maps = get_all_color_maps();
    match find_color_map(&maps, name) {
        Some(i) => Some(scheme_at_place(i)),
        None => None,
    }
}

/// The colour map of the given name from the collection of built-in colour
/// maps, or the colour map named inferno where there is none of that name.
pub fn get_color_map(name: &str) -> (m: ColorMap)
    ensures
        m@ == scheme_stops(scheme_or_default(name@)),
        valid_stops(m@),
{
    let maps = get_all_color_maps();
    let place = match find_color_map(&maps, name) {
        Some(i) => i,
        None => {
            let fallback = find_color_map(&maps, "inferno");
            assert(names_of(maps@)[0] == "inferno"@);
            assert(fallback == Some(0usize));
            fallback.unwrap()
        },
    };
    proof {
        lemma_schemes_valid(scheme_at(place as int));
    }
    maps[place].map.clone()
}

} // verus!
