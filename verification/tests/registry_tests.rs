use tinydc::color::{Rgba, UNIT};
use tinydc::registry::{
    color_map, find_color_map, get_all_color_maps, get_color_map, scheme_by_name, NamedMap, Scheme,
};

#[test]
fn schemes_are_found_by_name() {
    assert_eq!(scheme_by_name("inferno"), Some(Scheme::Inferno));
    assert_eq!(scheme_by_name("magma"), Some(Scheme::Magma));
    assert_eq!(scheme_by_name("plasma"), Some(Scheme::Plasma));
    assert_eq!(scheme_by_name("viridis"), Some(Scheme::Viridis));
    assert_eq!(scheme_by_name("gray"), Some(Scheme::Gray));
}

#[test]
fn unknown_names_are_no_scheme() {
    assert_eq!(scheme_by_name(""), None);
    assert_eq!(scheme_by_name("Inferno"), None);
    assert_eq!(scheme_by_name("inferno "), None);
    assert_eq!(scheme_by_name("rainbow"), None);
}

#[test]
fn unknown_names_fall_back_to_inferno() {
    let fallback = get_color_map("no-such-scheme");
    let inferno = color_map(Scheme::Inferno);
    assert_eq!(fallback.len(), inferno.len());
    for i in 0..inferno.len() {
        assert_eq!(fallback.stop(i), inferno.stop(i));
    }
    for t in (0..=UNIT).step_by(1021) {
        assert_eq!(fallback.sample(t), inferno.sample(t));
    }
}

#[test]
fn known_names_select_their_own_map() {
    let viridis = get_color_map("viridis");
    assert_eq!(viridis.sample(0), Rgba { r: 68, g: 1, b: 84, a: 255 });
    assert_eq!(viridis.sample(UNIT), Rgba { r: 253, g: 231, b: 37, a: 255 });
    let gray = get_color_map("gray");
    assert_eq!(gray.len(), 2);
    assert_eq!(gray.sample(0), Rgba { r: 0, g: 0, b: 0, a: 255 });
    assert_eq!(gray.sample(UNIT), Rgba { r: 255, g: 255, b: 255, a: 255 });
}

#[test]
fn inferno_runs_from_black_to_pale_yellow() {
    let m = get_color_map("inferno");
    assert_eq!(m.len(), 5);
    assert_eq!(m.sample(0), Rgba { r: 0, g: 0, b: 4, a: 255 });
    assert_eq!(m.sample(UNIT / 2), Rgba { r: 188, g: 55, b: 84, a: 255 });
    assert_eq!(m.sample(UNIT), Rgba { r: 252, g: 255, b: 164, a: 255 });
}

#[test]
fn every_scheme_is_opaque() {
    for scheme in [Scheme::Inferno, Scheme::Magma, Scheme::Plasma, Scheme::Viridis, Scheme::Gray] {
        let m = color_map(scheme);
        for t in (0..=UNIT).step_by(4099) {
            assert_eq!(m.sample(t).a, 255);
        }
    }
}

#[test]
fn the_collection_holds_every_scheme_once() {
    let maps = get_all_color_maps();
    let names: Vec<&str> = maps.iter().map(|m| m.name.as_str()).collect();
    assert_eq!(names, ["inferno", "magma", "plasma", "viridis", "gray"]);
    let schemes = [Scheme::Inferno, Scheme::Magma, Scheme::Plasma, Scheme::Viridis, Scheme::Gray];
    for (named, scheme) in maps.iter().zip(schemes) {
        let expected = color_map(scheme);
        assert_eq!(named.map.len(), expected.len());
        for i in 0..expected.len() {
            assert_eq!(named.map.stop(i), expected.stop(i));
        }
    }
}

#[test]
fn maps_are_found_by_name_in_the_collection() {
    let maps = get_all_color_maps();
    assert_eq!(find_color_map(&maps, "inferno"), Some(0));
    assert_eq!(find_color_map(&maps, "viridis"), Some(3));
    assert_eq!(find_color_map(&maps, "gray"), Some(4));
    assert_eq!(find_color_map(&maps, "grey"), None);
    assert_eq!(find_color_map(&maps, ""), None);
    assert_eq!(find_color_map(&Vec::new(), "inferno"), None);
}

#[test]
fn the_first_map_of_a_name_is_found() {
    let maps = vec![
        NamedMap { name: "a".to_string(), map: color_map(Scheme::Gray) },
        NamedMap { name: "b".to_string(), map: color_map(Scheme::Magma) },
        NamedMap { name: "b".to_string(), map: color_map(Scheme::Plasma) },
    ];
    assert_eq!(find_color_map(&maps, "b"), Some(1));
    assert_eq!(find_color_map(&maps, "a"), Some(0));
    assert_eq!(find_color_map(&maps, "c"), None);
}
