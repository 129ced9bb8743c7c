use anise::constants::frames::{
    EARTH_MOON_BARYCENTER_J2000, JUPITER_BARYCENTER_J2000, MARS_BARYCENTER_J2000, MERCURY_J2000,
    NEPTUNE_BARYCENTER_J2000, SATURN_BARYCENTER_J2000, URANUS_BARYCENTER_J2000, VENUS_J2000,
};
use lamberto::bodies::{resolve_frame, resolve_naif_id, BodySpec};

#[test]
fn test_resolve_name_case_insensitive() {
    let earth = resolve_frame(&BodySpec::Name("Earth".to_string())).unwrap();
    let earth_lower = resolve_frame(&BodySpec::Name("earth".to_string())).unwrap();
    let earth_upper = resolve_frame(&BodySpec::Name("EARTH".to_string())).unwrap();
    assert_eq!(earth, earth_lower);
    assert_eq!(earth, earth_upper);
    assert_eq!(earth, EARTH_MOON_BARYCENTER_J2000);
}

#[test]
fn test_resolve_naif_id() {
    assert_eq!(
        resolve_frame(&BodySpec::Id(3)).unwrap(),
        EARTH_MOON_BARYCENTER_J2000
    );
    assert_eq!(
        resolve_frame(&BodySpec::Id(4)).unwrap(),
        MARS_BARYCENTER_J2000
    );
}

#[test]
fn test_resolve_all_planets() {
    for id in 1..=8 {
        assert!(
            resolve_frame(&BodySpec::Id(id)).is_ok(),
            "NAIF ID {id} should resolve"
        );
    }
    for name in [
        "Mercury", "Venus", "Earth", "Mars", "Jupiter", "Saturn", "Uranus", "Neptune",
    ] {
        assert!(
            resolve_frame(&BodySpec::Name(name.to_string())).is_ok(),
            "{name} should resolve"
        );
    }
}

#[test]
fn test_unknown_body() {
    assert!(resolve_frame(&BodySpec::Name("Pluto".to_string())).is_err());
    assert!(resolve_frame(&BodySpec::Id(99)).is_err());
}

#[test]
fn names_and_ids_give_the_anise_constants() {
    let frames = [
        MERCURY_J2000,
        VENUS_J2000,
        EARTH_MOON_BARYCENTER_J2000,
        MARS_BARYCENTER_J2000,
        JUPITER_BARYCENTER_J2000,
        SATURN_BARYCENTER_J2000,
        URANUS_BARYCENTER_J2000,
        NEPTUNE_BARYCENTER_J2000,
    ];
    let names = [
        "mercury", "VENUS", "Earth", "mArS", "Jupiter", "saturn", "URANUS", "Neptune",
    ];
    for (i, frame) in frames.iter().enumerate() {
        let id = (i + 1) as i32;
        assert_eq!(resolve_frame(&BodySpec::Id(id)).unwrap(), *frame);
        assert_eq!(resolve_frame(&BodySpec::Name(names[i].to_string())).unwrap(), *frame);
        assert_eq!(resolve_naif_id(&BodySpec::Name(names[i].to_string())), Ok(id));
    }
}

#[test]
fn unknown_body_messages() {
    assert_eq!(
        resolve_naif_id(&BodySpec::Name("Pluto".to_string())),
        Err("Unknown body name: Pluto".to_string())
    );
    assert_eq!(
        resolve_naif_id(&BodySpec::Id(99)),
        Err("Unknown NAIF barycenter ID: 99".to_string())
    );
    assert_eq!(
        resolve_naif_id(&BodySpec::Id(0)),
        Err("Unknown NAIF barycenter ID: 0".to_string())
    );
    assert_eq!(
        resolve_naif_id(&BodySpec::Id(-7)),
        Err("Unknown NAIF barycenter ID: -7".to_string())
    );
    assert_eq!(
        resolve_naif_id(&BodySpec::Id(i32::MIN)),
        Err("Unknown NAIF barycenter ID: -2147483648".to_string())
    );
    assert_eq!(
        resolve_frame(&BodySpec::Id(9)).unwrap_err(),
        "Unknown NAIF barycenter ID: 9"
    );
}

#[test]
fn near_names_do_not_resolve() {
    for name in ["", "Earth ", " earth", "eart", "earthh", "Mars2", "Moon", "Sun", "neptun"] {
        assert!(resolve_naif_id(&BodySpec::Name(name.to_string())).is_err(), "{name:?}");
    }
}
