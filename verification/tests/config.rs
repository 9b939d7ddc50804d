use stargaze::config::{
    rgb, Angle, BodyDef, BodyFault, Camera, ConfigError, Distance, Orbit, Rotation, System,
};
use stargaze::sim::{Atmosphere, BodyKind, Color, Rings, Scene};
use stargaze::Number;

const AU_KM: f64 = 149_597_870.7;

fn number(v: f64) -> Number {
    Number { bits: v.to_bits() }
}

fn value(n: Number) -> f64 {
    f64::from_bits(n.bits)
}

fn angle(degrees: f64) -> Angle {
    Angle { degrees: number(degrees), radians: number(degrees.to_radians()) }
}

fn distance(km: f64) -> Distance {
    Distance { km: number(km), au: number(km / AU_KM) }
}

fn grey(v: f64) -> Color {
    Color { red: number(v), green: number(v), blue: number(v) }
}

fn orbit(au: Option<f64>, km: Option<f64>, period: f64) -> Option<Orbit> {
    Some(Orbit {
        semi_major_axis_au: au.map(number),
        semi_major_axis_km: km.map(distance),
        period_days: number(period),
        eccentricity: number(0.0),
        inclination: angle(0.0),
        ascending_node: angle(0.0),
        periapsis: angle(0.0),
        mean_anomaly: angle(0.0),
        epoch_days: number(0.0),
        clears: Vec::new(),
    })
}

fn body(id: &str, kind: BodyKind, parent: Option<&str>, radius_km: f64, path: Option<Orbit>) -> BodyDef {
    BodyDef {
        id: id.to_string(),
        name: None,
        kind,
        parent: parent.map(|p| p.to_string()),
        radius: distance(radius_km),
        albedo: grey(0.5),
        luminosity: number(if kind == BodyKind::Star { 1.0 } else { 0.0 }),
        emission: grey(1.0),
        orbit: path,
        rotation: Rotation::Free { period_days: number(1.0), obliquity: angle(0.0), phase: angle(0.0) },
        rings: None,
    }
}

/// Which bodies every orbit clears at its periapsis, were they its parent.
fn finish(s: &mut System) {
    let radii: Vec<f64> = s.bodies.iter().map(|b| value(b.radius.au)).collect();
    for (i, b) in s.bodies.iter_mut().enumerate() {
        if let Some(o) = b.orbit.as_mut() {
            let a = match (o.semi_major_axis_au, o.semi_major_axis_km) {
                (Some(a), _) => value(a),
                (None, Some(d)) => value(d.au),
                (None, None) => 0.0,
            };
            let near = a * (1.0 - value(o.eccentricity));
            o.clears = radii.iter().map(|r| near > r + radii[i]).collect();
        }
    }
}

fn definition() -> System {
    let mut s = System {
        version: 1,
        name: "Halo observatory".to_string(),
        time_days: Some(number(0.0)),
        camera: Camera {
            body: "halo".to_string(),
            latitude_deg: number(10.0),
            longitude_deg: number(180.0),
            height_m: number(2.0),
            look_at: "calyx".to_string(),
            fov_deg: number(80.0),
            atmosphere: Some(Atmosphere::Earthlike),
        },
        targets: vec!["calyx".to_string(), "aur".to_string()],
        bodies: vec![
            body("centre", BodyKind::Anchor, None, 0.0, None),
            body("aur", BodyKind::Star, Some("centre"), 900_000.0, orbit(Some(0.3), None, 120.0)),
            body("igni", BodyKind::Star, Some("centre"), 500_000.0, orbit(Some(0.5), None, 120.0)),
            body("nerid", BodyKind::Planet, Some("centre"), 5_734.0, orbit(Some(2.6), None, 1530.0)),
            body("pip", BodyKind::Moon, Some("nerid"), 1_200.0, orbit(Some(2.2e-4), None, 2.5)),
            body("calyx", BodyKind::Planet, Some("centre"), 9_560.0, orbit(Some(4.2), None, 3000.0)),
            body("halo", BodyKind::Moon, Some("calyx"), 1_500.0, orbit(None, Some(29_919.57414), 3.5)),
        ],
    };
    s.bodies[5].name = Some("Calyx".to_string());
    s.bodies[5].rings = Some(Rings {
        inner_radius: number(1.4),
        outer_radius: number(1.9),
        optical_depth: number(0.5),
        albedo: grey(0.8),
        banded: true,
    });
    s.bodies[6].rotation = Rotation::TidalLock;
    finish(&mut s);
    s
}

fn error(change: impl FnOnce(&mut System)) -> (ConfigError, String) {
    let mut system = definition();
    change(&mut system);
    finish(&mut system);
    match system.into_scene() {
        Ok(_) => panic!("invalid config accepted"),
        Err(e) => (e, system.message(e)),
    }
}

fn rejected(change: impl FnOnce(&mut System), expected: &str) {
    let (_, text) = error(change);
    assert!(text.contains(expected), "{text:?} should contain {expected:?}");
}

fn path(s: &mut System, i: usize) -> &mut Orbit {
    s.bodies[i].orbit.as_mut().unwrap()
}

#[test]
fn rejects_bad_structure_and_references() {
    rejected(|s| s.version = 2, "unsupported version");
    rejected(|s| s.bodies[1].id = s.bodies[0].id.clone(), "duplicate body");
    rejected(|s| s.bodies[6].parent = Some("missing".into()), "unknown parent");
    rejected(|s| s.bodies[5].parent = Some("halo".into()), "cyclic parent");
    rejected(|s| s.camera.body = "missing".into(), "camera.body");
    rejected(|s| s.camera.look_at = s.camera.body.clone(), "other than the camera host");
    rejected(|s| s.targets.push("missing".into()), "unknown body");
}

#[test]
fn rejects_unsafe_numeric_values() {
    rejected(|s| path(s, 6).eccentricity = number(1.0), "eccentricity");
    rejected(|s| path(s, 6).period_days = number(0.0), "orbital period");
    rejected(|s| path(s, 6).semi_major_axis_km = Some(distance(100.0)), "intersects the parent");
    rejected(|s| path(s, 6).semi_major_axis_au = Some(number(1.0)), "exactly one");
    rejected(|s| s.bodies[6].radius = distance(f64::NAN), "radius_km");
    rejected(|s| s.bodies[5].rings.as_mut().unwrap().outer_radius = number(1.0), "ring radii");
    rejected(|s| s.bodies[5].albedo.red = number(2.0), "albedo");
    rejected(|s| s.camera.latitude_deg = number(91.0), "latitude_deg");
    rejected(|s| s.camera.fov_deg = number(f64::INFINITY), "fov_deg");
    rejected(|s| s.camera.height_m = number(0.0), "height_m");
    rejected(|s| s.time_days = Some(number(f64::NAN)), "time_days");
}

#[test]
fn every_refusal_has_its_exact_words() {
    let cases: Vec<(ConfigError, &str, fn(&mut System))> = vec![
        (ConfigError::Version, "unsupported version 12; expected 1", |s| s.version = 12),
        (ConfigError::EmptyName, "system name cannot be empty", |s| s.name = " \t".into()),
        (ConfigError::BodyCount, "a system needs 2..=256 bodies", |s| s.bodies.truncate(1)),
        (ConfigError::Time, "time_days must be finite", |s| s.time_days = Some(number(f64::INFINITY))),
        (ConfigError::BodyId(2), "empty or duplicate body id 'aur'", |s| s.bodies[2].id = "aur".into()),
        (
            ConfigError::Roots,
            "exactly one root body is required (use an anchor for a binary system)",
            |s| s.bodies[3].parent = None,
        ),
        (ConfigError::UnknownParent(4), "body 'pip': unknown parent 'x'", |s| {
            s.bodies[4].parent = Some("x".into())
        }),
        (ConfigError::Cycle, "cyclic parent references: calyx, halo", |s| {
            s.bodies[5].parent = Some("halo".into())
        }),
        (ConfigError::NoLuminousStar, "at least one luminous star is required", |s| {
            s.bodies[1].luminosity = number(0.0);
            s.bodies[2].emission = grey(0.0);
        }),
        (ConfigError::CameraBody, "camera.body: unknown body 'x'", |s| s.camera.body = "x".into()),
        (ConfigError::HostKind, "camera.body must be a planet or moon", |s| s.camera.body = "aur".into()),
        (ConfigError::LookAt, "camera.look_at: unknown body 'y'", |s| s.camera.look_at = "y".into()),
        (
            ConfigError::Target(0),
            "target 'centre' must be a visible body other than the camera host",
            |s| s.camera.look_at = "centre".into(),
        ),
        (ConfigError::TooManyTargets, "targets supports at most nine number-key shortcuts", |s| {
            s.targets = vec!["aur".to_string(); 10]
        }),
        (ConfigError::UnknownTarget(1), "unknown body 'z'", |s| s.targets[1] = "z".into()),
        (ConfigError::Latitude, "camera.latitude_deg must be in [-90, 90]", |s| {
            s.camera.latitude_deg = number(-90.1)
        }),
        (ConfigError::Longitude, "camera.longitude_deg must be in [-180, 180]", |s| {
            s.camera.longitude_deg = number(180.1)
        }),
        (ConfigError::Height, "camera.height_m must be at least 0.1 metres", |s| {
            s.camera.height_m = number(0.09)
        }),
        (ConfigError::FieldOfView, "camera.fov_deg must be in [0.001, 90]", |s| {
            s.camera.fov_deg = number(0.0009)
        }),
    ];
    for (kind, text, change) in cases {
        assert_eq!(error(change), (kind, text.to_string()));
    }
}

#[test]
fn every_fault_of_a_body_has_its_exact_words() {
    let cases: Vec<(usize, BodyFault, &str, fn(&mut System))> = vec![
        (0, BodyFault::Radius, "radius_km must be positive (zero for anchors)", |s| {
            s.bodies[0].radius = distance(1.0)
        }),
        (3, BodyFault::Albedo, "albedo must contain three values in [0, 1]", |s| {
            s.bodies[3].albedo.blue = number(-0.1)
        }),
        (3, BodyFault::Emission, "emission must contain three values in [0, 1]", |s| {
            s.bodies[3].emission.green = number(f64::NAN)
        }),
        (1, BodyFault::Luminosity, "luminosity must be finite and nonnegative", |s| {
            s.bodies[1].luminosity = number(-1.0)
        }),
        (3, BodyFault::NotAStar, "only stars may have luminosity", |s| {
            s.bodies[3].luminosity = number(0.5)
        }),
        (3, BodyFault::ParentWithoutOrbit, "parent and orbit must be provided together", |s| {
            s.bodies[3].orbit = None
        }),
        (
            4,
            BodyFault::AxisChoice,
            "orbit requires exactly one of semi_major_axis_au or semi_major_axis_km",
            |s| path(s, 4).semi_major_axis_au = None,
        ),
        (4, BodyFault::Axis, "semi-major axis must be positive and finite", |s| {
            path(s, 4).semi_major_axis_au = Some(number(-1.0))
        }),
        (4, BodyFault::Period, "orbital period_days must be positive and finite", |s| {
            path(s, 4).period_days = number(f64::INFINITY)
        }),
        (4, BodyFault::Eccentricity, "eccentricity must be in [0, 1)", |s| {
            path(s, 4).eccentricity = number(-0.01)
        }),
        (4, BodyFault::OrbitAngles, "orbit angles and epoch must be finite", |s| {
            path(s, 4).epoch_days = number(f64::NAN)
        }),
        (4, BodyFault::Intersects, "orbit intersects the parent at periapsis", |s| {
            path(s, 4).eccentricity = number(0.9)
        }),
        (
            3,
            BodyFault::Rotation,
            "rotation period must be nonzero; rotation values must be finite",
            |s| {
                s.bodies[3].rotation = Rotation::Free {
                    period_days: number(-0.0),
                    obliquity: angle(0.0),
                    phase: angle(0.0),
                }
            },
        ),
        (0, BodyFault::TidalLock, "tidal_lock requires an orbit and parent", |s| {
            s.bodies[0].rotation = Rotation::TidalLock
        }),
        (1, BodyFault::RingHost, "rings require a planet or moon", |s| {
            s.bodies[1].rings = s.bodies[5].rings
        }),
        (5, BodyFault::RingRadii, "ring radii must satisfy 1 < inner_radius < outer_radius", |s| {
            s.bodies[5].rings.as_mut().unwrap().inner_radius = number(1.0)
        }),
        (5, BodyFault::RingDepth, "ring optical_depth must be finite and nonnegative", |s| {
            s.bodies[5].rings.as_mut().unwrap().optical_depth = number(-0.5)
        }),
        (5, BodyFault::RingAlbedo, "ring albedo must contain three values in [0, 1]", |s| {
            s.bodies[5].rings.as_mut().unwrap().albedo.red = number(1.5)
        }),
    ];
    for (i, fault, words, change) in cases {
        let id = definition().bodies[i].id.clone();
        assert_eq!(
            error(change),
            (ConfigError::Body(i, fault), format!("body '{id}': {words}"))
        );
    }
}

#[test]
fn bodies_may_stand_in_any_order() {
    let straight = definition().into_scene().unwrap();
    let mut s = definition();
    s.bodies.reverse();
    finish(&mut s);
    let turned = s.into_scene().unwrap();
    assert_eq!(turned.bodies.len(), straight.bodies.len());
    for b in &straight.bodies {
        let other = turned.bodies.iter().find(|o| o.name == b.name).unwrap();
        assert_eq!(other.elements, b.elements);
        assert_eq!(
            other.parent.map(|p| turned.bodies[p].name.clone()),
            b.parent.map(|p| straight.bodies[p].name.clone())
        );
    }
    for (i, b) in turned.bodies.iter().enumerate() {
        assert!(b.parent.is_none_or(|p| p < i));
    }
    assert_eq!(turned.bodies[turned.host].name, "halo");
    assert_eq!(turned.bodies[turned.default_target].name, "Calyx");
    let names = |s: &Scene| -> Vec<String> {
        s.targets.iter().map(|&i| s.bodies[i].name.clone()).collect()
    };
    assert_eq!(names(&turned), names(&straight));
    s.camera.fov_deg = number(0.0);
    assert!(s.into_scene().is_err());
}

#[test]
fn a_scene_takes_its_values_from_the_file() {
    let mut s = definition();
    path(&mut s, 6).inclination = angle(47.0);
    path(&mut s, 6).mean_anomaly = angle(23.0);
    let scene = s.into_scene().unwrap();
    let halo = &scene.bodies[scene.host];
    assert_eq!(value(halo.elements.a), 29_919.57414 / AU_KM);
    assert!(halo.tidally_locked);
    // A locked rotation follows the orbit.
    assert_eq!(value(halo.obliquity), 47.0_f64.to_radians());
    assert_eq!(value(halo.spin_phase), 23.0_f64.to_radians());
    assert_eq!(value(halo.spin_period), 3.5);
    assert_eq!(value(halo.radius), 1_500.0 / AU_KM);
    assert_eq!(scene.targets, vec![5, 1]);
    assert_eq!(value(scene.observer_lon_deg), 180.0);
    assert_eq!(scene.atmosphere, Some(Atmosphere::Earthlike));
    assert_eq!(scene.bodies[5].name, "Calyx");
    let mut s = definition();
    s.targets.clear();
    let scene = s.into_scene().unwrap();
    assert_eq!(scene.targets, vec![5]);
}

#[test]
fn bounds_belong_to_the_ranges() {
    let mut s = definition();
    s.camera.latitude_deg = number(-90.0);
    s.camera.longitude_deg = number(-180.0);
    s.camera.height_m = number(0.1);
    s.camera.fov_deg = number(0.001);
    s.targets = vec!["aur".to_string(); 9];
    assert!(s.into_scene().is_ok());
    assert!(rgb(grey(0.0)) && rgb(grey(1.0)) && !rgb(grey(1.0000001)));
}

#[test]
fn a_file_with_parents_first_keeps_its_order() {
    let s = definition();
    let scene = s.into_scene().unwrap();
    for (def, body) in s.bodies.iter().zip(&scene.bodies) {
        assert_eq!(def.name.as_ref().unwrap_or(&def.id), &body.name);
    }
}
