use std::f64::consts::{PI, TAU};

use stargaze::presets::{
    binary_scene, calyx_scene, default_scene, saturn_observatory, saturn_ready, DraftScene, Length,
};
use stargaze::sight::{
    first_eclipse, first_transit, good_start, labels, on_window, pick_body, AimSearch, Conjunction, Crossing, Hit, Placement, Search,
    Sighting, BODY_STEPS, STAR_STEPS,
};
use stargaze::input::Cursor;
use stargaze::sim::{Body, BodyKind, Color, Elements, Scene};
use stargaze::stars::{disc_slots, generate, pack_grid, ray_catalogue, Reach, Rng};
use stargaze::Number;

fn number(v: f64) -> Number {
    Number { bits: v.to_bits() }
}

fn index(scene: &DraftScene, name: &str) -> usize {
    scene.bodies.iter().position(|b| b.name == name).unwrap()
}

fn axis(scene: &DraftScene, i: usize) -> u64 {
    match scene.bodies[i].path.axis {
        Length::NanoAu(n) => n,
        Length::Metres(_) => panic!("not in astronomical units"),
    }
}

#[test]
fn terra_and_mars_have_distinct_periods() {
    let scene = default_scene();
    let terra = scene.bodies[index(&scene, "Terra")].path.period as f64 / 1e6;
    let mars = scene.bodies[index(&scene, "Mars")].path.period as f64 / 1e6;
    assert!((terra - 365.256).abs() < 0.01, "terra period {terra}");
    assert!((mars - 686.98).abs() < 0.5, "mars period {mars}");
    assert!((mars - terra).abs() > 100.0, "periods must differ");
}

#[test]
fn binary_scene_is_well_formed() {
    let scene = binary_scene();

    // Two stars, both orbiting the barycentre and visibly different colours.
    let stars: Vec<usize> =
        (0..scene.bodies.len()).filter(|&i| scene.bodies[i].kind == BodyKind::Star).collect();
    assert_eq!(stars.len(), 2);
    for &s in &stars {
        assert_eq!(scene.bodies[s].parent, Some(0));
    }
    let (a, b) = (scene.bodies[stars[0]], scene.bodies[stars[1]]);
    assert!(a.look.emission != b.look.emission, "the two suns should differ in colour");

    // The observatory stands on a moon...
    assert_eq!(scene.bodies[scene.host].kind, BodyKind::Moon);
    let planet = scene.bodies[scene.host].parent.unwrap();
    assert_eq!(scene.bodies[planet].kind, BodyKind::Planet);

    // ...that planet has exactly two moons...
    let moons: Vec<usize> = (0..scene.bodies.len())
        .filter(|&i| {
            scene.bodies[i].parent == Some(planet) && scene.bodies[i].kind == BodyKind::Moon
        })
        .collect();
    assert_eq!(moons.len(), 2, "Calyx should have two moons");

    // ...and the observatory is on the inner of the two.
    let host_a = axis(&scene, scene.host);
    let other_a = moons.iter().map(|&i| axis(&scene, i)).filter(|&a| a != host_a).min().unwrap();
    assert!(host_a < other_a, "the observatory should be on the inner moon");

    // Three planets, six moons in total.
    let planets = scene.bodies.iter().filter(|b| b.kind == BodyKind::Planet).count();
    let moon_count = scene.bodies.iter().filter(|b| b.kind == BodyKind::Moon).count();
    assert_eq!(planets, 3);
    assert_eq!(moon_count, 6);
}

#[test]
fn presets_hold_their_exact_values() {
    let scene = default_scene();
    assert_eq!((scene.host, scene.default_target, scene.fov), (1, 2, 1_100));
    assert_eq!(scene.targets, vec![2, 0, 3, 4]);
    let luna = scene.bodies[2];
    assert_eq!(luna.path.axis, Length::Metres(384_400_000));
    assert_eq!(luna.path.eccentricity, 54_900);
    assert_eq!(luna.look.radius, Length::Metres(1_737_400));
    assert_eq!(scene.bodies[1].look.radius, Length::Metres(3 * 6_371_000));
    let scene = binary_scene();
    assert_eq!((scene.host, scene.default_target, scene.longitude), (6, 5, 180_000));
    assert_eq!(axis(&scene, index(&scene, "Coll")), 450_000);
    assert_eq!(scene.bodies[2].look.luminosity, 700);
}

fn body(name: &str, parent: Option<usize>, kind: BodyKind, radius: f64) -> Body {
    let shade = Color { red: number(0.5), green: number(0.5), blue: number(0.5) };
    Body {
        name: name.to_string(),
        parent,
        elements: Elements::circular(number(1.0), number(0.0)),
        period_days: number(1.0),
        radius: number(radius),
        kind,
        albedo: shade,
        emission: shade,
        luminosity: number(0.0),
        obliquity: number(0.0),
        spin_period: number(1.0),
        spin_phase: number(0.0),
        rings: None,
        tidally_locked: false,
    }
}

fn scene(bodies: Vec<Body>, host: usize, targets: Vec<usize>) -> Scene {
    Scene {
        bodies,
        host,
        default_target: 0,
        targets,
        atmosphere: None,
        default_fov_deg: number(1.1),
        observer_lat_deg: number(35.0),
        observer_lon_deg: number(10.0),
        observer_height_m: number(2.0),
        initial_time_days: None,
    }
}

#[test]
fn the_saturn_observatory_looks_at_its_new_moon() {
    let mut bodies = vec![body("Sun", None, BodyKind::Star, 1.0)];
    for i in 1..10 {
        bodies.push(body(&format!("P{i}"), Some(0), BodyKind::Planet, 1.0));
    }
    let s = scene(bodies, 3, vec![0, 1, 2, 4, 5, 6, 8]);
    assert!(saturn_ready(&s));
    let r = saturn_observatory(s, body("S/2009 S 1", Some(8), BodyKind::Moon, 0.1));
    assert_eq!((r.host, r.default_target), (8, 10));
    assert_eq!(r.targets, vec![0, 1, 2, 4, 5, 6, 10]);
    assert_eq!(r.bodies[10].name, "S/2009 S 1");
    assert_eq!(r.observer_lat_deg, number(20.0));
    assert_eq!(r.observer_lon_deg, number(0.0));
    assert_eq!(r.default_fov_deg, number(80.0));
}

#[test]
fn scenes_select_bodies_by_kind_and_place() {
    let mut s = scene(
        vec![
            body("centre", None, BodyKind::Anchor, 0.0),
            body("sun", Some(0), BodyKind::Star, 1.0),
            body("home", Some(0), BodyKind::Planet, 0.1),
            body("moon", Some(2), BodyKind::Moon, 0.01),
            body("giant", Some(0), BodyKind::Planet, 0.2),
            body("io", Some(4), BodyKind::Moon, 0.01),
            body("dust", Some(1), BodyKind::Moon, 0.0),
        ],
        2,
        vec![],
    );
    assert_eq!(s.star_indices(), vec![1]);
    assert_eq!(s.traced_bodies(), vec![1, 2, 3, 4, 5, 6]);
    assert_eq!(s.solid_bodies(), vec![1, 2, 3, 4, 5]);
    assert_eq!(s.children_of(0), vec![1, 2, 4]);
    assert_eq!(s.occulters(1), vec![3, 4, 5, 6]);
    assert_eq!(s.transit_moons(), vec![5]);
    s.host = 4;
    assert_eq!(s.transit_moons(), vec![3]);
}

#[test]
fn the_nearest_surface_ahead_is_picked() {
    let hit = |body: usize, d: f64| Hit { body, distance: number(d) };
    assert_eq!(pick_body(&vec![]), None);
    assert_eq!(pick_body(&vec![hit(1, -1.0), hit(2, 0.0), hit(3, f64::NAN)]), None);
    assert_eq!(pick_body(&vec![hit(4, 3.0), hit(5, 1.0), hit(6, 2.0)]), Some(5));
    // Of two at the same distance the first is in front.
    assert_eq!(pick_body(&vec![hit(7, 2.0), hit(8, 2.0), hit(9, -5.0)]), Some(7));
}

#[test]
fn rays_start_only_on_the_window() {
    let w = number(800.0);
    let h = number(600.0);
    let at = |x: f64, y: f64| Cursor { x: number(x), y: number(y) };
    assert!(on_window(at(0.0, 599.9), w, h));
    assert!(!on_window(at(800.0, 10.0), w, h));
    assert!(!on_window(at(-1.0, 300.0), w, h));
    assert!(!on_window(at(400.0, 300.0), number(0.0), h));
}

#[test]
fn only_visible_bodies_other_than_the_host_are_labelled() {
    let s = scene(
        vec![
            body("centre", None, BodyKind::Anchor, 0.0),
            body("sun", Some(0), BodyKind::Star, 1.0),
            body("home", Some(0), BodyKind::Planet, 0.1),
            body("low", Some(0), BodyKind::Planet, 0.1),
            body("behind", Some(0), BodyKind::Planet, 0.1),
            body("aside", Some(0), BodyKind::Planet, 0.1),
            body("edge", Some(0), BodyKind::Planet, 0.1),
            body("here", Some(0), BodyKind::Planet, 0.1),
        ],
        2,
        vec![],
    );
    let p = |distance: f64, height: f64, depth: f64, across: f64, up: f64| Placement {
        distance: number(distance),
        height: number(height),
        depth: number(depth),
        across: number(across),
        up: number(up),
    };
    let good = p(1.0, 0.5, -1.0, 0.0, 0.0);
    let placements = vec![
        good,
        good,
        good,
        p(1.0, -0.1, -1.0, 0.0, 0.0),
        p(1.0, 0.5, 0.0, 0.0, 0.0),
        p(1.0, 0.5, -1.0, 1.1, 0.0),
        p(1.0, 0.0, -1.0, -1.0, 1.0),
        p(1e-10, 0.5, -1.0, 0.0, 0.0),
    ];
    assert_eq!(labels(&s, &placements), vec![1, 6]);
}

#[test]
fn a_search_prefers_the_first_good_moment() {
    let s = |alt: f64, sun: f64, lit: f64| Sighting {
        altitude: number(alt),
        sun_altitude: number(sun),
        illumination: number(lit),
    };
    let run = |is_star: bool, sightings: &[Sighting]| {
        let mut search = AimSearch::new(is_star);
        for &x in sightings {
            search.look(x);
        }
        search.result()
    };
    let low = s(0.1, -0.5, 0.9);
    let day = s(0.3, 0.5, 0.9);
    let dim = s(0.3, -0.5, 0.2);
    let good = s(0.16, -0.11, 0.31);
    assert_eq!(run(false, &[low, day, dim, good, good]), Some(3));
    assert_eq!(run(false, &[low, day, dim]), Some(1));
    assert_eq!(run(true, &[low, day]), Some(1));
    assert_eq!(run(false, &[low, low]), None);
    let mut search = AimSearch::new(true);
    for _ in 0..200 {
        search.look(low);
    }
    assert!(search.is_over());
    assert_eq!((search.step, STAR_STEPS, BODY_STEPS), (144, 144, 57_600));
}

#[test]
fn good_starts_eclipses_and_transits_have_their_thresholds() {
    assert!(good_start(false, number(0.21), &vec![number(-0.2), number(-0.11)]));
    assert!(!good_start(false, number(0.21), &vec![number(-0.2), number(-0.1)]));
    assert!(good_start(true, number(0.21), &vec![number(0.5)]));
    assert!(!good_start(true, number(0.2), &vec![]));
    let c = Conjunction {
        star_height: number(0.05),
        star_distance: number(1.0),
        body_distance: number(0.9),
        body_size: number(0.003),
        least_size: number(0.003),
        separation: number(0.004),
        reach: number(0.005),
    };
    assert!(c.is_eclipse());
    assert!(!Conjunction { star_height: number(0.04), ..c }.is_eclipse());
    assert!(!Conjunction { body_distance: number(1.0), ..c }.is_eclipse());
    assert!(!Conjunction { body_size: number(0.002), ..c }.is_eclipse());
    assert!(!Conjunction { separation: number(0.005), ..c }.is_eclipse());
    let t = Crossing {
        planet_height: number(0.2),
        sun_altitude: number(-0.1),
        planet_distance: number(2.0),
        moon_distance: number(1.9),
        separation: number(0.001),
        reach: number(0.002),
    };
    assert!(t.is_transit());
    assert!(!Crossing { planet_height: number(0.19), ..t }.is_transit());
    assert!(!Crossing { sun_altitude: number(-0.05), ..t }.is_transit());
    assert!(!Crossing { moon_distance: number(2.0), ..t }.is_transit());
    assert!(!Crossing { separation: number(0.002), ..t }.is_transit());
}

#[test]
fn random_draws_are_reproducible() {
    let mut rng = Rng::new(2);
    assert_eq!(rng.state, 3);
    // One step by hand, in wide arithmetic.
    let mut x = 3u64;
    x ^= x >> 12;
    x ^= x << 25;
    x ^= x >> 27;
    let expected = ((x as u128 * 0x2545_F491_4F6C_DD1D) % (1 << 64) >> 32) as u32;
    assert_eq!(rng.u32(), expected);
    assert_eq!(rng.state, x);
    let draws = generate(2, 1, 2);
    assert_eq!(draws.field.len(), 2);
    assert_eq!(draws.field[0].len(), 4);
    assert_eq!(draws.field[0][0], expected);
    assert_eq!(draws.band[0].len(), 9);
    let mut again = Rng::new(2);
    let all: Vec<u32> = (0..17).map(|_| again.u32()).collect();
    let flat: Vec<u32> = draws.field.concat().into_iter().chain(draws.band.concat()).collect();
    assert_eq!(flat, all);
}

struct Disc {
    dir: [f64; 3],
    radius: f64,
}

fn reach(star: &Disc) -> Reach {
    let theta = star.dir[2].clamp(-1.0, 1.0).acos();
    let phi = star.dir[1].atan2(star.dir[0]) + PI;
    let r = star.radius.clamp(1e-6, 0.1);
    let spread = if theta <= r || theta + r >= PI {
        PI
    } else {
        (r.sin() / theta.sin()).clamp(0.0, 1.0).asin()
    };
    Reach {
        first_row: (((theta - r).max(0.0) / PI * 128.0) as usize).min(127),
        last_row: (((theta + r).min(PI) / PI * 128.0) as usize).min(127),
        columns: (0..256)
            .map(|x| {
                let cell = (x as f64 + 0.5) * TAU / 256.0;
                let separation = ((cell - phi + PI).rem_euclid(TAU) - PI).abs();
                separation <= spread + PI / 256.0 + 1e-6
            })
            .collect(),
    }
}

fn cross(a: [f64; 3], b: [f64; 3]) -> [f64; 3] {
    [a[1] * b[2] - a[2] * b[1], a[2] * b[0] - a[0] * b[2], a[0] * b[1] - a[1] * b[0]]
}

fn unit(a: [f64; 3]) -> [f64; 3] {
    let l = (a[0] * a[0] + a[1] * a[1] + a[2] * a[2]).sqrt();
    [a[0] / l, a[1] / l, a[2] / l]
}

#[test]
fn grid_contains_disc_samples_including_seam_and_poles() {
    let draws = generate(100, 0, 123);
    let mut stars: Vec<Disc> = draws
        .field
        .iter()
        .map(|d| {
            let f = |i: usize| d[i] as f64 / u32::MAX as f64;
            let bright = 0.02 + f(0).powi(3) * 1.6;
            let z = 1.0 - 2.0 * f(2);
            let phi = TAU * f(3);
            let r = (1.0 - z * z).max(0.0).sqrt();
            Disc {
                dir: [r * phi.cos(), r * phi.sin(), z],
                radius: (0.7 + 2.6 * bright.sqrt()).clamp(0.7, 3.4) * 0.0004,
            }
        })
        .collect();
    for dir in [[-1.0, 0.0, 0.0], [0.0, 0.0, 1.0], [0.0, 0.0, -1.0]] {
        stars.push(Disc { dir, radius: 0.0012 });
    }
    let cells = pack_grid(&stars.iter().map(reach).collect());
    for (i, star) in stars.iter().enumerate() {
        let axis = unit(star.dir);
        let helper = if axis[0].abs() < 0.5 { [1.0, 0.0, 0.0] } else { [0.0, 1.0, 0.0] };
        let u = unit(cross(axis, helper));
        let v = cross(axis, u);
        for j in 0..32 {
            let phi = j as f64 * TAU / 32.0;
            let radius = star.radius * 0.999;
            let at = |k: usize| {
                axis[k] * radius.cos() + (u[k] * phi.cos() + v[k] * phi.sin()) * radius.sin()
            };
            let dir = [at(0), at(1), at(2)];
            let x = (((dir[1].atan2(dir[0]) + PI) / TAU * 256.0) as usize).min(255);
            let y = ((dir[2].clamp(-1.0, 1.0).acos() / PI * 128.0) as usize).min(127);
            let cell = y * 256 + x;
            let start = 32769 + cells[cell] as usize;
            let end = 32769 + cells[cell + 1] as usize;
            assert!(cells[start..end].contains(&(i as u32)), "disc {i} missing from cell {cell}");
        }
    }
}

#[test]
fn an_empty_catalogue_packs_to_empty_cells() {
    let cells = pack_grid(&vec![]);
    assert_eq!(cells.len(), 32769);
    assert!(cells.iter().all(|&c| c == 0));
}

#[test]
fn the_planet_side_view_stands_on_calyx_and_looks_at_halo() {
    let scene = calyx_scene();
    assert_eq!(scene.bodies[scene.host].name, "Calyx");
    assert_eq!(scene.bodies[scene.default_target].name, "Halo");
    assert!(!scene.targets.contains(&scene.host));
    assert_eq!(scene.targets, vec![6, 1, 2, 7, 3, 8, 4, 9]);
    assert_eq!(scene.bodies.len(), binary_scene().bodies.len());
}

#[test]
fn saturn_has_to_be_a_planet_that_one_key_aims_at() {
    let system = |kind: BodyKind, targets: Vec<usize>| {
        let mut bodies = vec![body("Sun", None, BodyKind::Star, 1.0)];
        for _ in 1..10 {
            bodies.push(body("P", Some(0), kind, 1.0));
        }
        scene(bodies, 3, targets)
    };
    assert!(saturn_ready(&system(BodyKind::Planet, vec![0, 1, 2, 4, 5, 6, 8])));
    assert!(!saturn_ready(&system(BodyKind::Star, vec![0, 1, 2, 4, 5, 6, 8])));
    assert!(!saturn_ready(&system(BodyKind::Planet, vec![8, 1, 2, 4, 5, 6, 8])));
    assert!(!saturn_ready(&system(BodyKind::Planet, vec![0, 1, 2, 4, 5, 6])));
    let small = scene(vec![body("Sun", None, BodyKind::Star, 1.0)], 0, vec![0; 7]);
    assert!(!saturn_ready(&small));
}

#[test]
fn searches_stop_at_the_first_match_or_their_limit() {
    let mut search = Search::transit();
    for hit in [false, false, true, true] {
        search.look(hit);
    }
    assert!(search.is_over());
    assert_eq!((search.found, search.step), (Some(2), 3));
    for (mut search, limit) in [
        (Search::good_start(), 40_000),
        (Search::eclipse(), 365_249),
        (Search::transit(), 39_999),
    ] {
        while !search.is_over() {
            search.look(false);
        }
        search.look(true);
        assert_eq!((search.found, search.step), (None, limit));
    }
}

#[test]
fn the_first_pair_that_matches_is_shown() {
    let c = Conjunction {
        star_height: number(0.5),
        star_distance: number(1.0),
        body_distance: number(0.9),
        body_size: number(0.003),
        least_size: number(0.001),
        separation: number(0.004),
        reach: number(0.005),
    };
    let below = Conjunction { star_height: number(-0.5), ..c };
    assert_eq!(first_eclipse(&vec![below, c, c]), Some(1));
    assert_eq!(first_eclipse(&vec![below]), None);
    let t = Crossing {
        planet_height: number(0.5),
        sun_altitude: number(-0.5),
        planet_distance: number(2.0),
        moon_distance: number(1.9),
        separation: number(0.001),
        reach: number(0.002),
    };
    let behind = Crossing { moon_distance: number(2.1), ..t };
    assert_eq!(first_transit(&vec![behind, behind, t]), Some(2));
    assert_eq!(first_transit(&vec![]), None);
}

#[test]
fn packed_cells_follow_each_other_and_ascend() {
    let wide = |first_row: usize, last_row: usize| Reach {
        first_row,
        last_row,
        columns: vec![true; 256],
    };
    let cells = pack_grid(&vec![wide(0, 1), wide(1, 1), wide(1, 200)]);
    assert_eq!(cells[0], 0);
    assert_eq!(cells.len(), 32769 + cells[32768] as usize);
    assert!(cells[..32769].windows(2).all(|w| w[0] <= w[1]));
    let part = |cell: usize| {
        &cells[32769 + cells[cell] as usize..32769 + cells[cell + 1] as usize]
    };
    assert_eq!(part(5), &[0]);
    assert_eq!(part(256), &[0, 1, 2]);
    assert_eq!(part(32767), &[2]);
}

#[test]
fn a_catalogue_has_a_disc_for_every_star_and_never_none() {
    assert_eq!((disc_slots(0), disc_slots(1), disc_slots(6000)), (1, 1, 6000));
    let empty = ray_catalogue(&vec![]);
    assert_eq!((empty.discs, empty.cells.len()), (1, 32769));
    let mut columns = vec![false; 256];
    columns[3] = true;
    let cut = Reach::new(127, 128, columns.clone());
    assert_eq!((cut.first_row, cut.last_row), (127, 127));
    let rays = ray_catalogue(&vec![cut, Reach::new(2, 3, columns)]);
    assert_eq!(rays.discs, 2);
    for (star, cell) in [(0u32, 127 * 256 + 3), (1, 2 * 256 + 3), (1, 3 * 256 + 3)] {
        let start = 32769 + rays.cells[cell] as usize;
        let end = 32769 + rays.cells[cell + 1] as usize;
        assert_eq!(&rays.cells[start..end], &[star]);
    }
    assert_eq!(rays.cells[32768], 3);
}
