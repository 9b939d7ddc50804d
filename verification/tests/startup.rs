use stargaze::sim::{Body, BodyKind, Color, Elements, Scene};
use stargaze::startup::{
    choose_source, first_aim, game_requested, read_arguments, valid_summary, Argument, CommandLine,
    FirstAim, Source,
};
use stargaze::text::{fit, parse_unsigned, path_extension, path_file_name, path_stem, trim, wrap};
use stargaze::Number;

fn args(list: &[&str]) -> Vec<Argument> {
    let mut v = vec![Some("stargaze".to_string())];
    v.extend(list.iter().map(|a| Some(a.to_string())));
    v
}

#[test]
fn the_command_line_names_at_most_one_file() {
    assert_eq!(read_arguments(&args(&[])), CommandLine::NoneNamed);
    assert_eq!(read_arguments(&args(&["--game"])), CommandLine::NoneNamed);
    assert_eq!(
        read_arguments(&args(&["--game", "--config", "a.yaml"])),
        CommandLine::File { path: 3, check_only: false }
    );
    assert_eq!(
        read_arguments(&args(&["--check-config", "--game", "--game"])),
        CommandLine::File { path: 2, check_only: true }
    );
    assert_eq!(
        read_arguments(&args(&["--config", "a", "--check-config", "b"])),
        CommandLine::TwoFiles
    );
    assert_eq!(read_arguments(&args(&["--config"])), CommandLine::NoFile(1));
    assert_eq!(read_arguments(&args(&["--game", "--speed"])), CommandLine::Unknown(2));
    assert_eq!(read_arguments(&args(&["-h", "--speed"])), CommandLine::Help);
    assert_eq!(read_arguments(&args(&["--speed", "--help"])), CommandLine::Unknown(1));
    assert_eq!(read_arguments(&vec![Some("stargaze".to_string()), None]), CommandLine::Unknown(1));
    assert_eq!(
        read_arguments(&vec![None, Some("--config".to_string()), None]),
        CommandLine::File { path: 2, check_only: false }
    );
    assert!(game_requested(&args(&["--config", "--game"])));
    assert!(!game_requested(&args(&["--config", "game"])));
}

#[test]
fn named_files_win_over_environment_and_presets() {
    let preset = |p: &str| Some(p.to_string());
    assert_eq!(choose_source(true, true, &preset("earth"), true), Source::Named);
    assert_eq!(choose_source(false, true, &preset("earth"), true), Source::Environment);
    assert_eq!(choose_source(false, false, &None, true), Source::Puzzle);
    assert_eq!(choose_source(false, false, &None, false), Source::Halo);
    for (p, s) in [
        ("halo", Source::Halo),
        ("binary", Source::Halo),
        ("earth", Source::SolarSystem),
        ("calyx", Source::Calyx),
        ("solar", Source::Saturn),
        ("sol", Source::Saturn),
        ("saturn", Source::Saturn),
        ("Earth", Source::UnknownPreset),
    ] {
        assert_eq!(choose_source(false, false, &preset(p), true), s);
    }
}

#[test]
fn the_first_aim_must_be_a_body() {
    let set = |s: &str| Some(s.to_string());
    assert_eq!(first_aim(&None, 5), FirstAim::Default);
    assert_eq!(first_aim(&set("moon"), 5), FirstAim::Default);
    assert_eq!(first_aim(&set("4"), 5), FirstAim::Body(4));
    assert_eq!(first_aim(&set("5"), 5), FirstAim::NoSuchBody(5));
}

#[test]
fn a_valid_configuration_is_summed_up() {
    let zero = Number { bits: 0 };
    let shade = Color { red: zero, green: zero, blue: zero };
    let body = |name: &str, parent: Option<usize>, kind: BodyKind| Body {
        name: name.to_string(),
        parent,
        elements: Elements::circular(zero, zero),
        period_days: zero,
        radius: zero,
        kind,
        albedo: shade,
        emission: shade,
        luminosity: zero,
        obliquity: zero,
        spin_period: zero,
        spin_phase: zero,
        rings: None,
        tidally_locked: false,
    };
    let scene = Scene {
        bodies: vec![body("Sun", None, BodyKind::Star), body("Earth", Some(0), BodyKind::Planet)],
        host: 1,
        default_target: 0,
        targets: vec![0],
        atmosphere: None,
        default_fov_deg: zero,
        observer_lat_deg: zero,
        observer_lon_deg: zero,
        observer_height_m: zero,
        initial_time_days: None,
    };
    assert_eq!(
        valid_summary(&scene),
        "Valid system: 2 bodies; camera on Earth, looking at Sun"
    );
}

#[test]
fn texts_are_cut_wrapped_and_trimmed() {
    assert_eq!(fit("Halo", 4), "Halo");
    assert_eq!(fit("Halo é", 5), "Ha...");
    assert_eq!(fit("Halo", 2), "...");
    assert_eq!(wrap("abcdefg", 3), vec!["abc", "def", "g"]);
    assert_eq!(wrap("abcdefg", 1).len(), 5);
    assert!(wrap("", 3).is_empty());
    assert_eq!(trim(" \t a b\u{2003}"), "a b");
    assert_eq!(trim("  "), "");
    assert_eq!(parse_unsigned("+042", 100), Some(42));
    assert_eq!(parse_unsigned("101", 100), None);
    assert_eq!(parse_unsigned("18446744073709551616", u64::MAX), None);
    assert_eq!(parse_unsigned("+", 100), None);
    assert_eq!(parse_unsigned("-1", 100), None);
}

#[test]
fn path_parts_are_those_of_the_standard_library() {
    for path in [
        "configs/halo.yaml",
        "halo",
        "/a/b/.hidden",
        "a/b.tar.gz",
        "a/..",
        "a/.",
        "dir/",
        "/",
        "",
        "x.",
        "..yaml",
    ] {
        let p = std::path::Path::new(path);
        assert_eq!(path_file_name(path).as_deref(), p.file_name().map(|s| s.to_str().unwrap()));
        assert_eq!(path_stem(path).as_deref(), p.file_stem().map(|s| s.to_str().unwrap()));
        assert_eq!(path_extension(path).as_deref(), p.extension().map(|s| s.to_str().unwrap()));
    }
}
