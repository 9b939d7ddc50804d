use stargaze::pathtracer::{
    accumulation_size, grown_capacity, History, Options, Picture, Tracer, Variables, MAX_SAMPLES,
};
use stargaze::Number;

fn number(v: f64) -> Number {
    Number { bits: v.to_bits() }
}

/// What a frame hands to the tracer.
struct Frame {
    cam_forward: [f32; 4],
    bodies: Vec<f32>,
    scene_time: f64,
    ui: Vec<f32>,
}

fn frame() -> Frame {
    Frame { cam_forward: [0.0, 0.0, -1.0, 1e-7], bodies: vec![], scene_time: 0.0, ui: vec![] }
}

fn bytes(v: &[f32]) -> Vec<u8> {
    v.iter().flat_map(|x| x.to_le_bytes()).collect()
}

fn picture(f: &Frame, options: Options) -> Picture {
    Picture {
        globals: bytes(&f.cam_forward),
        bodies: bytes(&f.bodies),
        scene_time: number(f.scene_time),
        max_bounces: options.max_bounces,
    }
}

#[test]
fn history_resets_for_scene_changes_but_not_overlay_changes() {
    let mut history = History::default();
    let mut frame = frame();
    let options = Options::default();
    history.update(picture(&frame, options));
    history.samples = 100;
    frame.ui.push(0.0);
    history.update(picture(&frame, options));
    assert_eq!(history.samples, 100);
    frame.scene_time = 1e-12;
    history.update(picture(&frame, options));
    assert_eq!(history.samples, 0);
    history.samples = 100;
    frame.cam_forward[3] *= 2.0;
    history.update(picture(&frame, options));
    assert_eq!(history.samples, 0);
    history.samples = 100;
    frame.bodies.extend([0.0, 0.0, -3.0, 1.0, 0.5, 0.5, 0.5, 0.0]);
    history.update(picture(&frame, options));
    assert_eq!(history.samples, 0);
    history.samples = 100;
    history.update(picture(&frame, Options { max_bounces: 4, ..options }));
    assert_eq!(history.samples, 0);
}

#[test]
fn frames_accumulate_up_to_the_limit_and_go_on_metering() {
    let options = Options { samples_per_frame: 5, auto_exposure: true, ..Options::default() };
    let mut tracer = Tracer::new(1281, 720, options);
    let f = frame();
    let first = tracer.encode(picture(&f, options), 3);
    assert_eq!((first.samples, first.count, first.bodies, first.max_bounces), (0, 5, 3, 8));
    assert_eq!((first.groups_x, first.groups_y), (161, 90));
    assert!(first.trace && first.write_bodies && first.meter && !first.keep_exposure);
    let second = tracer.encode(picture(&f, options), 0);
    assert_eq!((second.samples, second.count), (5, 5));
    assert!(second.keep_exposure && !second.write_bodies);
    tracer.history.samples = MAX_SAMPLES - 2;
    assert_eq!(tracer.encode(picture(&f, options), 3).count, 2);
    let full = tracer.encode(picture(&f, options), 3);
    assert!(!full.trace && !full.write_bodies && full.meter);
    assert_eq!(tracer.history.samples, MAX_SAMPLES);
    tracer.set_exposure_controls(false, number(1.5));
    let manual = tracer.encode(picture(&f, options), 3);
    assert!(!manual.meter && !manual.keep_exposure);
    assert_eq!(tracer.history.samples, MAX_SAMPLES, "exposure never invalidates");
    tracer.resize(64, 64);
    assert_eq!(tracer.history.samples, 0);
    assert_eq!(tracer.encode(picture(&f, options), 1).groups_x, 8);
}

#[test]
fn the_average_stops_at_the_limit() {
    let options = Options { samples_per_frame: 64, ..Options::default() };
    let mut tracer = Tracer::new(64, 64, options);
    let f = frame();
    for k in 1..=1000u32 {
        tracer.encode(picture(&f, options), 1);
        assert_eq!(tracer.history.samples, 64 * k);
    }
    tracer.history.samples = MAX_SAMPLES - 100;
    for _ in 0..3 {
        tracer.encode(picture(&f, options), 1);
    }
    assert_eq!(tracer.history.samples, MAX_SAMPLES);
}

fn unset() -> Variables {
    Variables {
        spp: None,
        bounces: None,
        exposure: None,
        auto_exposure: None,
        ev_bias: None,
        auto_key: None,
        auto_percentile: None,
    }
}

#[test]
fn the_environment_is_clamped_and_filtered() {
    let plain = Options::from_env(&unset());
    assert_eq!(plain, Options { auto_exposure: true, ..Options::default() });
    let set = Options::from_env(&Variables {
        spp: Some("100".to_string()),
        bounces: Some("0".to_string()),
        exposure: Some(number(-1.0)),
        auto_exposure: Some(" Off\n".to_string()),
        ev_bias: Some(number(f64::NAN)),
        auto_key: Some(number(0.5)),
        auto_percentile: Some(number(2.0)),
    });
    assert_eq!((set.samples_per_frame, set.max_bounces), (64, 1));
    assert_eq!(set.exposure, number(1.0));
    assert!(!set.auto_exposure);
    assert_eq!(set.ev_bias, number(0.0));
    assert_eq!(set.auto_key, number(0.5));
    assert_eq!(set.auto_percentile, number(0.999_f32 as f64));
    let odd = Options::from_env(&Variables {
        spp: Some("many".to_string()),
        bounces: Some("+12".to_string()),
        auto_exposure: Some("no".to_string()),
        auto_percentile: Some(number(0.001)),
        ..unset()
    });
    assert_eq!((odd.samples_per_frame, odd.max_bounces), (1, 12));
    assert!(odd.auto_exposure);
    assert_eq!(odd.auto_percentile, number(0.01_f32 as f64));
    assert_eq!(Options::default().auto_percentile, number(0.9_f32 as f64));
}

#[test]
fn buffers_grow_to_powers_of_two_and_respect_the_limit() {
    assert_eq!(grown_capacity(65_536, 65_536), 65_536);
    assert_eq!(grown_capacity(65_536, 65_537), 131_072);
    assert_eq!(grown_capacity(0, 1), 1);
    assert_eq!(accumulation_size(1280, 720, 1 << 30), Some(14_745_600));
    assert_eq!(accumulation_size(0, 720, 1 << 30), Some(16));
    assert_eq!(accumulation_size(1280, 720, 14_745_599), None);
    assert_eq!(accumulation_size(u32::MAX, u32::MAX, u64::MAX), None);
}
