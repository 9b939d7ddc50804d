use stargaze::board::Point;
use stargaze::game::{Game, Layout as Notebook, Pointer};
use stargaze::input::{Cursor, Key, Rect};
use stargaze::menu::{File, Layout as MenuLayout};
use stargaze::shell::{App, Effect, Screen, Title, TitleGate};
use stargaze::sim::{Body, BodyKind, Color, Elements, Scene};
use stargaze::state::{Pick, State, ViewLock, STOP_WARP, WARPS};
use stargaze::topology::Score;
use stargaze::ui::Layout as Hud;
use stargaze::Number;

fn number(v: f64) -> Number {
    Number { bits: v.to_bits() }
}

fn at(x: f64, y: f64) -> Cursor {
    Cursor { x: number(x), y: number(y) }
}

fn body(name: &str, parent: Option<usize>, kind: BodyKind) -> Body {
    let shade = Color { red: number(0.5), green: number(0.5), blue: number(0.5) };
    Body {
        name: name.to_string(),
        parent,
        elements: Elements::circular(number(1.0), number(0.0)),
        period_days: number(1.0),
        radius: number(0.001),
        kind,
        albedo: shade,
        emission: shade,
        luminosity: number(0.0),
        obliquity: number(0.0),
        spin_period: number(1.0),
        spin_phase: number(0.0),
        rings: None,
        tidally_locked: false,
    }
}

/// A star, the host, its moon, a planet and its moon.
fn scene() -> Scene {
    Scene {
        bodies: vec![
            body("Sun", None, BodyKind::Star),
            body("Terra", Some(0), BodyKind::Planet),
            body("Luna", Some(1), BodyKind::Moon),
            body("Mars", Some(0), BodyKind::Planet),
            body("Phobos", Some(3), BodyKind::Moon),
        ],
        host: 1,
        default_target: 2,
        targets: vec![2, 0, 3, 4],
        atmosphere: None,
        default_fov_deg: number(1.1),
        observer_lat_deg: number(35.0),
        observer_lon_deg: number(0.0),
        observer_height_m: number(2.0),
        initial_time_days: None,
    }
}

fn rect(x: f64, y: f64, w: f64, h: f64) -> Rect {
    Rect { left: number(x), top: number(y), right: number(x + w), bottom: number(y + h) }
}

/// A slot of the bar at the bottom of a window of 1280 by 720.
fn slot(i: usize) -> Rect {
    rect(10.0 + 100.0 * i as f64, 680.0, 90.0, 30.0)
}

fn in_slot(i: usize) -> Cursor {
    at(15.0 + 100.0 * i as f64, 690.0)
}

fn hud() -> Hud {
    Hud {
        bar: rect(0.0, 670.0, 1280.0, 50.0),
        home: slot(0),
        toggle: slot(1),
        draw: slot(1),
        slower: slot(2),
        faster: slot(3),
        stop: slot(4),
        lock: slot(5),
        orientation: slot(6),
        exposure: slot(7),
        auto: slot(8),
    }
}

fn screen() -> Option<Screen> {
    Some(Screen {
        width: 1280,
        height: 720,
        menu: MenuLayout {
            home: slot(0),
            rows: (0..3).map(|i| rect(300.0, 100.0 + 64.0 * i as f64, 680.0, 54.0)).collect(),
            previous: rect(300.0, 595.0, 120.0, 32.0),
            next: rect(860.0, 595.0, 120.0, 32.0),
            resume: rect(840.0, 28.0, 140.0, 28.0),
        },
        hud: hud(),
        notebook: Notebook {
            maps: slot(0),
            toggle: slot(1),
            buttons: [slot(2), slot(3), slot(4), slot(5), slot(6), slot(7)],
            traits: [slot(8), slot(9)],
            canvas: rect(12.0, 58.0, 1256.0, 568.0),
            confirm: rect(643.0, 388.0, 212.0, 32.0),
            cancel: rect(425.0, 388.0, 196.0, 32.0),
        },
    })
}

fn pointer(app: &App, place: Cursor) -> Pointer {
    let n = app.game.as_ref().map_or(0, |g| g.nodes.len());
    Pointer {
        at: place,
        place: Point { x: number(0.7), y: number(0.7) },
        over: vec![false; n],
        reach: vec![number(0.3); n],
    }
}

fn press(app: &mut App, place: Cursor) -> Effect {
    let p = pointer(app, place);
    app.left_press(&screen(), &p)
}

fn key(app: &mut App, k: Key) -> Effect {
    let p = pointer(app, at(640.0, 300.0));
    app.key(k, false, &screen(), &p)
}

fn maps(names: &[&str]) -> Result<Vec<File>, String> {
    Ok(names
        .iter()
        .map(|n| File { path: format!("configs/{n}.yaml"), is_file: true, title: None })
        .collect())
}

#[test]
fn time_controls_and_menus_preserve_lock_but_lock_button_releases_it() {
    let mut app = App::new(scene(), false);
    let layout = hud();
    for lock in [ViewLock::Body(2), ViewLock::Background] {
        app.state.view_lock = Some(lock);
        app.state.warp = STOP_WARP;
        assert!(app.hud_click(&layout, in_slot(3)).is_some());
        assert_eq!(app.state.warp, STOP_WARP + 1);
        assert!(app.hud_click(&layout, in_slot(2)).is_some());
        assert_eq!(app.state.warp, STOP_WARP);
        assert_eq!(app.state.speed(), 0);
        assert!(app.hud_click(&layout, in_slot(3)).is_some());
        assert!(app.hud_click(&layout, in_slot(4)).is_some());
        assert_eq!(app.state.speed(), 0);
        assert_eq!(app.state.view_lock, Some(lock));
        for i in [1, 7, 8] {
            assert!(app.hud_click(&layout, in_slot(i)).is_some());
            assert_eq!(app.state.view_lock, Some(lock));
        }
        assert_eq!(app.toggle_menu(), Effect::ListMaps);
        app.maps_listed(maps(&["halo"]));
        assert_eq!(app.toggle_menu(), Effect::RestartClock);
        assert_eq!(app.state.view_lock, Some(lock));
        app.game = Some(Game::default());
        app.toggle_notebook();
        app.toggle_notebook();
        assert_eq!(app.state.view_lock, Some(lock));
        app.game = None;
        app.show_hud = false;
        assert!(app.hud_click(&layout, in_slot(5)).is_some());
        assert_eq!(app.state.view_lock, None);
        app.show_hud = true;
    }
}

#[test]
fn speed_controls_cross_into_reverse_and_respect_bounds() {
    let mut state = State::new();
    state.view_lock = Some(ViewLock::Body(2));
    assert_eq!(state.speed(), 0);
    assert!(state.time_key(Key::ArrowLeft));
    assert_eq!(state.speed(), -1);
    assert!(state.time_key(Key::ArrowRight));
    assert_eq!(state.speed(), 0);
    assert!(state.time_key(Key::ArrowRight));
    assert_eq!(state.speed(), 1);
    for _ in 0..30 {
        state.time_key(Key::ArrowLeft);
    }
    assert_eq!(state.warp, 0);
    assert_eq!(state.speed(), -40_000);
    for _ in 0..30 {
        state.time_key(Key::ArrowRight);
    }
    assert_eq!(state.warp, WARPS - 1);
    assert_eq!(state.speed(), 40_000);
    assert_eq!(state.view_lock, Some(ViewLock::Body(2)));
    assert!(!state.time_key(Key::Digit(1)));
    assert!(!state.time_key(Key::Digit(2)));
}

#[test]
fn stopping_again_never_resumes_and_brackets_change_speed() {
    let mut state = State::new();
    state.warp = 3;
    assert!(state.time_key(Key::Space));
    assert!(state.time_key(Key::Space));
    assert_eq!(state.speed(), 0);
    assert!(state.time_key(Key::BracketRight));
    assert_eq!(state.speed(), 1);
    assert!(state.time_key(Key::BracketLeft));
    assert_eq!(state.speed(), 0);
}

#[test]
fn lock_descriptions_hide_names_when_labels_are_off() {
    let scene = scene();
    let mut state = State::new();
    state.view_lock = Some(ViewLock::Body(2));
    assert_eq!(state.lock_label(&scene, true).as_deref(), Some(scene.body(2).name.as_str()));
    assert_eq!(state.lock_label(&scene, false).as_deref(), Some("Planet / moon"));
    state.view_lock = Some(ViewLock::Body(0));
    assert_eq!(state.lock_label(&scene, false).as_deref(), Some("Star"));
    state.view_lock = Some(ViewLock::Background);
    for show_names in [false, true] {
        assert_eq!(state.lock_label(&scene, show_names).as_deref(), Some("Background sky"));
    }
    state.unlock();
    assert_eq!(state.lock_label(&scene, true), None);
    assert_eq!(state.locked_body(), None);
}

fn drag(state: &mut State, to: (f64, f64), scale: f64) -> Option<Cursor> {
    let start = state.press.unwrap_or(at(0.0, 0.0));
    let (x, y) = (f64::from_bits(start.x.bits), f64::from_bits(start.y.bits));
    let travel = (to.0 - x).hypot(to.1 - y);
    state.drag_sky(at(to.0, to.1), number(travel), number(4.0 * scale))
}

#[test]
fn sky_click_unlocks_immediately_but_jitter_does_not_pan() {
    let mut state = State::new();
    state.view_lock = Some(ViewLock::Body(2));
    state.begin_sky_press(at(400.0, 300.0));
    // Travel can accumulate indefinitely without ever leaving the click
    // tolerance. It must not move the telescope or turn into a drag.
    for _ in 0..10 {
        assert_eq!(drag(&mut state, (402.0, 300.0), 1.0), None);
        assert_eq!(drag(&mut state, (400.0, 300.0), 1.0), None);
    }
    assert_eq!(state.view_lock, None);
    assert!(state.end_sky_press());

    state.begin_sky_press(at(400.0, 300.0));
    assert_eq!(drag(&mut state, (407.0, 300.0), 2.0), None, "threshold scales with DPI");
    assert_eq!(drag(&mut state, (410.0, 300.0), 2.0), Some(at(400.0, 300.0)));
    assert_eq!(state.view_lock, None);
    assert_eq!(drag(&mut state, (400.0, 300.0), 2.0), Some(at(410.0, 300.0)));
    assert!(!state.end_sky_press(), "returning to the press is still a drag");
    assert_eq!(drag(&mut state, (500.0, 400.0), 1.0), None);
    assert!(!state.end_sky_press(), "cancelled gestures cannot click");
}

#[test]
fn map_menu_preserves_current_puzzle_until_another_map_loads() {
    let mut app = App::new(scene(), true);
    {
        let game = app.game.as_mut().unwrap();
        game.add(Point { x: number(0.35), y: number(0.3) }, number(0.2));
        for r in [0.3, 0.4, 0.5] {
            game.selected = 1;
            game.add(Point { x: number(r), y: number(0.7) }, number(r));
        }
        game.viewer = Some(4);
        game.open = true;
        game.score = Some(Score { matched: 5, agreed: 10, size: 5, viewer: true });
    }
    app.state.view_lock = Some(ViewLock::Background);
    assert_eq!(app.toggle_menu(), Effect::ListMaps);
    app.maps_listed(maps(&["halo", "puzzle"]));
    assert!(app.menu.open);
    assert_eq!(app.menu.entries[0].path, "configs/puzzle.yaml");
    app.toggle_menu();
    assert!(!app.menu.open);
    let game = app.game.as_ref().unwrap();
    assert!(game.open);
    assert_eq!(game.nodes.len(), 5);
    let total = game.score.unwrap().total();
    assert_eq!(total.numerator, 100 * total.denominator);
    assert!(app.state.view_lock.is_some());

    app.toggle_menu();
    app.maps_listed(maps(&["halo", "puzzle"]));
    app.map_failed("/a/directory", "not a file");
    assert!(app.menu.open && app.menu.error.is_some());
    assert_eq!(
        app.menu.error.as_deref(),
        Some("Could not load this map. Your current puzzle is unchanged.")
    );
    assert_eq!(app.game.as_ref().unwrap().nodes.len(), 5);

    let mut other = scene();
    other.bodies[1].name = "Halo".to_string();
    app.map_loaded(other);
    assert!(!app.menu.open && app.menu.error.is_none());
    assert_eq!(app.scene.body(app.scene.host).name, "Halo");
    assert!(app.state.speed() == 0 && app.state.view_lock.is_none());
    let game = app.game.as_ref().unwrap();
    assert!(!game.open);
    assert_eq!(game.nodes.len(), 1);
    assert!(game.viewer.is_none() && game.score.is_none() && game.undo.is_empty());
}

#[test]
fn reset_uses_the_scenes_default_target_and_releases_tracking() {
    let mut app = App::new(scene(), false);
    app.state.view_lock = Some(ViewLock::Body(3));
    assert_eq!(key(&mut app, Key::R), Effect::Aim(2));
    assert_eq!(app.state.view_lock, None);
}

#[test]
fn a_failed_map_names_the_file_outside_a_puzzle() {
    let mut app = App::new(scene(), false);
    app.map_failed("configs/new.yaml", "YAML schema error");
    assert_eq!(app.menu.error.as_deref(), Some("Could not load new.yaml: YAML schema error"));
}

#[test]
fn picking_locks_onto_bodies_and_sky_but_not_the_ground() {
    let mut app = App::new(scene(), false);
    let p = pointer(&app, at(640.0, 300.0));
    assert_eq!(app.right_click(&screen(), &p, Pick::Body(1)), Effect::Nothing);
    assert_eq!(app.state.view_lock, None, "ground must not lock background sky");
    assert_eq!(app.right_click(&screen(), &p, Pick::Body(3)), Effect::Track);
    assert_eq!(app.state.view_lock, Some(ViewLock::Body(3)));
    assert_eq!(app.right_click(&screen(), &p, Pick::Body(1)), Effect::Nothing);
    assert_eq!(app.state.view_lock, Some(ViewLock::Body(3)));
    assert_eq!(app.right_click(&screen(), &p, Pick::Sky), Effect::TrackBackground);
    assert_eq!(app.state.view_lock, Some(ViewLock::Background));
    assert_eq!(app.right_click(&None, &p, Pick::Body(2)), Effect::Nothing);
    let bar = pointer(&app, in_slot(3));
    assert_eq!(app.right_click(&screen(), &bar, Pick::Body(2)), Effect::Nothing);
    assert_eq!(app.state.view_lock, Some(ViewLock::Background));
}

#[test]
fn menu_rows_pages_and_keys_choose_maps() {
    let mut app = App::new(scene(), false);
    assert_eq!(press(&mut app, in_slot(0)), Effect::ListMaps);
    app.maps_listed(maps(&["a", "b", "c", "d", "e"]));
    assert_eq!(press(&mut app, at(400.0, 170.0)), Effect::LoadMap(1));
    assert_eq!(press(&mut app, at(900.0, 600.0)), Effect::Nothing);
    assert_eq!(app.menu.offset, 3);
    assert_eq!(press(&mut app, at(400.0, 110.0)), Effect::LoadMap(3));
    assert_eq!(press(&mut app, at(400.0, 240.0)), Effect::Nothing);
    assert_eq!(key(&mut app, Key::Digit(2)), Effect::LoadMap(4));
    assert_eq!(key(&mut app, Key::Digit(3)), Effect::Nothing);
    assert_eq!(key(&mut app, Key::Digit(4)), Effect::Nothing);
    assert_eq!(key(&mut app, Key::PageUp), Effect::Nothing);
    assert_eq!(app.menu.offset, 0);
    assert_eq!(app.wheel(&screen(), number(-1.0)), Effect::Nothing);
    assert_eq!(app.menu.offset, 3);
    assert_eq!(app.wheel(&screen(), number(2.0)), Effect::Nothing);
    assert_eq!(app.menu.offset, 0);
    assert_eq!(press(&mut app, at(900.0, 40.0)), Effect::RestartClock);
    assert!(!app.menu.open);
    assert_eq!(app.wheel(&screen(), number(-1.0)), Effect::ZoomBy);
}

#[test]
fn keys_reach_the_telescope_outside_a_puzzle() {
    let mut app = App::new(scene(), false);
    for (k, effect) in [
        (Key::E, Effect::FindEclipse),
        (Key::T, Effect::FindTransit),
        (Key::Comma, Effect::ExposureStep(false)),
        (Key::Period, Effect::ExposureStep(true)),
        (Key::Function(2), Effect::Aim(0)),
        (Key::Digit(4), Effect::Aim(4)),
        (Key::Digit(5), Effect::Nothing),
        (Key::Digit(0), Effect::Nothing),
        (Key::Equal, Effect::ZoomIn),
        (Key::NumpadSubtract, Effect::ZoomOut),
        (Key::S, Effect::Orient),
        (Key::A, Effect::SyncExposure),
        (Key::Tab, Effect::Nothing),
        (Key::Other, Effect::Nothing),
    ] {
        assert_eq!(key(&mut app, k), effect);
    }
    assert!(app.state.steady_stars && !app.auto_exposure);
    key(&mut app, Key::H);
    key(&mut app, Key::L);
    assert!(!app.show_hud && !app.show_labels);
    app.state.view_lock = Some(ViewLock::Body(2));
    key(&mut app, Key::U);
    assert_eq!(app.state.view_lock, None);
    let p = pointer(&app, at(0.0, 0.0));
    assert_eq!(app.key(Key::O, true, &screen(), &p), Effect::Nothing);
    assert!(app.state.steady_stars, "held keys do not repeat a switch");
}

#[test]
fn an_event_releases_the_lock_only_when_found() {
    let mut app = App::new(scene(), false);
    app.state.view_lock = Some(ViewLock::Body(2));
    assert_eq!(key(&mut app, Key::E), Effect::FindEclipse);
    app.event_found(false);
    assert_eq!(app.state.view_lock, Some(ViewLock::Body(2)));
    assert_eq!(key(&mut app, Key::T), Effect::FindTransit);
    app.event_found(true);
    assert_eq!(app.state.view_lock, None);
}

#[test]
fn escape_answers_closes_or_quits() {
    let mut app = App::new(scene(), false);
    let p = pointer(&app, at(640.0, 300.0));
    assert_eq!(app.key(Key::Escape, true, &screen(), &p), Effect::Nothing);
    assert_eq!(key(&mut app, Key::Escape), Effect::Quit);
    assert_eq!(key(&mut app, Key::M), Effect::ListMaps);
    app.maps_listed(maps(&["a"]));
    assert!(app.menu.open);
    assert_eq!(key(&mut app, Key::Escape), Effect::RestartClock);
    assert!(!app.menu.open);
    let mut app = App::new(scene(), true);
    key(&mut app, Key::Tab);
    key(&mut app, Key::X);
    assert!(app.game.as_ref().unwrap().confirm_clear);
    assert_eq!(key(&mut app, Key::Escape), Effect::Nothing);
    assert!(!app.game.as_ref().unwrap().confirm_clear);
    assert_eq!(key(&mut app, Key::Escape), Effect::Quit);
}

#[test]
fn a_puzzle_withholds_names_and_events() {
    let mut app = App::new(scene(), true);
    for k in [Key::L, Key::E, Key::T, Key::Function(1), Key::Digit(1)] {
        assert_eq!(key(&mut app, k), Effect::Nothing);
    }
    assert!(app.show_labels);
    app.state.view_lock = Some(ViewLock::Body(2));
    assert_eq!(key(&mut app, Key::R), Effect::PointDefault);
    assert_eq!(app.state.view_lock, None);
    assert_eq!(key(&mut app, Key::Tab), Effect::RestartClock);
    assert!(app.game.as_ref().unwrap().open);
    assert_eq!(key(&mut app, Key::S), Effect::Nothing);
    assert!(app.game.as_ref().unwrap().nodes[0].traits.star);
    assert!(!app.state.steady_stars);
    assert_eq!(app.wheel(&screen(), number(1.0)), Effect::Nothing);
}

#[test]
fn clicks_in_the_open_notebook_never_reach_the_sky() {
    let mut app = App::new(scene(), true);
    key(&mut app, Key::Tab);
    app.state.view_lock = Some(ViewLock::Body(3));
    assert_eq!(press(&mut app, at(640.0, 300.0)), Effect::RestartClock);
    assert_eq!(app.state.view_lock, Some(ViewLock::Body(3)));
    assert!(app.state.press.is_none());
    // The clear-all question takes every key and click.
    key(&mut app, Key::X);
    assert!(app.game.as_ref().unwrap().confirm_clear);
    assert_eq!(key(&mut app, Key::M), Effect::Nothing);
    assert_eq!(press(&mut app, in_slot(0)), Effect::RestartClock);
    assert!(!app.menu.open);
    key(&mut app, Key::Escape);
    assert!(!app.game.as_ref().unwrap().confirm_clear);
    assert_eq!(press(&mut app, in_slot(0)), Effect::ListMaps);
}

#[test]
fn dragging_pans_slides_or_does_nothing() {
    let mut app = App::new(scene(), false);
    let near = number(1.0);
    let far = number(50.0);
    let tolerance = number(4.0);
    let p = pointer(&app, at(690.0, 300.0));
    assert_eq!(app.cursor_moved(&screen(), &p, far, tolerance), Effect::Nothing);
    assert_eq!(press(&mut app, at(640.0, 300.0)), Effect::Nothing);
    assert_eq!(app.cursor_moved(&screen(), &p, near, tolerance), Effect::Nothing);
    assert_eq!(app.cursor_moved(&screen(), &p, far, tolerance), Effect::Pan(at(640.0, 300.0)));
    assert_eq!(app.cursor_moved(&screen(), &p, near, tolerance), Effect::Pan(at(690.0, 300.0)));
    app.let_go();
    assert!(app.state.press.is_none());
    assert_eq!(press(&mut app, in_slot(7)), Effect::SlideExposure);
    assert!(app.exposure_dragging);
    assert_eq!(app.cursor_moved(&screen(), &p, far, tolerance), Effect::SlideExposure);
    assert_eq!(app.cursor_moved(&None, &p, far, tolerance), Effect::Nothing);
    app.let_go();
    assert!(!app.exposure_dragging);
}

#[test]
fn frames_show_what_the_mode_allows() {
    let mut app = App::new(scene(), false);
    app.state.view_lock = Some(ViewLock::Body(0));
    let plan = app.redraw();
    assert!(plan.advance && plan.hud && !plan.lock_alone && plan.labels.show);
    assert_eq!(plan.labels.locked, Some(0));
    assert_eq!(plan.lock_label.as_deref(), Some("Sun"));
    assert_eq!(plan.title, Title::Observing);
    app.show_hud = false;
    let plan = app.redraw();
    assert!(!plan.hud && plan.lock_alone);
    assert_eq!(plan.lock_label.as_deref(), Some("Star"));
    app.maps_listed(maps(&[]));
    let plan = app.redraw();
    assert!(!plan.advance && !plan.lock_alone);
    assert_eq!(plan.title, Title::Menu);
    let mut app = App::new(scene(), true);
    app.toggle_notebook();
    let plan = app.redraw();
    assert!(!plan.advance && plan.hud && !plan.labels.show);
    assert_eq!(plan.title, Title::Puzzle);
}

#[test]
fn the_status_line_tells_speed_and_lock() {
    let mut state = State::new();
    assert_eq!(state.status(), "STOPPED | +0.0 min/s");
    state.change_speed(true);
    state.view_lock = Some(ViewLock::Background);
    assert_eq!(state.status(), "PLAYING | +1.4 min/s | View locked");
    state.view_lock = None;
    state.warp = 0;
    assert_eq!(state.status(), "PLAYING | -57600.0 min/s");
}

#[test]
fn speeds_are_told_in_minutes_and_days() {
    let mut state = State::new();
    let texts: Vec<String> = (0..WARPS)
        .map(|w| {
            state.warp = w;
            let minutes = state.speed() as f64 / 1000.0 * 1440.0;
            if w != STOP_WARP {
                assert_eq!(state.speed_text(), format!("{minutes:+} min/s"));
            }
            assert_eq!(state.rate_text(), format!("{:+.3} day/s", state.speed() as f64 / 1000.0));
            state.speed_text()
        })
        .collect();
    assert_eq!(texts[7], "-1.44 min/s");
    assert_eq!(texts[8], "0 min/s");
    assert_eq!(texts[10], "+7.2 min/s");
    assert_eq!(texts[16], "+57600 min/s");
}

#[test]
fn titles_change_a_few_times_per_second_at_most() {
    let mut gate = TitleGate::new();
    assert!(gate.offer("1 spp", 1_000));
    assert!(!gate.offer("1 spp", 5_000));
    assert!(gate.offer("2 spp", 5_000));
    for (i, now) in (5_016..5_250).step_by(16).enumerate() {
        assert!(!gate.offer(&format!("{} spp", i + 3), now));
    }
    assert!(gate.offer("20 spp", 5_250));
    assert_eq!(gate.shown, "20 spp");
}
