use stargaze::board::{reorder_by_distance, Node, Point};
use stargaze::game::{Game, Layout, Pointer};
use stargaze::input::{Cursor, Key, Rect};
use stargaze::sim::{Body, BodyKind, Color, Elements, Scene};
use stargaze::topology::{score, Percent, Topology, Traits};
use stargaze::ui::notebook_controls;
use stargaze::Number;

fn number(v: f64) -> Number {
    Number { bits: v.to_bits() }
}

fn single(v: f32) -> Number {
    number(v as f64)
}

fn value(n: Number) -> f64 {
    f64::from_bits(n.bits)
}

fn is_full(p: Percent) -> bool {
    p.numerator == 100 * p.denominator
}

fn below_full(p: Percent) -> bool {
    p.numerator < 100 * p.denominator
}

/// A rectangle by corner and size, in single precision.
#[derive(Clone, Copy)]
struct Area {
    x: f32,
    y: f32,
    w: f32,
    h: f32,
}

impl Area {
    fn rect(self) -> Rect {
        Rect {
            left: single(self.x),
            top: single(self.y),
            right: single(self.x + self.w),
            bottom: single(self.y + self.h),
        }
    }
}

/// The notebook's geometry, from which the library's layout is made.
struct Page {
    canvas: Area,
    scale: f32,
    unit: f32,
    layout: Layout,
    toggle: Area,
    maps: Area,
    traits: [Area; 2],
    buttons: [Area; 6],
}

fn page(w: f32, h: f32, scale: f32) -> Page {
    let s = scale.min(w / 1316.0).min(h / 400.0);
    let bar_y = h - 52.0 * s;
    let spans = notebook_controls();
    let control = |i: usize| Area {
        x: spans[i].left as f32 * s,
        y: bar_y + 9.0 * s,
        w: (spans[i].right - spans[i].left) as f32 * s,
        h: 34.0 * s,
    };
    let (maps, toggle, viewer, star, rings) =
        (control(0), control(1), control(2), control(3), control(4));
    let (undo, redo, delete, clear, check) =
        (control(5), control(6), control(7), control(8), control(9));
    let (dx, dy) = ((w - 470.0 * s) * 0.5, (h - 160.0 * s) * 0.5);
    let confirm = Area { x: dx + 238.0 * s, y: dy + 108.0 * s, w: 212.0 * s, h: 32.0 * s };
    let cancel = Area { x: dx + 20.0 * s, y: dy + 108.0 * s, w: 196.0 * s, h: 32.0 * s };
    let canvas = Area { x: 12.0 * s, y: 58.0 * s, w: w - 24.0 * s, h: h - 152.0 * s };
    let buttons = [redo, viewer, delete, undo, check, clear];
    Page {
        canvas,
        scale: s,
        unit: (w - 24.0 * s).min(h - 152.0 * s),
        layout: Layout {
            toggle: toggle.rect(),
            maps: maps.rect(),
            canvas: canvas.rect(),
            buttons: buttons.map(|b| b.rect()),
            traits: [star.rect(), rings.rect()],
            confirm: confirm.rect(),
            cancel: cancel.rect(),
        },
        toggle,
        maps,
        traits: [star, rings],
        buttons,
    }
}

impl Page {
    fn point(&self, p: [f32; 2]) -> [f32; 2] {
        [
            self.canvas.x + self.canvas.w * 0.5 + (p[0] - 0.5) * self.unit,
            self.canvas.y + self.canvas.h * 0.5 + (p[1] - 0.5) * self.unit,
        ]
    }

    fn normalized(&self, p: (f64, f64)) -> [f32; 2] {
        let margin = 38.0 * self.scale;
        [
            0.5 + ((p.0 as f32 - self.canvas.x).clamp(margin, self.canvas.w - margin)
                - self.canvas.w * 0.5)
                / self.unit,
            0.5 + ((p.1 as f32 - self.canvas.y).clamp(margin, self.canvas.h - margin)
                - self.canvas.h * 0.5)
                / self.unit,
        ]
    }

    fn pointer(&self, g: &Game, at: (f64, f64)) -> Pointer {
        let place = self.normalized(at);
        let over = g
            .nodes
            .iter()
            .map(|n| {
                let p = self.point(position(n));
                (at.0 - p[0] as f64).hypot(at.1 - p[1] as f64) <= 23.0 * self.scale as f64
            })
            .collect();
        Pointer {
            at: Cursor { x: number(at.0), y: number(at.1) },
            place: spot(place),
            over,
            reach: g.nodes.iter().map(|n| distance(position(n), place)).collect(),
        }
    }

    fn over_point(&self, g: &Game, p: [f32; 2]) -> Pointer {
        let p = self.point(p);
        self.pointer(g, (p[0] as f64, p[1] as f64))
    }
}

fn center(a: Area) -> (f64, f64) {
    ((a.x + a.w * 0.5) as f64, (a.y + a.h * 0.5) as f64)
}

fn position(n: &Node) -> [f32; 2] {
    [value(n.pos.x) as f32, value(n.pos.y) as f32]
}

fn spot(p: [f32; 2]) -> Point {
    Point { x: single(p[0]), y: single(p[1]) }
}

fn distance(a: [f32; 2], b: [f32; 2]) -> Number {
    single((a[0] - b[0]).hypot(a[1] - b[1]))
}

fn add(g: &mut Game, p: [f32; 2]) {
    let radius = distance(p, position(&g.nodes[g.selected]));
    g.add(spot(p), radius);
}

fn plain(parents: &[Option<usize>]) -> Topology {
    Topology::new(
        &parents.to_vec(),
        &(0..parents.len()).map(|i| i as i128).collect(),
        vec![Traits { star: false, rings: false }; parents.len()],
    )
}

fn body(name: &str, parent: Option<usize>, kind: BodyKind, axis: f64) -> Body {
    let shade = |v: f64| Color { red: number(v), green: number(v), blue: number(v) };
    Body {
        name: name.to_string(),
        parent,
        elements: Elements::circular(number(axis), number(0.0)),
        period_days: number(if parent.is_some() { 1.0 } else { 0.0 }),
        radius: number(0.001),
        kind,
        albedo: shade(0.5),
        emission: shade(1.0),
        luminosity: number(if kind == BodyKind::Star { 1.0 } else { 0.0 }),
        obliquity: number(0.0),
        spin_period: number(1.0),
        spin_phase: number(0.0),
        rings: None,
        tidally_locked: false,
    }
}

/// A star, a giant and three moons, the observer on the outermost.
fn puzzle() -> Scene {
    Scene {
        bodies: vec![
            body("sun", None, BodyKind::Star, 0.0),
            body("giant", Some(0), BodyKind::Planet, 5.0),
            body("inner", Some(1), BodyKind::Moon, 0.01),
            body("middle", Some(1), BodyKind::Moon, 0.02),
            body("outer", Some(1), BodyKind::Moon, 0.03),
        ],
        host: 4,
        default_target: 1,
        targets: vec![1],
        atmosphere: None,
        default_fov_deg: number(30.0),
        observer_lat_deg: number(0.0),
        observer_lon_deg: number(0.0),
        observer_height_m: number(2.0),
        initial_time_days: Some(number(0.0)),
    }
}

fn correct_puzzle() -> Game {
    let mut g = Game::default();
    g.nodes[0].traits.star = true;
    add(&mut g, [0.35, 0.3]);
    for x in [0.45, 0.6, 0.75] {
        g.selected = 1;
        add(&mut g, [x, 0.7]);
    }
    g.viewer = Some(4);
    g
}

#[test]
fn outermost_of_three_moons_is_distinct_from_inner_and_middle() {
    let tree = plain(&[None, Some(0), Some(1), Some(1), Some(1)]);
    assert!(is_full(score(&tree, 4, &tree, 4).total()));
    for viewer in [2, 3] {
        let result = score(&tree, viewer, &tree, 4);
        assert!(is_full(result.topology()));
        assert!(!result.viewer);
        let total = result.total();
        assert_eq!(total.numerator, 80 * total.denominator);
    }
    // Omitting the innermost moon must not shift the viewer to rank three.
    let missing = plain(&[None, Some(0), Some(1), Some(1)]);
    assert!(!score(&missing, 3, &tree, 4).viewer);
}

#[test]
fn swapping_planets_with_different_satellite_families_loses_credit() {
    let a = plain(&[None, Some(0), Some(0), Some(1)]);
    let b = plain(&[None, Some(0), Some(0), Some(2)]);
    let result = score(&a, 3, &b, 3);
    assert!(below_full(result.topology()));
    assert!(!result.viewer);
}

#[test]
fn scoring_penalizes_missing_extra_and_wrong_parent_links() {
    let tree = plain(&[None, Some(0), Some(1)]);
    let flat = plain(&[None, Some(0), Some(0)]);
    let short = plain(&[None, Some(0)]);
    assert!(below_full(score(&flat, 2, &tree, 2).topology()));
    assert!(below_full(score(&short, 1, &tree, 2).topology()));
    assert!(below_full(score(&tree, 2, &short, 1).topology()));
}

#[test]
fn root_need_not_be_first_and_anchor_is_part_of_topology() {
    let a = plain(&[None, Some(0), Some(0)]);
    let b = plain(&[Some(1), None, Some(1)]);
    assert!(is_full(score(&a, 1, &b, 0).total()));
}

#[test]
fn scene_order_comes_from_orbital_size_not_file_order() {
    let mut scene = puzzle();
    let guess = correct_puzzle();
    assert!(is_full(
        score(&guess.topology(), 4, &Topology::from_scene(&scene), scene.host).total()
    ));
    // All three swapped bodies share the same parent and have no children.
    scene.bodies.swap(2, 4);
    scene.host = 2;
    assert!(is_full(
        score(&guess.topology(), 4, &Topology::from_scene(&scene), scene.host).total()
    ));
    let giant = scene.bodies.iter().position(|b| b.name == "giant").unwrap();
    let ordered = Topology::from_scene(&scene);
    assert_eq!(ordered.children[giant], vec![4, 3, 2]);
}

#[test]
fn star_and_ring_traits_are_scored_at_the_ordered_location() {
    let mut truth = plain(&[None, Some(0), Some(0)]);
    truth.traits[0].star = true;
    truth.traits[2].rings = true;
    let mut guess = plain(&[None, Some(0), Some(0)]);
    let missing = score(&guess, 2, &truth, 2);
    assert!(is_full(missing.topology()));
    assert!(below_full(missing.traits()));
    guess.traits[0].star = true;
    guess.traits[2].rings = true;
    assert!(is_full(score(&guess, 2, &truth, 2).total()));
    guess.traits[2].rings = false;
    guess.traits[1].rings = true;
    assert!(below_full(score(&guess, 2, &truth, 2).traits()));
}

#[test]
fn a_partial_theory_earns_an_exact_share() {
    let truth = plain(&[None, Some(0), Some(1), Some(1)]);
    let guess = plain(&[None, Some(0)]);
    let s = score(&guess, 1, &truth, 1);
    assert_eq!((s.matched, s.agreed, s.size), (2, 4, 4));
    assert_eq!(s.topology(), Percent { numerator: 200, denominator: 4 });
    assert_eq!(s.traits(), Percent { numerator: 400, denominator: 8 });
    // 30 for structure, 10 for traits, 20 for the viewer.
    assert_eq!(s.total(), Percent { numerator: 240, denominator: 4 });
}

#[test]
fn deleting_branch_remaps_viewer_and_compacts_orbit_ranks() {
    let mut g = correct_puzzle();
    g.nodes[4].traits.rings = true;
    g.selected = 2;
    g.delete();
    assert_eq!(g.nodes.len(), 4);
    assert_eq!(g.viewer, Some(3));
    assert_eq!(g.nodes[2].orbit_rank, 0);
    assert_eq!(g.nodes[3].orbit_rank, 1);
    assert!(g.nodes[3].traits.rings);
    let saved = g.undo.pop().unwrap();
    assert_eq!(saved.nodes.len(), 5);
    assert_eq!(saved.viewer, Some(4));
    g.selected = 1;
    g.delete();
    assert_eq!(g.nodes.len(), 1);
    assert_eq!(g.viewer, None);
}

#[test]
fn the_centre_cannot_be_deleted() {
    let mut g = correct_puzzle();
    g.selected = 0;
    let history = g.undo.len();
    g.delete();
    assert_eq!(g.nodes.len(), 5);
    assert_eq!(g.undo.len(), history);
    assert_eq!(g.message, "The centre stays. Select an orbiting object to delete its branch.");
}

#[test]
fn notebook_interaction_creates_marks_scores_and_undoes_without_sky_clicks() {
    let scene = puzzle();
    let mut g = Game::default();
    let l = page(1280.0, 720.0, 1.0);
    let click = |g: &mut Game, at: (f64, f64)| {
        let p = l.pointer(g, at);
        g.click(&l.layout, &p, &scene)
    };
    assert!(!click(&mut g, (400.0, 400.0)));
    assert!(click(&mut g, center(l.toggle)));
    assert!(g.open);
    click(&mut g, center(l.traits[0]));
    assert!(g.nodes[0].traits.star);
    click(&mut g, center(l.traits[1]));
    assert!(g.nodes[0].traits.rings);
    click(&mut g, center(l.buttons[3]));
    assert!(!g.nodes[0].traits.rings);
    assert!(g.nodes[0].traits.star);
    click(&mut g, center(l.buttons[4]));
    assert!(g.score.is_none()); // A viewer is required before submission.
    let p = l.over_point(&g, [0.8, 0.7]);
    g.right_click(&l.layout, &p);
    assert_eq!(g.nodes.len(), 2);
    assert_eq!(g.nodes[1].parent, Some(0));
    click(&mut g, center(l.buttons[1]));
    assert_eq!(g.viewer, Some(1));
    click(&mut g, center(l.buttons[4]));
    assert!(g.score.is_some());
    click(&mut g, center(l.buttons[3]));
    assert_eq!(g.viewer, None);
    assert!(g.score.is_none());
    click(&mut g, center(l.toggle));
    assert!(!g.open);
}

#[test]
fn dragging_changes_orbit_order_viewer_score_and_undoes_as_one_edit() {
    let scene = puzzle();
    let truth = Topology::from_scene(&scene);
    let mut g = correct_puzzle();
    let layout = page(1280.0, 720.0, 1.0);
    let original = g.nodes[4].pos;
    let history = g.undo.len();
    g.score = Some(score(&g.topology(), 4, &truth, scene.host));
    assert!(is_full(g.score.unwrap().total()));
    g.dragging = Some(4);
    for pos in [[0.4, 0.45], [0.4, 0.4], [0.4, 0.35]] {
        let p = layout.over_point(&g, pos);
        g.motion(&p);
    }
    g.release();
    assert_eq!(g.nodes[4].orbit_rank, 0);
    assert_eq!(g.siblings(1), vec![4, 2, 3]);
    assert_eq!(g.viewer, Some(4));
    assert!(g.score.is_none());
    assert!(!score(&g.topology(), 4, &truth, scene.host).viewer);
    assert_eq!(g.undo.len(), history + 1);
    let saved = g.undo.pop().unwrap();
    g.nodes = saved.nodes;
    g.viewer = saved.viewer;
    g.selected = saved.selected;
    assert_eq!(g.nodes[4].pos, original);
    assert!(is_full(score(&g.topology(), 4, &truth, scene.host).total()));
}

#[test]
fn placement_and_buttons_agree_with_visible_distance_at_any_window_shape() {
    let mut g = correct_puzzle();
    g.selected = 1;
    add(&mut g, [0.4, 0.35]); // newest object is nearer, rather than always outermost
    assert_eq!(g.nodes[5].orbit_rank, 0);
    for (w, h) in [(1280.0, 720.0), (640.0, 1200.0), (320.0, 240.0)] {
        let l = page(w, h, 1.0);
        for parent in 0..g.nodes.len() {
            let center = l.point(position(&g.nodes[parent]));
            let radii: Vec<f32> = g
                .siblings(parent)
                .iter()
                .map(|&i| {
                    let p = l.point(position(&g.nodes[i]));
                    (p[0] - center[0]).hypot(p[1] - center[1])
                })
                .collect();
            assert!(radii.windows(2).all(|r| r[0] <= r[1]));
        }
    }
}

#[test]
fn clear_confirmation_blocks_edits_and_supports_cancel_undo_and_redo() {
    let mut g = correct_puzzle();
    g.open = true;
    let l = page(1280.0, 720.0, 1.0);
    let scene = puzzle();
    let cursor = (l.canvas.x as f64 + 50.0, l.canvas.y as f64 + 50.0);
    let key = |g: &mut Game, key: Key| {
        let p = l.pointer(g, cursor);
        g.key(key, &l.layout, &p, &scene);
    };
    key(&mut g, Key::X);
    assert!(g.confirm_clear);
    let p = l.pointer(&g, cursor);
    g.right_click(&l.layout, &p);
    key(&mut g, Key::Delete);
    key(&mut g, Key::S);
    assert_eq!(g.nodes.len(), 5);
    let p = l.pointer(&g, (l.toggle.x as f64 + 1.0, l.toggle.y as f64 + 1.0));
    g.click(&l.layout, &p, &scene);
    assert!(g.open && g.confirm_clear);
    key(&mut g, Key::Escape);
    assert!(!g.confirm_clear && g.nodes.len() == 5);
    key(&mut g, Key::X);
    key(&mut g, Key::Enter);
    assert_eq!(g.nodes.len(), 1);
    assert!(g.viewer.is_none() && !g.confirm_clear);
    key(&mut g, Key::Z);
    assert_eq!(g.nodes.len(), 5);
    assert_eq!(g.viewer, Some(4));
    key(&mut g, Key::Y);
    assert_eq!(g.nodes.len(), 1);
    key(&mut g, Key::Z);
    key(&mut g, Key::S);
    assert!(g.redo.is_empty(), "new edits must invalidate redo");
}

#[test]
fn orbit_labels_are_local_to_parent_and_update_after_drag() {
    let mut g = correct_puzzle();
    assert_eq!(g.nodes[0].label(), "C");
    assert_eq!(g.nodes[1].label(), "1");
    assert_eq!(g.nodes[2].label(), "1");
    assert_eq!(g.nodes[4].label(), "3");
    let l = page(1280.0, 720.0, 1.0);
    g.dragging = Some(4);
    let p = l.over_point(&g, [0.4, 0.35]);
    g.motion(&p);
    g.release();
    assert_eq!(g.nodes[4].label(), "1");
    assert_eq!(g.nodes[2].label(), "2");
    g.history(false);
    assert_eq!(g.nodes[4].label(), "3");
    g.history(true);
    assert_eq!(g.nodes[4].label(), "1");
}

#[test]
fn keyboard_add_uses_selected_parent_and_delete_redo_restores_branch_edit() {
    let mut g = Game { open: true, ..Game::default() };
    let l = page(1280.0, 720.0, 1.0);
    let scene = puzzle();
    for pos in [[0.8, 0.5], [0.9, 0.8]] {
        let p = l.over_point(&g, pos);
        g.key(Key::N, &l.layout, &p, &scene);
    }
    assert_eq!(g.nodes[1].parent, Some(0));
    assert_eq!(g.nodes[2].parent, Some(1));
    let p = l.pointer(&g, (0.0, 0.0));
    g.key(Key::V, &l.layout, &p, &scene);
    g.selected = 1;
    g.key(Key::Delete, &l.layout, &p, &scene);
    assert_eq!(g.nodes.len(), 1);
    assert_eq!(g.viewer, None);
    g.history(false);
    assert_eq!(g.nodes.len(), 3);
    assert_eq!(g.viewer, Some(2));
    g.history(true);
    assert_eq!(g.nodes.len(), 1);
}

#[test]
fn a_full_diagram_takes_no_more_objects() {
    let mut g = Game { open: true, ..Game::default() };
    for i in 0..63 {
        g.selected = 0;
        add(&mut g, [0.01 * i as f32, 0.9]);
    }
    assert_eq!(g.nodes.len(), 64);
    let history = g.undo.len();
    g.selected = 0;
    add(&mut g, [0.5, 0.9]);
    assert_eq!(g.nodes.len(), 64);
    assert_eq!(g.undo.len(), history);
    let l = page(1280.0, 720.0, 1.0);
    let mut p = l.pointer(&g, (l.canvas.x as f64 + 50.0, l.canvas.y as f64 + 50.0));
    p.over = vec![false; 64];
    g.right_click(&l.layout, &p);
    assert_eq!(g.message, "Diagram limit: 64 objects. Delete a branch to make room.");
}

#[test]
fn history_forgets_its_oldest_edit_when_full() {
    let mut g = Game::default();
    for _ in 0..101 {
        g.toggle_trait(0);
    }
    assert_eq!(g.undo.len(), 100);
    assert!(g.nodes[0].traits.star);
    for _ in 0..150 {
        g.history(false);
    }
    assert!(g.undo.is_empty());
    assert_eq!(g.redo.len(), 100);
    // The first edit can no longer be taken back.
    assert!(g.nodes[0].traits.star);
}

#[test]
fn equal_radii_keep_their_order() {
    let mut g = Game::default();
    for p in [[0.7, 0.45], [0.3, 0.45], [0.5, 0.65]] {
        g.selected = 0;
        g.add(spot(p), number(0.25));
    }
    assert_eq!(g.siblings(0), vec![1, 2, 3]);
}

#[test]
fn drawing_marks_selection_viewer_and_score() {
    let scene = puzzle();
    let mut g = correct_puzzle();
    g.selected = 2;
    let marks = g.marks();
    assert_eq!(marks.len(), 5);
    assert!(marks[2].selected && !marks[4].selected);
    assert!(marks[4].viewer && !marks[0].viewer);
    assert_eq!(marks[4].label, "3");
    assert_eq!(marks[3].parent, Some(1));
    assert!(marks[0].traits.star);
    assert_eq!(
        g.score_line("", "", ""),
        "60% ordered structure + 20% star/ring traits + 20% viewer. Orbit 1 = innermost."
    );
    g.action(4, &scene);
    assert_eq!(
        g.score_line("100.0", "100.0", "100.0"),
        "Score: 100.0/100  Orbits: 100.0%  Traits: 100.0%  Viewer: matches"
    );
    g.viewer = Some(2);
    g.action(4, &scene);
    assert_eq!(
        g.score_line("80.0", "100.0", "100.0"),
        "Score: 80.0/100  Orbits: 100.0%  Traits: 100.0%  Viewer: does not match"
    );
}

#[test]
fn controls_fit_small_and_hidpi_windows() {
    for (w, h, s) in [(1280.0, 720.0, 1.0), (640.0, 480.0, 2.0), (320.0, 240.0, 1.0)] {
        let l = page(w, h, s);
        for r in l.buttons.iter().chain(l.traits.iter()).chain([&l.toggle, &l.maps, &l.canvas]) {
            assert!(r.x >= 0.0 && r.y >= 0.0 && r.x + r.w <= w && r.y + r.h <= h);
        }
    }
}

#[test]
fn a_drag_that_goes_nowhere_saves_nothing() {
    let mut g = correct_puzzle();
    let layout = page(1280.0, 720.0, 1.0);
    let history = g.undo.len();
    g.dragging = Some(4);
    let mut still = layout.over_point(&g, [0.4, 0.4]);
    still.place = g.nodes[4].pos;
    g.motion(&still);
    assert_eq!(g.undo.len(), history);
    assert!(!g.drag_saved);
    let rank = g.nodes[4].orbit_rank;
    for pos in [[0.4, 0.4], [0.2, 0.8], [0.9, 0.9]] {
        let p = layout.over_point(&g, pos);
        g.motion(&p);
    }
    assert_eq!(g.undo.len(), history + 1);
    g.history(false);
    assert_eq!(g.nodes[4].orbit_rank, rank);
    assert!(g.nodes[4].pos.equals(still.place));
}

#[test]
fn numbering_the_same_tree_otherwise_keeps_the_score() {
    let order: Vec<i128> = vec![0, 1, 2, 3];
    let shuffled: Vec<i128> = vec![3, 2, 0, 1];
    let bare = || vec![Traits { star: false, rings: false }; 4];
    // Object 0 of the first is object 2 of the second, 1 is 3, 2 is 1, 3 is 0.
    let a = Topology::new(&vec![None, Some(0), Some(0), Some(1)], &order, bare());
    let c = Topology::new(&vec![Some(3), Some(2), None, Some(2)], &shuffled, bare());
    let guess = plain(&[None, Some(0), Some(1)]);
    assert_eq!(score(&guess, 2, &a, 3), score(&guess, 2, &c, 0));
    assert_eq!(score(&a, 3, &guess, 2), score(&c, 0, &guess, 2));
    assert!(score(&a, 3, &c, 0).viewer && is_full(score(&a, 3, &c, 0).total()));
}

#[test]
fn only_the_true_tree_is_full_and_scores_are_symmetric() {
    let tree = plain(&[None, Some(0), Some(1), Some(1)]);
    let mut ringed = plain(&[None, Some(0), Some(1), Some(1)]);
    ringed.traits[3].rings = true;
    let wrong = [
        plain(&[None, Some(0), Some(0), Some(1)]),
        plain(&[None, Some(0), Some(1)]),
        plain(&[None, Some(0), Some(1), Some(1), Some(1)]),
    ];
    for other in &wrong {
        let s = score(other, 2, &tree, 2);
        assert!(s.matched < s.size && s.agreed < 2 * s.size);
        assert_eq!(s, score(&tree, 2, other, 2));
    }
    let s = score(&ringed, 2, &tree, 2);
    assert_eq!((s.matched, s.agreed, s.size), (4, 7, 4));
    assert_eq!(s, score(&tree, 2, &ringed, 2));
    assert!(below_full(s.total()));
    assert!(is_full(score(&tree, 3, &tree, 3).total()));
    assert!(below_full(score(&tree, 3, &tree, 2).total()));
}

#[test]
fn saving_drops_the_oldest_entry_and_what_was_undone() {
    let mut g = Game::default();
    for k in 0..250 {
        g.toggle_trait(k % 2);
        if k % 7 == 0 {
            g.history(false);
        }
        assert!(g.undo.len() + g.redo.len() <= 100);
    }
    g.history(false);
    assert_eq!(g.redo.len(), 1);
    g.toggle_trait(0);
    assert!(g.redo.is_empty() && g.score.is_none());
}

#[test]
fn reordering_twice_changes_nothing() {
    let mut g = correct_puzzle();
    g.nodes[4].radius = number(0.01);
    reorder_by_distance(&mut g.nodes);
    let ranks = |g: &Game| -> Vec<usize> { g.nodes.iter().map(|n| n.orbit_rank).collect() };
    let once = ranks(&g);
    assert_eq!(g.nodes[4].orbit_rank, 0);
    reorder_by_distance(&mut g.nodes);
    assert_eq!(ranks(&g), once);
}

#[test]
fn saving_keeps_the_theory_on_top_of_the_history() {
    let mut g = correct_puzzle();
    let depth = g.undo.len();
    g.history(false);
    assert_eq!(g.redo.len(), 1);
    g.save();
    assert_eq!((g.undo.len(), g.redo.len()), (depth, 0));
    let top = g.undo.last().unwrap();
    assert_eq!(top.nodes.len(), g.nodes.len());
    assert_eq!((top.viewer, top.selected), (g.viewer, g.selected));
    assert!(g.score.is_none());
}
