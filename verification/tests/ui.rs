use font8x8::{UnicodeFonts, BASIC_FONTS};
use stargaze::input::{Cursor, Rect};
use stargaze::ui::{
    build_atlas, glyph_cell, glyphs, hud_controls, lay_out, lock_caption, lock_detail,
    notebook_controls, captions, Bar, LabelOptions, Span, Stamp, ARROW_LEFT_CELL,
    ARROW_RIGHT_CELL, ATLAS_COLS, ATLAS_H, ATLAS_W, GLYPH, SOLID_CELL, TOOLBAR_W,
};
use stargaze::Number;

fn rect(left: f64, top: f64, right: f64, bottom: f64) -> Rect {
    let n = |v: f64| Number { bits: v.to_bits() };
    Rect { left: n(left), top: n(top), right: n(right), bottom: n(bottom) }
}

fn at(x: f64, y: f64) -> Cursor {
    Cursor { x: Number { bits: x.to_bits() }, y: Number { bits: y.to_bits() } }
}

#[test]
fn controls_are_disjoint_and_hit_testable() {
    // A window of 1400 by 800 at scale one.
    let bar = rect(0.0, 800.0 - 52.0, 1400.0, 800.0);
    let spans = hud_controls();
    let (top, bottom) = (800.0 - 52.0 + 9.0, 800.0 - 52.0 + 9.0 + 34.0);
    let control = |i: usize| rect(spans[i].left as f64, top, spans[i].right as f64, bottom);
    let center = |i: usize| {
        at((spans[i].left as f64 + spans[i].right as f64) * 0.5, (top + bottom) * 0.5)
    };
    let (toggle, slower, faster, stop) = (1, 3, 5, 6);
    assert!(control(toggle).contains(center(toggle)));
    for b in [stop, slower, faster] {
        assert!(!control(b).contains(center(toggle)), "toggle must not overlap a button");
    }

    for b in [stop, slower, faster] {
        assert!(control(b).contains(center(b)));
        assert!(!control(toggle).contains(center(b)));
        assert!(bar.contains(center(b)));
    }

    // Buttons must not run into each other.
    for pair in [slower, faster, stop].windows(2) {
        assert!(spans[pair[0]].right <= spans[pair[1]].left);
    }

    // A point in the sky must not be swallowed by the bar.
    assert!(!bar.contains(at(700.0, 100.0)));
}

#[test]
fn atlas_contains_the_solid_cell_and_glyphs() {
    let a = build_atlas();
    assert_eq!(a.len(), ATLAS_W * ATLAS_H);
    let (cx, cy) = (SOLID_CELL % ATLAS_COLS, SOLID_CELL / ATLAS_COLS);
    assert_eq!(a[(cy * GLYPH) * ATLAS_W + cx * GLYPH], 255);

    let idx = ('A' as u32 - 32) as usize;
    let (ax, ay) = (idx % ATLAS_COLS, idx / ATLAS_COLS);
    let mut ink = 0u32;
    for y in 0..GLYPH {
        for x in 0..GLYPH {
            ink += a[(ay * GLYPH + y) * ATLAS_W + ax * GLYPH + x] as u32;
        }
    }
    assert!(ink > 0, "'A' glyph should have ink");
    for (ch, cell) in [('←', ARROW_LEFT_CELL), ('→', ARROW_RIGHT_CELL)] {
        assert_eq!(glyph_cell(ch as u32), cell);
        let mut lit = 0;
        for y in 0..GLYPH {
            for x in 0..GLYPH {
                if a[(cell / ATLAS_COLS * GLYPH + y) * ATLAS_W + cell % ATLAS_COLS * GLYPH + x] != 0 {
                    lit += 1;
                }
            }
        }
        assert!(lit > 0 && lit < GLYPH * GLYPH, "arrows must not be missing-glyph blocks");
    }
}

#[test]
fn atlas_cells_show_the_fonts_glyphs_bit_by_bit() {
    let a = build_atlas();
    for code in 32u32..127 {
        let glyph = BASIC_FONTS.get(char::from_u32(code).unwrap()).unwrap();
        let cell = (code - 32) as usize;
        for row in 0..8 {
            for col in 0..8 {
                let p = (cell / 16 * 8 + row) * 128 + cell % 16 * 8 + col;
                let on = glyph[row] & (1 << col) != 0;
                assert_eq!(a[p], if on { 255 } else { 0 });
            }
        }
    }
}

#[test]
fn glyph_rows_run_from_the_lowest_bit() {
    let mut table = vec![[0u8; 8]; 128];
    table[17][2] = 0b0000_0101;
    let a = lay_out(&table);
    let row = (8 + 2) * 128 + 8;
    assert_eq!(&a[row..row + 4], &[255, 0, 255, 0]);
    assert_eq!(a.iter().filter(|&&v| v == 255).count(), 2);
}

#[test]
fn unknown_characters_are_boxes_and_spaces_leave_gaps() {
    assert_eq!(
        glyphs("A é"),
        vec![Stamp { column: 0, cell: 33 }, Stamp { column: 2, cell: SOLID_CELL }]
    );
    assert_eq!(glyph_cell(126), 94);
    assert_eq!(glyph_cell(127), SOLID_CELL);
    assert_eq!(glyph_cell(31), SOLID_CELL);
}

#[test]
fn toolbar_controls_are_disjoint_and_fit() {
    let hud = hud_controls();
    assert_eq!(hud[0], Span { left: 10, right: 94 });
    assert_eq!(hud[2], Span { left: 244, right: 288 });
    let book = notebook_controls();
    assert_eq!(book[2], Span { left: 244, right: 386 });
    for spans in [hud, book] {
        assert!(spans.windows(2).all(|p| p[0].right < p[1].left));
        assert!(spans.iter().all(|s| s.left < s.right && s.right <= TOOLBAR_W));
    }
}

#[test]
fn captions_follow_lock_and_mode() {
    assert_eq!(lock_caption(true), "Locked [U]");
    assert_eq!(lock_caption(false), "Unlocked");
    assert_eq!(lock_detail(&None, 20), "[U] / click sky");
    assert_eq!(lock_detail(&Some("Kepler-Ω".to_string()), 20), "Kepler-?");
    assert_eq!(lock_detail(&Some("Long name".to_string()), 7), "Long...");
    let bar = Bar { puzzle: true, show_labels: true, steady_stars: true, stopped: false };
    let texts = |bar: Bar| -> Vec<(&'static str, bool)> {
        captions(bar).iter().map(|c| (c.text, c.active)).collect()
    };
    assert_eq!(
        texts(bar),
        vec![
            ("[M]enu", false),
            ("[S]tars", true),
            ("Draw [Tab]", false),
            ("Stop [Spc]", false),
            ("←", false),
            ("→", false)
        ]
    );
    let bar = Bar { puzzle: false, show_labels: true, steady_stars: false, stopped: true };
    assert_eq!(texts(bar)[2..4], [("[L]abels", true), ("Stop [Spc]", true)]);
    let o = LabelOptions { show: true, locked: Some(3) };
    assert!(o.is_locked(3) && !o.is_locked(2) && !LabelOptions::default().is_locked(0));
}
