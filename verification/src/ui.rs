//! The heads-up display: an 8x8 bitmap font atlas, where the toolbar's controls
//! lie, and what they say.
use crate::input::Rect;
use crate::text::{characters, fit};
use font8x8::{UnicodeFonts, BASIC_FONTS};
use vstd::prelude::*;
use vstd::string::StringExecFns;

verus! {

pub const ATLAS_COLS: usize = 16;

pub const ATLAS_ROWS: usize = 8;

pub const GLYPH: usize = 8;

pub const ATLAS_W: usize = 128;

pub const ATLAS_H: usize = 64;

pub const CELLS: usize = 128;

pub const SOLID_CELL: usize = 127;

/// Two Unicode arrows occupy unused atlas cells after the printable ASCII set.
pub const ARROW_LEFT_CELL: usize = 95;

pub const ARROW_RIGHT_CELL: usize = 96;

/// What `font8x8::BASIC_FONTS.get` gives for a character.
pub uninterp spec fn basic_glyph(c: char) -> Option<Seq<u8>>;

/// `font8x8::BASIC_FONTS.get` looks a character up in the table of the first
/// 128 code points. The glyph is a function of the character alone, there is
/// one for exactly those code points, and it has eight rows.
#[verifier::external_body]
fn basic_font(c: char) -> (r: Option<[u8; 8]>)
    ensures
        match r {
            Some(glyph) => basic_glyph(c) == Some(glyph@),
            None => basic_glyph(c) is None,
        },
        r is Some <==> (c as u32) < 128,
{
    BASIC_FONTS.get(c)
}

/// Whether column `col` of a row of pixels is set.
pub open spec fn lit(row: u8, col: int) -> bool {
    (row >> (col as u8)) & 1u8 == 1u8
}

pub open spec fn left_arrow() -> Seq<u8> {
    seq![0, 0x08, 0x04, 0x7e, 0x04, 0x08, 0, 0]
}

pub open spec fn right_arrow() -> Seq<u8> {
    seq![0, 0x10, 0x20, 0x7e, 0x20, 0x10, 0, 0]
}

/// The glyph in a cell of the atlas: printable ASCII, the arrows, and a fully
/// opaque cell used to draw solid rectangles through the same shader.
pub open spec fn cell_glyph(cell: int) -> Seq<u8> {
    if 0 <= cell < 95 {
        match basic_glyph((32 + cell) as char) {
            Some(glyph) => glyph,
            None => Seq::new(8, |i: int| 0u8),
        }
    } else if cell == ARROW_LEFT_CELL {
        left_arrow()
    } else if cell == ARROW_RIGHT_CELL {
        right_arrow()
    } else if cell == SOLID_CELL {
        Seq::new(8, |i: int| 0xFFu8)
    } else {
        Seq::new(8, |i: int| 0u8)
    }
}

/// The pixel at place `p` of an atlas with these glyphs: cells fill rows of
/// sixteen, and a glyph's lowest bit is its leftmost pixel.
pub open spec fn pixel(glyphs: Seq<[u8; 8]>, p: int) -> u8 {
    let x = p % 128;
    let y = p / 128;
    if lit(glyphs[(y / 8) * 16 + x / 8]@[y % 8], x % 8) {
        255
    } else {
        0
    }
}

/// The glyphs of the atlas, cell by cell.
fn glyph_table() -> (r: Vec<[u8; 8]>)
    ensures
        r@.len() == CELLS,
        forall|i: int| 0 <= i < CELLS ==> (#[trigger] r@[i])@ == cell_glyph(i),
{
    let mut r: Vec<[u8; 8]> = Vec::new();
    let mut cell: u8 = 0;
    while cell < 128
        invariant
            cell <= 128,
            r@.len() == cell,
            forall|i: int| 0 <= i < cell ==> (#[trigger] r@[i])@ == cell_glyph(i),
        decreases 128 - cell,
    {
        let glyph: [u8; 8] = if cell < 95 {
            let c: char = (32 + cell) as char;
            match basic_font(c) {
                Some(glyph) => glyph,
                None => [0, 0, 0, 0, 0, 0, 0, 0],
            }
        } else if cell == 95 {
            [0, 0x08, 0x04, 0x7e, 0x04, 0x08, 0, 0]
        } else if cell == 96 {
            [0, 0x10, 0x20, 0x7e, 0x20, 0x10, 0, 0]
        } else if cell == 127 {
            [0xFF, 0xFF, 0xFF, 0xFF, 0xFF, 0xFF, 0xFF, 0xFF]
        } else {
            [0, 0, 0, 0, 0, 0, 0, 0]
        };
        assert(glyph@ =~= cell_glyph(cell as int));
        r.push(glyph);
        cell += 1;
    }
    r
}

/// The atlas bitmap that a table of glyphs makes, as a tight byte buffer.
pub fn lay_out(glyphs: &Vec<[u8; 8]>) -> (r: Vec<u8>)
    requires
        glyphs@.len() == CELLS,
    ensures
        r@ == Seq::new((ATLAS_W * ATLAS_H) as nat, |p: int| pixel(glyphs@, p)),
{
    let mut r: Vec<u8> = Vec::new();
    let mut p: usize = 0;
    while p < 8192
        invariant
            glyphs@.len() == CELLS,
            p <= 8192,
            r@.len() == p,
            forall|q: int| 0 <= q < p ==> #[trigger] r@[q] == pixel(glyphs@, q),
        decreases 8192 - p,
    {
        let x: usize = p % 128;
        let y: usize = p / 128;
        let cell: usize = (y / 8) * 16 + x / 8;
        let row: u8 = glyphs[cell][y % 8];
        let col: u8 = (x % 8) as u8;
        let on = (row >> col) & 1u8 == 1u8;
        r.push(
            if on {
                255
            } else {
                0
            },
        );
        p += 1;
    }
    assert(r@ =~= Seq::new((ATLAS_W * ATLAS_H) as nat, |p: int| pixel(glyphs@, p)));
    r
}

/// The pixel of the atlas at place `p`.
pub open spec fn atlas_pixel(p: int) -> u8 {
    let x = p % 128;
    let y = p / 128;
    if lit(cell_glyph((y / 8) * 16 + x / 8)[y % 8], x % 8) {
        255
    } else {
        0
    }
}

/// Build the atlas bitmap (coverage in R) and return it as a tight byte buffer.
pub fn build_atlas() -> (r: Vec<u8>)
    ensures
        r@ == Seq::new((ATLAS_W * ATLAS_H) as nat, |p: int| atlas_pixel(p)),
{
    let glyphs = glyph_table();
    let r = lay_out(&glyphs);
    proof {
        assert forall|p: int| 0 <= p < 8192 implies #[trigger] r@[p] == atlas_pixel(p) by {
            let cell = ((p / 128) / 8) * 16 + (p % 128) / 8;
            assert(0 <= cell < 128);
            assert(glyphs@[cell]@ == cell_glyph(cell));
        }
        assert(r@ =~= Seq::new((ATLAS_W * ATLAS_H) as nat, |p: int| atlas_pixel(p)));
    }
    r
}

/// The solid cell is opaque throughout, and an unknown character is shown by
/// it.
pub proof fn law_solid_cell(x: int, y: int, code: u32)
    requires
        120 <= x < 128,
        56 <= y < 64,
    ensures
        atlas_pixel(y * 128 + x) == 255,
        code >= 127 && code != 0x2190 && code != 0x2192 ==> cell_of(code) == SOLID_CELL,
{
    let p = y * 128 + x;
    assert(p % 128 == x && p / 128 == y);
    let col = (x % 8) as u8;
    assert((0xFFu8 >> col) & 1u8 == 1u8) by (bit_vector)
        requires
            col < 8,
    ;
}

/// The atlas cell that shows a code point. Unknown glyphs fall back to the
/// solid cell (a filled box).
pub open spec fn cell_of(code: u32) -> usize {
    if 32 <= code < 127 {
        (code - 32) as usize
    } else if code == 0x2190 {
        ARROW_LEFT_CELL
    } else if code == 0x2192 {
        ARROW_RIGHT_CELL
    } else {
        SOLID_CELL
    }
}

pub fn glyph_cell(code: u32) -> (r: usize)
    ensures
        r == cell_of(code),
        r < CELLS,
{
    if 32 <= code && code < 127 {
        (code - 32) as usize
    } else if code == 0x2190 {
        ARROW_LEFT_CELL
    } else if code == 0x2192 {
        ARROW_RIGHT_CELL
    } else {
        SOLID_CELL
    }
}

/// A cell that text puts into a column.
#[derive(Clone, Copy, Debug, PartialEq, Eq, Structural)]
pub struct Stamp {
    pub column: usize,
    pub cell: usize,
}

/// The cells of the first `n` characters; spaces take a column and no cell.
pub open spec fn stamps(s: Seq<char>, n: nat) -> Seq<Stamp>
    decreases n,
{
    if n == 0 {
        Seq::empty()
    } else {
        let before = stamps(s, (n - 1) as nat);
        let code = s[n - 1] as u32;
        if code == 0x20 {
            before
        } else {
            before.push(Stamp { column: (n - 1) as usize, cell: cell_of(code) })
        }
    }
}

/// The cells that show a text, one column to a character.
pub fn glyphs(text: &str) -> (r: Vec<Stamp>)
    ensures
        r@ == stamps(text@, text@.len()),
{
    let chars = characters(text);
    let mut r: Vec<Stamp> = Vec::new();
    let mut i: usize = 0;
    while i < chars.len()
        invariant
            chars@ == text@,
            i <= chars@.len(),
            r@ == stamps(text@, i as nat),
        decreases chars.len() - i,
    {
        let code: u32 = chars[i] as u32;
        if code != 0x20 {
            r.push(Stamp { column: i, cell: glyph_cell(code) });
        }
        i += 1;
    }
    r
}

#[derive(Clone, Copy, Debug)]
pub struct LabelOptions {
    pub show: bool,
    /// Scene index of the body the view is locked onto, if any.
    pub locked: Option<usize>,
}

impl Default for LabelOptions {
    fn default() -> (r: Self)
        ensures
            !r.show,
            r.locked is None,
    {
        LabelOptions { show: false, locked: None }
    }
}

impl LabelOptions {
    /// Whether a body's label is drawn as that of the locked one.
    pub fn is_locked(&self, body: usize) -> (r: bool)
        ensures
            r == (self.locked == Some(body)),
    {
        match self.locked {
            Some(i) => i == body,
            None => false,
        }
    }
}

/// What the heads-up display's controls cover.
#[derive(Debug)]
pub struct Layout {
    pub bar: Rect,
    pub home: Rect,
    pub toggle: Rect,
    pub draw: Rect,
    pub stop: Rect,
    pub slower: Rect,
    pub faster: Rect,
    pub lock: Rect,
    pub orientation: Rect,
    pub exposure: Rect,
    pub auto: Rect,
}

/// A control of a toolbar, before scaling: its width and the gap before it.
#[derive(Clone, Copy, Debug, PartialEq, Eq, Structural)]
pub struct Control {
    pub width: u32,
    pub gap: u32,
}

/// Where a control lies, before scaling.
#[derive(Clone, Copy, Debug, PartialEq, Eq, Structural)]
pub struct Span {
    pub left: u32,
    pub right: u32,
}

/// The margin before the first control, and the space behind each.
pub const MARGIN: u32 = 10;

pub const SPACING: u32 = 6;

/// The width that a toolbar is scaled to.
pub const TOOLBAR_W: u32 = 1316;

/// Where the first control behind the first `n` would begin without a gap.
pub open spec fn edge(controls: Seq<Control>, n: nat) -> int
    decreases n,
{
    if n == 0 {
        MARGIN as int
    } else {
        edge(controls, (n - 1) as nat) + controls[n - 1].gap + controls[n - 1].width + SPACING
    }
}

pub open spec fn span(controls: Seq<Control>, i: int) -> Span {
    let left = edge(controls, i as nat) + controls[i].gap;
    Span { left: left as u32, right: (left + controls[i].width) as u32 }
}

proof fn lemma_edge_grows(controls: Seq<Control>, m: nat, n: nat)
    requires
        m <= n,
    ensures
        MARGIN <= edge(controls, m) <= edge(controls, n),
    decreases n,
{
    if m < n {
        lemma_edge_grows(controls, m, (n - 1) as nat);
    } else if n > 0 {
        lemma_edge_grows(controls, (m - 1) as nat, (n - 1) as nat);
    }
}

/// Lays controls out from left to right.
pub fn toolbar(controls: &Vec<Control>) -> (r: Vec<Span>)
    requires
        edge(controls@, controls@.len()) <= u32::MAX,
    ensures
        r@ == Seq::new(controls@.len(), |i: int| span(controls@, i)),
{
    let mut r: Vec<Span> = Vec::new();
    let mut x: u32 = MARGIN;
    let mut i: usize = 0;
    while i < controls.len()
        invariant
            i <= controls@.len(),
            edge(controls@, controls@.len()) <= u32::MAX,
            x == edge(controls@, i as nat),
            r@.len() == i,
            forall|j: int| 0 <= j < i ==> #[trigger] r@[j] == span(controls@, j),
        decreases controls.len() - i,
    {
        proof {
            lemma_edge_grows(controls@, (i + 1) as nat, controls@.len());
        }
        let left: u32 = x + controls[i].gap;
        let right: u32 = left + controls[i].width;
        r.push(Span { left, right });
        x = right + SPACING;
        i += 1;
    }
    assert(r@ =~= Seq::new(controls@.len(), |i: int| span(controls@, i)));
    r
}

/// Controls of a toolbar never overlap, and none leaves the toolbar.
pub proof fn law_controls_are_disjoint(controls: Seq<Control>, i: int, j: int)
    requires
        edge(controls, controls.len()) <= u32::MAX,
        0 <= i < j < controls.len(),
    ensures
        span(controls, i).right < span(controls, j).left,
        MARGIN <= span(controls, i).left <= span(controls, i).right,
        span(controls, j).right + SPACING <= edge(controls, controls.len()),
{
    lemma_edge_grows(controls, (i + 1) as nat, j as nat);
    lemma_edge_grows(controls, (j + 1) as nat, controls.len());
    lemma_edge_grows(controls, i as nat, i as nat);
}

/// Home, toggle, time label, slower, speed, faster, stop, clock, lock,
/// orientation, exposure, auto.
pub open spec fn hud_widths() -> Seq<(u32, u32)> {
    seq![
        (84u32, 0u32),
        (120u32, 0u32),
        (44u32, 18u32),
        (34u32, 0u32),
        (112u32, 0u32),
        (34u32, 0u32),
        (98u32, 0u32),
        (164u32, 0u32),
        (122u32, 18u32),
        (84u32, 0u32),
        (168u32, 18u32),
        (110u32, 0u32),
    ]
}

/// Maps, toggle, viewer, star, rings, undo, redo, delete, clear, check.
pub open spec fn notebook_widths() -> Seq<(u32, u32)> {
    seq![
        (84u32, 0u32),
        (120u32, 0u32),
        (142u32, 18u32),
        (90u32, 0u32),
        (138u32, 0u32),
        (90u32, 18u32),
        (90u32, 0u32),
        (128u32, 0u32),
        (132u32, 0u32),
        (142u32, 18u32),
    ]
}

pub open spec fn controls_of(widths: Seq<(u32, u32)>) -> Seq<Control> {
    widths.map_values(|w: (u32, u32)| Control { width: w.0, gap: w.1 })
}

fn control(width: u32, gap: u32) -> (r: Control)
    ensures
        r == (Control { width, gap }),
{
    Control { width, gap }
}

/// The controls of the observing toolbar.
pub fn hud_controls() -> (r: Vec<Span>)
    ensures
        r@ == Seq::new(12, |i: int| span(controls_of(hud_widths()), i)),
        edge(controls_of(hud_widths()), 12) <= TOOLBAR_W,
{
    let controls = vec![
        control(84, 0),
        control(120, 0),
        control(44, 18),
        control(34, 0),
        control(112, 0),
        control(34, 0),
        control(98, 0),
        control(164, 0),
        control(122, 18),
        control(84, 0),
        control(168, 18),
        control(110, 0),
    ];
    assert(controls@ =~= controls_of(hud_widths()));
    proof {
        reveal_with_fuel(edge, 13);
    }
    toolbar(&controls)
}

/// The controls of the notebook's toolbar.
pub fn notebook_controls() -> (r: Vec<Span>)
    ensures
        r@ == Seq::new(10, |i: int| span(controls_of(notebook_widths()), i)),
        edge(controls_of(notebook_widths()), 10) <= TOOLBAR_W,
{
    let controls = vec![
        control(84, 0),
        control(120, 0),
        control(142, 18),
        control(90, 0),
        control(138, 0),
        control(90, 18),
        control(90, 0),
        control(128, 0),
        control(132, 0),
        control(142, 18),
    ];
    assert(controls@ =~= controls_of(notebook_widths()));
    proof {
        reveal_with_fuel(edge, 11);
    }
    toolbar(&controls)
}

/// The lock's caption.
pub open spec fn lock_title(locked: bool) -> Seq<char> {
    if locked {
        "Locked [U]"@
    } else {
        "Unlocked"@
    }
}

pub fn lock_caption(locked: bool) -> (r: &'static str)
    ensures
        r@ == lock_title(locked),
{
    if locked {
        "Locked [U]"
    } else {
        "Unlocked"
    }
}

/// The line under the lock's caption: what is locked, cut to fit.
pub open spec fn lock_line(target: Option<Seq<char>>, columns: nat) -> Seq<char> {
    crate::text::fitted(
        match target {
            Some(name) => name,
            None => "[U] / click sky"@,
        },
        columns,
    )
}

pub fn lock_detail(target: &Option<String>, columns: usize) -> (r: String)
    ensures
        r@ == lock_line(crate::menu::text_view(*target), columns as nat),
{
    match target {
        Some(name) => fit(name.as_str(), columns),
        None => fit("[U] / click sky", columns),
    }
}

/// A toolbar button's caption, and whether it is marked.
#[derive(Clone, Copy, Debug)]
pub struct Caption {
    pub text: &'static str,
    pub active: bool,
}

/// What the observing toolbar depends on.
#[derive(Clone, Copy, Debug, PartialEq, Eq, Structural)]
pub struct Bar {
    pub puzzle: bool,
    pub show_labels: bool,
    pub steady_stars: bool,
    pub stopped: bool,
}

/// The captions of home, orientation, toggle, stop, slower and faster.
pub open spec fn bar_captions(bar: Bar) -> Seq<Caption> {
    seq![
        Caption { text: "[M]enu", active: false },
        Caption { text: "[S]tars", active: bar.steady_stars },
        Caption {
            text: if bar.puzzle {
                "Draw [Tab]"
            } else {
                "[L]abels"
            },
            active: !bar.puzzle && bar.show_labels,
        },
        Caption { text: "Stop [Spc]", active: bar.stopped },
        Caption { text: "\u{2190}", active: false },
        Caption { text: "\u{2192}", active: false },
    ]
}

/// The captions of the observing toolbar.
pub fn captions(bar: Bar) -> (r: Vec<Caption>)
    ensures
        r@ == bar_captions(bar),
{
    let second = if bar.puzzle {
        Caption { text: "Draw [Tab]", active: false }
    } else {
        Caption { text: "[L]abels", active: bar.show_labels }
    };
    let r = vec![
        Caption { text: "[M]enu", active: false },
        Caption { text: "[S]tars", active: bar.steady_stars },
        second,
        Caption { text: "Stop [Spc]", active: bar.stopped },
        Caption { text: "\u{2190}", active: false },
        Caption { text: "\u{2192}", active: false },
    ];
    assert(r@ =~= bar_captions(bar));
    r
}

/// Whether a pixel of a row is set is a digit of the row in base two, the leftmost
/// pixel being the last digit.
pub proof fn law_pixels_are_binary_digits(row: u8, col: u8)
    requires
        col < 8,
    ensures
        lit(row, col as int) <==> (row / (1u8 << col)) % 2 == 1,
{
    assert(((row >> col) & 1u8 == 1u8) == ((row / (1u8 << col)) % 2 == 1)) by (bit_vector)
        requires
            col < 8,
    ;
}

/// Where a glyph stands in the atlas: cell by cell in rows of sixteen, each eight by
/// eight pixels, its rows from the top and its pixels from the left.
pub proof fn law_atlas_places(glyphs: Seq<[u8; 8]>, cell: int, row: int, col: int)
    requires
        0 <= cell < 128,
        0 <= row < 8,
        0 <= col < 8,
    ensures
        ({
            let p = ((cell / 16) * 8 + row) * 128 + (cell % 16) * 8 + col;
            &&& 0 <= p < ATLAS_W * ATLAS_H
            &&& ATLAS_W == 128 && ATLAS_H == 64 && CELLS == 128
            &&& atlas_pixel(p) == 255 <==> lit(cell_glyph(cell)[row], col)
            &&& atlas_pixel(p) == 0 <==> !lit(cell_glyph(cell)[row], col)
            &&& pixel(glyphs, p) == 255 <==> lit(glyphs[cell]@[row], col)
            &&& pixel(glyphs, p) == 0 <==> !lit(glyphs[cell]@[row], col)
        }),
{
    let p = ((cell / 16) * 8 + row) * 128 + (cell % 16) * 8 + col;
    let y = (cell / 16) * 8 + row;
    let x = (cell % 16) * 8 + col;
    assert(p == y * 128 + x && 0 <= x < 128);
    assert(p / 128 == y && p % 128 == x);
    assert(y / 8 == cell / 16 && y % 8 == row);
    assert(x / 8 == cell % 16 && x % 8 == col);
    assert((y / 8) * 16 + x / 8 == cell);
}

/// A printable character is shown by the font's own glyph for it, in a cell that no
/// other character has; the arrows have cells of their own, and everything else is
/// shown by the solid one.
pub proof fn law_cells_show_characters(c: char, d: char)
    ensures
        32 <= c as u32 <= 126 && basic_glyph(c) is Some ==> cell_glyph(cell_of(c as u32) as int)
            == basic_glyph(c)->0,
        32 <= c as u32 <= 126 && cell_of(c as u32) == cell_of(d as u32) ==> c == d,
        cell_of(0x2190) == 95 && cell_of(0x2192) == 96,
        cell_of(c as u32) == 127 <==> !(32 <= c as u32 <= 126) && c as u32 != 0x2190 && c as u32
            != 0x2192,
        cell_of(c as u32) < 128,
{
    if 32 <= c as u32 <= 126 {
        let cell = cell_of(c as u32) as int;
        assert((32 + cell) as char == c);
    }
}

/// The arrows: a shaft along the fourth row, and a head whose tips stand one and two
/// pixels above and below it, to the left in the one and, mirrored, to the right in
/// the other.
pub proof fn law_arrows(row: int, col: int)
    requires
        0 <= row < 8,
        0 <= col < 8,
    ensures
        lit(left_arrow()[row], col) <==> lit(right_arrow()[row], 7 - col),
        lit(left_arrow()[row], col) <==> {
            ||| row == 3 && 1 <= col <= 6
            ||| (row == 2 || row == 4) && col == 2
            ||| (row == 1 || row == 5) && col == 3
        },
        cell_glyph(95) == left_arrow(),
        cell_glyph(96) == right_arrow(),
{
    let a = left_arrow()[row];
    let b = right_arrow()[row];
    let c = col as u8;
    let d = (7 - col) as u8;
    assert(a == 0 || a == 0x08 || a == 0x04 || a == 0x7e);
    assert(((0u8 >> c) & 1u8 != 1u8) && (((0x08u8 >> c) & 1u8 == 1u8) == (c == 3)) && (((0x04u8
        >> c) & 1u8 == 1u8) == (c == 2)) && (((0x7eu8 >> c) & 1u8 == 1u8) == (1 <= c && c <= 6)))
        by (bit_vector)
        requires
            c < 8,
    ;
    assert(((0u8 >> d) & 1u8 != 1u8) && (((0x10u8 >> d) & 1u8 == 1u8) == (d == 4)) && (((0x20u8
        >> d) & 1u8 == 1u8) == (d == 5)) && (((0x7eu8 >> d) & 1u8 == 1u8) == (1 <= d && d <= 6)))
        by (bit_vector)
        requires
            d < 8,
    ;
}

proof fn lemma_space(c: char)
    ensures
        c as u32 == 0x20 <==> c == ' ',
{
}

/// Text puts the cell of each character into the character's column, in reading
/// order, and leaves the columns of spaces empty.
pub proof fn law_stamps(s: Seq<char>, n: nat, stamp: Stamp)
    requires
        n <= s.len() <= usize::MAX,
    ensures
        stamps(s, n).contains(stamp) <==> stamp.column < n && s[stamp.column as int] != ' '
            && stamp.cell == cell_of(s[stamp.column as int] as u32),
        forall|a: int, b: int|
            0 <= a < b < stamps(s, n).len() ==> (#[trigger] stamps(s, n)[a]).column < (
            #[trigger] stamps(s, n)[b]).column,
        forall|a: int|
            0 <= a < stamps(s, n).len() ==> (#[trigger] stamps(s, n)[a]).column < n,
    decreases n,
{
    if n > 0 {
        let m = (n - 1) as nat;
        law_stamps(s, m, stamp);
        let before = stamps(s, m);
        let now = stamps(s, n);
        let c: char = s[n - 1];
        lemma_space(c);
        if c as u32 != 0x20 {
            let last = Stamp { column: (n - 1) as usize, cell: cell_of(c as u32) };
            assert(now == before.push(last));
            if before.contains(stamp) {
                let k = choose|k: int| 0 <= k < before.len() && before[k] == stamp;
                assert(now[k] == stamp);
            }
            if stamp == last {
                assert(now[before.len() as int] == stamp);
            }
            if now.contains(stamp) {
                let k = choose|k: int| 0 <= k < now.len() && now[k] == stamp;
                if k < before.len() {
                    assert(before[k] == stamp);
                }
            }
        }
    }
}

/// Controls stand in their order, the first ten from the left edge and each six
/// behind the one before, with the gaps asked for, and are as wide as asked for.
pub proof fn law_toolbars(controls: Seq<Control>, i: int)
    requires
        edge(controls, controls.len()) <= u32::MAX,
        0 <= i < controls.len(),
    ensures
        span(controls, i).right - span(controls, i).left == controls[i].width,
        span(controls, 0).left == 10 + controls[0].gap,
        i > 0 ==> span(controls, i).left == span(controls, i - 1).right + 6 + controls[i].gap,
{
    lemma_edge_grows(controls, 1, controls.len());
    lemma_edge_grows(controls, i as nat, i as nat);
    lemma_edge_grows(controls, (i + 1) as nat, controls.len());
    lemma_edge_grows(controls, 0, 0);
    if i > 0 {
        lemma_edge_grows(controls, i as nat, controls.len());
        lemma_edge_grows(controls, (i - 1) as nat, (i - 1) as nat);
    }
}

/// Where the controls of the observing toolbar lie: home, toggle, the time group with
/// its label, slower, speed, faster, stop and clock, lock and orientation, exposure
/// and its switch. They end inside the toolbar's width.
pub proof fn law_hud_places()
    ensures
        ({
            let at = |i: int| span(controls_of(hud_widths()), i);
            &&& at(0) == (Span { left: 10, right: 94 })
            &&& at(1) == (Span { left: 100, right: 220 })
            &&& at(2) == (Span { left: 244, right: 288 })
            &&& at(3) == (Span { left: 294, right: 328 })
            &&& at(4) == (Span { left: 334, right: 446 })
            &&& at(5) == (Span { left: 452, right: 486 })
            &&& at(6) == (Span { left: 492, right: 590 })
            &&& at(7) == (Span { left: 596, right: 760 })
            &&& at(8) == (Span { left: 784, right: 906 })
            &&& at(9) == (Span { left: 912, right: 996 })
            &&& at(10) == (Span { left: 1020, right: 1188 })
            &&& at(11) == (Span { left: 1194, right: 1304 })
            &&& TOOLBAR_W == 1316
        }),
{
    reveal_with_fuel(edge, 13);
}

/// Where the controls of the notebook's toolbar lie: maps, toggle, viewer, star,
/// rings, undo, redo, delete, clear and check.
pub proof fn law_notebook_places()
    ensures
        ({
            let at = |i: int| span(controls_of(notebook_widths()), i);
            &&& at(0) == (Span { left: 10, right: 94 })
            &&& at(1) == (Span { left: 100, right: 220 })
            &&& at(2) == (Span { left: 244, right: 386 })
            &&& at(3) == (Span { left: 392, right: 482 })
            &&& at(4) == (Span { left: 488, right: 626 })
            &&& at(5) == (Span { left: 650, right: 740 })
            &&& at(6) == (Span { left: 746, right: 836 })
            &&& at(7) == (Span { left: 842, right: 970 })
            &&& at(8) == (Span { left: 976, right: 1108 })
            &&& at(9) == (Span { left: 1132, right: 1274 })
        }),
{
    reveal_with_fuel(edge, 11);
}

/// The two toolbars begin alike, so that the buttons for maps and for the notebook
/// stay where they are when it opens.
pub proof fn law_toolbars_begin_alike()
    ensures
        span(controls_of(hud_widths()), 0) == span(controls_of(notebook_widths()), 0),
        span(controls_of(hud_widths()), 1) == span(controls_of(notebook_widths()), 1),
{
    reveal_with_fuel(edge, 3);
}

/// What the buttons say and which are marked: the roll's while it is held, the
/// labels' while they show and no puzzle runs, the stop's while time stands; a puzzle
/// has the notebook's button in place of the labels'.
pub proof fn law_captions(bar: Bar)
    ensures
        ({
            let c = bar_captions(bar);
            &&& c.len() == 6
            &&& c[0].text@ == "[M]enu"@ && !c[0].active
            &&& c[1].text@ == "[S]tars"@ && (c[1].active <==> bar.steady_stars)
            &&& bar.puzzle ==> c[2].text@ == "Draw [Tab]"@ && !c[2].active
            &&& !bar.puzzle ==> c[2].text@ == "[L]abels"@ && (c[2].active <==> bar.show_labels)
            &&& c[3].text@ == "Stop [Spc]"@ && (c[3].active <==> bar.stopped)
            &&& c[4].text@ == seq!['\u{2190}'] && !c[4].active
            &&& c[5].text@ == seq!['\u{2192}'] && !c[5].active
        }),
{
    reveal_strlit("\u{2190}");
    reveal_strlit("\u{2192}");
    let c = bar_captions(bar);
    assert(c[4].text@ =~= seq!['\u{2190}']);
    assert(c[5].text@ =~= seq!['\u{2192}']);
}

/// The lock's button says whether the view is locked, and under it by name onto what,
/// as far as the name fits; unlocked it says how to lock.
pub proof fn law_lock_button(name: Seq<char>, columns: nat)
    requires
        forall|i: int| 0 <= i < name.len() ==> (#[trigger] name[i]) as u32 <= 127,
    ensures
        lock_title(true) == "Locked [U]"@,
        lock_title(false) == "Unlocked"@,
        name.len() <= columns ==> lock_line(Some(name), columns) == name,
        name.len() > columns >= 3 ==> lock_line(Some(name), columns).take(columns - 3) == name.take(
            columns - 3,
        ) && lock_line(Some(name), columns).len() == columns,
        columns >= 15 ==> lock_line(None, columns) == "[U] / click sky"@,
{
    reveal_strlit("[U] / click sky");
    reveal_strlit("...");
    let hint = "[U] / click sky"@;
    if name.len() <= columns {
        assert(lock_line(Some(name), columns) =~= name);
    } else if columns >= 3 {
        assert(lock_line(Some(name), columns).take(columns - 3) =~= name.take(columns - 3));
    }
    if columns >= 15 {
        assert(lock_line(None, columns) =~= hint);
    }
}

} // verus!
