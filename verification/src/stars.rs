//! Procedural star catalogue: the draws behind each star, and the grid that
//! tells a ray which stars it can meet.
use vstd::prelude::*;

verus! {

/// A xorshift generator with a multiplied output.
#[derive(Debug)]
pub struct Rng {
    pub state: u64,
}

pub const MULTIPLIER: u64 = 0x2545_F491_4F6C_DD1D;

/// The state behind `x`.
pub open spec fn next_state(x: u64) -> u64 {
    let a = x ^ (x >> 12);
    let b = a ^ (a << 25);
    b ^ (b >> 27)
}

/// The upper half of the state times the multiplier, modulo 2^64.
pub open spec fn output(x: u64) -> u32 {
    (((x * MULTIPLIER) % 0x1_0000_0000_0000_0000) / 0x1_0000_0000) as u32
}

/// The state after `n` draws.
pub open spec fn state_after(x: u64, n: nat) -> u64
    decreases n,
{
    if n == 0 {
        x
    } else {
        next_state(state_after(x, (n - 1) as nat))
    }
}

/// Draw number `n` of a generator in state `x`, counted from zero.
pub open spec fn draw(x: u64, n: nat) -> u32 {
    output(state_after(x, n + 1))
}

/// A generator never reaches the state from which it could not move.
pub proof fn law_state_stays_nonzero(x: u64)
    requires
        x != 0,
    ensures
        next_state(x) != 0,
{
    let a = x ^ (x >> 12);
    assert(a != 0) by (bit_vector)
        requires
            x != 0,
            a == x ^ (x >> 12),
    ;
    let b = a ^ (a << 25);
    assert(b != 0) by (bit_vector)
        requires
            a != 0,
            b == a ^ (a << 25),
    ;
    assert(b ^ (b >> 27) != 0) by (bit_vector)
        requires
            b != 0,
    ;
}

impl Rng {
    pub fn new(seed: u64) -> (r: Rng)
        ensures
            r.state == seed | 1,
            r.state != 0,
            r.state % 2 == 1 && r.state / 2 == seed / 2,
    {
        assert(seed | 1 != 0 && (seed | 1) % 2 == 1 && (seed | 1) / 2 == seed / 2) by (bit_vector);
        Rng { state: seed | 1 }
    }

    pub fn u32(&mut self) -> (r: u32)
        ensures
            final(self).state == next_state(old(self).state),
            r == output(final(self).state),
            old(self).state != 0 ==> final(self).state != 0,
    {
        proof {
            if self.state != 0 {
                law_state_stays_nonzero(self.state);
            }
        }
        let mut x: u64 = self.state;
        x = x ^ (x >> 12);
        x = x ^ (x << 25);
        x = x ^ (x >> 27);
        self.state = x;
        let product: u64 = x.wrapping_mul(MULTIPLIER);
        let half: u64 = product / 0x1_0000_0000;
        half as u32
    }
}

/// Draws per star: brightness, temperature, height and longitude.
pub const FIELD_DRAWS: usize = 4;

/// Draws per star of the Milky Way: place along the band, three for the
/// spread out of its plane, those of a star, and its temperature.
pub const BAND_DRAWS: usize = 9;

/// The draws behind a catalogue, star after star.
#[derive(Debug)]
pub struct Draws {
    pub field: Vec<Vec<u32>>,
    pub band: Vec<Vec<u32>>,
}

/// `per` draws for each of `count` stars, from draw number `from` on.
pub open spec fn rows(x: u64, from: nat, count: nat, per: nat) -> Seq<Seq<u32>> {
    Seq::new(count, |i: int| Seq::new(per, |j: int| draw(x, (from + i * per + j) as nat)))
}

pub open spec fn row_views(v: Seq<Vec<u32>>) -> Seq<Seq<u32>> {
    v.map_values(|r: Vec<u32>| r@)
}

fn take_rows(rng: &mut Rng, count: usize, per: usize, Ghost(x): Ghost<u64>, Ghost(from): Ghost<nat>) -> (r:
    Vec<Vec<u32>>)
    requires
        old(rng).state == state_after(x, from),
    ensures
        row_views(r@) == rows(x, from, count as nat, per as nat),
        final(rng).state == state_after(x, (from + count * per) as nat),
{
    let mut r: Vec<Vec<u32>> = Vec::new();
    let mut i: usize = 0;
    while i < count
        invariant
            i <= count,
            r@.len() == i,
            rng.state == state_after(x, (from + i * per) as nat),
            forall|k: int| 0 <= k < i ==> (#[trigger] r@[k])@ == rows(x, from, count as nat, per as nat)[k],
        decreases count - i,
    {
        let mut row: Vec<u32> = Vec::new();
        let mut j: usize = 0;
        while j < per
            invariant
                j <= per,
                i < count,
                row@.len() == j,
                rng.state == state_after(x, (from + i * per + j) as nat),
                forall|k: int| 0 <= k < j ==> #[trigger] row@[k] == draw(x, (from + i * per + k) as nat),
            decreases per - j,
        {
            let v: u32 = rng.u32();
            assert(0 <= i * per) by (nonlinear_arith);
            row.push(v);
            j += 1;
        }
        assert(row@ =~= rows(x, from, count as nat, per as nat)[i as int]);
        r.push(row);
        assert(i * per + per == (i + 1) * per) by (nonlinear_arith);
        assert(0 <= i * per) by (nonlinear_arith);
        i += 1;
    }
    assert(row_views(r@) =~= rows(x, from, count as nat, per as nat));
    r
}

/// The draws for `count` uniform stars plus `band` extra stars along the Milky
/// Way.
pub fn generate(count: usize, band: usize, seed: u64) -> (r: Draws)
    ensures
        row_views(r.field@) == rows(seed | 1, 0, count as nat, FIELD_DRAWS as nat),
        row_views(r.band@) == rows(
            seed | 1,
            (count * FIELD_DRAWS) as nat,
            band as nat,
            BAND_DRAWS as nat,
        ),
{
    let mut rng = Rng::new(seed);
    let x: Ghost<u64> = Ghost(seed | 1);
    let field = take_rows(&mut rng, count, FIELD_DRAWS, x, Ghost(0));
    let band = take_rows(&mut rng, band, BAND_DRAWS, x, Ghost((count * FIELD_DRAWS) as nat));
    Draws { field, band }
}

/// The grid's columns and rows.
pub const GRID_W: usize = 256;

pub const GRID_H: usize = 128;

pub const GRID: usize = 32768;

/// Which cells of the grid a star's disc can reach.
#[derive(Debug)]
pub struct Reach {
    pub first_row: usize,
    pub last_row: usize,
    /// One mark per column; a column without one is not reached.
    pub columns: Vec<bool>,
}

impl Reach {
    pub open spec fn covers(self, cell: int) -> bool {
        &&& self.first_row <= cell / 256 <= self.last_row
        &&& cell % 256 < self.columns@.len()
        &&& self.columns@[cell % 256]
    }

    /// The disc reaches some row and some column of the grid.
    pub open spec fn lands(self) -> bool {
        &&& self.first_row <= self.last_row
        &&& self.first_row < GRID_H
        &&& exists|x: int|
            0 <= x < GRID_W && x < self.columns@.len() && #[trigger] self.columns@[x]
    }

    /// A disc between two rows, cut to the grid, and in the marked columns.
    pub fn new(first: usize, last: usize, columns: Vec<bool>) -> (r: Reach)
        ensures
            r.first_row == (if first < GRID_H {
                first as int
            } else {
                GRID_H - 1
            }),
            r.last_row == (if last < GRID_H {
                last as int
            } else {
                GRID_H - 1
            }),
            r.columns@ == columns@,
            r.first_row <= 127 && r.last_row <= 127,
            first <= 127 ==> r.first_row == first,
            last <= 127 ==> r.last_row == last,
            first <= last && (exists|x: int|
                0 <= x < GRID_W && x < columns@.len() && #[trigger] columns@[x]) ==> r.lands(),
    {
        let r = Reach {
            first_row: if first < GRID_H {
                first
            } else {
                GRID_H - 1
            },
            last_row: if last < GRID_H {
                last
            } else {
                GRID_H - 1
            },
            columns,
        };
        assert(first <= last && (exists|x: int|
            0 <= x < GRID_W && x < columns@.len() && #[trigger] columns@[x]) ==> r.lands()) by {
            if exists|x: int| 0 <= x < GRID_W && x < columns@.len() && #[trigger] columns@[x] {
                let x = choose|x: int|
                    0 <= x < GRID_W && x < columns@.len() && #[trigger] columns@[x];
                assert(r.columns@[x]);
            }
        }
        r
    }

    fn is_over(&self, cell: usize) -> (r: bool)
        ensures
            r == self.covers(cell as int),
    {
        let row: usize = cell / 256;
        let column: usize = cell % 256;
        self.first_row <= row && row <= self.last_row && column < self.columns.len()
            && self.columns[column]
    }
}

/// The stars that reach a cell, in catalogue order.
pub open spec fn bin(reaches: Seq<Reach>, cell: int) -> Seq<usize> {
    crate::order::picked(reaches.len(), |i: int| reaches[i].covers(cell))
}

/// The bins of the first `n` cells, one behind the other.
pub open spec fn bins(reaches: Seq<Reach>, n: nat) -> Seq<usize>
    decreases n,
{
    if n == 0 {
        Seq::empty()
    } else {
        bins(reaches, (n - 1) as nat) + bin(reaches, n - 1)
    }
}

/// The grid as one list: for every cell where its bin begins, and where the
/// last one ends, then the bins.
pub open spec fn grid(reaches: Seq<Reach>) -> Seq<u32> {
    Seq::new((GRID + 1) as nat, |c: int| bins(reaches, c as nat).len() as u32) + bins(
        reaches,
        GRID as nat,
    ).map_values(|i: usize| i as u32)
}

proof fn lemma_bins_grow(reaches: Seq<Reach>, m: nat, n: nat)
    requires
        m <= n,
    ensures
        bins(reaches, m).len() <= bins(reaches, n).len(),
        bins(reaches, n).take(bins(reaches, m).len() as int) == bins(reaches, m),
    decreases n,
{
    if m < n {
        lemma_bins_grow(reaches, m, (n - 1) as nat);
        let k = bins(reaches, m).len() as int;
        assert(bins(reaches, n).take(k) =~= bins(reaches, (n - 1) as nat).take(k));
    } else {
        assert(bins(reaches, n).take(bins(reaches, m).len() as int) =~= bins(reaches, m));
    }
}

/// A star stands in the part of the list that belongs to each cell that its
/// disc reaches, and in no other cell's.
pub proof fn law_cells_list_their_stars(reaches: Seq<Reach>, cell: int, i: usize)
    requires
        0 <= cell < GRID,
        i < reaches.len() <= u32::MAX,
        bins(reaches, GRID as nat).len() <= u32::MAX,
    ensures
        ({
            let g = grid(reaches);
            let start = GRID + 1 + g[cell];
            let end = GRID + 1 + g[cell + 1];
            &&& GRID < start <= end <= g.len()
            &&& g.subrange(start, end).contains(i as u32) <==> reaches[i as int].covers(cell)
        }),
{
    let g = grid(reaches);
    let b = bin(reaches, cell);
    let part = g.subrange(GRID + 1 + g[cell], GRID + 1 + g[cell + 1]);
    lemma_part(reaches, cell);
    crate::order::lemma_picked(reaches.len(), |i: int| reaches[i].covers(cell));
    if reaches[i as int].covers(cell) {
        assert(b.contains(i));
        let k = choose|k: int| 0 <= k < b.len() && b[k] == i;
        assert(part[k] == i as u32);
    }
    if part.contains(i as u32) {
        let k = choose|k: int| 0 <= k < part.len() && part[k] == i as u32;
        assert(part[k] == b[k] as u32);
        assert(b[k] < reaches.len());
        assert(b[k] == i);
        assert(b.contains(i));
    }
}

/// The list is well built: the bins begin at zero, follow each other and fill
/// the rest of the list, and each names stars in ascending order. Without stars
/// all of them are empty.
pub proof fn law_the_grid_is_well_built(reaches: Seq<Reach>)
    requires
        reaches.len() <= u32::MAX,
        bins(reaches, GRID as nat).len() <= u32::MAX,
    ensures
        ({
            let g = grid(reaches);
            &&& g.len() == GRID + 1 + g[GRID as int]
            &&& g[0] == 0
            &&& forall|c: int, d: int|
                0 <= c <= d <= GRID ==> #[trigger] g[c] <= #[trigger] g[d]
            &&& forall|c: int|
                0 <= c < GRID ==> #[trigger] names_stars(
                    g.subrange(GRID + 1 + g[c], GRID + 1 + g[c + 1]),
                    reaches.len(),
                )
            &&& reaches.len() == 0 ==> g == Seq::new((GRID + 1) as nat, |c: int| 0u32)
        }),
{
    let g = grid(reaches);
    let all = bins(reaches, GRID as nat);
    assert forall|c: int, d: int| 0 <= c <= d <= GRID implies #[trigger] g[c] <= #[trigger] g[d] by {
        lemma_bins_grow(reaches, c as nat, d as nat);
        lemma_bins_grow(reaches, d as nat, GRID as nat);
    }
    assert forall|c: int| 0 <= c < GRID implies #[trigger] names_stars(
        g.subrange(GRID + 1 + g[c], GRID + 1 + g[c + 1]),
        reaches.len(),
    ) by {
        lemma_part(reaches, c);
        crate::order::lemma_picked(reaches.len(), |i: int| reaches[i].covers(c));
    }
    if reaches.len() == 0 {
        assert forall|n: nat| (#[trigger] bins(reaches, n)).len() == 0 by {
            lemma_no_stars(reaches, n);
        }
        assert(g =~= Seq::new((GRID + 1) as nat, |c: int| 0u32));
    }
}

/// Strictly ascending numbers below `count`.
pub open spec fn names_stars(part: Seq<u32>, count: nat) -> bool {
    &&& forall|u: int| 0 <= u < part.len() ==> #[trigger] part[u] < count
    &&& forall|u: int, v: int|
        0 <= u < v < part.len() ==> #[trigger] part[u] < #[trigger] part[v]
}

/// A star whose disc lands on the grid stands in the list of some cell.
pub proof fn law_every_star_is_listed(reaches: Seq<Reach>, i: usize)
    requires
        i < reaches.len() <= u32::MAX,
        bins(reaches, GRID as nat).len() <= u32::MAX,
        reaches[i as int].lands(),
    ensures
        exists|cell: int| 0 <= cell < GRID && #[trigger] cell_part(reaches, cell).contains(i as u32),
{
    let r = reaches[i as int];
    let column = choose|x: int| 0 <= x < GRID_W && x < r.columns@.len() && #[trigger] r.columns@[x];
    let cell = r.first_row * 256 + column;
    assert(cell / 256 == r.first_row && cell % 256 == column);
    law_cells_list_their_stars(reaches, cell, i);
    assert(cell_part(reaches, cell).contains(i as u32));
}

/// The part of the list that belongs to a cell.
pub open spec fn cell_part(reaches: Seq<Reach>, cell: int) -> Seq<u32> {
    let g = grid(reaches);
    g.subrange(GRID + 1 + g[cell], GRID + 1 + g[cell + 1])
}

/// How many entries the list of discs has for that many stars.
pub open spec fn slots(stars: nat) -> nat {
    if stars == 0 {
        1
    } else {
        stars
    }
}

/// A catalogue of landed discs: the list of discs is never empty, every number in
/// a cell is that of one of its entries, and every star stands in some cell.
pub proof fn law_ray_catalogue(reaches: Seq<Reach>)
    requires
        reaches.len() <= u32::MAX,
        bins(reaches, GRID as nat).len() <= u32::MAX,
        forall|i: int| 0 <= i < reaches.len() ==> (#[trigger] reaches[i]).lands(),
    ensures
        ({
            let g = grid(reaches);
            &&& slots(reaches.len()) >= 1
            &&& g.len() == GRID + 1 + g[GRID as int]
            &&& g[0] == 0
            &&& forall|c: int, d: int|
                0 <= c <= d <= GRID ==> #[trigger] g[c] <= #[trigger] g[d]
            &&& forall|c: int|
                0 <= c < GRID ==> names_stars(#[trigger] cell_part(reaches, c), reaches.len())
            &&& forall|i: usize|
                i < reaches.len() ==> #[trigger] listed_somewhere(reaches, i)
            &&& reaches.len() == 0 ==> g == Seq::new((GRID + 1) as nat, |c: int| 0u32)
        }),
{
    law_the_grid_is_well_built(reaches);
    let g = grid(reaches);
    assert forall|c: int| 0 <= c < GRID implies names_stars(
        #[trigger] cell_part(reaches, c),
        reaches.len(),
    ) by {
        assert(names_stars(g.subrange(GRID + 1 + g[c], GRID + 1 + g[c + 1]), reaches.len()));
    }
    assert forall|i: usize| i < reaches.len() implies #[trigger] listed_somewhere(reaches, i) by {
        assert(reaches[i as int].lands());
        law_every_star_is_listed(reaches, i);
    }
}

pub open spec fn listed_somewhere(reaches: Seq<Reach>, i: usize) -> bool {
    exists|cell: int| 0 <= cell < GRID && #[trigger] cell_part(reaches, cell).contains(i as u32)
}

/// Up to 131071 stars the list is addressed by 32 bits, wherever their discs lie.
pub proof fn law_the_grid_fits(reaches: Seq<Reach>)
    requires
        reaches.len() <= 131_071,
    ensures
        bins(reaches, GRID as nat).len() <= u32::MAX,
{
    lemma_bins_bound(reaches, GRID as nat);
    let n = reaches.len();
    assert(32768 * n <= 32768 * 131_071) by (nonlinear_arith)
        requires
            n <= 131_071,
    ;
}

proof fn lemma_bins_bound(reaches: Seq<Reach>, n: nat)
    requires
        reaches.len() <= usize::MAX,
    ensures
        bins(reaches, n).len() <= n * reaches.len(),
    decreases n,
{
    let k = reaches.len();
    if n > 0 {
        let m = (n - 1) as nat;
        lemma_bins_bound(reaches, m);
        crate::order::lemma_picked(k, |i: int| reaches[i].covers(n - 1));
        assert(n * k == m * k + k) by (nonlinear_arith)
            requires
                n == m + 1,
        ;
    } else {
        assert(n * k == 0) by (nonlinear_arith)
            requires
                n == 0,
        ;
    }
}

/// The part of the list that belongs to a cell is its bin.
proof fn lemma_part(reaches: Seq<Reach>, cell: int)
    requires
        0 <= cell < GRID,
        bins(reaches, GRID as nat).len() <= u32::MAX,
    ensures
        ({
            let g = grid(reaches);
            &&& GRID + 1 + g[cell] <= GRID + 1 + g[cell + 1] <= g.len()
            &&& g.subrange(GRID + 1 + g[cell], GRID + 1 + g[cell + 1]) == bin(
                reaches,
                cell,
            ).map_values(|i: usize| i as u32)
        }),
{
    let g = grid(reaches);
    let all = bins(reaches, GRID as nat);
    let b = bin(reaches, cell);
    lemma_bins_grow(reaches, cell as nat, (cell + 1) as nat);
    lemma_bins_grow(reaches, (cell + 1) as nat, GRID as nat);
    let lo = bins(reaches, cell as nat).len() as int;
    let hi = bins(reaches, (cell + 1) as nat).len() as int;
    assert(g[cell] == lo);
    assert(g[cell + 1] == hi);
    let part = g.subrange(GRID + 1 + lo, GRID + 1 + hi);
    assert forall|k: int| 0 <= k < b.len() implies #[trigger] part[k] == b[k] as u32 by {
        let whole = bins(reaches, (cell + 1) as nat);
        assert(whole == all.take(hi));
        assert(whole[lo + k] == b[k]);
        assert(all[lo + k] == b[k]);
        assert(part[k] == g[GRID + 1 + lo + k]);
    }
    assert(part =~= b.map_values(|i: usize| i as u32));
}

proof fn lemma_no_stars(reaches: Seq<Reach>, n: nat)
    requires
        reaches.len() == 0,
    ensures
        bins(reaches, n).len() == 0,
    decreases n,
{
    if n > 0 {
        lemma_no_stars(reaches, (n - 1) as nat);
        assert(bin(reaches, n - 1).len() == 0);
    }
}

/// How many entries the list of discs has. Bindings cannot be empty; without
/// stars one entry stands there that no cell references.
pub fn disc_slots(stars: usize) -> (r: usize)
    ensures
        r == slots(stars as nat),
        r == (if stars == 0 {
            1
        } else {
            stars
        }),
{
    if stars == 0 {
        1
    } else {
        stars
    }
}

/// Packs the grid. It is conservative: a ray that misses every body tests only
/// the stars of its own cell.
pub fn pack_grid(reaches: &Vec<Reach>) -> (r: Vec<u32>)
    requires
        reaches@.len() <= u32::MAX,
        bins(reaches@, GRID as nat).len() <= u32::MAX,
    ensures
        r@ == grid(reaches@),
{
    let mut offsets: Vec<u32> = Vec::new();
    let mut indices: Vec<u32> = Vec::new();
    let mut cell: usize = 0;
    while cell < GRID
        invariant
            reaches@.len() <= u32::MAX,
            bins(reaches@, GRID as nat).len() <= u32::MAX,
            cell <= GRID,
            offsets@.len() == cell,
            forall|c: int|
                0 <= c < cell ==> #[trigger] offsets@[c] == bins(reaches@, c as nat).len() as u32,
            indices@ == bins(reaches@, cell as nat).map_values(|i: usize| i as u32),
        decreases GRID - cell,
    {
        proof {
            lemma_bins_grow(reaches@, cell as nat, GRID as nat);
        }
        offsets.push(indices.len() as u32);
        let ghost p = |i: int| reaches@[i].covers(cell as int);
        let ghost before = bins(reaches@, cell as nat);
        let mut i: usize = 0;
        while i < reaches.len()
            invariant
                reaches@.len() <= u32::MAX,
                i <= reaches@.len(),
                p == (|i: int| reaches@[i].covers(cell as int)),
                indices@ == (before + crate::order::picked(i as nat, p)).map_values(
                    |i: usize| i as u32,
                ),
            decreases reaches.len() - i,
        {
            let ghost held = indices@;
            if reaches[i].is_over(cell) {
                indices.push(i as u32);
                assert(indices@ =~= (before + crate::order::picked((i + 1) as nat, p)).map_values(
                    |i: usize| i as u32,
                ));
            }
            i += 1;
        }
        cell += 1;
    }
    offsets.push(indices.len() as u32);
    let ghost head = offsets@;
    offsets.append(&mut indices);
    assert(offsets@ =~= grid(reaches@));
    offsets
}

/// What a ray that misses every body looks stars up in.
#[derive(Debug)]
pub struct Rays {
    /// How many entries the list of discs has.
    pub discs: usize,
    /// The packed grid.
    pub cells: Vec<u32>,
}

/// Conservative spherical grid: a miss ray tests only discs overlapping its
/// cell, rather than all catalogue entries. Includes wraparound and poles, as
/// far as the discs' reaches do.
pub fn ray_catalogue(reaches: &Vec<Reach>) -> (r: Rays)
    requires
        reaches@.len() <= u32::MAX,
        bins(reaches@, GRID as nat).len() <= u32::MAX,
    ensures
        r.discs == slots(reaches@.len()),
        r.cells@ == grid(reaches@),
{
    Rays { discs: disc_slots(reaches.len()), cells: pack_grid(reaches) }
}

/// The draws of a catalogue follow each other without gap or overlap: within a star,
/// from star to star, and from the field to the band.
pub proof fn law_draws_follow_each_other(x: u64, from: nat, count: nat, per: nat, i: int, j: int)
    requires
        0 <= i < count,
        0 <= j < per,
    ensures
        ({
            let r = rows(x, from, count, per);
            &&& r.len() == count
            &&& r[i].len() == per
            &&& r[0][0] == output(state_after(x, from + 1))
            &&& r[i][j] == output(state_after(x, (from + i * per + j + 1) as nat))
            &&& j + 1 < per ==> r[i][j + 1] == output(
                next_state(state_after(x, (from + i * per + j + 1) as nat)),
            )
            &&& i + 1 < count ==> r[i + 1][0] == output(
                next_state(state_after(x, (from + i * per + per) as nat)),
            )
        }),
        state_after(x, 0) == x,
        draw(x, 0) == output(next_state(x)),
{
    let r = rows(x, from, count, per);
    assert(0 <= i * per) by (nonlinear_arith)
        requires
            i >= 0,
            per >= 0,
    ;
    assert((i + 1) * per == i * per + per) by (nonlinear_arith);
    assert(0 * per == 0) by (nonlinear_arith);
    assert(r[0][0] == draw(x, (from + 0 * per + 0) as nat));
    assert(state_after(x, 1) == next_state(state_after(x, 0)));
    if i + 1 < count {
        assert(r[i + 1][0] == draw(x, (from + (i + 1) * per + 0) as nat));
    }
}

/// A disc reaches a cell exactly where it reaches the cell's row and its column.
pub proof fn law_cells_and_columns(r: Reach, row: int, column: int)
    requires
        0 <= row < 128,
        0 <= column < 256,
    ensures
        r.covers(row * 256 + column) <==> r.first_row <= row <= r.last_row && column
            < r.columns@.len() && r.columns@[column],
{
    assert((row * 256 + column) / 256 == row && (row * 256 + column) % 256 == column);
}

/// The generator is linear over the bits of its state, and loses none of them: no two
/// states have one successor.
pub proof fn law_the_generator_loses_nothing(x: u64, y: u64)
    ensures
        next_state(x ^ y) == next_state(x) ^ next_state(y),
        next_state(x) == next_state(y) ==> x == y,
        next_state(0) == 0,
{
    let z = x ^ y;
    let a = x ^ (x >> 12);
    let b = a ^ (a << 25);
    let c = y ^ (y >> 12);
    let d = c ^ (c << 25);
    let e = z ^ (z >> 12);
    let f = e ^ (e << 25);
    assert(e == a ^ c && f == b ^ d && f ^ (f >> 27) == (b ^ (b >> 27)) ^ (d ^ (d >> 27)))
        by (bit_vector)
        requires
            z == x ^ y,
            a == x ^ (x >> 12),
            b == a ^ (a << 25),
            c == y ^ (y >> 12),
            d == c ^ (c << 25),
            e == z ^ (z >> 12),
            f == e ^ (e << 25),
    ;
    if next_state(x) == next_state(y) {
        let p = next_state(x);
        let q = next_state(y);
        assert(p ^ q == 0) by (bit_vector)
            requires
                p == q,
        ;
        if z != 0 {
            law_state_stays_nonzero(z);
        }
        assert(x == y) by (bit_vector)
            requires
                x ^ y == 0,
        ;
    }
    assert(((0u64 ^ (0u64 >> 12)) == 0) && ((0u64 ^ (0u64 << 25)) == 0) && ((0u64 ^ (0u64 >> 27))
        == 0)) by (bit_vector);
}

/// The grid has 128 rows and twice as many columns, a star four draws and one of the
/// band nine, and the list of discs an entry for each star and one where there is
/// none.
pub proof fn law_grid_sizes(stars: nat)
    ensures
        GRID == GRID_W * GRID_H,
        GRID_W == 2 * GRID_H,
        GRID_H == 128,
        FIELD_DRAWS == 4,
        BAND_DRAWS == 9,
        slots(0) == 1,
        stars > 0 ==> slots(stars) == stars,
{
}

} // verus!
