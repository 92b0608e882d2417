//! The per-cell view that the rules act through: reads by relative offset,
//! swaps, and writes, each mirrored into the pixel buffer.
use vstd::prelude::*;
use crate::cells::{Cell, CellType, Palette, is_new_cell};
use crate::world::{World, ScanConfig, ScanOrder, dims_ok, flat, lemma_flat_bounds, lemma_flat_injective};
use crate::logic::{Rolls, rule, simulate_steps, valid_rolls};
use crate::rand::shuffle;

verus! {

/// How far a rule may look up or down from the cell it advances.
pub const REACH: isize = 8;

/// How far a rule may look sideways from the cell it advances: the widest
/// horizontal reach of any material's rule.
pub const SIDE_REACH: isize = 5;

/// The state that the rules see: the grid, the pixel buffer, the tick and the
/// position of the cell being advanced. Offsets point right (`dx > 0`) and up
/// (`dy > 0`); rows are numbered from the top.
pub struct Scene {
    pub grid: Seq<Cell>,
    pub pixels: Seq<u8>,
    pub width: int,
    pub height: int,
    pub time: u8,
    pub palette: Palette,
    pub x: int,
    pub y: int,
}

impl Scene {
    pub open spec fn wf(self) -> bool {
        &&& dims_ok(self.width, self.height)
        &&& self.grid.len() == self.width * self.height
        &&& self.pixels.len() == self.width * self.height * 4
        &&& 0 <= self.x < self.width
        &&& 0 <= self.y < self.height
    }

    pub open spec fn inside(self, dx: int, dy: int) -> bool {
        &&& 0 <= self.x + dx < self.width
        &&& 0 <= self.y - dy < self.height
    }

    /// Flat index of the cell at offset `(dx, dy)`.
    pub open spec fn at(self, dx: int, dy: int) -> int {
        flat(self.width, self.x + dx, self.y - dy)
    }

    /// Flat index of the cell being advanced.
    pub open spec fn home(self) -> int {
        flat(self.width, self.x, self.y)
    }

    pub open spec fn here(self) -> Cell {
        self.grid[self.home()]
    }

    /// The material at offset `(dx, dy)`, or `Outside` past the edge.
    pub open spec fn mat(self, dx: int, dy: int) -> CellType {
        if self.inside(dx, dy) {
            self.grid[self.at(dx, dy)].material
        } else {
            CellType::Outside
        }
    }

    /// Exchanges the cell being advanced with the one at `(dx, dy)`, stamps
    /// both with the tick and exchanges their pixels. Nothing happens past the
    /// edge or when the cell was already stamped this tick.
    pub open spec fn swap(self, dx: int, dy: int) -> Scene {
        if !self.inside(dx, dy) || self.here().updated == self.time {
            self
        } else {
            let ci = self.home();
            let ti = self.at(dx, dy);
            let a = self.grid[ci];
            let b = self.grid[ti];
            Scene {
                grid: self.grid.update(ci, Cell { updated: self.time, ..b }).update(
                    ti,
                    Cell { updated: self.time, ..a },
                ),
                pixels: paint(paint(self.pixels, ti, a), ci, b),
                ..self
            }
        }
    }

    /// Writes `c` at `(dx, dy)` and its colour into the pixel buffer; nothing
    /// happens past the edge.
    pub open spec fn set(self, dx: int, dy: int, c: Cell) -> Scene {
        if self.inside(dx, dy) {
            Scene {
                grid: self.grid.update(self.at(dx, dy), c),
                pixels: paint(self.pixels, self.at(dx, dy), c),
                ..self
            }
        } else {
            self
        }
    }

    /// Writes `c` at `(dx, dy)` without touching the pixel buffer.
    pub open spec fn poke(self, dx: int, dy: int, c: Cell) -> Scene {
        if self.inside(dx, dy) {
            Scene { grid: self.grid.update(self.at(dx, dy), c), ..self }
        } else {
            self
        }
    }

    /// Every cell whose column lies outside `[lo, hi)`, and its pixel, is the
    /// same in `self` and `other`.
    pub open spec fn same_outside(self, other: Scene, lo: int, hi: int) -> bool {
        &&& other.width == self.width
        &&& other.height == self.height
        &&& other.grid.len() == self.grid.len()
        &&& other.pixels.len() == self.pixels.len()
        &&& forall|c: int, r: int|
            0 <= c < self.width && 0 <= r < self.height && (c < lo || hi <= c) ==> {
                &&& #[trigger] other.grid[flat(self.width, c, r)] == self.grid[flat(
                    self.width,
                    c,
                    r,
                )]
                &&& other.pixels[flat(self.width, c, r) * 4] == self.pixels[flat(
                    self.width,
                    c,
                    r,
                ) * 4]
                &&& other.pixels[flat(self.width, c, r) * 4 + 1] == self.pixels[flat(
                    self.width,
                    c,
                    r,
                ) * 4 + 1]
                &&& other.pixels[flat(self.width, c, r) * 4 + 2] == self.pixels[flat(
                    self.width,
                    c,
                    r,
                ) * 4 + 2]
                &&& other.pixels[flat(self.width, c, r) * 4 + 3] == self.pixels[flat(
                    self.width,
                    c,
                    r,
                ) * 4 + 3]
            }
    }
}

/// The pixel buffer with the colour of `c` written into slot `i`.
pub open spec fn paint(px: Seq<u8>, i: int, c: Cell) -> Seq<u8> {
    px.update(i * 4, c.rgb[0]).update(i * 4 + 1, c.rgb[1]).update(i * 4 + 2, c.rgb[2])
}

/// Writing slot `i` leaves the slots of every other cell alone.
pub proof fn lemma_paint_frame(px: Seq<u8>, i: int, c: Cell, j: int, k: int)
    requires
        0 <= i,
        0 <= j,
        i != j,
        0 <= k < 4,
        i * 4 + 3 < px.len(),
        j * 4 + 3 < px.len(),
    ensures
        paint(px, i, c)[j * 4 + k] == px[j * 4 + k],
        paint(px, i, c).len() == px.len(),
{
}

/// A change confined to the cells at `(c1, r1)` and `(c2, r2)`, and their
/// pixels, leaves every column outside `[lo, hi)` alone when both cells lie
/// inside it.
pub proof fn lemma_frame_two(
    s: Scene,
    t: Scene,
    c1: int,
    r1: int,
    c2: int,
    r2: int,
    lo: int,
    hi: int,
)
    requires
        s.wf(),
        t.width == s.width,
        t.height == s.height,
        t.grid.len() == s.grid.len(),
        t.pixels.len() == s.pixels.len(),
        0 <= c1 < s.width,
        0 <= r1 < s.height,
        0 <= c2 < s.width,
        0 <= r2 < s.height,
        lo <= c1 < hi,
        lo <= c2 < hi,
        forall|j: int|
            0 <= j < s.grid.len() && j != flat(s.width, c1, r1) && j != flat(s.width, c2, r2)
                ==> {
                &&& #[trigger] t.grid[j] == s.grid[j]
                &&& t.pixels[j * 4] == s.pixels[j * 4]
                &&& t.pixels[j * 4 + 1] == s.pixels[j * 4 + 1]
                &&& t.pixels[j * 4 + 2] == s.pixels[j * 4 + 2]
                &&& t.pixels[j * 4 + 3] == s.pixels[j * 4 + 3]
            },
    ensures
        t.same_outside(s, lo, hi),
{
    assert forall|c: int, r: int|
        0 <= c < s.width && 0 <= r < s.height && (c < lo || hi <= c) implies {
        &&& #[trigger] t.grid[flat(s.width, c, r)] == s.grid[flat(s.width, c, r)]
        &&& t.pixels[flat(s.width, c, r) * 4] == s.pixels[flat(s.width, c, r) * 4]
        &&& t.pixels[flat(s.width, c, r) * 4 + 1] == s.pixels[flat(s.width, c, r) * 4 + 1]
        &&& t.pixels[flat(s.width, c, r) * 4 + 2] == s.pixels[flat(s.width, c, r) * 4 + 2]
        &&& t.pixels[flat(s.width, c, r) * 4 + 3] == s.pixels[flat(s.width, c, r) * 4 + 3]
    } by {
        lemma_flat_bounds(s.width, s.height, c, r);
        if flat(s.width, c, r) == flat(s.width, c1, r1) {
            lemma_flat_injective(s.width, c, r, c1, r1);
        }
        if flat(s.width, c, r) == flat(s.width, c2, r2) {
            lemma_flat_injective(s.width, c, r, c2, r2);
        }
        let j = flat(s.width, c, r);
        assert(t.grid[j] == s.grid[j]);
    }
}

/// Agreement outside a window composes with agreement outside a smaller one.
pub proof fn lemma_same_outside_trans(sa: Scene, sb: Scene, sc: Scene, lo: int, hi: int, lo2: int, hi2: int)
    requires
        sb.same_outside(sa, lo, hi),
        sc.same_outside(sb, lo2, hi2),
        lo <= lo2,
        hi2 <= hi,
    ensures
        sc.same_outside(sa, lo, hi),
{
    assert forall|c: int, r: int|
        0 <= c < sa.width && 0 <= r < sa.height && (c < lo || hi <= c) implies {
        &&& #[trigger] sc.grid[flat(sa.width, c, r)] == sa.grid[flat(sa.width, c, r)]
        &&& sc.pixels[flat(sa.width, c, r) * 4] == sa.pixels[flat(sa.width, c, r) * 4]
        &&& sc.pixels[flat(sa.width, c, r) * 4 + 1] == sa.pixels[flat(sa.width, c, r) * 4 + 1]
        &&& sc.pixels[flat(sa.width, c, r) * 4 + 2] == sa.pixels[flat(sa.width, c, r) * 4 + 2]
        &&& sc.pixels[flat(sa.width, c, r) * 4 + 3] == sa.pixels[flat(sa.width, c, r) * 4 + 3]
    } by {
        assert(sb.grid[flat(sa.width, c, r)] == sa.grid[flat(sa.width, c, r)]);
        assert(sc.grid[flat(sb.width, c, r)] == sb.grid[flat(sb.width, c, r)]);
    }
}

/// Two pieces of work on the same cell compose into one.
pub proof fn lemma_stepped_trans(a: &CellsApi, b: &CellsApi, c: &CellsApi)
    requires
        b.stepped_from(a),
        c.stepped_from(b),
    ensures
        c.stepped_from(a),
{
    lemma_same_outside_trans(a.scene(), b.scene(), c.scene(), a.x - SIDE_REACH, a.x + SIDE_REACH + 1, a.x - SIDE_REACH, a.x + SIDE_REACH + 1);
}

/// `g` with every stamp equal to `now` set back to `before`.
pub open spec fn restamped(g: Seq<Cell>, before: u8, now: u8) -> Seq<Cell> {
    g.map_values(|c: Cell| if c.updated == now { Cell { updated: before, ..c } } else { c })
}

/// `g` with every stamp cleared: what a grid holds and shows.
pub open spec fn unstamped(g: Seq<Cell>) -> Seq<Cell> {
    g.map_values(|c: Cell| Cell { updated: 0, ..c })
}

/// One step of the cell at `(x, y)` with the draws `r`.
pub open spec fn step_at(s: Scene, x: int, y: int, r: Rolls) -> Scene {
    rule(Scene { x, y, ..s }, r)
}

/// The scene after the first `n` steps of a sweep that visits the rows `ys`
/// in order and, within each, the columns `xs`, using the draws `rs`.
pub open spec fn sweep(s: Scene, ys: Seq<usize>, xs: Seq<usize>, rs: Seq<Rolls>, n: int) -> Scene
    decreases n,
{
    if n <= 0 {
        s
    } else {
        let k = n - 1;
        step_at(sweep(s, ys, xs, rs, k), xs[k % xs.len() as int] as int, ys[k / xs.len() as int] as int, rs[k])
    }
}

/// Each of the first `n` steps of the sweep that acted drew in the ranges
/// of the material it advanced.
pub open spec fn sweep_valid(s: Scene, ys: Seq<usize>, xs: Seq<usize>, rs: Seq<Rolls>, n: int) -> bool {
    forall|k: int|
        0 <= k < n ==> valid_rolls(
            rs[k],
            (Scene {
                x: xs[k % xs.len() as int] as int,
                y: ys[k / xs.len() as int] as int,
                ..#[trigger] sweep(s, ys, xs, rs, k)
            }).here().material,
        )
}

/// `v` lists `start..end` in the scan order `order`.
pub open spec fn scan_of(order: ScanOrder, start: int, end: int, v: Seq<usize>) -> bool {
    if is_shuffled(order) {
        v.len() == end - start && v.to_multiset() == axis_base(order, start, end).to_multiset()
    } else {
        v == axis_base(order, start, end)
    }
}

/// `t` follows from `s` by one sweep of the columns `[x1, x2)` in the scan
/// orders of `scan`, for some draws each in its material's ranges.
pub open spec fn swept(s: Scene, t: Scene, x1: int, x2: int, scan: ScanConfig) -> bool {
    &&& t.width == s.width
    &&& t.height == s.height
    &&& t.time == s.time
    &&& exists|ys: Seq<usize>, xs: Seq<usize>, rs: Seq<Rolls>|
        {
            &&& scan_of(scan.y, 0, s.height, ys)
            &&& scan_of(scan.x, x1, x2, xs)
            &&& rs.len() == ys.len() * xs.len()
            &&& sweep_valid(s, ys, xs, rs, rs.len() as int)
            &&& #[trigger] sweep(s, ys, xs, rs, rs.len() as int).grid == t.grid
            &&& sweep(s, ys, xs, rs, rs.len() as int).pixels == t.pixels
        }
}

/// Sweeping with more draws does not change the steps already taken.
pub proof fn lemma_sweep_prefix(s: Scene, ys: Seq<usize>, xs: Seq<usize>, rs: Seq<Rolls>, r: Rolls, n: int)
    requires
        0 <= n <= rs.len(),
    ensures
        sweep(s, ys, xs, rs.push(r), n) == sweep(s, ys, xs, rs, n),
    decreases n,
{
    if n > 0 {
        lemma_sweep_prefix(s, ys, xs, rs, r, n - 1);
    }
}

/// Materials that never act: air and stone.
pub open spec fn inert(m: CellType) -> bool {
    m == CellType::Air || m == CellType::Stone
}

/// Every cell of the grid is inert.
pub open spec fn all_inert(g: Seq<Cell>) -> bool {
    forall|i: int| 0 <= i < g.len() ==> inert(#[trigger] g[i].material)
}

/// `start..end` in the base direction of `order`.
pub open spec fn axis_base(order: ScanOrder, start: int, end: int) -> Seq<usize> {
    match order {
        ScanOrder::Linear | ScanOrder::LinearShuffled => Seq::new(
            (end - start) as nat,
            |i: int| (start + i) as usize,
        ),
        _ => Seq::new((end - start) as nat, |i: int| (end - 1 - i) as usize),
    }
}

pub open spec fn is_shuffled(order: ScanOrder) -> bool {
    order == ScanOrder::LinearShuffled || order == ScanOrder::ReversedShuffled
}

/// The positions `start..end` in scan order: exactly the base order, or a
/// permutation of it when the order is shuffled.
pub fn iter_axis(order: ScanOrder, start: usize, end: usize) -> (r: Vec<usize>)
    requires
        start <= end,
    ensures
        r@.len() == end - start,
        forall|i: int| 0 <= i < r@.len() ==> start <= #[trigger] r@[i] < end,
        !is_shuffled(order) ==> r@ == axis_base(order, start as int, end as int),
        is_shuffled(order) ==> r@.to_multiset() == axis_base(
            order,
            start as int,
            end as int,
        ).to_multiset(),
{
    let ghost base = axis_base(order, start as int, end as int);
    let reversed = order == ScanOrder::Reversed || order == ScanOrder::ReversedShuffled;
    let mut r: Vec<usize> = Vec::new();
    let mut k: usize = 0;
    while k < end - start
        invariant
            start <= end,
            k <= end - start,
            r@ == base.subrange(0, k as int),
            base == axis_base(order, start as int, end as int),
            reversed == (order == ScanOrder::Reversed || order == ScanOrder::ReversedShuffled),
        decreases end - start - k,
    {
        if reversed {
            r.push(end - 1 - k);
        } else {
            r.push(start + k);
        }
        k = k + 1;
        assert(r@ =~= base.subrange(0, k as int));
    }
    assert(r@ =~= base);
    if is_shuffled_order(order) {
        shuffle(&mut r);
        proof {
            broadcast use vstd::seq_lib::to_multiset_contains;
            assert forall|i: int| 0 <= i < r@.len() implies start <= #[trigger] r@[i] < end by {
                assert(r@.to_multiset().contains(r@[i]));
                assert(base.contains(r@[i]));
            }
        }
    }
    r
}

fn is_shuffled_order(order: ScanOrder) -> (r: bool)
    ensures
        r == is_shuffled(order),
{
    order == ScanOrder::LinearShuffled || order == ScanOrder::ReversedShuffled
}

/// One more step at a position at least `SIDE_REACH` columns inside `[lo, hi)`
/// keeps the work confined to `[lo, hi)`.
pub proof fn lemma_kept_step(a: &CellsApi, b: &CellsApi, c: &CellsApi, lo: int, hi: int)
    requires
        b.kept_outside(a, lo, hi),
        c.stepped_from(b),
        lo <= b.x - SIDE_REACH,
        b.x + SIDE_REACH + 1 <= hi,
    ensures
        c.kept_outside(a, lo, hi),
{
    lemma_same_outside_trans(a.scene(), b.scene(), c.scene(), lo, hi, b.x - SIDE_REACH, b.x + SIDE_REACH + 1);
}

/// The materials of a grid, cell by cell.
pub open spec fn materials(g: Seq<Cell>) -> Seq<CellType> {
    g.map_values(|c: Cell| c.material)
}

/// A swap only moves matter: the multiset of materials in the grid is the
/// same before and after it.
pub proof fn lemma_swap_conserves_materials(s: Scene, dx: int, dy: int)
    requires
        s.wf(),
    ensures
        materials(s.swap(dx, dy).grid).to_multiset() == materials(s.grid).to_multiset(),
{
    broadcast use vstd::seq_lib::to_multiset_update;
    broadcast use vstd::multiset::group_multiset_axioms;

    if s.inside(dx, dy) && s.here().updated != s.time {
        let (ci, ti) = (s.home(), s.at(dx, dy));
        lemma_flat_bounds(s.width, s.height, s.x, s.y);
        lemma_flat_bounds(s.width, s.height, s.x + dx, s.y - dy);
        let (a, b) = (s.grid[ci], s.grid[ti]);
        let m = materials(s.grid);
        let g1 = s.grid.update(ci, Cell { updated: s.time, ..b });
        let g2 = g1.update(ti, Cell { updated: s.time, ..a });
        assert(materials(g1) =~= m.update(ci, b.material));
        assert(materials(g2) =~= m.update(ci, b.material).update(ti, a.material));
        let m1 = m.update(ci, b.material);
        assert(m1.to_multiset() == m.to_multiset().insert(b.material).remove(a.material));
        assert(m1[ti] == b.material);
        assert(m1.update(ti, a.material).to_multiset() == m1.to_multiset().insert(
            a.material,
        ).remove(b.material));
        assert(m[ci] == a.material);
        assert(m.to_multiset().count(a.material) > 0) by {
            broadcast use vstd::seq_lib::to_multiset_contains;

            assert(m.contains(a.material));
        }
        assert(m1.update(ti, a.material).to_multiset() =~= m.to_multiset());
    }
}

/// A cell moves at most once per tick: after a swap both cells involved carry
/// the tick's stamp, so neither the cell that moved (now at the target) nor
/// the one that took its place can be the source of another swap this tick.
pub proof fn lemma_no_double_move(s: Scene, dx: int, dy: int, ex: int, ey: int)
    requires
        s.wf(),
        s.inside(dx, dy),
        s.here().updated != s.time,
    ensures
        s.swap(dx, dy).grid[s.at(dx, dy)].updated == s.time,
        s.swap(dx, dy).grid[s.home()].updated == s.time,
        s.swap(dx, dy).swap(ex, ey) == s.swap(dx, dy),
        (Scene { x: s.x + dx, y: s.y - dy, ..s.swap(dx, dy) }).swap(ex, ey) == (Scene {
            x: s.x + dx,
            y: s.y - dy,
            ..s.swap(dx, dy)
        }),
{
    lemma_flat_bounds(s.width, s.height, s.x, s.y);
    lemma_flat_bounds(s.width, s.height, s.x + dx, s.y - dy);
}

/// Per-cell access to a grid and its pixel buffer, positioned on one cell.
pub struct CellsApi {
    pub world: World,
    pub pixels: Vec<u8>,
    pub none_cell: Cell,
    pub x: isize,
    pub y: isize,
}

impl CellsApi {
    pub open spec fn scene(&self) -> Scene {
        Scene {
            grid: self.world.grid@,
            pixels: self.pixels@,
            width: self.world.width as int,
            height: self.world.height as int,
            time: self.world.time,
            palette: self.world.palette,
            x: self.x as int,
            y: self.y as int,
        }
    }

    /// The grid is well formed and the pixel buffer matches it; the position
    /// may lie anywhere.
    pub open spec fn ready(&self) -> bool {
        &&& self.world.wf()
        &&& self.pixels@.len() == self.world.width * self.world.height * 4
        &&& self.none_cell.material == CellType::Outside
    }

    /// Ready, and positioned on a cell of the grid.
    pub open spec fn wf(&self) -> bool {
        &&& self.ready()
        &&& self.scene().wf()
    }

    /// `self` follows from `prev` by work on the cell at `prev`'s position:
    /// everything but the grid and the pixels is kept, and no cell further
    /// than `SIDE_REACH` columns from that position, nor its pixel, has changed.
    pub open spec fn stepped_from(&self, prev: &CellsApi) -> bool {
        &&& self.wf()
        &&& self.world.width == prev.world.width
        &&& self.world.height == prev.world.height
        &&& self.world.time == prev.world.time
        &&& self.world.density == prev.world.density
        &&& self.world.scan == prev.world.scan
        &&& self.world.palette == prev.world.palette
        &&& self.x == prev.x
        &&& self.y == prev.y
        &&& self.none_cell == prev.none_cell
        &&& self.scene().same_outside(prev.scene(), prev.x - SIDE_REACH, prev.x + SIDE_REACH + 1)
    }

    /// `self` follows from `prev` by work confined to the columns `[lo, hi)`:
    /// everything but the grid, the pixels and the position is kept.
    pub open spec fn kept_outside(&self, prev: &CellsApi, lo: int, hi: int) -> bool {
        &&& self.ready()
        &&& self.world.width == prev.world.width
        &&& self.world.height == prev.world.height
        &&& self.world.time == prev.world.time
        &&& self.world.density == prev.world.density
        &&& self.world.scan == prev.world.scan
        &&& self.world.palette == prev.world.palette
        &&& self.none_cell == prev.none_cell
        &&& self.scene().same_outside(prev.scene(), lo, hi)
    }

    /// Takes a grid and a pixel buffer of matching size.
    pub fn new(world: World, pixels: Vec<u8>) -> (r: CellsApi)
        requires
            world.wf(),
            pixels@.len() == world.width * world.height * 4,
        ensures
            r.ready(),
            r.world == world,
            r.pixels@ == pixels@,
            r.x == 0,
            r.y == 0,
    {
        CellsApi { world, pixels, none_cell: Cell::with_shade(CellType::Outside, 0), x: 0, y: 0 }
    }

    /// Gives back the grid and the pixel buffer.
    pub fn into_parts(self) -> (r: (World, Vec<u8>))
        ensures
            r.0 == self.world,
            r.1 == self.pixels,
    {
        (self.world, self.pixels)
    }

    pub fn set_position(&mut self, x: usize, y: usize)
        requires
            old(self).ready(),
            x < old(self).world.width,
            y < old(self).world.height,
        ensures
            final(self).wf(),
            final(self).world == old(self).world,
            final(self).pixels == old(self).pixels,
            final(self).none_cell == old(self).none_cell,
            final(self).x == x,
            final(self).y == y,
    {
        self.x = x as isize;
        self.y = y as isize;
    }

    /// Whether the absolute position `(x, y)` lies on the grid.
    pub fn in_bounds(&self, x: isize, y: isize) -> (r: bool)
        requires
            self.ready(),
        ensures
            r == (0 <= x < self.world.width && 0 <= y < self.world.height),
    {
        y < self.world.height as isize && y >= 0 && x < self.world.width as isize && x >= 0
    }

    /// The absolute position at offset `(dx, dy)`.
    fn offset(&self, dx: isize, dy: isize) -> (r: (isize, isize))
        requires
            self.wf(),
            -SIDE_REACH <= dx <= SIDE_REACH,
            -REACH <= dy <= REACH,
        ensures
            r.0 == self.x + dx,
            r.1 == self.y - dy,
    {
        (self.x + dx, self.y - dy)
    }

    /// Flat index of an offset known to lie on the grid.
    fn index_of(&self, dx: isize, dy: isize) -> (r: usize)
        requires
            self.wf(),
            -SIDE_REACH <= dx <= SIDE_REACH,
            -REACH <= dy <= REACH,
            self.scene().inside(dx as int, dy as int),
        ensures
            r == self.scene().at(dx as int, dy as int),
            r < self.world.grid@.len(),
            r * 4 + 3 < self.pixels@.len(),
    {
        let (tx, ty) = self.offset(dx, dy);
        proof {
            lemma_flat_bounds(
                self.world.width as int,
                self.world.height as int,
                tx as int,
                ty as int,
            );
        }
        ty as usize * self.world.width + tx as usize
    }

    /// The cell being advanced.
    pub fn current(&self) -> (r: Cell)
        requires
            self.wf(),
        ensures
            r == self.scene().here(),
    {
        let i = self.index_of(0, 0);
        self.world.grid[i]
    }

    /// The cell at offset `(dx, dy)`; past the edge, an `Outside` cell.
    pub fn cell_by_offset(&self, dx: isize, dy: isize) -> (r: Cell)
        requires
            self.wf(),
            -SIDE_REACH <= dx <= SIDE_REACH,
            -REACH <= dy <= REACH,
        ensures
            r.material == self.scene().mat(dx as int, dy as int),
            self.scene().inside(dx as int, dy as int) ==> r == self.scene().grid[self.scene().at(
                dx as int,
                dy as int,
            )],
    {
        let (tx, ty) = self.offset(dx, dy);
        if !self.in_bounds(tx, ty) {
            return self.none_cell;
        }
        let i = self.index_of(dx, dy);
        self.world.grid[i]
    }

    /// Writes the colour of `c` into pixel slot `i`.
    fn paint_slot(&mut self, i: usize, c: Cell)
        requires
            old(self).ready(),
            i < old(self).world.grid@.len(),
        ensures
            final(self).pixels@ == paint(old(self).pixels@, i as int, c),
            final(self).world == old(self).world,
            final(self).x == old(self).x,
            final(self).y == old(self).y,
            final(self).none_cell == old(self).none_cell,
    {
        self.pixels.set(i * 4, c.rgb[0]);
        self.pixels.set(i * 4 + 1, c.rgb[1]);
        self.pixels.set(i * 4 + 2, c.rgb[2]);
    }

    /// Writes `cell` at offset `(dx, dy)` and its colour into the pixel
    /// buffer; nothing happens past the edge.
    pub fn put_cell(&mut self, dx: isize, dy: isize, cell: Cell)
        requires
            old(self).wf(),
            -SIDE_REACH <= dx <= SIDE_REACH,
            -REACH <= dy <= REACH,
        ensures
            final(self).stepped_from(old(self)),
            final(self).scene() == old(self).scene().set(dx as int, dy as int, cell),
    {
        let ghost s0 = self.scene();
        let (tx, ty) = self.offset(dx, dy);
        if self.in_bounds(tx, ty) {
            let i = self.index_of(dx, dy);
            self.world.grid.set(i, cell);
            self.paint_slot(i, cell);
            proof {
                let w = s0.width;
                lemma_frame_two(s0, self.scene(), tx as int, ty as int, tx as int, ty as int,
                    s0.x - SIDE_REACH, s0.x + SIDE_REACH + 1);
            }
        }
    }

    /// Writes a fresh cell of `material` at offset `(dx, dy)`, with a colour
    /// drawn at random from the material's range; nothing happens past the
    /// edge.
    pub fn set_cell(&mut self, dx: isize, dy: isize, material: CellType)
        requires
            old(self).wf(),
            -SIDE_REACH <= dx <= SIDE_REACH,
            -REACH <= dy <= REACH,
        ensures
            final(self).stepped_from(old(self)),
            exists|c: Cell|
                is_new_cell(c, material) && final(self).scene() == #[trigger] old(
                    self,
                ).scene().set(dx as int, dy as int, c),
    {
        let cell = Cell::new(material);
        self.put_cell(dx, dy, cell);
    }

    /// Writes `cell` at offset `(dx, dy)` without touching the pixel buffer;
    /// nothing happens past the edge.
    pub fn replace_cell(&mut self, dx: isize, dy: isize, cell: Cell)
        requires
            old(self).wf(),
            -SIDE_REACH <= dx <= SIDE_REACH,
            -REACH <= dy <= REACH,
        ensures
            final(self).stepped_from(old(self)),
            final(self).scene() == old(self).scene().poke(dx as int, dy as int, cell),
    {
        let ghost s0 = self.scene();
        let (tx, ty) = self.offset(dx, dy);
        if self.in_bounds(tx, ty) {
            let i = self.index_of(dx, dy);
            self.world.grid.set(i, cell);
            proof {
                lemma_frame_two(s0, self.scene(), tx as int, ty as int, tx as int, ty as int,
                    s0.x - SIDE_REACH, s0.x + SIDE_REACH + 1);
            }
        }
    }

    /// Moves the cell being advanced to offset `(dx, dy)` by exchanging it with
    /// the cell there. A cell already stamped this tick does not move again.
    pub fn swap_offset(&mut self, dx: isize, dy: isize)
        requires
            old(self).wf(),
            -SIDE_REACH <= dx <= SIDE_REACH,
            -REACH <= dy <= REACH,
        ensures
            final(self).stepped_from(old(self)),
            final(self).scene() == old(self).scene().swap(dx as int, dy as int),
            materials(final(self).world.grid@).to_multiset() == materials(
                old(self).world.grid@,
            ).to_multiset(),
            old(self).scene().here().updated == old(self).world.time ==> final(self).world.grid@
                == old(self).world.grid@ && final(self).pixels@ == old(self).pixels@,
    {
        proof {
            lemma_swap_conserves_materials(self.scene(), dx as int, dy as int);
        }
        let (tx, ty) = self.offset(dx, dy);
        if !self.in_bounds(tx, ty) {
            return;
        }
        let ci = self.index_of(0, 0);
        let ti = self.index_of(dx, dy);
        // A cell moves at most once per tick.
        if self.world.grid[ci].updated == self.world.time {
            return;
        }
        let time = self.world.time;
        let a = self.world.grid[ci];
        let b = self.world.grid[ti];
        self.paint_slot(ti, a);
        self.paint_slot(ci, b);
        let ghost s0 = old(self).scene();
        self.world.grid.set(ci, Cell { updated: time, ..b });
        self.world.grid.set(ti, Cell { updated: time, ..a });
        proof {
            lemma_frame_two(s0, self.scene(), tx as int, ty as int, s0.x, s0.y,
                s0.x - SIDE_REACH, s0.x + SIDE_REACH + 1);
        }
    }

    /// Advances every cell of the columns `[x1, x2)` by one step, in the
    /// grid's scan order: the result is a sweep of the range with some draws,
    /// each in the ranges of the material it advanced. No cell further than
    /// `SIDE_REACH` columns outside the range, nor its pixel, changes; a grid of
    /// inert cells does not change at all.
    pub fn simulate(&mut self, x1: usize, x2: usize)
        requires
            old(self).ready(),
            x1 <= x2 <= old(self).world.width,
        ensures
            final(self).kept_outside(old(self), x1 - SIDE_REACH, x2 + SIDE_REACH),
            swept(old(self).scene(), final(self).scene(), x1 as int, x2 as int, old(self).world.scan),
            all_inert(old(self).world.grid@) ==> final(self).world.grid@ == old(self).world.grid@
                && final(self).pixels@ == old(self).pixels@,
    {
        let ghost a0 = *self;
        let iter_y = iter_axis(self.world.scan.y, 0, self.world.height);
        let iter_x = iter_axis(self.world.scan.x, x1, x2);
        let ghost s0 = a0.scene();
        let ghost ys = iter_y@;
        let ghost xs = iter_x@;
        let ghost mut rs: Seq<Rolls> = Seq::empty();
        let mut i: usize = 0;
        while i < iter_y.len()
            invariant
                ys == iter_y@,
                xs == iter_x@,
                i <= ys.len(),
                rs.len() == i * xs.len(),
                sweep_valid(s0, ys, xs, rs, rs.len() as int),
                sweep(s0, ys, xs, rs, rs.len() as int).grid == self.world.grid@,
                sweep(s0, ys, xs, rs, rs.len() as int).pixels == self.pixels@,
                sweep(s0, ys, xs, rs, rs.len() as int).width == self.world.width,
                sweep(s0, ys, xs, rs, rs.len() as int).height == self.world.height,
                sweep(s0, ys, xs, rs, rs.len() as int).time == self.world.time,
                sweep(s0, ys, xs, rs, rs.len() as int).palette == self.world.palette,
                s0 == a0.scene(),
                self.kept_outside(&a0, x1 - SIDE_REACH, x2 + SIDE_REACH),
                all_inert(a0.world.grid@) ==> self.world.grid@ == a0.world.grid@ && self.pixels@ == a0.pixels@,
                a0.ready(),
                x1 <= x2 <= a0.world.width,
                forall|k: int| 0 <= k < iter_y@.len() ==> 0 <= #[trigger] iter_y@[k] < a0.world.height,
                forall|k: int| 0 <= k < iter_x@.len() ==> x1 <= #[trigger] iter_x@[k] < x2,
            decreases iter_y.len() - i,
        {
            let y = iter_y[i];
            let mut j: usize = 0;
            while j < iter_x.len()
                invariant
                    ys == iter_y@,
                    xs == iter_x@,
                    i < ys.len(),
                    y == ys[i as int],
                    j <= xs.len(),
                    rs.len() == i * xs.len() + j,
                    sweep_valid(s0, ys, xs, rs, rs.len() as int),
                    sweep(s0, ys, xs, rs, rs.len() as int).grid == self.world.grid@,
                    sweep(s0, ys, xs, rs, rs.len() as int).pixels == self.pixels@,
                    sweep(s0, ys, xs, rs, rs.len() as int).width == self.world.width,
                    sweep(s0, ys, xs, rs, rs.len() as int).height == self.world.height,
                    sweep(s0, ys, xs, rs, rs.len() as int).time == self.world.time,
                    sweep(s0, ys, xs, rs, rs.len() as int).palette == self.world.palette,
                    s0 == a0.scene(),
                    self.kept_outside(&a0, x1 - SIDE_REACH, x2 + SIDE_REACH),
                    all_inert(a0.world.grid@) ==> self.world.grid@ == a0.world.grid@ && self.pixels@ == a0.pixels@,
                    a0.ready(),
                    x1 <= x2 <= a0.world.width,
                    y < a0.world.height,
                    forall|k: int| 0 <= k < iter_x@.len() ==> x1 <= #[trigger] iter_x@[k] < x2,
                decreases iter_x.len() - j,
            {
                let x = iter_x[j];
                self.set_position(x, y);
                let ghost before = *self;
                simulate_steps(self);
                proof {
                    let n = rs.len() as int;
                    let r = choose|r: Rolls|
                        valid_rolls(r, before.scene().here().material) && self.scene() == #[trigger] rule(
                            before.scene(),
                            r,
                        );
                    let old_rs = rs;
                    vstd::arithmetic::div_mod::lemma_fundamental_div_mod_converse(
                        n,
                        xs.len() as int,
                        i as int,
                        j as int,
                    );
                    let prev = sweep(s0, ys, xs, old_rs, n);
                    assert(before.scene() == (Scene { x: x as int, y: y as int, ..prev }));
                    rs = rs.push(r);
                    lemma_sweep_prefix(s0, ys, xs, old_rs, r, n);
                    assert(sweep(s0, ys, xs, rs, n + 1) == step_at(prev, x as int, y as int, r));
                    assert forall|k: int| 0 <= k < n + 1 implies valid_rolls(
                        rs[k],
                        (Scene {
                            x: xs[k % xs.len() as int] as int,
                            y: ys[k / xs.len() as int] as int,
                            ..#[trigger] sweep(s0, ys, xs, rs, k)
                        }).here().material,
                    ) by {
                        lemma_sweep_prefix(s0, ys, xs, old_rs, r, k);
                        if k < n {
                            assert(rs[k] == old_rs[k]);
                        }
                    }
                    assert((i * xs.len() + j) + 1 == i * xs.len() + (j + 1));
                    lemma_kept_step(&a0, &before, self, x1 - SIDE_REACH, x2 + SIDE_REACH);
                    if all_inert(a0.world.grid@) {
                        let s = before.scene();
                        lemma_flat_bounds(s.width, s.height, s.x, s.y);
                        assert(inert(s.here().material));
                        assert(rule(s, r) == s);
                    }
                }
                j = j + 1;
            }
            proof {
                assert(i * xs.len() + xs.len() == (i + 1) * xs.len()) by (nonlinear_arith);
            }
            i = i + 1;
        }
        proof {
            assert(scan_of(a0.world.scan.y, 0, a0.world.height as int, ys));
            assert(scan_of(a0.world.scan.x, x1 as int, x2 as int, xs));
            assert(rs.len() == ys.len() * xs.len());
            assert(s0 == old(self).scene());
            assert(sweep(old(self).scene(), ys, xs, rs, rs.len() as int).grid == self.world.grid@);
        }
    }

    /// Moves the tick counter on by one, wrapping around. A cell whose stamp
    /// is left over from the last time the counter had the new value gets
    /// the old value instead, so that no cell starts the tick as moved.
    pub fn advance_time(&mut self)
        ensures
            final(self).world.time == (old(self).world.time + 1) % 256,
            final(self).world.grid@ == restamped(old(self).world.grid@, old(self).world.time, final(self).world.time),
            forall|i: int| 0 <= i < final(self).world.grid@.len() ==> (#[trigger] final(self).world.grid@[i]).updated != final(self).world.time,
            final(self).world.width == old(self).world.width,
            final(self).world.height == old(self).world.height,
            final(self).world.density == old(self).world.density,
            final(self).world.scan == old(self).world.scan,
            final(self).world.palette == old(self).world.palette,
            final(self).pixels == old(self).pixels,
            final(self).x == old(self).x,
            final(self).y == old(self).y,
            final(self).none_cell == old(self).none_cell,
    {
        let before = self.world.time;
        let now = before.wrapping_add(1);
        let ghost g0 = self.world.grid@;
        let ghost a0 = *self;
        let n = self.world.grid.len();
        let mut i: usize = 0;
        while i < n
            invariant
                self.world.width == a0.world.width,
                self.world.height == a0.world.height,
                self.world.density == a0.world.density,
                self.world.scan == a0.world.scan,
                self.world.palette == a0.world.palette,
                self.world.time == a0.world.time,
                self.pixels == a0.pixels,
                self.x == a0.x,
                self.y == a0.y,
                self.none_cell == a0.none_cell,
                n == g0.len(),
                self.world.grid@.len() == n,
                i <= n,
                now == (before + 1) % 256,
                forall|k: int| 0 <= k < i ==> #[trigger] self.world.grid@[k] == restamped(g0, before, now)[k],
                forall|k: int| i <= k < n ==> #[trigger] self.world.grid@[k] == g0[k],
            decreases n - i,
        {
            let c = self.world.grid[i];
            if c.updated == now {
                self.world.grid.set(i, Cell { updated: before, ..c });
            }
            i = i + 1;
        }
        assert(self.world.grid@ =~= restamped(g0, before, now));
        self.world.time = now;
    }
}

} // verus!
