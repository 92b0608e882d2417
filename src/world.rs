//! The grid: a row-major array of cells with its dimensions and tick counter.
use vstd::prelude::*;
use crate::cells::{Cell, CellType, Palette, fresh_in, is_new_cell, is_new_in};
use crate::input::CenterLocation;
use crate::api::{CellsApi, Scene, all_inert, paint, restamped, swept, unstamped};
use crate::rand::usize_in;
use crate::line::{bresenham_points, line_points, walkable};
use crate::place::all_walkable;
use vstd::slice::slice_to_vec;

verus! {

/// The largest number of cells along either side of the grid: small enough
/// that a position plus a rule's reach fits a 32-bit `isize`.
pub const MAX_SIDE: usize = 0x3fff_ffff;

/// A grid of `width * height` cells fits the index space, with four bytes of
/// pixel buffer per cell.
pub open spec fn dims_ok(width: int, height: int) -> bool {
    &&& 0 <= width <= MAX_SIDE
    &&& 0 <= height <= MAX_SIDE
    &&& width * height * 4 <= usize::MAX
}

/// Whether a `width` by `height` grid fits, as `dims_ok` states.
pub fn dims_ok_exec(width: usize, height: usize) -> (r: bool)
    ensures
        r == dims_ok(width as int, height as int),
{
    if width > MAX_SIDE || height > MAX_SIDE {
        return false;
    }
    assert(width * height <= MAX_SIDE * MAX_SIDE) by (nonlinear_arith)
        requires
            0 <= width <= MAX_SIDE,
            0 <= height <= MAX_SIDE,
    ;
    let cells = width as u128 * height as u128;
    cells * 4 <= usize::MAX as u128
}

/// Position `(col, row)` of a `width`-wide row-major grid.
pub open spec fn flat(width: int, col: int, row: int) -> int {
    row * width + col
}

pub proof fn lemma_flat_bounds(width: int, height: int, col: int, row: int)
    requires
        0 <= col < width,
        0 <= row < height,
    ensures
        0 <= flat(width, col, row) < width * height,
        0 <= flat(width, col, row) * 4 + 3 < width * height * 4,
{
    assert(0 <= row * width + col < width * height) by (nonlinear_arith)
        requires
            0 <= col < width,
            0 <= row < height,
    ;
}

/// Two different positions of the grid have different flat indices.
pub proof fn lemma_flat_injective(width: int, c1: int, r1: int, c2: int, r2: int)
    requires
        0 <= c1 < width,
        0 <= c2 < width,
        0 <= r1,
        0 <= r2,
        flat(width, c1, r1) == flat(width, c2, r2),
    ensures
        c1 == c2,
        r1 == r2,
{
    if r1 < r2 {
        assert(r1 * width + c1 < r2 * width + c2) by (nonlinear_arith)
            requires
                r1 < r2,
                0 <= c1 < width,
                0 <= c2,
        ;
    } else if r2 < r1 {
        assert(r2 * width + c2 < r1 * width + c1) by (nonlinear_arith)
            requires
                r2 < r1,
                0 <= c2 < width,
                0 <= c1,
        ;
    }
}

/// The order in which one axis of a column range is scanned.
#[derive(Clone, Copy, Debug, PartialEq, Eq, Structural)]
pub enum ScanOrder {
    Linear,
    Reversed,
    LinearShuffled,
    ReversedShuffled,
}

/// Scan orders of the two axes. Rows are numbered from the top, so a
/// reversed row order scans the grid bottom to top.
#[derive(Clone, Copy, Debug, PartialEq, Eq, Structural)]
pub struct ScanConfig {
    pub x: ScanOrder,
    pub y: ScanOrder,
}

impl ScanConfig {
    /// Columns left to right, rows bottom to top.
    pub open spec fn standard_spec() -> ScanConfig {
        ScanConfig { x: ScanOrder::Linear, y: ScanOrder::Reversed }
    }

    pub fn standard() -> (r: ScanConfig)
        ensures
            r == ScanConfig::standard_spec(),
    {
        ScanConfig { x: ScanOrder::Linear, y: ScanOrder::Reversed }
    }
}

pub struct World {
    pub grid: Vec<Cell>,
    /// Pixels of the window per cell along each side.
    pub density: u32,
    pub width: usize,
    pub height: usize,
    /// The tick counter; it wraps around.
    pub time: u8,
    pub scan: ScanConfig,
    /// The colour range of each material, for the cells that the rules and
    /// the brushes create.
    pub palette: Palette,
}

impl World {
    /// The grid holds exactly `width * height` cells.
    pub open spec fn wf(&self) -> bool {
        &&& dims_ok(self.width as int, self.height as int)
        &&& self.grid@.len() == self.width * self.height
    }

    /// The cell at column `col`, row `row`.
    pub open spec fn cell(&self, col: int, row: int) -> Cell {
        self.grid@[flat(self.width as int, col, row)]
    }
}

/// `g` with every cell's hover flag cleared.
pub open spec fn cleared(g: Seq<Cell>) -> Seq<Cell> {
    g.map_values(|c: Cell| Cell { selected: false, ..c })
}

/// Alpha of a pixel: dimmed while hovered or selected, opaque otherwise.
pub open spec fn alpha_of(highlighted: bool) -> u8 {
    if highlighted {
        200u8
    } else {
        255u8
    }
}

/// The RGBA buffer that shows `g`: four bytes per cell, its colour then an
/// alpha taken from its hover flag.
pub open spec fn render_pixels(g: Seq<Cell>) -> Seq<u8> {
    Seq::new(
        g.len() * 4,
        |j: int|
            if j % 4 < 3 {
                g[j / 4].rgb[j % 4]
            } else {
                alpha_of(g[j / 4].selected)
            },
    )
}

/// Grids narrower than this run each tick as one range of columns.
pub const SPLIT_MIN_WIDTH: usize = 100;

/// Number of equal column ranges that a wide grid is split into.
pub const CHUNKS: usize = 6;

/// A half-open range of columns `[start, end)`.
#[derive(Clone, Copy, Debug, PartialEq, Eq, Structural)]
pub struct ColumnRange {
    pub start: usize,
    pub end: usize,
}

/// The ranges tile `[0, width)`: each starts where the previous one ended,
/// the first at column zero and the last at `width`.
pub open spec fn tiles(r: Seq<ColumnRange>, width: int) -> bool {
    &&& r.len() > 0
    &&& r[0].start == 0
    &&& r[r.len() - 1].end == width
    &&& forall|i: int| 0 <= i < r.len() ==> #[trigger] r[i].start <= r[i].end
    &&& forall|i: int| 0 < i < r.len() ==> #[trigger] r[i].start == r[i - 1].end
}

/// `r` splits the columns of a `width`-wide grid into the left edge
/// `[0, left)` and `chunks` ranges of `(width - left) / chunks` columns each,
/// the remainder going to the last.
pub open spec fn planned(r: Seq<ColumnRange>, width: int, left: int, chunks: int) -> bool {
    &&& r.len() == chunks + 1
    &&& tiles(r, width)
    &&& r[0].end == left
    &&& forall|i: int| 1 <= i < chunks ==> #[trigger] r[i].end - r[i].start == (width - left) / chunks
    &&& r[chunks].end - r[chunks].start == (width - left) / chunks + (width - left) % chunks
}

/// The column plan of a tick: one range for a narrow grid, else a left edge
/// of at most a sixteenth of the width and `CHUNKS` equal ranges.
pub open spec fn tick_plan(plan: Seq<ColumnRange>, width: int) -> bool {
    &&& width < SPLIT_MIN_WIDTH ==> plan == seq![ColumnRange { start: 0, end: width as usize }]
    &&& width >= SPLIT_MIN_WIDTH ==> plan.len() > 0 && plan[0].end <= width / 16 && planned(
        plan,
        width,
        plan[0].end as int,
        CHUNKS as int,
    )
}

/// Splits the columns of a `width`-wide grid into the left edge `[0, left)`
/// and `chunks` ranges of `(width - left) / chunks` columns each, the
/// remainder going to the last.
pub fn plan_columns(width: usize, left: usize, chunks: usize) -> (r: Vec<ColumnRange>)
    requires
        left <= width,
        chunks > 0,
    ensures
        planned(r@, width as int, left as int, chunks as int),
        r@.len() == chunks + 1,
        tiles(r@, width as int),
        r@[0].end == left,
        forall|i: int|
            1 <= i < chunks ==> #[trigger] r@[i].end - r@[i].start == (width - left) / chunks as int,
        r@[chunks as int].end - r@[chunks as int].start == (width - left) / chunks as int + (width
            - left) % chunks as int,
{
    let size = (width - left) / chunks;
    proof {
        assert(size * chunks <= width - left) by (nonlinear_arith)
            requires
                size == (width - left) / chunks as int,
                chunks > 0,
                left <= width,
        ;
    }
    let mut r: Vec<ColumnRange> = Vec::new();
    r.push(ColumnRange { start: 0, end: left });
    let mut k: usize = 1;
    let mut start = left;
    while k < chunks
        invariant
            left <= width,
            chunks > 0,
            size == (width - left) / chunks as int,
            size * chunks <= width - left,
            1 <= k <= chunks,
            r@.len() == k,
            r@[0] == (ColumnRange { start: 0, end: left }),
            start == r@[k - 1].end,
            start == left + (k - 1) * size,
            forall|i: int| 0 <= i < r@.len() ==> #[trigger] r@[i].start <= r@[i].end,
            forall|i: int| 0 < i < r@.len() ==> #[trigger] r@[i].start == r@[i - 1].end,
            forall|i: int| 1 <= i < k ==> #[trigger] r@[i].end - r@[i].start == size,
        decreases chunks - k,
    {
        assert(left + k * size <= width) by (nonlinear_arith)
            requires
                k < chunks,
                size * chunks <= width - left,
                size >= 0,
        {
            assert(k * size <= chunks * size);
        }
        assert(start + size == left + k * size) by (nonlinear_arith)
            requires
                start == left + (k - 1) * size,
        ;
        r.push(ColumnRange { start, end: start + size });
        start = start + size;
        k = k + 1;
        assert(start == left + (k - 1) * size) by (nonlinear_arith)
            requires
                start == left + (k - 2) * size + size,
        ;
    }
    assert(start == left + (chunks - 1) * size);
    assert((width - left) == size * chunks + (width - left) % chunks as int) by (nonlinear_arith)
        requires
            size == (width - left) / chunks as int,
            chunks > 0,
    ;
    assert(left + (chunks - 1) * size + size == left + chunks * size) by (nonlinear_arith);
    assert(start <= width) by (nonlinear_arith)
        requires
            start == left + (chunks - 1) * size,
            size * chunks <= width - left,
            size >= 0,
            chunks > 0,
    ;
    let ghost before = r@;
    r.push(ColumnRange { start, end: width });
    assert(r@[chunks as int].start == r@[chunks - 1].end);
    assert(forall|i: int| 0 <= i < chunks ==> r@[i] == before[i]);
    assert(width - start == size + (width - left) % chunks as int) by (nonlinear_arith)
        requires
            start == left + (chunks - 1) * size,
            (width - left) == size * chunks + (width - left) % chunks as int,
    ;
    r
}

/// Every range of a tiling ends within the grid.
pub proof fn lemma_range_within(r: Seq<ColumnRange>, width: int, k: int)
    requires
        tiles(r, width),
        0 <= k < r.len(),
    ensures
        r[k].end <= width,
    decreases r.len() - k,
{
    if k + 1 < r.len() {
        assert(r[k + 1].start == r[k].end);
        lemma_range_within(r, width, k + 1);
    }
}

/// Rendering is idempotent once the hover flags are cleared: a second render
/// clears nothing more and paints the same buffer as any later one; on a grid
/// with no hovered cell even the first render paints that buffer.
pub proof fn lemma_render_idempotent(g: Seq<Cell>)
    ensures
        cleared(cleared(g)) == cleared(g),
        render_pixels(cleared(cleared(g))) == render_pixels(cleared(g)),
        (forall|i: int| 0 <= i < g.len() ==> !(#[trigger] g[i]).selected) ==> cleared(g) == g
            && render_pixels(cleared(g)) == render_pixels(g),
{
    assert(cleared(cleared(g)) =~= cleared(g));
    if forall|i: int| 0 <= i < g.len() ==> !(#[trigger] g[i]).selected {
        assert(cleared(g) =~= g);
    }
}

/// `(c, r)` lies within `radius` of `(x, y)`.
pub open spec fn in_disc(x: int, y: int, radius: int, c: int, r: int) -> bool {
    (c - x) * (c - x) + (r - y) * (r - y) <= radius * radius
}

pub proof fn lemma_disc_bounds(x: int, y: int, radius: int, c: int, r: int)
    requires
        radius >= 0,
        in_disc(x, y, radius, c, r),
    ensures
        x - radius <= c <= x + radius,
        y - radius <= r <= y + radius,
{
    assert((c - x) * (c - x) <= radius * radius) by (nonlinear_arith)
        requires
            (c - x) * (c - x) + (r - y) * (r - y) <= radius * radius,
    ;
    assert((r - y) * (r - y) <= radius * radius) by (nonlinear_arith)
        requires
            (c - x) * (c - x) + (r - y) * (r - y) <= radius * radius,
    ;
    assert(x - radius <= c <= x + radius) by (nonlinear_arith)
        requires
            (c - x) * (c - x) <= radius * radius,
            radius >= 0,
    ;
    assert(y - radius <= r <= y + radius) by (nonlinear_arith)
        requires
            (r - y) * (r - y) <= radius * radius,
            radius >= 0,
    ;
}

/// `v` moved into `[0, n)`.
pub open spec fn clamp_to(v: int, n: int) -> int {
    if v < 0 {
        0
    } else if v > n - 1 {
        n - 1
    } else {
        v
    }
}

/// The offset `(ix - radius, iy - radius)` lies strictly inside the brush.
pub open spec fn in_brush(radius: int, ix: int, iy: int) -> bool {
    &&& 0 <= ix < 2 * radius
    &&& 0 <= iy < 2 * radius
    &&& (ix - radius) * (ix - radius) + (iy - radius) * (iy - radius) < radius * radius
}

/// The cell that the brush offset `(ix, iy)` around `(px, py)` lands on,
/// moved onto a `w` by `h` grid.
pub open spec fn brush_cell(w: int, h: int, px: int, py: int, radius: int, ix: int, iy: int) -> int {
    flat(w, clamp_to(px + ix - radius, w), clamp_to(py + iy - radius, h))
}

/// Cell `i` is where a stroke from `(x1, y1)` to `(x2, y2)` through the
/// points `pts` may stamp: some brush offset around the end point lands on
/// it, or some offset along the line (see `along_line`) around some point of
/// `pts` does.
pub open spec fn stroke_hit(
    pts: Seq<(isize, isize)>,
    x1: int,
    y1: int,
    x2: int,
    y2: int,
    w: int,
    h: int,
    radius: int,
    i: int,
) -> bool {
    ||| exists|ix: int, iy: int|
        #[trigger] in_brush(radius, ix, iy) && i == brush_cell(w, h, x2, y2, radius, ix, iy)
    ||| exists|ix: int, iy: int, k: int|
        in_brush(radius, ix, iy) && along_line(x1, y1, x2, y2, radius, ix, iy) && 0 <= k < pts.len()
            && i == #[trigger] brush_cell(w, h, pts[k].0 as int, pts[k].1 as int, radius, ix, iy)
}

/// The brush offset `(ix, iy)` lies on the rim of the brush, on the side
/// facing away from the end of the line, or the brush has radius one: there
/// the brush is stamped at every point of the line, elsewhere only around
/// the end.
pub open spec fn along_line(x1: int, y1: int, x2: int, y2: int, radius: int, ix: int, iy: int) -> bool {
    let d = (ix - radius) * (ix - radius) + (iy - radius) * (iy - radius);
    &&& (x2 - x1) * (ix - radius) + (y2 - y1) * (iy - radius) < 0 || radius == 1
    &&& radius <= 1 || 4 * d >= (2 * radius - 3) * (2 * radius - 3)
}

/// The points a thick line from `(x1, y1)` to `(x2, y2)` is drawn through.
pub open spec fn thick_line_points(x1: int, y1: int, x2: int, y2: int) -> Seq<(isize, isize)> {
    bresenham_points(x1, y1, x2, y2).push((x2 as isize, y2 as isize))
}

/// Cell `i` and its pixel are as they were.
pub open spec fn untouched(g0: Seq<Cell>, p0: Seq<u8>, g: Seq<Cell>, p: Seq<u8>, i: int) -> bool {
    &&& g[i] == g0[i]
    &&& p[i * 4] == p0[i * 4]
    &&& p[i * 4 + 1] == p0[i * 4 + 1]
    &&& p[i * 4 + 2] == p0[i * 4 + 2]
    &&& p[i * 4 + 3] == p0[i * 4 + 3]
}

/// Cell `i` was stamped by a brush: its alpha shows the hover state, and
/// when placing it is a fresh cell of `material` whose colour is in the
/// buffer, else cell and colour are as they were.
pub open spec fn stamped(
    g0: Seq<Cell>,
    p0: Seq<u8>,
    g: Seq<Cell>,
    p: Seq<u8>,
    i: int,
    pal: Palette,
    material: CellType,
    place: bool,
    hover: bool,
) -> bool {
    &&& p[i * 4 + 3] == alpha_of(hover)
    &&& place ==> {
        &&& is_new_in(pal, g[i], material)
        &&& p[i * 4] == g[i].rgb[0]
        &&& p[i * 4 + 1] == g[i].rgb[1]
        &&& p[i * 4 + 2] == g[i].rgb[2]
    }
    &&& !place ==> {
        &&& g[i] == g0[i]
        &&& p[i * 4] == p0[i * 4]
        &&& p[i * 4 + 1] == p0[i * 4 + 1]
        &&& p[i * 4 + 2] == p0[i * 4 + 2]
    }
}

/// After one more stamp at `t`, every cell is still untouched or stamped
/// where `hit` allows, stamped cells stay stamped, and `t` is stamped.
pub proof fn lemma_stamp_sound(
    g0: Seq<Cell>,
    p0: Seq<u8>,
    g1: Seq<Cell>,
    p1: Seq<u8>,
    g2: Seq<Cell>,
    p2: Seq<u8>,
    t: int,
    pal: Palette,
    material: CellType,
    place: bool,
    hover: bool,
    hit: spec_fn(int) -> bool,
)
    requires
        g1.len() == g0.len(),
        0 <= t < g0.len(),
        hit(t),
        stamped(g1, p1, g2, p2, t, pal, material, place, hover),
        forall|j: int| 0 <= j < g1.len() && j != t ==> #[trigger] untouched(g1, p1, g2, p2, j),
        forall|i: int|
            0 <= i < g0.len() ==> #[trigger] untouched(g0, p0, g1, p1, i) || (hit(i) && stamped(
                g0,
                p0,
                g1,
                p1,
                i,
                pal,
                material,
                place,
                hover,
            )),
    ensures
        forall|i: int|
            0 <= i < g0.len() ==> #[trigger] untouched(g0, p0, g2, p2, i) || (hit(i) && stamped(
                g0,
                p0,
                g2,
                p2,
                i,
                pal,
                material,
                place,
                hover,
            )),
        forall|i: int|
            0 <= i < g0.len() && #[trigger] stamped(g0, p0, g1, p1, i, pal, material, place, hover) ==> stamped(
                g0,
                p0,
                g2,
                p2,
                i,
                pal,
                material,
                place,
                hover,
            ),
        stamped(g0, p0, g2, p2, t, pal, material, place, hover),
{
    assert(untouched(g0, p0, g1, p1, t) || stamped(g0, p0, g1, p1, t, pal, material, place, hover));
    assert forall|i: int|
        0 <= i < g0.len() implies #[trigger] untouched(g0, p0, g2, p2, i) || (hit(i) && stamped(
            g0,
            p0,
            g2,
            p2,
            i,
            pal,
            material,
            place,
            hover,
        )) by {
        if i != t {
            assert(untouched(g1, p1, g2, p2, i));
            assert(untouched(g0, p0, g1, p1, i) || (hit(i) && stamped(g0, p0, g1, p1, i, pal, material, place, hover)));
        }
    }
    assert forall|i: int|
        0 <= i < g0.len() && #[trigger] stamped(g0, p0, g1, p1, i, pal, material, place, hover) implies stamped(
            g0,
            p0,
            g2,
            p2,
            i,
            pal,
            material,
            place,
            hover,
        ) by {
        if i != t {
            assert(untouched(g1, p1, g2, p2, i));
        }
    }
}

/// A brush cell lies on the grid.
pub proof fn lemma_brush_cell_bounds(w: int, h: int, px: int, py: int, radius: int, ix: int, iy: int)
    requires
        w > 0,
        h > 0,
    ensures
        0 <= brush_cell(w, h, px, py, radius, ix, iy) < w * h,
{
    lemma_flat_bounds(w, h, clamp_to(px + ix - radius, w), clamp_to(py + iy - radius, h));
}

/// `s` at the start of the next tick: the counter moves on and stale stamps
/// equal to its new value are set back.
pub open spec fn advanced(s: Scene) -> Scene {
    let now = ((s.time + 1) % 256) as u8;
    Scene { time: now, grid: restamped(s.grid, s.time, now), ..s }
}

/// `t` follows from `s` by one tick: the counter moves on, then each range
/// of `plan` in turn is swept.
pub open spec fn ticked(s: Scene, t: Scene, plan: Seq<ColumnRange>, scan: ScanConfig) -> bool {
    exists|mids: Seq<Scene>|
        {
            &&& mids.len() == plan.len() + 1
            &&& mids[0] == advanced(s)
            &&& forall|k: int|
                0 <= k < plan.len() ==> #[trigger] swept(
                    mids[k],
                    mids[k + 1],
                    plan[k].start as int,
                    plan[k].end as int,
                    scan,
                )
            &&& #[trigger] mids.last() == t
        }
}

/// `t` follows from `s` by `steps` ticks over the column ranges of `plan`.
pub open spec fn ran(s: Scene, t: Scene, steps: int, plan: Seq<ColumnRange>, scan: ScanConfig) -> bool {
    exists|trace: Seq<Scene>|
        {
            &&& trace.len() == steps + 1
            &&& trace[0] == s
            &&& forall|i: int| 0 <= i < steps ==> #[trigger] ticked(trace[i], trace[i + 1], plan, scan)
            &&& #[trigger] trace.last() == t
        }
}

/// The scene of a grid and its pixel buffer, positioned on the first cell.
pub open spec fn start_scene(w: World, px: Seq<u8>) -> Scene {
    Scene {
        grid: w.grid@,
        pixels: px,
        width: w.width as int,
        height: w.height as int,
        time: w.time,
        palette: w.palette,
        x: 0,
        y: 0,
    }
}

/// `n` copies of `c`.
fn filled(c: Cell, n: usize) -> (r: Vec<Cell>)
    ensures
        r@.len() == n,
        forall|i: int| 0 <= i < n ==> #[trigger] r@[i] == c,
{
    let mut r: Vec<Cell> = Vec::new();
    let mut k: usize = 0;
    while k < n
        invariant
            k <= n,
            r@.len() == k,
            forall|i: int| 0 <= i < k ==> #[trigger] r@[i] == c,
        decreases n - k,
    {
        r.push(c);
        k = k + 1;
    }
    r
}

impl World {
    /// A grid of `width / density` by `height / density` cells of air.
    pub fn new(width: i32, height: i32, density: u32) -> (r: World)
        requires
            width >= 0,
            height >= 0,
            density > 0,
            dims_ok(width as int / density as int, height as int / density as int),
        ensures
            r.wf(),
            r.width == width as int / density as int,
            r.height == height as int / density as int,
            r.density == density,
            r.time == 0,
            r.scan == ScanConfig::standard_spec(),
            forall|i: int| 0 <= i < r.grid@.len() ==> is_new_cell(#[trigger] r.grid@[i], CellType::Air),
    {
        let height = (height as usize) / density as usize;
        let width = (width as usize) / density as usize;
        let grid = filled(Cell::new(CellType::Air), width * height);
        World { grid, density, width, height, time: 0, scan: ScanConfig::standard(), palette: Palette::standard() }
    }

    /// Reallocates the grid at `width` by `height` cells. The overlapping
    /// top-left region keeps its cells; the rest is air.
    pub fn resize(&mut self, width: usize, height: usize, _offsets: CenterLocation)
        requires
            old(self).wf(),
            dims_ok(width as int, height as int),
        ensures
            final(self).wf(),
            final(self).width == width,
            final(self).height == height,
            final(self).density == old(self).density,
            final(self).time == old(self).time,
            final(self).scan == old(self).scan,
            final(self).palette == old(self).palette,
            forall|c: int, r: int|
                0 <= c < width && 0 <= r < height ==> {
                    &&& (c < old(self).width && r < old(self).height) ==> #[trigger] final(self).cell(c, r)
                        == old(self).cell(c, r)
                    &&& !(c < old(self).width && r < old(self).height) ==> is_new_cell(
                        final(self).cell(c, r),
                        CellType::Air,
                    )
                },
    {
        let air = Cell::new(CellType::Air);
        let mut grid = filled(air, width * height);
        let rows = if height < self.height { height } else { self.height };
        let cols = if width < self.width { width } else { self.width };
        let old_width = self.width;
        let ghost g0 = self.grid@;
        proof {
            assert forall|c2: int, r2: int|
                0 <= c2 < width && 0 <= r2 < height implies #[trigger] grid@[flat(width as int, c2, r2)] == air by {
                lemma_flat_bounds(width as int, height as int, c2, r2);
            }
        }
        let mut r: usize = 0;
        while r < rows
            invariant
                self.wf(),
                self.grid@ == g0,
                self.width == old_width,
                dims_ok(width as int, height as int),
                rows <= height,
                rows <= self.height,
                cols <= width,
                cols <= self.width,
                r <= rows,
                grid@.len() == width * height,
                forall|c2: int, r2: int|
                    0 <= c2 < width && 0 <= r2 < height ==> #[trigger] grid@[flat(width as int, c2, r2)] == if r2
                        < r && c2 < cols {
                        g0[flat(old_width as int, c2, r2)]
                    } else {
                        air
                    },
            decreases rows - r,
        {
            let mut c: usize = 0;
            while c < cols
                invariant
                    self.wf(),
                    self.grid@ == g0,
                    self.width == old_width,
                    dims_ok(width as int, height as int),
                    rows <= height,
                    rows <= self.height,
                    cols <= width,
                    cols <= self.width,
                    r < rows,
                    c <= cols,
                    grid@.len() == width * height,
                    forall|c2: int, r2: int|
                        0 <= c2 < width && 0 <= r2 < height ==> #[trigger] grid@[flat(width as int, c2, r2)] == if (r2 < r
                            && c2 < cols) || (r2 == r && c2 < c) {
                            g0[flat(old_width as int, c2, r2)]
                        } else {
                            air
                        },
                decreases cols - c,
            {
                proof {
                    lemma_flat_bounds(width as int, height as int, c as int, r as int);
                    lemma_flat_bounds(old_width as int, self.height as int, c as int, r as int);
                }
                let cell = self.grid[r * old_width + c];
                grid.set(r * width + c, cell);
                proof {
                    assert forall|c2: int, r2: int|
                        0 <= c2 < width && 0 <= r2 < height implies #[trigger] grid@[flat(width as int, c2, r2)] == if (r2 < r
                            && c2 < cols) || (r2 == r && c2 < c + 1) {
                            g0[flat(old_width as int, c2, r2)]
                        } else {
                            air
                        } by {
                        lemma_flat_bounds(width as int, height as int, c2, r2);
                        if flat(width as int, c2, r2) == flat(width as int, c as int, r as int) {
                            lemma_flat_injective(width as int, c2, r2, c as int, r as int);
                        }
                    }
                }
                c = c + 1;
            }
            r = r + 1;
        }
        self.grid = grid;
        self.width = width;
        self.height = height;
    }

    /// Advances the grid by `steps` ticks, writing the colours of the cells
    /// that change into `pixels`. Each tick moves the counter on by one and
    /// then sweeps the column ranges of a plan that tiles the grid's width,
    /// one range after the other: one whole range for narrow grids, else a
    /// random left edge and equal chunks.
    pub fn simulate(&mut self, steps: u16, pixels: &mut [u8])
        requires
            old(self).wf(),
            old(pixels)@.len() == old(self).width * old(self).height * 4,
        ensures
            final(self).wf(),
            final(pixels)@.len() == old(pixels)@.len(),
            final(self).width == old(self).width,
            final(self).height == old(self).height,
            final(self).density == old(self).density,
            final(self).scan == old(self).scan,
            final(self).palette == old(self).palette,
            final(self).time == (old(self).time + steps) % 256,
            all_inert(old(self).grid@) ==> unstamped(final(self).grid@) == unstamped(old(self).grid@) && final(pixels)@
                == old(pixels)@,
            exists|plan: Seq<ColumnRange>, t: Scene|
                {
                    &&& tiles(plan, old(self).width as int)
                    &&& tick_plan(plan, old(self).width as int)
                    &&& #[trigger] ran(start_scene(*old(self), old(pixels)@), t, steps as int, plan, old(self).scan)
                    &&& t.grid == final(self).grid@
                    &&& t.pixels == final(pixels)@
                },
    {
        let width = self.width;
        let ranges = if width < SPLIT_MIN_WIDTH {
            let mut one: Vec<ColumnRange> = Vec::new();
            one.push(ColumnRange { start: 0, end: width });
            assert(one@ =~= seq![ColumnRange { start: 0, end: width }]);
            one
        } else {
            let left = usize_in(0, width / 16);
            plan_columns(width, left, CHUNKS)
        };
        assert(tiles(ranges@, width as int));
        assert(tick_plan(ranges@, width as int));
        let mut world = World {
            grid: Vec::new(),
            density: self.density,
            width: 0,
            height: 0,
            time: 0,
            scan: self.scan,
            palette: self.palette,
        };
        std::mem::swap(self, &mut world);
        let ghost w0 = world;
        let ghost px0 = pixels@;
        let mut api = CellsApi::new(world, slice_to_vec(pixels));
        let ghost mut trace: Seq<Scene> = seq![api.scene()];
        let mut step: u16 = 0;
        while step < steps
            invariant
                api.ready(),
                api.world.width == w0.width,
                api.world.height == w0.height,
                api.world.density == w0.density,
                api.world.scan == w0.scan,
                api.world.palette == w0.palette,
                api.world.time == (w0.time + step) % 256,
                all_inert(w0.grid@) ==> all_inert(api.world.grid@) && unstamped(api.world.grid@) == unstamped(w0.grid@) && api.pixels@ == px0,
                trace.len() == step + 1,
                trace[0] == start_scene(w0, px0),
                forall|i: int| 0 <= i < step ==> #[trigger] ticked(trace[i], trace[i + 1], ranges@, w0.scan),
                trace.last() == api.scene(),
                step <= steps,
                tiles(ranges@, w0.width as int),
            decreases steps - step,
        {
            let ghost tick_start = api.scene();
            api.advance_time();
            proof {
                let g1 = tick_start.grid;
                let g2 = api.world.grid@;
                assert(unstamped(g2) =~= unstamped(g1));
                if all_inert(w0.grid@) {
                    assert forall|i: int| 0 <= i < g2.len() implies crate::api::inert(#[trigger] g2[i].material) by {
                        assert(g2[i].material == g1[i].material);
                    }
                }
            }
            let ghost mut mids: Seq<Scene> = seq![api.scene()];
            let mut k: usize = 0;
            while k < ranges.len()
                invariant
                    api.ready(),
                    api.world.width == w0.width,
                    api.world.height == w0.height,
                    api.world.density == w0.density,
                    api.world.scan == w0.scan,
                    api.world.palette == w0.palette,
                api.world.palette == w0.palette,
                    api.world.time == (w0.time + step + 1) % 256,
                    all_inert(w0.grid@) ==> all_inert(api.world.grid@) && unstamped(api.world.grid@) == unstamped(w0.grid@) && api.pixels@ == px0,
                    mids.len() == k + 1,
                    mids[0] == advanced(tick_start),
                    forall|j: int|
                        0 <= j < k ==> #[trigger] swept(
                            mids[j],
                            mids[j + 1],
                            ranges@[j].start as int,
                            ranges@[j].end as int,
                            w0.scan,
                        ),
                    mids.last() == api.scene(),
                    k <= ranges@.len(),
                    tiles(ranges@, w0.width as int),
                decreases ranges.len() - k,
            {
                let range = ranges[k];
                proof {
                    assert(range.start <= range.end);
                    if k + 1 < ranges@.len() {
                        assert(ranges@[k + 1].start == range.end);
                    }
                    lemma_range_within(ranges@, w0.width as int, k as int);
                }
                let ghost before = mids;
                api.simulate(range.start, range.end);
                proof {
                    mids = mids.push(api.scene());
                    assert forall|j: int|
                        0 <= j < k + 1 implies #[trigger] swept(
                            mids[j],
                            mids[j + 1],
                            ranges@[j].start as int,
                            ranges@[j].end as int,
                            w0.scan,
                        ) by {
                        if j < k {
                            assert(mids[j] == before[j] && mids[j + 1] == before[j + 1]);
                        }
                    }
                }
                k = k + 1;
            }
            proof {
                let old_trace = trace;
                trace = trace.push(api.scene());
                assert(ticked(old_trace.last(), api.scene(), ranges@, w0.scan)) by {
                    assert(mids.last() == api.scene());
                }
                assert forall|i: int| 0 <= i < step + 1 implies #[trigger] ticked(trace[i], trace[i + 1], ranges@, w0.scan) by {
                    if i < step {
                        assert(trace[i] == old_trace[i] && trace[i + 1] == old_trace[i + 1]);
                    }
                }
            }
            step = step + 1;
        }
        proof {
            assert(ran(start_scene(w0, px0), trace.last(), steps as int, ranges@, w0.scan));
        }
        let (world, buffer) = api.into_parts();
        *self = world;
        let n = pixels.len();
        let mut i: usize = 0;
        while i < n
            invariant
                n == pixels@.len(),
                buffer@.len() == n,
                i <= n,
                forall|j: int| 0 <= j < i ==> pixels@[j] == buffer@[j],
            decreases n - i,
        {
            pixels[i] = buffer[i];
            i = i + 1;
        }
        assert(pixels@ =~= buffer@);
    }

    /// Writes `cell` at column `col`, row `row`, and its colour into `pixels`.
    pub fn put(&mut self, col: usize, row: usize, cell: Cell, pixels: &mut [u8])
        requires
            old(self).wf(),
            col < old(self).width,
            row < old(self).height,
            old(pixels)@.len() == old(self).width * old(self).height * 4,
        ensures
            final(self).wf(),
            final(self).grid@ == old(self).grid@.update(flat(old(self).width as int, col as int, row as int), cell),
            final(pixels)@ == paint(old(pixels)@, flat(old(self).width as int, col as int, row as int), cell),
            final(self).width == old(self).width,
            final(self).height == old(self).height,
            final(self).density == old(self).density,
            final(self).time == old(self).time,
            final(self).scan == old(self).scan,
    {
        proof {
            lemma_flat_bounds(self.width as int, self.height as int, col as int, row as int);
        }
        let i = row * self.width + col;
        self.grid.set(i, cell);
        pixels[i * 4] = cell.rgb[0];
        pixels[i * 4 + 1] = cell.rgb[1];
        pixels[i * 4 + 2] = cell.rgb[2];
    }

    /// Stamps the cell at column `x`, row `y`: when `place`, a fresh cell of
    /// `material` with its colour; in any case the alpha of the hover state.
    fn place_tile(
        &mut self,
        x: usize,
        y: usize,
        material: CellType,
        pixels: &mut [u8],
        hover: bool,
        place: bool,
    )
        requires
            old(self).wf(),
            x < old(self).width,
            y < old(self).height,
            old(pixels)@.len() == old(self).width * old(self).height * 4,
        ensures
            final(self).wf(),
            final(self).width == old(self).width,
            final(self).height == old(self).height,
            final(self).density == old(self).density,
            final(self).time == old(self).time,
            final(self).scan == old(self).scan,
            final(self).palette == old(self).palette,
            final(pixels)@.len() == old(pixels)@.len(),
            stamped(old(self).grid@, old(pixels)@, final(self).grid@, final(pixels)@, flat(old(self).width as int, x as int, y as int), old(self).palette, material, place, hover),
            forall|j: int| 0 <= j < old(self).grid@.len() && j != flat(old(self).width as int, x as int, y as int)
                ==> #[trigger] untouched(old(self).grid@, old(pixels)@, final(self).grid@, final(pixels)@, j),
    {
        proof {
            lemma_flat_bounds(self.width as int, self.height as int, x as int, y as int);
        }
        let index = y * self.width + x;
        if place {
            let shade = usize_in(0, 100) as u8;
            let cell = Cell::with_palette(&self.palette, material, shade);
            assert(is_new_in(self.palette, cell, material)) by {
                assert(cell == fresh_in(self.palette, material, shade as int));
            }
            self.grid.set(index, cell);
            pixels[index * 4] = cell.rgb[0];
            pixels[index * 4 + 1] = cell.rgb[1];
            pixels[index * 4 + 2] = cell.rgb[2];
        }
        if hover {
            pixels[index * 4 + 3] = 200;
        } else {
            pixels[index * 4 + 3] = 255;
        }
    }

    /// Stamps every cell of the grid within `radius` of `(x, y)`
    /// (`dx² + dy² <= radius²`): with `commit`, fresh cells of `material`;
    /// without, only a hover highlight.
    pub fn place_circle(
        &mut self,
        x: i32,
        y: i32,
        radius: u32,
        material: CellType,
        commit: bool,
        pixels: &mut [u8],
    )
        requires
            old(self).wf(),
            old(pixels)@.len() == old(self).width * old(self).height * 4,
        ensures
            final(self).wf(),
            final(self).width == old(self).width,
            final(self).height == old(self).height,
            final(self).density == old(self).density,
            final(self).time == old(self).time,
            final(self).scan == old(self).scan,
            final(self).palette == old(self).palette,
            final(pixels)@.len() == old(pixels)@.len(),
            forall|c: int, r: int|
                0 <= c < old(self).width && 0 <= r < old(self).height ==> if in_disc(x as int, y as int, radius as int, c, r) {
                    stamped(old(self).grid@, old(pixels)@, final(self).grid@, final(pixels)@, #[trigger] flat(old(self).width as int, c, r), old(self).palette, material, commit, !commit)
                } else {
                    untouched(old(self).grid@, old(pixels)@, final(self).grid@, final(pixels)@, flat(old(self).width as int, c, r))
                },
    {
        let ghost g0 = self.grid@;
        let ghost p0 = pixels@;
        let ghost w0 = *self;
        let width = self.width as i64;
        let height = self.height as i64;
        let r = radius as i64;
        let y0: i64 = if (y as i64) - r < 0 { 0 } else { (y as i64) - r };
        let y1: i64 = if (y as i64) + r + 1 > height { height } else { (y as i64) + r + 1 };
        let x0: i64 = if (x as i64) - r < 0 { 0 } else { (x as i64) - r };
        let x1: i64 = if (x as i64) + r + 1 > width { width } else { (x as i64) + r + 1 };
        proof {
            assert forall|c: int, rr: int| #[trigger] in_disc(x as int, y as int, radius as int, c, rr) implies x - radius <= c <= x + radius && y - radius <= rr <= y + radius by {
                lemma_disc_bounds(x as int, y as int, radius as int, c, rr);
            }
        }
        let mut row = y0;
        while row < y1
            invariant
                self.wf(),
                self.width == w0.width,
                self.height == w0.height,
                self.density == w0.density,
                self.time == w0.time,
                self.scan == w0.scan,
                self.palette == w0.palette,
                w0.wf(),
                g0 == w0.grid@,
                width == w0.width,
                height == w0.height,
                r == radius,
                forall|c: int, rr: int| #[trigger] in_disc(x as int, y as int, radius as int, c, rr) ==> x - radius <= c <= x + radius && y - radius <= rr <= y + radius,
                pixels@.len() == p0.len(),
                p0.len() == w0.width * w0.height * 4,
                y0 == (if y - r < 0 { 0 } else { y - r }),
                y1 == (if y + r + 1 > height { height as int } else { y + r + 1 }),
                x0 == (if x - r < 0 { 0 } else { x - r }),
                x1 == (if x + r + 1 > width { width as int } else { x + r + 1 }),
                y0 <= row,
                row <= y1 || y1 < y0,
                forall|c: int, rr: int|
                    0 <= c < width && 0 <= rr < height ==> if in_disc(x as int, y as int, radius as int, c, rr) && rr < row {
                        stamped(g0, p0, self.grid@, pixels@, #[trigger] flat(width as int, c, rr), w0.palette, material, commit, !commit)
                    } else {
                        untouched(g0, p0, self.grid@, pixels@, flat(width as int, c, rr))
                    },
            decreases y1 - row,
        {
            let mut col = x0;
            while col < x1
                invariant
                    self.wf(),
                    self.width == w0.width,
                    self.height == w0.height,
                    self.density == w0.density,
                    self.time == w0.time,
                    self.scan == w0.scan,
                    self.palette == w0.palette,
                    w0.wf(),
                    g0 == w0.grid@,
                    width == w0.width,
                    height == w0.height,
                    r == radius,
                    forall|c: int, rr: int| #[trigger] in_disc(x as int, y as int, radius as int, c, rr) ==> x - radius <= c <= x + radius && y - radius <= rr <= y + radius,
                    pixels@.len() == p0.len(),
                    p0.len() == w0.width * w0.height * 4,
                    y0 == (if y - r < 0 { 0 } else { y - r }),
                    y1 == (if y + r + 1 > height { height as int } else { y + r + 1 }),
                    x0 == (if x - r < 0 { 0 } else { x - r }),
                    x1 == (if x + r + 1 > width { width as int } else { x + r + 1 }),
                    y0 <= row < y1,
                    x0 <= col,
                    col <= x1 || x1 < x0,
                    forall|c: int, rr: int|
                        0 <= c < width && 0 <= rr < height ==> if in_disc(x as int, y as int, radius as int, c, rr) && (rr < row || (rr == row && c < col)) {
                            stamped(g0, p0, self.grid@, pixels@, #[trigger] flat(width as int, c, rr), w0.palette, material, commit, !commit)
                        } else {
                            untouched(g0, p0, self.grid@, pixels@, flat(width as int, c, rr))
                        },
                decreases x1 - col,
            {
                let dx = col as i128 - x as i128;
                let dy = row as i128 - y as i128;
                let rr2 = r as i128;
                assert(0 <= dx * dx <= 0x1_0000_0000_0000_0000) by (nonlinear_arith)
                    requires -0x1_0000_0000 <= dx <= 0x1_0000_0000;
                assert(0 <= dy * dy <= 0x1_0000_0000_0000_0000) by (nonlinear_arith)
                    requires -0x1_0000_0000 <= dy <= 0x1_0000_0000;
                assert(0 <= rr2 * rr2 <= 0x1_0000_0000_0000_0000) by (nonlinear_arith)
                    requires 0 <= rr2 <= 0x1_0000_0000;
                if dx * dx + dy * dy <= rr2 * rr2 {
                    let ghost g1 = self.grid@;
                    let ghost q1 = pixels@;
                    let cu = col as usize;
                    let ru = row as usize;
                    self.place_tile(cu, ru, material, pixels, !commit, commit);
                    proof {
                        assert forall|c: int, rr: int|
                            0 <= c < width && 0 <= rr < height implies if in_disc(x as int, y as int, radius as int, c, rr) && (rr < row || (rr == row && c < col + 1)) {
                                stamped(g0, p0, self.grid@, pixels@, #[trigger] flat(width as int, c, rr), w0.palette, material, commit, !commit)
                            } else {
                                untouched(g0, p0, self.grid@, pixels@, flat(width as int, c, rr))
                            } by {
                            lemma_flat_bounds(width as int, height as int, c, rr);
                            if flat(width as int, c, rr) == flat(width as int, cu as int, ru as int) {
                                lemma_flat_injective(width as int, c, rr, cu as int, ru as int);
                            } else {
                                assert(untouched(g1, q1, self.grid@, pixels@, flat(width as int, c, rr)));
                            }
                        }
                    }
                }
                col = col + 1;
            }
            row = row + 1;
        }
    }

    /// Draws a stroke of radius `radius` from `(x1, y1)` to `(x2, y2)`: the
    /// brush is stamped along the digital line between them, positions past
    /// the edge being moved onto it. With `place` the stamped cells become
    /// fresh cells of `material`; their alpha shows `hover`.
    pub fn draw_thick_line(
        &mut self,
        x1: i32,
        y1: i32,
        x2: i32,
        y2: i32,
        radius: isize,
        material: CellType,
        place: bool,
        hover: bool,
        pixels: &mut [u8],
    )
        requires
            old(self).wf(),
            old(pixels)@.len() == old(self).width * old(self).height * 4,
            walkable(x1 as int),
            walkable(y1 as int),
            walkable(x2 as int),
            walkable(y2 as int),
            radius <= MAX_SIDE,
        ensures
            final(self).wf(),
            final(self).width == old(self).width,
            final(self).height == old(self).height,
            final(self).density == old(self).density,
            final(self).time == old(self).time,
            final(self).scan == old(self).scan,
            final(self).palette == old(self).palette,
            final(pixels)@.len() == old(pixels)@.len(),
            forall|i: int|
                0 <= i < old(self).grid@.len() ==> #[trigger] untouched(old(self).grid@, old(pixels)@, final(self).grid@, final(pixels)@, i)
                    || (stroke_hit(thick_line_points(x1 as int, y1 as int, x2 as int, y2 as int), x1 as int, y1 as int, x2 as int, y2 as int, old(self).width as int, old(self).height as int, radius as int, i)
                    && stamped(old(self).grid@, old(pixels)@, final(self).grid@, final(pixels)@, i, old(self).palette, material, place, hover)),
            old(self).grid@.len() > 0 ==> forall|ix: int, iy: int|
                #[trigger] in_brush(radius as int, ix, iy) ==> stamped(old(self).grid@, old(pixels)@, final(self).grid@, final(pixels)@,
                    brush_cell(old(self).width as int, old(self).height as int, x2 as int, y2 as int, radius as int, ix, iy), old(self).palette, material, place, hover),
            old(self).grid@.len() > 0 ==> forall|ix: int, iy: int, k: int|
                in_brush(radius as int, ix, iy) && along_line(x1 as int, y1 as int, x2 as int, y2 as int, radius as int, ix, iy)
                    && 0 <= k < thick_line_points(x1 as int, y1 as int, x2 as int, y2 as int).len()
                    ==> stamped(old(self).grid@, old(pixels)@, final(self).grid@, final(pixels)@,
                    #[trigger] brush_cell(old(self).width as int, old(self).height as int,
                        thick_line_points(x1 as int, y1 as int, x2 as int, y2 as int)[k].0 as int,
                        thick_line_points(x1 as int, y1 as int, x2 as int, y2 as int)[k].1 as int, radius as int, ix, iy), old(self).palette, material, place, hover),
    {
        let mut line = line_points((x1 as isize, y1 as isize), (x2 as isize, y2 as isize));
        let ghost walk = line@;
        line.push((x2 as isize, y2 as isize));
        proof {
            assert forall|k: int| 0 <= k < line@.len() implies walkable(#[trigger] line@[k].0 as int) && walkable(line@[k].1 as int) by {
                if k < walk.len() {
                    assert(line@[k] == walk[k]);
                    assert(crate::line::between(walk[k].0 as int, x1 as int, x2 as int));
                }
            }
        }
        self.draw_thick_line_along(
            &line,
            x1 as isize,
            y1 as isize,
            x2 as isize,
            y2 as isize,
            radius,
            material,
            place,
            hover,
            pixels,
        );
    }

    /// Draws a stroke through the points of `line`, which ends at
    /// `(x2, y2)`, as `draw_thick_line` does once it has walked the line.
    pub fn draw_thick_line_along(
        &mut self,
        line: &Vec<(isize, isize)>,
        x1: isize,
        y1: isize,
        x2: isize,
        y2: isize,
        radius: isize,
        material: CellType,
        place: bool,
        hover: bool,
        pixels: &mut [u8],
    )
        requires
            old(self).wf(),
            old(pixels)@.len() == old(self).width * old(self).height * 4,
            line@.len() >= 1,
            line@.last() == (x2, y2),
            all_walkable(line@),
            walkable(x1 as int),
            walkable(y1 as int),
            radius <= MAX_SIDE,
        ensures
            final(self).wf(),
            final(self).width == old(self).width,
            final(self).height == old(self).height,
            final(self).density == old(self).density,
            final(self).time == old(self).time,
            final(self).scan == old(self).scan,
            final(self).palette == old(self).palette,
            final(pixels)@.len() == old(pixels)@.len(),
            forall|i: int|
                0 <= i < old(self).grid@.len() ==> #[trigger] untouched(old(self).grid@, old(pixels)@, final(self).grid@, final(pixels)@, i)
                    || (stroke_hit(line@, x1 as int, y1 as int, x2 as int, y2 as int, old(self).width as int, old(self).height as int, radius as int, i)
                    && stamped(old(self).grid@, old(pixels)@, final(self).grid@, final(pixels)@, i, old(self).palette, material, place, hover)),
            old(self).grid@.len() > 0 ==> forall|ix: int, iy: int|
                #[trigger] in_brush(radius as int, ix, iy) ==> stamped(old(self).grid@, old(pixels)@, final(self).grid@, final(pixels)@,
                    brush_cell(old(self).width as int, old(self).height as int, x2 as int, y2 as int, radius as int, ix, iy), old(self).palette, material, place, hover),
            old(self).grid@.len() > 0 ==> forall|ix: int, iy: int, k: int|
                in_brush(radius as int, ix, iy) && along_line(x1 as int, y1 as int, x2 as int, y2 as int, radius as int, ix, iy) && 0 <= k < line@.len()
                    ==> stamped(old(self).grid@, old(pixels)@, final(self).grid@, final(pixels)@,
                    #[trigger] brush_cell(old(self).width as int, old(self).height as int, line@[k].0 as int, line@[k].1 as int, radius as int, ix, iy), old(self).palette, material, place, hover),
    {
        let ghost g0 = self.grid@;
        let ghost p0 = pixels@;
        let ghost w0 = *self;
        if self.width == 0 || self.height == 0 || radius <= 0 {
            proof {
                if g0.len() > 0 {
                    assert(self.width * self.height > 0);
                }
            }
            return;
        }
        proof {
            assert(walkable(line@[line@.len() - 1].0 as int));
            assert(self.width * self.height > 0) by (nonlinear_arith)
                requires
                    self.width > 0,
                    self.height > 0,
            ;
        }
        let r = radius as i64;
        let mut iy: i64 = 0;
        while iy < 2 * r
            invariant
                self.wf(),
                self.width == w0.width,
                self.height == w0.height,
                self.density == w0.density,
                self.time == w0.time,
                self.scan == w0.scan,
                self.palette == w0.palette,
                w0.wf(),
                w0.width > 0,
                w0.height > 0,
                g0 == w0.grid@,
                g0.len() > 0,
                pixels@.len() == p0.len(),
                p0.len() == w0.width * w0.height * 4,
                r == radius,
                0 <= r <= MAX_SIDE,
                line@.len() >= 1,
                line@.last() == (x2, y2),
                all_walkable(line@),
                walkable(x1 as int),
                walkable(y1 as int),
                walkable(x2 as int),
                walkable(y2 as int),
                forall|i: int|
                    0 <= i < g0.len() ==> #[trigger] untouched(g0, p0, self.grid@, pixels@, i) || (stroke_hit(line@, x1 as int, y1 as int, x2 as int, y2 as int, w0.width as int, w0.height as int, radius as int, i)
                        && stamped(g0, p0, self.grid@, pixels@, i, w0.palette, material, place, hover)),
                forall|jx: int, jy: int|
                    #[trigger] in_brush(radius as int, jx, jy) && (jy < iy) ==> stamped(g0, p0, self.grid@, pixels@,
                        brush_cell(w0.width as int, w0.height as int, x2 as int, y2 as int, radius as int, jx, jy), w0.palette, material, place, hover),
                forall|jx: int, jy: int, k2: int|
                    in_brush(radius as int, jx, jy) && along_line(x1 as int, y1 as int, x2 as int, y2 as int, radius as int, jx, jy) && 0 <= k2 < line@.len() && (jy < iy) ==> stamped(g0, p0, self.grid@, pixels@,
                        #[trigger] brush_cell(w0.width as int, w0.height as int, line@[k2].0 as int, line@[k2].1 as int, radius as int, jx, jy), w0.palette, material, place, hover),
                0 <= iy <= 2 * r,
            decreases 2 * r - iy,
        {
            let mut ix: i64 = 0;
            while ix < 2 * r
                invariant
                    self.wf(),
                self.width == w0.width,
                self.height == w0.height,
                self.density == w0.density,
                self.time == w0.time,
                self.scan == w0.scan,
                self.palette == w0.palette,
                w0.wf(),
                w0.width > 0,
                w0.height > 0,
                g0 == w0.grid@,
                g0.len() > 0,
                pixels@.len() == p0.len(),
                p0.len() == w0.width * w0.height * 4,
                r == radius,
                0 <= r <= MAX_SIDE,
                line@.len() >= 1,
                line@.last() == (x2, y2),
                all_walkable(line@),
                walkable(x1 as int),
                walkable(y1 as int),
                walkable(x2 as int),
                walkable(y2 as int),
                forall|i: int|
                    0 <= i < g0.len() ==> #[trigger] untouched(g0, p0, self.grid@, pixels@, i) || (stroke_hit(line@, x1 as int, y1 as int, x2 as int, y2 as int, w0.width as int, w0.height as int, radius as int, i)
                        && stamped(g0, p0, self.grid@, pixels@, i, w0.palette, material, place, hover)),
                    forall|jx: int, jy: int|
                    #[trigger] in_brush(radius as int, jx, jy) && (jy < iy || (jy == iy && jx < ix)) ==> stamped(g0, p0, self.grid@, pixels@,
                        brush_cell(w0.width as int, w0.height as int, x2 as int, y2 as int, radius as int, jx, jy), w0.palette, material, place, hover),
                    forall|jx: int, jy: int, k2: int|
                        in_brush(radius as int, jx, jy) && along_line(x1 as int, y1 as int, x2 as int, y2 as int, radius as int, jx, jy) && 0 <= k2 < line@.len() && (jy < iy || (jy == iy && jx < ix)) ==> stamped(g0, p0, self.grid@, pixels@,
                            #[trigger] brush_cell(w0.width as int, w0.height as int, line@[k2].0 as int, line@[k2].1 as int, radius as int, jx, jy), w0.palette, material, place, hover),
                    0 <= iy < 2 * r,
                    0 <= ix <= 2 * r,
                decreases 2 * r - ix,
            {
                assert(0 <= (ix - r) * (ix - r) <= 0x1000_0000_0000_0000) by (nonlinear_arith)
                    requires
                        -0x4000_0000 <= ix - r <= 0x4000_0000,
                ;
                assert(0 <= (iy - r) * (iy - r) <= 0x1000_0000_0000_0000) by (nonlinear_arith)
                    requires
                        -0x4000_0000 <= iy - r <= 0x4000_0000,
                ;
                assert(0 <= r * r <= 0x1000_0000_0000_0000) by (nonlinear_arith)
                    requires
                        0 <= r <= 0x4000_0000,
                ;
                let d = (ix - r) * (ix - r) + (iy - r) * (iy - r);
                if d < r * r {
                    assert(in_brush(radius as int, ix as int, iy as int));
                    let ddx = x2 as i64 - x1 as i64;
                    let ddy = y2 as i64 - y1 as i64;
                    assert(-0x2000_0000_0000_0000 <= ddx * (ix - r) <= 0x2000_0000_0000_0000) by (nonlinear_arith)
                        requires
                            -0x8000_0000 <= ddx <= 0x8000_0000,
                            -0x4000_0000 <= ix - r <= 0x4000_0000,
                    ;
                    assert(-0x2000_0000_0000_0000 <= ddy * (iy - r) <= 0x2000_0000_0000_0000) by (nonlinear_arith)
                        requires
                            -0x8000_0000 <= ddy <= 0x8000_0000,
                            -0x4000_0000 <= iy - r <= 0x4000_0000,
                    ;
                    assert(0 <= (2 * r - 3) * (2 * r - 3) <= 0x1000_0000_0000_0000 * 4) by (nonlinear_arith)
                        requires
                            0 < r <= 0x4000_0000,
                    ;
                    let corner = ddx * (ix - r) + ddy * (iy - r) < 0 || r == 1;
                    let edge = r <= 1 || 4 * d >= (2 * r - 3) * (2 * r - 3);
                    if edge && corner {
                        let mut k: usize = 0;
                        while k < line.len()
                            invariant
                                self.wf(),
                self.width == w0.width,
                self.height == w0.height,
                self.density == w0.density,
                self.time == w0.time,
                self.scan == w0.scan,
                self.palette == w0.palette,
                w0.wf(),
                w0.width > 0,
                w0.height > 0,
                g0 == w0.grid@,
                g0.len() > 0,
                pixels@.len() == p0.len(),
                p0.len() == w0.width * w0.height * 4,
                r == radius,
                0 <= r <= MAX_SIDE,
                line@.len() >= 1,
                line@.last() == (x2, y2),
                all_walkable(line@),
                walkable(x1 as int),
                walkable(y1 as int),
                walkable(x2 as int),
                walkable(y2 as int),
                forall|i: int|
                    0 <= i < g0.len() ==> #[trigger] untouched(g0, p0, self.grid@, pixels@, i) || (stroke_hit(line@, x1 as int, y1 as int, x2 as int, y2 as int, w0.width as int, w0.height as int, radius as int, i)
                        && stamped(g0, p0, self.grid@, pixels@, i, w0.palette, material, place, hover)),
                                forall|jx: int, jy: int|
                    #[trigger] in_brush(radius as int, jx, jy) && (jy < iy || (jy == iy && jx < ix)) ==> stamped(g0, p0, self.grid@, pixels@,
                        brush_cell(w0.width as int, w0.height as int, x2 as int, y2 as int, radius as int, jx, jy), w0.palette, material, place, hover),
                                forall|jx: int, jy: int, k2: int|
                                    in_brush(radius as int, jx, jy) && along_line(x1 as int, y1 as int, x2 as int, y2 as int, radius as int, jx, jy) && 0 <= k2 < line@.len() && (jy < iy || (jy == iy && jx < ix) || (jy == iy && jx == ix && k2 < k)) ==> stamped(g0, p0, self.grid@, pixels@,
                                        #[trigger] brush_cell(w0.width as int, w0.height as int, line@[k2].0 as int, line@[k2].1 as int, radius as int, jx, jy), w0.palette, material, place, hover),
                                0 <= iy < 2 * r,
                                0 <= ix < 2 * r,
                                in_brush(radius as int, ix as int, iy as int),
                                along_line(x1 as int, y1 as int, x2 as int, y2 as int, radius as int, ix as int, iy as int),
                                k <= line@.len(),
                                k == line@.len() ==> stamped(g0, p0, self.grid@, pixels@,
                                    brush_cell(w0.width as int, w0.height as int, x2 as int, y2 as int, radius as int, ix as int, iy as int), w0.palette, material, place, hover),
                            decreases line.len() - k,
                        {
                            let (px, py) = line[k];
                            proof {
                                assert(walkable(line@[k as int].0 as int) && walkable(line@[k as int].1 as int));
                            }
                            let ghost g1 = self.grid@;
                            let ghost p1 = pixels@;
                            self.brush_stamp(px as i64, py as i64, ix, iy, r, material, place, hover, pixels);
                            proof {
                                let t = brush_cell(w0.width as int, w0.height as int, line@[k as int].0 as int, line@[k as int].1 as int, radius as int, ix as int, iy as int);
                                lemma_brush_cell_bounds(w0.width as int, w0.height as int, line@[k as int].0 as int, line@[k as int].1 as int, radius as int, ix as int, iy as int);
                                assert(stroke_hit(line@, x1 as int, y1 as int, x2 as int, y2 as int, w0.width as int, w0.height as int, radius as int, t));
                                lemma_stamp_sound(g0, p0, g1, p1, self.grid@, pixels@, t, w0.palette, material, place, hover,
                                    |i: int| stroke_hit(line@, x1 as int, y1 as int, x2 as int, y2 as int, w0.width as int, w0.height as int, radius as int, i));
                                assert forall|jx: int, jy: int|
                                    #[trigger] in_brush(radius as int, jx, jy) && (jy < iy || (jy == iy && jx < ix)) implies stamped(g0, p0, self.grid@, pixels@,
                                        brush_cell(w0.width as int, w0.height as int, x2 as int, y2 as int, radius as int, jx, jy), w0.palette, material, place, hover) by {
                                    lemma_brush_cell_bounds(w0.width as int, w0.height as int, x2 as int, y2 as int, radius as int, jx, jy);
                                }
                                if k + 1 == line@.len() {
                                    assert(line@[k as int] == (x2, y2));
                                }
                                assert forall|jx: int, jy: int, k2: int|
                                    in_brush(radius as int, jx, jy) && along_line(x1 as int, y1 as int, x2 as int, y2 as int, radius as int, jx, jy) && 0 <= k2 < line@.len()
                                        && (jy < iy || (jy == iy && jx < ix) || (jy == iy && jx == ix && k2 < k + 1)) implies stamped(g0, p0, self.grid@, pixels@,
                                    #[trigger] brush_cell(w0.width as int, w0.height as int, line@[k2].0 as int, line@[k2].1 as int, radius as int, jx, jy), w0.palette, material, place, hover) by {
                                    assert(walkable(line@[k2].0 as int));
                                    lemma_brush_cell_bounds(w0.width as int, w0.height as int, line@[k2].0 as int, line@[k2].1 as int, radius as int, jx, jy);
                                }
                            }
                            k = k + 1;
                        }
                    } else {
                        let ghost g1 = self.grid@;
                        let ghost p1 = pixels@;
                        self.brush_stamp(x2 as i64, y2 as i64, ix, iy, r, material, place, hover, pixels);
                        proof {
                            let last = line@.len() - 1;
                            assert(line@[last] == (x2, y2));
                            let t = brush_cell(w0.width as int, w0.height as int, x2 as int, y2 as int, radius as int, ix as int, iy as int);
                            lemma_brush_cell_bounds(w0.width as int, w0.height as int, x2 as int, y2 as int, radius as int, ix as int, iy as int);
                            assert(stroke_hit(line@, x1 as int, y1 as int, x2 as int, y2 as int, w0.width as int, w0.height as int, radius as int, t));
                            lemma_stamp_sound(g0, p0, g1, p1, self.grid@, pixels@, t, w0.palette, material, place, hover,
                                |i: int| stroke_hit(line@, x1 as int, y1 as int, x2 as int, y2 as int, w0.width as int, w0.height as int, radius as int, i));
                            assert forall|jx: int, jy: int|
                                #[trigger] in_brush(radius as int, jx, jy) && (jy < iy || (jy == iy && jx < ix)) implies stamped(g0, p0, self.grid@, pixels@,
                                    brush_cell(w0.width as int, w0.height as int, x2 as int, y2 as int, radius as int, jx, jy), w0.palette, material, place, hover) by {
                                lemma_brush_cell_bounds(w0.width as int, w0.height as int, x2 as int, y2 as int, radius as int, jx, jy);
                            }
                            assert(!along_line(x1 as int, y1 as int, x2 as int, y2 as int, radius as int, ix as int, iy as int));
                            assert forall|jx: int, jy: int, k2: int|
                                in_brush(radius as int, jx, jy) && along_line(x1 as int, y1 as int, x2 as int, y2 as int, radius as int, jx, jy) && 0 <= k2 < line@.len()
                                    && (jy < iy || (jy == iy && jx < ix)) implies stamped(g0, p0, self.grid@, pixels@,
                                #[trigger] brush_cell(w0.width as int, w0.height as int, line@[k2].0 as int, line@[k2].1 as int, radius as int, jx, jy), w0.palette, material, place, hover) by {
                                assert(walkable(line@[k2].0 as int));
                                lemma_brush_cell_bounds(w0.width as int, w0.height as int, line@[k2].0 as int, line@[k2].1 as int, radius as int, jx, jy);
                            }
                        }
                    }
                }
                ix = ix + 1;
            }
            iy = iy + 1;
        }
    }

    /// Stamps the cell that brush offset `(ix, iy)` around `(px, py)` lands
    /// on, moved onto the grid.
    fn brush_stamp(
        &mut self,
        px: i64,
        py: i64,
        ix: i64,
        iy: i64,
        r: i64,
        material: CellType,
        place: bool,
        hover: bool,
        pixels: &mut [u8],
    )
        requires
            old(self).wf(),
            old(self).width > 0,
            old(self).height > 0,
            old(pixels)@.len() == old(self).width * old(self).height * 4,
            walkable(px as int),
            walkable(py as int),
            0 <= ix < 2 * r,
            0 <= iy < 2 * r,
            0 < r <= MAX_SIDE,
        ensures
            final(self).wf(),
            final(self).width == old(self).width,
            final(self).height == old(self).height,
            final(self).density == old(self).density,
            final(self).time == old(self).time,
            final(self).scan == old(self).scan,
            final(self).palette == old(self).palette,
            final(pixels)@.len() == old(pixels)@.len(),
            stamped(old(self).grid@, old(pixels)@, final(self).grid@, final(pixels)@,
                brush_cell(old(self).width as int, old(self).height as int, px as int, py as int, r as int, ix as int, iy as int), old(self).palette, material, place, hover),
            forall|j: int| 0 <= j < old(self).grid@.len() && j != brush_cell(old(self).width as int, old(self).height as int, px as int, py as int, r as int, ix as int, iy as int)
                ==> #[trigger] untouched(old(self).grid@, old(pixels)@, final(self).grid@, final(pixels)@, j),
    {
        let cx = px + ix - r;
        let cy = py + iy - r;
        let w = self.width as i64;
        let h = self.height as i64;
        let col = if cx < 0 { 0 } else if cx > w - 1 { w - 1 } else { cx };
        let row = if cy < 0 { 0 } else if cy > h - 1 { h - 1 } else { cy };
        self.place_tile(col as usize, row as usize, material, pixels, hover, place);
    }

    /// Paints every cell into its four-byte slot of `pixels` (colour, then an
    /// alpha from its hover flag), then clears the hover flags.
    pub fn render(&mut self, pixels: &mut [u8])
        requires
            old(self).wf(),
            old(pixels)@.len() == old(self).width * old(self).height * 4,
        ensures
            final(self).wf(),
            final(pixels)@ == render_pixels(old(self).grid@),
            final(self).grid@ == cleared(old(self).grid@),
            final(self).width == old(self).width,
            final(self).height == old(self).height,
            final(self).density == old(self).density,
            final(self).time == old(self).time,
            final(self).scan == old(self).scan,
    {
        let ghost g0 = self.grid@;
        let ghost w0 = *self;
        let n = self.grid.len();
        let mut i: usize = 0;
        while i < n
            invariant
                self.wf(),
                self.width == w0.width,
                self.height == w0.height,
                self.density == w0.density,
                self.time == w0.time,
                self.scan == w0.scan,
                n == g0.len(),
                self.grid@.len() == n,
                pixels@.len() == n * 4,
                i <= n,
                forall|k: int| 0 <= k < i ==> #[trigger] self.grid@[k] == cleared(g0)[k],
                forall|k: int| i <= k < n ==> #[trigger] self.grid@[k] == g0[k],
                forall|j: int| 0 <= j < i * 4 ==> #[trigger] pixels@[j] == render_pixels(g0)[j],
            decreases n - i,
        {
            let cell = self.grid[i];
            pixels[i * 4] = cell.rgb[0];
            pixels[i * 4 + 1] = cell.rgb[1];
            pixels[i * 4 + 2] = cell.rgb[2];
            pixels[i * 4 + 3] = if cell.selected { 200 } else { 255 };
            self.grid.set(i, Cell { selected: false, ..cell });
            proof {
                assert forall|j: int| 0 <= j < (i + 1) * 4 implies #[trigger] pixels@[j] == render_pixels(g0)[j] by {
                    if j >= i * 4 {
                        assert(j / 4 == i);
                    }
                }
            }
            i = i + 1;
        }
        assert(self.grid@ =~= cleared(g0));
        assert(pixels@ =~= render_pixels(g0));
    }
}

} // verus!
