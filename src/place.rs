//! Brush edits as tasks: each holds a shape, the cell it writes and the
//! box it may touch. Tasks whose boxes do not overlap may run side by side.
use vstd::prelude::*;
use crate::cells::Cell;
use crate::world::{World, flat, lemma_flat_bounds, lemma_flat_injective};
use crate::api::lemma_paint_frame;
use crate::line::{bresenham_points, between, line_points, walkable};

verus! {

/// A point with the origin at the bottom left.
#[derive(Clone, Copy, Debug, Default, PartialEq, Eq)]
pub struct Point<T> {
    pub x: T,
    pub y: T,
}

impl<T: Copy> Point<T> {
    pub fn new(x: T, y: T) -> (r: Self)
        ensures
            r.x == x,
            r.y == y,
    {
        Self { x, y }
    }

    pub fn inner(&self) -> (r: (T, T))
        ensures
            r == (self.x, self.y),
    {
        (self.x, self.y)
    }
}

impl Point<usize> {
    pub fn isize(self) -> (r: Point<isize>)
        ensures
            r.x == self.x as isize,
            r.y == self.y as isize,
    {
        Point { x: self.x as isize, y: self.y as isize }
    }

    /// Both coordinates are below `isize::MAX`, so the point converts to
    /// signed coordinates and has a cell to its upper right.
    pub open spec fn fits(self) -> bool {
        self.x < isize::MAX && self.y < isize::MAX
    }
}

impl Point<isize> {
    pub fn usize(self) -> (r: Point<usize>)
        ensures
            r.x == self.x as usize,
            r.y == self.y as usize,
    {
        Point { x: self.x as usize, y: self.y as usize }
    }
}

/// An axis-aligned box of cells, half-open: it covers the columns
/// `bottom_left.x .. top_right.x` and the rows `bottom_left.y .. top_right.y`.
#[derive(Clone, Copy, Debug, PartialEq, Eq)]
pub struct BoundingBox {
    pub bottom_left: Point<isize>,
    pub top_right: Point<isize>,
}

pub open spec fn min_int(a: int, b: int) -> int {
    if a <= b {
        a
    } else {
        b
    }
}

pub open spec fn max_int(a: int, b: int) -> int {
    if a >= b {
        a
    } else {
        b
    }
}

/// `v - a`, stopping at `isize::MIN`.
pub open spec fn sat_sub(v: isize, a: int) -> isize {
    if v - a < isize::MIN {
        isize::MIN
    } else {
        (v - a) as isize
    }
}

/// `v + a`, stopping at `isize::MAX`.
pub open spec fn sat_add(v: isize, a: int) -> isize {
    if v + a > isize::MAX {
        isize::MAX
    } else {
        (v + a) as isize
    }
}

impl BoundingBox {
    /// The corners are ordered: the box is empty or covers something, never
    /// inside out.
    pub open spec fn corners_ok(self) -> bool {
        self.bottom_left.x <= self.top_right.x && self.bottom_left.y <= self.top_right.y
    }

    pub open spec fn width_spec(self) -> int {
        self.top_right.x - self.bottom_left.x
    }

    pub open spec fn height_spec(self) -> int {
        self.top_right.y - self.bottom_left.y
    }

    /// The box covers the cell `(x, y)`.
    pub open spec fn covers(self, x: int, y: int) -> bool {
        self.bottom_left.x <= x < self.top_right.x && self.bottom_left.y <= y < self.top_right.y
    }

    /// Strict overlap of the two spans on both axes. Boxes that only touch
    /// along an edge do not intersect.
    pub open spec fn overlaps(self, other: BoundingBox) -> bool {
        &&& self.bottom_left.x < other.top_right.x
        &&& self.top_right.x > other.bottom_left.x
        &&& self.bottom_left.y < other.top_right.y
        &&& self.top_right.y > other.bottom_left.y
    }

    pub open spec fn merged(self, other: BoundingBox) -> BoundingBox {
        BoundingBox {
            bottom_left: Point {
                x: min_int(self.bottom_left.x as int, other.bottom_left.x as int) as isize,
                y: min_int(self.bottom_left.y as int, other.bottom_left.y as int) as isize,
            },
            top_right: Point {
                x: max_int(self.top_right.x as int, other.top_right.x as int) as isize,
                y: max_int(self.top_right.y as int, other.top_right.y as int) as isize,
            },
        }
    }

    pub open spec fn expanded(self, amount: int) -> BoundingBox {
        BoundingBox {
            bottom_left: Point {
                x: sat_sub(self.bottom_left.x, amount),
                y: sat_sub(self.bottom_left.y, amount),
            },
            top_right: Point {
                x: sat_add(self.top_right.x, amount),
                y: sat_add(self.top_right.y, amount),
            },
        }
    }

    /// The one-cell box of `p`.
    pub open spec fn of_point(p: Point<isize>) -> BoundingBox {
        BoundingBox {
            bottom_left: p,
            top_right: Point { x: (p.x + 1) as isize, y: (p.y + 1) as isize },
        }
    }

    pub fn new(bl: Point<isize>, tr: Point<isize>) -> (r: Self)
        ensures
            r.bottom_left == bl,
            r.top_right == tr,
    {
        BoundingBox { bottom_left: bl, top_right: tr }
    }

    /// The box of the single cell `point`.
    pub fn point(point: Point<isize>) -> (r: Self)
        requires
            point.x < isize::MAX,
            point.y < isize::MAX,
        ensures
            r == BoundingBox::of_point(point),
    {
        BoundingBox { bottom_left: point, top_right: Point { x: point.x + 1, y: point.y + 1 } }
    }

    /// Grows the box to the smallest one that covers both.
    pub fn merge(&mut self, other: &BoundingBox)
        ensures
            *final(self) == old(self).merged(*other),
    {
        if other.bottom_left.x < self.bottom_left.x {
            self.bottom_left.x = other.bottom_left.x;
        }
        if other.bottom_left.y < self.bottom_left.y {
            self.bottom_left.y = other.bottom_left.y;
        }
        if other.top_right.x > self.top_right.x {
            self.top_right.x = other.top_right.x;
        }
        if other.top_right.y > self.top_right.y {
            self.top_right.y = other.top_right.y;
        }
    }

    pub fn verify_corners(&self) -> (r: bool)
        ensures
            r == self.corners_ok(),
    {
        let x = self.bottom_left.x <= self.top_right.x;
        let y = self.bottom_left.y <= self.top_right.y;
        x && y
    }

    pub fn intersects(&self, other: &BoundingBox) -> (r: bool)
        ensures
            r == self.overlaps(*other),
    {
        let x = self.bottom_left.x < other.top_right.x && self.top_right.x > other.bottom_left.x;
        let y = self.bottom_left.y < other.top_right.y && self.top_right.y > other.bottom_left.y;
        x && y
    }

    /// The box grown by `amount` cells on every side (saturating at the
    /// limits of `isize`).
    pub fn expand(&self, amount: usize) -> (r: BoundingBox)
        requires
            amount <= isize::MAX,
        ensures
            r == self.expanded(amount as int),
    {
        let amount = amount as isize;
        BoundingBox::new(
            Point::new(
                sub_saturating(self.bottom_left.x, amount),
                sub_saturating(self.bottom_left.y, amount),
            ),
            Point::new(
                add_saturating(self.top_right.x, amount),
                add_saturating(self.top_right.y, amount),
            ),
        )
    }

    /// Shrinks the box to lie within `bounds`; returns whether it changed.
    pub fn clamp(&mut self, bounds: &BoundingBox) -> (changed: bool)
        requires
            bounds.corners_ok(),
        ensures
            final(self).bottom_left.x == clamp_int(old(self).bottom_left.x as int, bounds.bottom_left.x as int, bounds.top_right.x as int),
            final(self).bottom_left.y == clamp_int(old(self).bottom_left.y as int, bounds.bottom_left.y as int, bounds.top_right.y as int),
            final(self).top_right.x == clamp_int(old(self).top_right.x as int, bounds.bottom_left.x as int, bounds.top_right.x as int),
            final(self).top_right.y == clamp_int(old(self).top_right.y as int, bounds.bottom_left.y as int, bounds.top_right.y as int),
            changed == (*final(self) != *old(self)),
    {
        let start = *self;
        self.top_right.y = clamp_isize(self.top_right.y, bounds.bottom_left.y, bounds.top_right.y);
        self.bottom_left.y = clamp_isize(
            self.bottom_left.y,
            bounds.bottom_left.y,
            bounds.top_right.y,
        );
        self.top_right.x = clamp_isize(self.top_right.x, bounds.bottom_left.x, bounds.top_right.x);
        self.bottom_left.x = clamp_isize(
            self.bottom_left.x,
            bounds.bottom_left.x,
            bounds.top_right.x,
        );
        !(start.bottom_left.x == self.bottom_left.x && start.bottom_left.y == self.bottom_left.y
            && start.top_right.x == self.top_right.x && start.top_right.y == self.top_right.y)
    }

    /// The `i`-th covered cell, rows outermost, bottom row first.
    pub open spec fn cell_at(self, i: int) -> (isize, isize) {
        (
            (self.bottom_left.x + i % self.width_spec()) as isize,
            (self.bottom_left.y + i / self.width_spec()) as isize,
        )
    }

    /// Every covered cell as `(x, y)`, row by row from the bottom.
    pub fn iter_2d(&self) -> (r: Vec<(isize, isize)>)
        requires
            self.corners_ok(),
            self.width_spec() * self.height_spec() <= usize::MAX,
        ensures
            r@.len() == self.width_spec() * self.height_spec(),
            forall|i: int| 0 <= i < r@.len() ==> #[trigger] r@[i] == self.cell_at(i),
    {
        let ghost w = self.width_spec();
        let mut r: Vec<(isize, isize)> = Vec::new();
        let mut y = self.bottom_left.y;
        while y < self.top_right.y
            invariant
                self.corners_ok(),
                w == self.width_spec(),
                self.width_spec() * self.height_spec() <= usize::MAX,
                self.bottom_left.y <= y <= self.top_right.y,
                r@.len() == (y - self.bottom_left.y) * w,
                forall|i: int| 0 <= i < r@.len() ==> #[trigger] r@[i] == self.cell_at(i),
            decreases self.top_right.y - y,
        {
            let mut x = self.bottom_left.x;
            while x < self.top_right.x
                invariant
                    self.corners_ok(),
                    w == self.width_spec(),
                    self.width_spec() * self.height_spec() <= usize::MAX,
                    self.bottom_left.y <= y < self.top_right.y,
                    self.bottom_left.x <= x <= self.top_right.x,
                    r@.len() == (y - self.bottom_left.y) * w + (x - self.bottom_left.x),
                    forall|i: int| 0 <= i < r@.len() ==> #[trigger] r@[i] == self.cell_at(i),
                decreases self.top_right.x - x,
            {
                proof {
                    let q = y - self.bottom_left.y;
                    let rem = x - self.bottom_left.x;
                    vstd::arithmetic::div_mod::lemma_fundamental_div_mod_converse(q * w + rem, w, q, rem);
                    assert(q * w + rem < self.width_spec() * self.height_spec()) by (nonlinear_arith)
                        requires
                            0 <= q < self.height_spec(),
                            0 <= rem < w,
                            w == self.width_spec(),
                    ;
                }
                r.push((x, y));
                x = x + 1;
            }
            proof {
                assert((y - self.bottom_left.y) * w + w == (y + 1 - self.bottom_left.y) * w) by (nonlinear_arith);
            }
            y = y + 1;
        }
        proof {
            assert((self.top_right.y - self.bottom_left.y) * w == self.width_spec() * self.height_spec()) by (nonlinear_arith)
                requires
                    w == self.width_spec(),
            ;
        }
        r
    }

    /// Number of cells covered, saturating at `usize::MAX`.
    pub fn area(&self) -> (r: usize)
        requires
            self.corners_ok(),
        ensures
            r == min_int(self.width_spec() * self.height_spec(), usize::MAX as int),
    {
        let w = (self.top_right.x as i128 - self.bottom_left.x as i128) as u128;
        let h = (self.top_right.y as i128 - self.bottom_left.y as i128) as u128;
        assert(w * h <= u128::MAX) by (nonlinear_arith)
            requires
                w <= 0x1_0000_0000_0000_0000,
                h <= 0xffff_ffff_ffff_ffff,
        ;
        let a = w * h;
        if a > usize::MAX as u128 {
            usize::MAX
        } else {
            a as usize
        }
    }
}

pub open spec fn clamp_int(v: int, lo: int, hi: int) -> int {
    if v < lo {
        lo
    } else if v > hi {
        hi
    } else {
        v
    }
}

fn sub_saturating(v: isize, a: isize) -> (r: isize)
    requires
        a >= 0,
    ensures
        r == sat_sub(v, a as int),
{
    if v < isize::MIN + a {
        isize::MIN
    } else {
        v - a
    }
}

fn add_saturating(v: isize, a: isize) -> (r: isize)
    requires
        a >= 0,
    ensures
        r == sat_add(v, a as int),
{
    if v > isize::MAX - a {
        isize::MAX
    } else {
        v + a
    }
}

fn clamp_isize(v: isize, lo: isize, hi: isize) -> (r: isize)
    requires
        lo <= hi,
    ensures
        r == clamp_int(v as int, lo as int, hi as int),
{
    if v < lo {
        lo
    } else if v > hi {
        hi
    } else {
        v
    }
}

/// Intersection is symmetric; boxes that only share an edge or a corner do
/// not intersect; and a box intersects itself exactly when it covers a cell,
/// so an empty box never does. Two non-empty boxes that intersect share a
/// cell.
pub proof fn lemma_intersects_symmetric(a: BoundingBox, b: BoundingBox)
    ensures
        a.overlaps(b) == b.overlaps(a),
        a.top_right.x == b.bottom_left.x ==> !a.overlaps(b),
        a.top_right.y == b.bottom_left.y ==> !a.overlaps(b),
        a.overlaps(a) == (a.width_spec() > 0 && a.height_spec() > 0),
        a.overlaps(b) && a.width_spec() > 0 && a.height_spec() > 0 && b.width_spec() > 0
            && b.height_spec() > 0 ==> exists|x: int, y: int| a.covers(x, y) && b.covers(x, y),
{
    if a.overlaps(b) && a.width_spec() > 0 && a.height_spec() > 0 && b.width_spec() > 0
        && b.height_spec() > 0 {
        let x = max_int(a.bottom_left.x as int, b.bottom_left.x as int);
        let y = max_int(a.bottom_left.y as int, b.bottom_left.y as int);
        assert(a.covers(x, y) && b.covers(x, y));
    }
}

/// The shape of a brush edit.
#[derive(Clone, Debug)]
pub enum PlaceLineType {
    /// Every cell of the box.
    Rectangle(BoundingBox),
    /// Every cell within the radius of the centre.
    Circle(Point<usize>, usize),
    /// A stroke of the given radius through the points, in order.
    Lines(Vec<Point<usize>>, usize),
}

/// The box of the first `n` points.
pub open spec fn hull(pts: Seq<Point<usize>>, n: int) -> BoundingBox
    decreases n,
{
    if n <= 1 {
        BoundingBox::of_point(signed(pts[0]))
    } else {
        hull(pts, n - 1).merged(BoundingBox::of_point(signed(pts[n - 1])))
    }
}

pub open spec fn signed(p: Point<usize>) -> Point<isize> {
    Point { x: p.x as isize, y: p.y as isize }
}

/// The points that a stroke through `pts` stamps: the digital line of each
/// pair of consecutive points, then the last point.
pub open spec fn stroke(pts: Seq<Point<usize>>, n: int) -> Seq<(isize, isize)>
    decreases n,
{
    if n <= 1 {
        seq![(pts[0].x as isize, pts[0].y as isize)]
    } else {
        let a = pts[n - 2];
        let b = pts[n - 1];
        stroke(pts, n - 1).drop_last() + bresenham_points(a.x as int, a.y as int, b.x as int, b.y as int)
            + seq![(b.x as isize, b.y as isize)]
    }
}

/// Squared distance between two cells.
pub open spec fn dist2(x1: int, y1: int, x2: int, y2: int) -> int {
    (x1 - x2) * (x1 - x2) + (y1 - y2) * (y1 - y2)
}

/// Some point of `pts` lies within `radius` of `(x, y)`.
pub open spec fn near_any(pts: Seq<(isize, isize)>, radius: int, x: int, y: int) -> bool {
    exists|k: int| 0 <= k < pts.len() && dist2(pts[k].0 as int, pts[k].1 as int, x, y) <= radius * radius
}

impl PlaceLineType {
    /// Coordinates are small enough to walk and to box, and a stroke has at
    /// least two points.
    pub open spec fn shape_ok(&self) -> bool {
        match self {
            PlaceLineType::Rectangle(b) => b.corners_ok(),
            PlaceLineType::Circle(p, r) => walkable(p.x as int) && walkable(p.y as int) && *r
                <= isize::MAX,
            PlaceLineType::Lines(v, r) => v@.len() >= 2 && *r <= isize::MAX && points_walkable(v@),
        }
    }

    pub open spec fn bbox(&self) -> BoundingBox {
        match self {
            PlaceLineType::Rectangle(b) => *b,
            PlaceLineType::Circle(p, r) => BoundingBox::of_point(signed(*p)).expanded(*r as int),
            PlaceLineType::Lines(v, r) => hull(v@, v@.len() as int).expanded(*r as int),
        }
    }

    /// The shape writes the cell `(x, y)` (within its box).
    pub open spec fn hits(&self, x: int, y: int) -> bool {
        match self {
            PlaceLineType::Rectangle(b) => true,
            PlaceLineType::Circle(p, r) => dist2(p.x as int, p.y as int, x, y) <= *r as int * *r as int,
            PlaceLineType::Lines(v, r) => near_any(stroke(v@, v@.len() as int), *r as int, x, y),
        }
    }

    /// The box that the edit may write to.
    pub fn bounding_box(&self) -> (r: BoundingBox)
        requires
            self.shape_ok(),
        ensures
            r == self.bbox(),
            r.corners_ok(),
    {
        match self {
            PlaceLineType::Rectangle(bounding_box) => *bounding_box,
            PlaceLineType::Circle(point, radius) => {
                BoundingBox::point(point.isize()).expand(*radius)
            },
            PlaceLineType::Lines(points, radius) => {
                let mut bounds = BoundingBox::point(points[0].isize());
                let mut i: usize = 1;
                while i < points.len()
                    invariant
                        self.shape_ok(),
                        *self == PlaceLineType::Lines(*points, *radius),
                        1 <= i <= points@.len(),
                        bounds == hull(points@, i as int),
                        bounds.corners_ok(),
                    decreases points.len() - i,
                {
                    let p = points[i];
                    assert(walkable(points@[i as int].x as int));
                    bounds.merge(&BoundingBox::point(p.isize()));
                    i = i + 1;
                }
                bounds.expand(*radius)
            },
        }
    }

    /// A coarse cost of the edit: the area of its box.
    pub fn estimate_compute_work(&self) -> (r: usize)
        requires
            self.shape_ok(),
        ensures
            r == min_int(self.bbox().width_spec() * self.bbox().height_spec(), usize::MAX as int),
    {
        self.bounding_box().area()
    }
}

/// Every point of `pts` has walkable coordinates.
pub open spec fn points_walkable(pts: Seq<Point<usize>>) -> bool {
    forall|i: int| 0 <= i < pts.len() ==> walkable(#[trigger] pts[i].x as int) && walkable(pts[i].y as int)
}

/// Every point of `pts` has walkable coordinates.
pub open spec fn all_walkable(pts: Seq<(isize, isize)>) -> bool {
    forall|k: int| 0 <= k < pts.len() ==> walkable(#[trigger] pts[k].0 as int) && walkable(pts[k].1 as int)
}

/// Builds the points that a stroke through `points` stamps.
fn stroke_points(points: &Vec<Point<usize>>) -> (r: Vec<(isize, isize)>)
    requires
        points@.len() >= 1,
        points_walkable(points@),
    ensures
        r@ == stroke(points@, points@.len() as int),
        all_walkable(r@),
{
    let mut r: Vec<(isize, isize)> = Vec::new();
    r.push((points[0].x as isize, points[0].y as isize));
    let mut i: usize = 1;
    while i < points.len()
        invariant
            1 <= i <= points@.len(),
            points_walkable(points@),
            r@ == stroke(points@, i as int),
            r@.len() >= 1,
            all_walkable(r@),
        decreases points.len() - i,
    {
        let a = points[i - 1];
        let b = points[i];
        assert(walkable(points@[i - 1].x as int));
        assert(walkable(points@[i as int].x as int));
        r.pop();
        let ghost kept = r@;
        let mut seg = line_points((a.x as isize, a.y as isize), (b.x as isize, b.y as isize));
        let ghost walk = seg@;
        r.append(&mut seg);
        r.push((b.x as isize, b.y as isize));
        proof {
            assert(all_walkable(kept));
            assert(all_walkable(walk)) by {
                assert forall|k: int| 0 <= k < walk.len() implies walkable(#[trigger] walk[k].0 as int)
                    && walkable(walk[k].1 as int) by {
                    assert(between(walk[k].0 as int, a.x as int, b.x as int));
                }
            }
            assert(r@ =~= kept + walk + seq![(b.x as isize, b.y as isize)]);
            assert forall|k: int| 0 <= k < r@.len() implies walkable(#[trigger] r@[k].0 as int)
                && walkable(r@[k].1 as int) by {
                if k < kept.len() {
                    assert(r@[k] == kept[k]);
                } else if k < kept.len() + walk.len() {
                    assert(r@[k] == walk[k - kept.len()]);
                }
            }
        }
        i = i + 1;
    }
    r
}

/// Whether some point of `pts` lies within `radius` of `(x, y)`.
fn near_any_exec(pts: &Vec<(isize, isize)>, radius: usize, x: isize, y: isize) -> (r: bool)
    requires
        all_walkable(pts@),
        walkable(x as int),
        walkable(y as int),
        radius <= isize::MAX,
    ensures
        r == near_any(pts@, radius as int, x as int, y as int),
{
    assert(radius as i128 * radius as i128 <= 0x4000_0000_0000_0000_0000_0000_0000_0000) by (nonlinear_arith)
        requires
            0 <= radius <= 0x7fff_ffff_ffff_ffff,
    ;
    let r2: i128 = radius as i128 * radius as i128;
    let mut k: usize = 0;
    while k < pts.len()
        invariant
            all_walkable(pts@),
            walkable(x as int),
            walkable(y as int),
            r2 == radius * radius,
            k <= pts@.len(),
            forall|j: int| 0 <= j < k ==> dist2(pts@[j].0 as int, pts@[j].1 as int, x as int, y as int) > radius * radius,
        decreases pts.len() - k,
    {
        let px = pts[k].0;
        let py = pts[k].1;
        assert(walkable(pts@[k as int].0 as int) && walkable(pts@[k as int].1 as int));
        let dx = px as i128 - x as i128;
        let dy = py as i128 - y as i128;
        assert(0 <= dx * dx <= 0x1_0000_0000_0000_0000) by (nonlinear_arith)
            requires -0x8000_0000 <= dx <= 0x8000_0000;
        assert(0 <= dy * dy <= 0x1_0000_0000_0000_0000) by (nonlinear_arith)
            requires -0x8000_0000 <= dy <= 0x8000_0000;
        if dx * dx + dy * dy <= r2 {
            assert(dist2(pts@[k as int].0 as int, pts@[k as int].1 as int, x as int, y as int) <= radius * radius);
            return true;
        }
        k = k + 1;
    }
    false
}

/// What a task writes.
#[derive(Clone, Copy, Debug)]
pub enum TaskPlaceAction {
    PlaceCell(Cell),
}

impl TaskPlaceAction {
    pub open spec fn cell(self) -> Cell {
        match self {
            TaskPlaceAction::PlaceCell(c) => c,
        }
    }
}

/// A task moves strictly forward through these states.
#[derive(Clone, Copy, Debug, PartialEq, Eq, Structural)]
pub enum TaskState {
    Unstarted,
    InProgress,
    Completed,
}

/// A brush edit waiting for, holding, or done with its box.
#[derive(Clone, Debug)]
pub struct PlaceLineTask {
    pub dirty_rect: BoundingBox,
    pub variant: PlaceLineType,
    pub action: TaskPlaceAction,
    pub state: TaskState,
}

impl PlaceLineTask {
    /// The box is the shape's box.
    pub open spec fn wf(&self) -> bool {
        &&& self.variant.shape_ok()
        &&& self.dirty_rect == self.variant.bbox()
    }

    /// The shape writes the cell `(x, y)` (within its box), a stroke being
    /// taken through the points `pts`.
    pub open spec fn hits_along(&self, pts: Seq<(isize, isize)>, x: int, y: int) -> bool {
        match self.variant {
            PlaceLineType::Lines(_, r) => near_any(pts, r as int, x, y),
            _ => self.variant.hits(x, y),
        }
    }

    /// The task writes the cell `(x, y)`, a stroke being taken through the
    /// points `pts`.
    pub open spec fn writes_along(&self, pts: Seq<(isize, isize)>, x: int, y: int) -> bool {
        self.dirty_rect.covers(x, y) && self.hits_along(pts, x, y)
    }

    /// The task writes the cell `(x, y)`.
    pub open spec fn writes(&self, x: int, y: int) -> bool {
        self.dirty_rect.covers(x, y) && self.variant.hits(x, y)
    }

    pub fn new(variant: PlaceLineType, action: TaskPlaceAction) -> (r: Self)
        requires
            variant.shape_ok(),
        ensures
            r.wf(),
            r.variant == variant,
            r.action == action,
            r.state == TaskState::Unstarted,
    {
        Self { dirty_rect: variant.bounding_box(), variant, action, state: TaskState::Unstarted }
    }

    /// Whether the two tasks' boxes intersect.
    pub fn intersects(&self, other: &PlaceLineTask) -> (r: bool)
        ensures
            r == self.dirty_rect.overlaps(other.dirty_rect),
    {
        self.dirty_rect.intersects(&other.dirty_rect)
    }

    pub fn set_state(&mut self, state: TaskState)
        ensures
            *final(self) == (PlaceLineTask { state, ..*old(self) }),
    {
        self.state = state;
    }

    pub fn state(&self) -> (r: TaskState)
        ensures
            r == self.state,
    {
        self.state
    }

    pub fn unstarted(&self) -> (r: bool)
        ensures
            r == (self.state == TaskState::Unstarted),
    {
        self.state == TaskState::Unstarted
    }

    /// Writes the task's cell over every cell of the grid that the shape
    /// covers within its box, with its colour into `pixels`, and completes
    /// the task. Cells past the grid's edge are skipped.
    pub fn run(&mut self, world: &mut World, pixels: &mut [u8])
        requires
            old(self).wf(),
            old(self).state == TaskState::InProgress,
            old(world).wf(),
            old(pixels)@.len() == old(world).width * old(world).height * 4,
        ensures
            *final(self) == (PlaceLineTask { state: TaskState::Completed, ..*old(self) }),
            final(world).wf(),
            final(world).width == old(world).width,
            final(world).height == old(world).height,
            final(world).density == old(world).density,
            final(world).time == old(world).time,
            final(world).scan == old(world).scan,
            final(pixels)@.len() == old(pixels)@.len(),
            forall|c: int, r: int|
                0 <= c < old(world).width && 0 <= r < old(world).height ==> #[trigger] final(world).cell(c, r) == if old(self).writes(c, r) {
                    old(self).action.cell()
                } else {
                    old(world).cell(c, r)
                },
            forall|c: int, r: int, k: int|
                0 <= c < old(world).width && 0 <= r < old(world).height && 0 <= k < 4 ==> #[trigger] final(pixels)@[flat(old(world).width as int, c, r) * 4 + k] == if old(self).writes(c, r) && k < 3 {
                    old(self).action.cell().rgb[k]
                } else {
                    old(pixels)@[flat(old(world).width as int, c, r) * 4 + k]
                },
    {
        let pts = match &self.variant {
            PlaceLineType::Lines(points, _) => stroke_points(points),
            _ => Vec::new(),
        };
        proof {
            assert forall|c: int, r: int| self.writes_along(pts@, c, r) == self.writes(c, r) by {}
        }
        self.run_along(&pts, world, pixels);
    }

    /// Writes the task's cell over every cell of the grid that the shape
    /// covers within its box, a stroke being taken through the walked points
    /// `pts`, with its colour into `pixels`, and completes the task. Cells
    /// past the grid's edge are skipped.
    pub fn run_along(&mut self, pts: &Vec<(isize, isize)>, world: &mut World, pixels: &mut [u8])
        requires
            old(self).wf(),
            old(self).state == TaskState::InProgress,
            old(world).wf(),
            old(pixels)@.len() == old(world).width * old(world).height * 4,
            all_walkable(pts@),
        ensures
            *final(self) == (PlaceLineTask { state: TaskState::Completed, ..*old(self) }),
            final(world).wf(),
            final(world).width == old(world).width,
            final(world).height == old(world).height,
            final(world).density == old(world).density,
            final(world).time == old(world).time,
            final(world).scan == old(world).scan,
            final(pixels)@.len() == old(pixels)@.len(),
            forall|c: int, r: int|
                0 <= c < old(world).width && 0 <= r < old(world).height ==> #[trigger] final(world).cell(c, r) == if old(self).writes_along(pts@, c, r) {
                    old(self).action.cell()
                } else {
                    old(world).cell(c, r)
                },
            forall|c: int, r: int, k: int|
                0 <= c < old(world).width && 0 <= r < old(world).height && 0 <= k < 4 ==> #[trigger] final(pixels)@[flat(old(world).width as int, c, r) * 4 + k] == if old(self).writes_along(pts@, c, r) && k < 3 {
                    old(self).action.cell().rgb[k]
                } else {
                    old(pixels)@[flat(old(world).width as int, c, r) * 4 + k]
                },
    {
        let ghost w0 = *world;
        let ghost p0 = pixels@;
        let ghost task = *self;
        let cell = match self.action {
            TaskPlaceAction::PlaceCell(c) => c,
        };
        let b = self.dirty_rect;
        let width = world.width;
        let height = world.height;
        let y0: isize = if b.bottom_left.y < 0 { 0 } else { b.bottom_left.y };
        let y1: isize = if b.top_right.y > height as isize { height as isize } else { b.top_right.y };
        let x0: isize = if b.bottom_left.x < 0 { 0 } else { b.bottom_left.x };
        let x1: isize = if b.top_right.x > width as isize { width as isize } else { b.top_right.x };
        let mut y = y0;
        while y < y1
            invariant
                task.wf(),
                *self == task,
                task.dirty_rect == b,
                world.wf(),
                world.width == w0.width,
                world.height == w0.height,
                world.density == w0.density,
                world.time == w0.time,
                world.scan == w0.scan,
                w0.wf(),
                width == w0.width,
                height == w0.height,
                pixels@.len() == p0.len(),
                p0.len() == w0.width * w0.height * 4,
                y0 == (if b.bottom_left.y < 0 { 0 } else { b.bottom_left.y }),
                y1 == (if b.top_right.y > height as isize { height as isize } else { b.top_right.y }),
                x0 == (if b.bottom_left.x < 0 { 0 } else { b.bottom_left.x }),
                x1 == (if b.top_right.x > width as isize { width as isize } else { b.top_right.x }),
                cell == task.action.cell(),
                all_walkable(pts@),
                forall|c: int, r: int|
                    0 <= c < width && 0 <= r < height ==> #[trigger] world.cell(c, r) == if task.writes_along(pts@, c, r) && (r < y) {
                        cell
                    } else {
                        w0.cell(c, r)
                    },
                forall|c: int, r: int, k: int|
                    0 <= c < width && 0 <= r < height && 0 <= k < 4 ==> #[trigger] pixels@[flat(width as int, c, r) * 4 + k] == if task.writes_along(pts@, c, r) && (r < y) && k < 3 {
                        cell.rgb[k]
                    } else {
                        p0[flat(width as int, c, r) * 4 + k]
                    },
                y0 <= y,
                y <= y1 || y1 < y0,
            decreases y1 - y,
        {
            let mut x = x0;
            while x < x1
                invariant
                task.wf(),
                *self == task,
                task.dirty_rect == b,
                world.wf(),
                world.width == w0.width,
                world.height == w0.height,
                world.density == w0.density,
                world.time == w0.time,
                world.scan == w0.scan,
                w0.wf(),
                width == w0.width,
                height == w0.height,
                pixels@.len() == p0.len(),
                p0.len() == w0.width * w0.height * 4,
                y0 == (if b.bottom_left.y < 0 { 0 } else { b.bottom_left.y }),
                y1 == (if b.top_right.y > height as isize { height as isize } else { b.top_right.y }),
                x0 == (if b.bottom_left.x < 0 { 0 } else { b.bottom_left.x }),
                x1 == (if b.top_right.x > width as isize { width as isize } else { b.top_right.x }),
                cell == task.action.cell(),
                all_walkable(pts@),
                forall|c: int, r: int|
                    0 <= c < width && 0 <= r < height ==> #[trigger] world.cell(c, r) == if task.writes_along(pts@, c, r) && (r < y || (r == y && c < x)) {
                        cell
                    } else {
                        w0.cell(c, r)
                    },
                forall|c: int, r: int, k: int|
                    0 <= c < width && 0 <= r < height && 0 <= k < 4 ==> #[trigger] pixels@[flat(width as int, c, r) * 4 + k] == if task.writes_along(pts@, c, r) && (r < y || (r == y && c < x)) && k < 3 {
                        cell.rgb[k]
                    } else {
                        p0[flat(width as int, c, r) * 4 + k]
                    },
                    y0 <= y < y1,
                    x0 <= x,
                    x <= x1 || x1 < x0,
                decreases x1 - x,
            {
                let hit = match &self.variant {
                    PlaceLineType::Rectangle(_) => true,
                    PlaceLineType::Circle(p, radius) => {
                        let dx = p.x as i128 - x as i128;
                        let dy = p.y as i128 - y as i128;
                        assert(0 <= dx * dx <= 0x1_0000_0000_0000_0000) by (nonlinear_arith)
                            requires -0x8000_0000 <= dx <= 0x8000_0000;
                        assert(0 <= dy * dy <= 0x1_0000_0000_0000_0000) by (nonlinear_arith)
                            requires -0x8000_0000 <= dy <= 0x8000_0000;
                        assert(*radius as i128 * *radius as i128 <= 0x4000_0000_0000_0000_0000_0000_0000_0000) by (nonlinear_arith)
                            requires 0 <= *radius <= 0x7fff_ffff_ffff_ffff;
                        dx * dx + dy * dy <= *radius as i128 * *radius as i128
                    },
                    PlaceLineType::Lines(_, radius) => near_any_exec(&pts, *radius, x, y),
                };
                assert(hit == task.hits_along(pts@, x as int, y as int));
                assert(task.dirty_rect.covers(x as int, y as int));
                if hit {
                    let ghost g1 = world.grid@;
                    let ghost q1 = pixels@;
                    let xu = x as usize;
                    let yu = y as usize;
                    world.put(xu, yu, cell, pixels);
                    proof {
                        assert(world.grid@ == g1.update(flat(width as int, xu as int, yu as int), cell));
                        assert forall|c: int, r: int|
                            0 <= c < width && 0 <= r < height && (c != xu || r != yu) implies
                            #[trigger] world.grid@[flat(width as int, c, r)] == g1[flat(width as int, c, r)] by {
                            lemma_flat_bounds(width as int, height as int, c, r);
                            lemma_flat_bounds(width as int, height as int, xu as int, yu as int);
                            if flat(width as int, c, r) == flat(width as int, xu as int, yu as int) {
                                lemma_flat_injective(width as int, c, r, xu as int, yu as int);
                                assert(false);
                            }
                            let i = flat(width as int, xu as int, yu as int);
                            let j = flat(width as int, c, r);
                            assert(j != i);
                            assert(0 <= j < g1.len());
                            assert(g1.update(i, cell)[j] == g1[j]);
                        }
                        assert forall|c: int, r: int, k: int|
                            0 <= c < width && 0 <= r < height && 0 <= k < 4 && (c != xu || r != yu) implies
                            #[trigger] pixels@[flat(width as int, c, r) * 4 + k] == q1[flat(width as int, c, r) * 4 + k] by {
                            lemma_flat_bounds(width as int, height as int, c, r);
                            lemma_flat_bounds(width as int, height as int, xu as int, yu as int);
                            if flat(width as int, c, r) == flat(width as int, xu as int, yu as int) {
                                lemma_flat_injective(width as int, c, r, xu as int, yu as int);
                            }
                            lemma_paint_frame(q1, flat(width as int, xu as int, yu as int), cell, flat(width as int, c, r), k);
                        }
                        lemma_flat_bounds(width as int, height as int, xu as int, yu as int);
                    }
                }
                x = x + 1;
            }
            y = y + 1;
        }
        self.set_state(TaskState::Completed);
    }
}

/// No two tasks in progress have intersecting boxes.
pub open spec fn no_conflicts(ts: Seq<PlaceLineTask>) -> bool {
    forall|i: int, j: int|
        0 <= i < j < ts.len() ==> !(#[trigger] ts[i].state == TaskState::InProgress && #[trigger] ts[j].state
            == TaskState::InProgress && ts[i].dirty_rect.overlaps(ts[j].dirty_rect))
}

/// Some task in progress has a box that intersects `b`.
pub open spec fn blocked_by(ts: Seq<PlaceLineTask>, b: BoundingBox) -> bool {
    exists|i: int|
        0 <= i < ts.len() && ts[i].state == TaskState::InProgress && #[trigger] ts[i].dirty_rect.overlaps(b)
}

/// Task `i` may start now: it has not started and nothing in progress
/// blocks it.
pub open spec fn admissible(ts: Seq<PlaceLineTask>, i: int) -> bool {
    ts[i].state == TaskState::Unstarted && !blocked_by(ts, ts[i].dirty_rect)
}

pub open spec fn has_unstarted(ts: Seq<PlaceLineTask>) -> bool {
    exists|i: int| 0 <= i < ts.len() && #[trigger] ts[i].state == TaskState::Unstarted
}

/// Estimated work of the first `n` tasks, saturating at `usize::MAX`.
pub open spec fn work_of(ts: Seq<PlaceLineTask>, n: int) -> int
    decreases n,
{
    if n <= 0 {
        0
    } else {
        min_int(
            work_of(ts, n - 1) + min_int(
                ts[n - 1].dirty_rect.width_spec() * ts[n - 1].dirty_rect.height_spec(),
                usize::MAX as int,
            ),
            usize::MAX as int,
        )
    }
}

/// `after` is `before` with task `i` started, and `i` is the first task
/// that could start.
pub open spec fn admitted(before: Seq<PlaceLineTask>, after: Seq<PlaceLineTask>, i: int) -> bool {
    &&& 0 <= i < before.len()
    &&& admissible(before, i)
    &&& forall|j: int| 0 <= j < i ==> !admissible(before, j)
    &&& after == before.update(i, PlaceLineTask { state: TaskState::InProgress, ..before[i] })
}

/// The queue of brush tasks.
pub struct LineDrawTasks {
    pub tasks: Vec<PlaceLineTask>,
}

/// A task handed out to run; it names the task by its place in the queue.
pub struct LineDrawTask {
    pub index: usize,
}

/// The answer of the queue to a request for work.
pub enum Admission {
    /// The handed-out task may start; the queue now holds it in progress.
    Admitted(LineDrawTask),
    /// Tasks wait, but each is blocked by one in progress: wait for a
    /// completion and ask again.
    Blocked,
    /// No task waits.
    Idle,
}

impl LineDrawTask {
    pub fn new(index: usize) -> (r: Self)
        ensures
            r.index == index,
    {
        LineDrawTask { index }
    }

    /// Runs the task on the grid and completes it.
    pub fn execute(self, queue: &mut LineDrawTasks, world: &mut World, pixels: &mut [u8])
        requires
            old(queue).wf(),
            self.index < old(queue).tasks@.len(),
            old(queue).tasks@[self.index as int].state == TaskState::InProgress,
            old(world).wf(),
            old(pixels)@.len() == old(world).width * old(world).height * 4,
        ensures
            final(queue).wf(),
            final(queue).tasks@ == old(queue).tasks@.update(
                self.index as int,
                PlaceLineTask { state: TaskState::Completed, ..old(queue).tasks@[self.index as int] },
            ),
            final(world).wf(),
            final(world).width == old(world).width,
            final(world).height == old(world).height,
            final(pixels)@.len() == old(pixels)@.len(),
            forall|c: int, r: int|
                0 <= c < old(world).width && 0 <= r < old(world).height ==> #[trigger] final(world).cell(c, r) == if old(queue).tasks@[self.index as int].writes(c, r) {
                    old(queue).tasks@[self.index as int].action.cell()
                } else {
                    old(world).cell(c, r)
                },
    {
        let ghost ts = queue.tasks@;
        let mut task = queue.tasks.remove(self.index);
        task.run(world, pixels);
        queue.tasks.insert(self.index, task);
        proof {
            assert(queue.tasks@ =~= ts.update(
                self.index as int,
                PlaceLineTask { state: TaskState::Completed, ..ts[self.index as int] },
            ));
        }
    }
}

impl LineDrawTasks {
    /// Every task is well formed and no two tasks in progress intersect.
    pub open spec fn wf(&self) -> bool {
        &&& forall|i: int| 0 <= i < self.tasks@.len() ==> (#[trigger] self.tasks@[i]).wf()
        &&& no_conflicts(self.tasks@)
    }

    pub fn new() -> (r: Self)
        ensures
            r.wf(),
            r.tasks@.len() == 0,
    {
        Self { tasks: Vec::new() }
    }

    /// Queues a task that has not started.
    pub fn add_task(&mut self, task: PlaceLineTask)
        requires
            old(self).wf(),
            task.wf(),
            task.state != TaskState::InProgress,
        ensures
            final(self).wf(),
            final(self).tasks@ == old(self).tasks@.push(task),
    {
        self.tasks.push(task);
    }

    /// The summed box areas of the queued tasks, saturating at `usize::MAX`.
    pub fn estimate_work(&self) -> (r: usize)
        requires
            self.wf(),
        ensures
            r == work_of(self.tasks@, self.tasks@.len() as int),
    {
        let mut sum: usize = 0;
        let mut i: usize = 0;
        while i < self.tasks.len()
            invariant
                self.wf(),
                i <= self.tasks@.len(),
                sum == work_of(self.tasks@, i as int),
            decreases self.tasks.len() - i,
        {
            assert(self.tasks@[i as int].wf());
            let w = self.tasks[i].variant.estimate_compute_work();
            sum = if sum > usize::MAX - w { usize::MAX } else { sum + w };
            i = i + 1;
        }
        sum
    }

    /// Whether a task in progress blocks `task`.
    fn conflicts_with_active_task(&self, task: &PlaceLineTask) -> (r: bool)
        ensures
            r == blocked_by(self.tasks@, task.dirty_rect),
    {
        let mut i: usize = 0;
        while i < self.tasks.len()
            invariant
                i <= self.tasks@.len(),
                forall|j: int|
                    0 <= j < i ==> !(self.tasks@[j].state == TaskState::InProgress
                        && #[trigger] self.tasks@[j].dirty_rect.overlaps(task.dirty_rect)),
            decreases self.tasks.len() - i,
        {
            if self.tasks[i].state == TaskState::InProgress && self.tasks[i].intersects(task) {
                return true;
            }
            i = i + 1;
        }
        false
    }

    /// Hands out the first task that may start now, marking it in progress.
    pub fn remove_task(&mut self) -> (r: Admission)
        requires
            old(self).wf(),
        ensures
            final(self).wf(),
            match r {
                Admission::Admitted(t) => admitted(old(self).tasks@, final(self).tasks@, t.index as int),
                Admission::Blocked => {
                    &&& has_unstarted(old(self).tasks@)
                    &&& forall|j: int| 0 <= j < old(self).tasks@.len() ==> !admissible(old(self).tasks@, j)
                    &&& final(self).tasks@ == old(self).tasks@
                },
                Admission::Idle => {
                    &&& !has_unstarted(old(self).tasks@)
                    &&& final(self).tasks@ == old(self).tasks@
                },
            },
    {
        let ghost ts = self.tasks@;
        let mut waiting = false;
        let mut i: usize = 0;
        while i < self.tasks.len()
            invariant
                self.wf(),
                self.tasks@ == ts,
                ts == old(self).tasks@,
                i <= ts.len(),
                forall|j: int| 0 <= j < i ==> !admissible(ts, j),
                waiting == exists|j: int| 0 <= j < i && #[trigger] ts[j].state == TaskState::Unstarted,
            decreases self.tasks.len() - i,
        {
            if self.tasks[i].state == TaskState::Unstarted {
                waiting = true;
                if !self.conflicts_with_active_task(&self.tasks[i]) {
                    let mut task = self.tasks.remove(i);
                    task.set_state(TaskState::InProgress);
                    self.tasks.insert(i, task);
                    proof {
                        let nt = self.tasks@;
                        assert(nt =~= ts.update(
                            i as int,
                            PlaceLineTask { state: TaskState::InProgress, ..ts[i as int] },
                        ));
                        assert forall|a: int, b: int|
                            0 <= a < b < nt.len() implies !(#[trigger] nt[a].state == TaskState::InProgress
                                && #[trigger] nt[b].state == TaskState::InProgress && nt[a].dirty_rect.overlaps(
                                nt[b].dirty_rect,
                            )) by {
                            if a == i && nt[b].state == TaskState::InProgress && nt[a].dirty_rect.overlaps(nt[b].dirty_rect) {
                                lemma_intersects_symmetric(nt[a].dirty_rect, nt[b].dirty_rect);
                                assert(ts[b].dirty_rect.overlaps(ts[i as int].dirty_rect));
                            }
                            if b == i && nt[a].state == TaskState::InProgress && nt[a].dirty_rect.overlaps(nt[b].dirty_rect) {
                                assert(ts[a].dirty_rect.overlaps(ts[i as int].dirty_rect));
                            }
                        }
                        assert forall|k: int| 0 <= k < nt.len() implies (#[trigger] nt[k]).wf() by {
                            assert(ts[k].wf());
                        }
                    }
                    let handed = LineDrawTask::new(i);
                    assert(admissible(ts, handed.index as int));
                    assert(forall|j: int| 0 <= j < handed.index ==> !admissible(ts, j));
                    assert(self.tasks@ == ts.update(
                        handed.index as int,
                        PlaceLineTask { state: TaskState::InProgress, ..ts[handed.index as int] },
                    ));
                    assert(self.wf());
                    assert(admitted(ts, self.tasks@, handed.index as int));
                    return Admission::Admitted(handed);
                }
            }
            i = i + 1;
        }
        if waiting {
            Admission::Blocked
        } else {
            Admission::Idle
        }
    }

    /// Marks a task in progress as completed, releasing its box.
    pub fn complete(&mut self, task: &LineDrawTask)
        requires
            old(self).wf(),
            task.index < old(self).tasks@.len(),
        ensures
            final(self).wf(),
            final(self).tasks@ == old(self).tasks@.update(
                task.index as int,
                PlaceLineTask { state: TaskState::Completed, ..old(self).tasks@[task.index as int] },
            ),
    {
        let ghost ts = self.tasks@;
        let mut t = self.tasks.remove(task.index);
        t.set_state(TaskState::Completed);
        self.tasks.insert(task.index, t);
        proof {
            assert(self.tasks@ =~= ts.update(
                task.index as int,
                PlaceLineTask { state: TaskState::Completed, ..ts[task.index as int] },
            ));
            assert forall|k: int| 0 <= k < self.tasks@.len() implies (#[trigger] self.tasks@[k]).wf() by {
                assert(ts[k].wf());
            }
        }
    }

    /// Drops the completed tasks, keeping the others in order.
    pub fn delete_completed(&mut self)
        requires
            old(self).wf(),
        ensures
            final(self).wf(),
            final(self).tasks@ == old(self).tasks@.filter(|t: PlaceLineTask| t.state != TaskState::Completed),
    {
        let ghost ts = self.tasks@;
        let ghost pred = |t: PlaceLineTask| t.state != TaskState::Completed;
        let mut kept: Vec<PlaceLineTask> = Vec::new();
        let ghost mut from: Seq<int> = Seq::empty();
        while self.tasks.len() > 0
            invariant
                self.tasks@.len() <= ts.len(),
                pred == (|t: PlaceLineTask| t.state != TaskState::Completed),
                self.tasks@ == ts.subrange(ts.len() - self.tasks@.len(), ts.len() as int),
                kept@ == ts.subrange(0, ts.len() - self.tasks@.len()).filter(pred),
                from.len() == kept@.len(),
                forall|k: int| 0 <= k < from.len() ==> 0 <= #[trigger] from[k] < ts.len() - self.tasks@.len(),
                forall|k: int| 0 <= k < from.len() ==> kept@[k] == ts[#[trigger] from[k]],
                forall|a: int, b: int| 0 <= a < b < from.len() ==> #[trigger] from[a] < #[trigger] from[b],
            decreases self.tasks@.len(),
        {
            let ghost done = ts.len() - self.tasks@.len();
            let ghost before = kept@;
            let t = self.tasks.remove(0);
            proof {
                assert(t == ts[done]);
                assert(self.tasks@ =~= ts.subrange(done + 1, ts.len() as int));
            }
            if t.state != TaskState::Completed {
                kept.push(t);
                proof {
                    from = from.push(done);
                }
            }
            proof {
                reveal(Seq::filter);
                let pre = ts.subrange(0, done + 1);
                assert(pre.drop_last() =~= ts.subrange(0, done));
                assert(pre.last() == ts[done]);
                assert(pre.len() > 0);
                assert(pre.filter(pred) == if pred(pre.last()) {
                    pre.drop_last().filter(pred).push(pre.last())
                } else {
                    pre.drop_last().filter(pred)
                });
                assert(before == ts.subrange(0, done).filter(pred));
                assert(pred(ts[done]) == (ts[done].state != TaskState::Completed));
                if t.state != TaskState::Completed {
                    assert(kept@ == before.push(t));
                } else {
                    assert(kept@ == before);
                }
                assert(kept@ == pre.filter(pred));
            }
        }
        self.tasks = kept;
        proof {
            assert(ts.subrange(0, ts.len() as int) =~= ts);
            assert forall|a: int, b: int|
                0 <= a < b < kept@.len() implies !(#[trigger] kept@[a].state == TaskState::InProgress
                    && #[trigger] kept@[b].state == TaskState::InProgress && kept@[a].dirty_rect.overlaps(
                    kept@[b].dirty_rect,
                )) by {
                assert(from[a] < from[b]);
            }
            assert forall|k: int| 0 <= k < kept@.len() implies (#[trigger] kept@[k]).wf() by {
                assert(kept@[k] == ts[from[k]]);
            }
        }
    }
}

/// Admission never lets two tasks in progress share any part of their
/// boxes: in a well-formed queue, any two different tasks in progress have
/// boxes that do not intersect, in either order.
pub proof fn lemma_admission_safe(q: &LineDrawTasks, i: int, j: int)
    requires
        q.wf(),
        0 <= i < q.tasks@.len(),
        0 <= j < q.tasks@.len(),
        i != j,
        q.tasks@[i].state == TaskState::InProgress,
        q.tasks@[j].state == TaskState::InProgress,
    ensures
        !q.tasks@[i].dirty_rect.overlaps(q.tasks@[j].dirty_rect),
        !q.tasks@[j].dirty_rect.overlaps(q.tasks@[i].dirty_rect),
{
    lemma_intersects_symmetric(q.tasks@[i].dirty_rect, q.tasks@[j].dirty_rect);
    if i < j {
        assert(!(q.tasks@[i].state == TaskState::InProgress && q.tasks@[j].state == TaskState::InProgress
            && q.tasks@[i].dirty_rect.overlaps(q.tasks@[j].dirty_rect)));
    } else {
        assert(!(q.tasks@[j].state == TaskState::InProgress && q.tasks@[i].state == TaskState::InProgress
            && q.tasks@[j].dirty_rect.overlaps(q.tasks@[i].dirty_rect)));
    }
}

} // verus!
