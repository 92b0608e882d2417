//! Digital lines between two cells, as the `bresenham` crate walks them.
use vstd::prelude::*;

verus! {

/// The points that `bresenham::Bresenham` yields from `(x1, y1)` toward
/// `(x2, y2)`.
pub uninterp spec fn bresenham_points(x1: int, y1: int, x2: int, y2: int) -> Seq<(isize, isize)>;

/// Coordinates small enough for the line walker's differences and
/// reflections to stay within `isize`.
pub open spec fn walkable(v: int) -> bool {
    -0x3fff_ffff <= v <= 0x3fff_ffff
}

/// Whether `v` is small enough to walk, as `walkable` states.
pub fn walkable_exec(v: isize) -> (r: bool)
    ensures
        r == walkable(v as int),
{
    -0x3fff_ffff <= v && v <= 0x3fff_ffff
}

pub open spec fn abs_int(v: int) -> int {
    if v < 0 {
        -v
    } else {
        v
    }
}

/// `v` lies between `a` and `b`, both included.
pub open spec fn between(v: int, a: int, b: int) -> bool {
    (a <= v <= b) || (b <= v <= a)
}

/// Relies on `bresenham::Bresenham::new(start, end)` and its iterator: it
/// yields the points from `start` toward `end`, `start` included and `end`
/// not, one per step along the longer axis, each between the two ends.
#[verifier::external_body]
pub(crate) fn line_points(start: (isize, isize), end: (isize, isize)) -> (r: Vec<(isize, isize)>)
    requires
        walkable(start.0 as int),
        walkable(start.1 as int),
        walkable(end.0 as int),
        walkable(end.1 as int),
    ensures
        r@ == bresenham_points(start.0 as int, start.1 as int, end.0 as int, end.1 as int),
        r@.len() == if abs_int(end.0 - start.0) >= abs_int(end.1 - start.1) {
            abs_int(end.0 - start.0)
        } else {
            abs_int(end.1 - start.1)
        },
        r@.len() > 0 ==> r@[0] == start,
        forall|i: int|
            0 <= i < r@.len() ==> between(#[trigger] r@[i].0 as int, start.0 as int, end.0 as int)
                && between(r@[i].1 as int, start.1 as int, end.1 as int),
{
    bresenham::Bresenham::new(start, end).collect()
}

} // verus!
