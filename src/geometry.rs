//! Points and the exact segment-crossing test.
use vstd::prelude::*;

verus! {

/// Largest absolute coordinate of a point that the geometry accepts. Every
/// product formed while testing a crossing or a distance then fits in 128 bits.
pub const GEOMETRY_LIMIT: i64 = 262144;

/// Largest absolute coordinate of an agent's position, of a sensor's reach
/// and of an obstacle's corner and length. A point plus a reach, or a corner
/// plus a length, then stays within `GEOMETRY_LIMIT`.
pub const WORLD_LIMIT: i64 = 131072;

/// A point, or a displacement, in integer arena units.
#[derive(Clone, Copy, Debug, PartialEq, Eq, Structural)]
pub struct Point {
    pub x: i64,
    pub y: i64,
}

impl Point {
    /// Both coordinates lie within `[-lim, lim]`.
    pub open spec fn within(self, lim: int) -> bool {
        -lim <= self.x <= lim && -lim <= self.y <= lim
    }
}

/// Two-dimensional cross product of `(ax, ay)` and `(bx, by)`.
pub open spec fn cross(ax: int, ay: int, bx: int, by: int) -> int {
    ax * by - ay * bx
}

/// Dot product of `(ax, ay)` and `(bx, by)`.
pub open spec fn dot(ax: int, ay: int, bx: int, by: int) -> int {
    ax * bx + ay * by
}

/// Where the segment `a1 -> a2` properly crosses the segment `b1 -> b2`, the
/// crossing lies at fraction `num / den` of the way from `a1` to `a2`, and
/// this is `Some((num, den))` with `0 < num < den`. Both crossing parameters
/// must lie strictly inside `(0, 1)`; parallel segments never cross.
pub open spec fn segment_crossing(a1: Point, a2: Point, b1: Point, b2: Point) -> Option<(int, int)> {
    let rx = a2.x - a1.x;
    let ry = a2.y - a1.y;
    let sx = b2.x - b1.x;
    let sy = b2.y - b1.y;
    let qx = b1.x - a1.x;
    let qy = b1.y - a1.y;
    let den = cross(rx, ry, sx, sy);
    let tn = cross(qx, qy, sx, sy);
    let un = cross(qx, qy, rx, ry);
    let (t, u, d) = if den > 0 { (tn, un, den) } else { (-tn, -un, -den) };
    if den != 0 && 0 < t < d && 0 < u < d {
        Some((t, d))
    } else {
        None
    }
}

/// The fraction `num / den` of the way along a segment where it is crossed.
#[derive(Clone, Copy, Debug, PartialEq, Eq, Structural)]
pub struct Crossing {
    pub num: i64,
    pub den: i64,
}

impl Crossing {
    pub open spec fn view(self) -> (int, int) {
        (self.num as int, self.den as int)
    }
}

pub proof fn lemma_mul_bounded(a: int, b: int, m: int, n: int)
    requires
        -m <= a <= m,
        -n <= b <= n,
    ensures
        -(m * n) <= a * b <= m * n,
{
    assert(-(m * n) <= a * b <= m * n) by (nonlinear_arith)
        requires
            -m <= a <= m,
            -n <= b <= n,
    ;
}

/// Cross product of two displacements whose coordinates are at most
/// `2 * GEOMETRY_LIMIT` in size.
fn cross_exec(ax: i64, ay: i64, bx: i64, by: i64) -> (r: i64)
    requires
        -2 * GEOMETRY_LIMIT <= ax <= 2 * GEOMETRY_LIMIT,
        -2 * GEOMETRY_LIMIT <= ay <= 2 * GEOMETRY_LIMIT,
        -2 * GEOMETRY_LIMIT <= bx <= 2 * GEOMETRY_LIMIT,
        -2 * GEOMETRY_LIMIT <= by <= 2 * GEOMETRY_LIMIT,
    ensures
        r == cross(ax as int, ay as int, bx as int, by as int),
        -2 * (2 * GEOMETRY_LIMIT) * (2 * GEOMETRY_LIMIT) <= r <= 2 * (2 * GEOMETRY_LIMIT) * (2
            * GEOMETRY_LIMIT),
{
    proof {
        lemma_mul_bounded(ax as int, by as int, 524288, 524288);
        lemma_mul_bounded(ay as int, bx as int, 524288, 524288);
    }
    ax * by - ay * bx
}

/// Tests whether the segment `a1 -> a2` properly crosses `b1 -> b2` and, if
/// so, returns how far along `a1 -> a2` the crossing lies.
pub fn line_intersection(a1: Point, a2: Point, b1: Point, b2: Point) -> (r: Option<Crossing>)
    requires
        a1.within(GEOMETRY_LIMIT as int),
        a2.within(GEOMETRY_LIMIT as int),
        b1.within(GEOMETRY_LIMIT as int),
        b2.within(GEOMETRY_LIMIT as int),
    ensures
        r.is_some() == segment_crossing(a1, a2, b1, b2).is_some(),
        r.is_some() ==> segment_crossing(a1, a2, b1, b2) == Some(r.unwrap()@),
        r.is_some() ==> 0 < r.unwrap().num < r.unwrap().den <= 549755813888,
{
    let rx = a2.x - a1.x;
    let ry = a2.y - a1.y;
    let sx = b2.x - b1.x;
    let sy = b2.y - b1.y;
    let qx = b1.x - a1.x;
    let qy = b1.y - a1.y;
    let den = cross_exec(rx, ry, sx, sy);
    if den == 0 {
        return None;
    }
    let tn = cross_exec(qx, qy, sx, sy);
    let un = cross_exec(qx, qy, rx, ry);
    let (t, u, d) = if den > 0 { (tn, un, den) } else { (-tn, -un, -den) };
    if 0 < t && t < d && 0 < u && u < d {
        Some(Crossing { num: t, den: d })
    } else {
        None
    }
}

} // verus!
