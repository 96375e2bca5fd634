//! Geometry utilities: AABB overlap, line-segment intersection, line-vs-box
//! intersection (line of sight), and integer Euclidean distance.

use vstd::prelude::*;

verus! {

/// Side length of a static block and of the player and drone squares, in pixels.
pub const BLOCK_SIZE: i32 = 40;

/// Side length of a bullet square, in pixels.
pub const BULLET_SIZE: i32 = 8;

/// Coordinates handed to the line tests and the distance are kept within this
/// bound so that every intermediate product fits in an `i64` and every distance
/// fits in an `i32`.
pub const COORD_LIMIT: i32 = 100_000_000;

/// A coordinate the geometry functions accept.
pub open spec fn coord_ok(v: int) -> bool {
    -(COORD_LIMIT as int) <= v <= COORD_LIMIT as int
}

/// Two axis-aligned squares, given by top-left corner and side, overlap
/// strictly: touching edges do not count.
pub open spec fn aabb_overlap(x1: int, y1: int, s1: int, x2: int, y2: int, s2: int) -> bool {
    &&& x1 < x2 + s2
    &&& x1 + s1 > x2
    &&& y1 < y2 + s2
    &&& y1 + s1 > y2
}

/// AABB collision test over the full `i32` range.
pub fn aabb_test(x1: i32, y1: i32, s1: i32, x2: i32, y2: i32, s2: i32) -> (r: bool)
    ensures
        r == aabb_overlap(x1 as int, y1 as int, s1 as int, x2 as int, y2 as int, s2 as int),
{
    (x1 as i64) < (x2 as i64) + (s2 as i64)
        && (x1 as i64) + (s1 as i64) > (x2 as i64)
        && (y1 as i64) < (y2 as i64) + (s2 as i64)
        && (y1 as i64) + (s1 as i64) > (y2 as i64)
}

/// The overlap test does not depend on the order of its two squares.
pub proof fn lemma_aabb_symmetric(x1: int, y1: int, s1: int, x2: int, y2: int, s2: int)
    ensures
        aabb_overlap(x1, y1, s1, x2, y2, s2) == aabb_overlap(x2, y2, s2, x1, y1, s1),
{
}

/// Squares that merely touch along an edge do not overlap.
pub proof fn lemma_aabb_touching_edges(x1: int, y1: int, s1: int, x2: int, y2: int, s2: int)
    ensures
        x1 + s1 == x2 ==> !aabb_overlap(x1, y1, s1, x2, y2, s2),
        x2 + s2 == x1 ==> !aabb_overlap(x1, y1, s1, x2, y2, s2),
        y1 + s1 == y2 ==> !aabb_overlap(x1, y1, s1, x2, y2, s2),
        y2 + s2 == y1 ==> !aabb_overlap(x1, y1, s1, x2, y2, s2),
{
}

/// Denominator of the two-segment intersection formulas: the cross product of
/// the direction vectors of segment (x1,y1)-(x2,y2) and segment (x3,y3)-(x4,y4).
pub open spec fn seg_denominator(
    x1: int, y1: int, x2: int, y2: int,
    x3: int, y3: int, x4: int, y4: int,
) -> int {
    (x2 - x1) * (y4 - y3) - (y2 - y1) * (x4 - x3)
}

/// Numerator of the parameter along the second segment.
pub open spec fn seg_numerator_1(
    x1: int, y1: int, x2: int, y2: int,
    x3: int, y3: int, x4: int, y4: int,
) -> int {
    (x2 - x1) * (y1 - y3) - (y2 - y1) * (x1 - x3)
}

/// Numerator of the parameter along the first segment.
pub open spec fn seg_numerator_2(
    x1: int, y1: int, x2: int, y2: int,
    x3: int, y3: int, x4: int, y4: int,
) -> int {
    (x4 - x3) * (y1 - y3) - (y4 - y3) * (x1 - x3)
}

/// The segments (x1,y1)-(x2,y2) and (x3,y3)-(x4,y4) intersect: both
/// intersection parameters lie in [0, 1], stated without division as sign
/// conditions against the denominator. Parallel segments count only when both
/// numerators vanish (collinear carrying lines).
pub open spec fn segments_intersect(
    x1: int, y1: int, x2: int, y2: int,
    x3: int, y3: int, x4: int, y4: int,
) -> bool {
    let den = seg_denominator(x1, y1, x2, y2, x3, y3, x4, y4);
    let num1 = seg_numerator_1(x1, y1, x2, y2, x3, y3, x4, y4);
    let num2 = seg_numerator_2(x1, y1, x2, y2, x3, y3, x4, y4);
    if den == 0 {
        num1 == 0 && num2 == 0
    } else if den > 0 {
        0 <= num1 <= den && 0 <= num2 <= den
    } else {
        den <= num1 <= 0 && den <= num2 <= 0
    }
}

/// Intersection test for two line segments.
pub fn line2line(x1: i32, y1: i32, x2: i32, y2: i32, x3: i32, y3: i32, x4: i32, y4: i32) -> (r: bool)
    requires
        coord_ok(x1 as int), coord_ok(y1 as int),
        coord_ok(x2 as int), coord_ok(y2 as int),
        coord_ok(x3 as int), coord_ok(y3 as int),
        coord_ok(x4 as int), coord_ok(y4 as int),
    ensures
        r == segments_intersect(
            x1 as int, y1 as int, x2 as int, y2 as int,
            x3 as int, y3 as int, x4 as int, y4 as int),
{
    let ax: i64 = x2 as i64 - x1 as i64;
    let ay: i64 = y2 as i64 - y1 as i64;
    let bx: i64 = x4 as i64 - x3 as i64;
    let by: i64 = y4 as i64 - y3 as i64;
    let cx: i64 = x1 as i64 - x3 as i64;
    let cy: i64 = y1 as i64 - y3 as i64;

    proof {
        lemma_bounded_products(ax as int, ay as int, bx as int, by as int, cx as int, cy as int);
    }

    let den: i64 = ax * by - ay * bx;
    let num1: i64 = ax * cy - ay * cx;
    let num2: i64 = bx * cy - by * cx;

    if den == 0 {
        num1 == 0 && num2 == 0
    } else if den > 0 {
        0 <= num1 && num1 <= den && 0 <= num2 && num2 <= den
    } else {
        den <= num1 && num1 <= 0 && den <= num2 && num2 <= 0
    }
}

/// Products of coordinate differences bounded by twice `COORD_LIMIT` stay well
/// inside the `i64` range.
proof fn lemma_bounded_products(ax: int, ay: int, bx: int, by: int, cx: int, cy: int)
    requires
        -200_000_000 <= ax <= 200_000_000,
        -200_000_000 <= ay <= 200_000_000,
        -200_000_000 <= bx <= 200_000_000,
        -200_000_000 <= by <= 200_000_000,
        -200_000_000 <= cx <= 200_000_000,
        -200_000_000 <= cy <= 200_000_000,
    ensures
        -40_000_000_000_000_000 <= ax * by <= 40_000_000_000_000_000,
        -40_000_000_000_000_000 <= ay * bx <= 40_000_000_000_000_000,
        -40_000_000_000_000_000 <= ax * cy <= 40_000_000_000_000_000,
        -40_000_000_000_000_000 <= ay * cx <= 40_000_000_000_000_000,
        -40_000_000_000_000_000 <= bx * cy <= 40_000_000_000_000_000,
        -40_000_000_000_000_000 <= by * cx <= 40_000_000_000_000_000,
{
    assert(-40_000_000_000_000_000 <= ax * by <= 40_000_000_000_000_000) by (nonlinear_arith)
        requires -200_000_000 <= ax <= 200_000_000 && -200_000_000 <= by <= 200_000_000;
    assert(-40_000_000_000_000_000 <= ay * bx <= 40_000_000_000_000_000) by (nonlinear_arith)
        requires -200_000_000 <= ay <= 200_000_000 && -200_000_000 <= bx <= 200_000_000;
    assert(-40_000_000_000_000_000 <= ax * cy <= 40_000_000_000_000_000) by (nonlinear_arith)
        requires -200_000_000 <= ax <= 200_000_000 && -200_000_000 <= cy <= 200_000_000;
    assert(-40_000_000_000_000_000 <= ay * cx <= 40_000_000_000_000_000) by (nonlinear_arith)
        requires -200_000_000 <= ay <= 200_000_000 && -200_000_000 <= cx <= 200_000_000;
    assert(-40_000_000_000_000_000 <= bx * cy <= 40_000_000_000_000_000) by (nonlinear_arith)
        requires -200_000_000 <= bx <= 200_000_000 && -200_000_000 <= cy <= 200_000_000;
    assert(-40_000_000_000_000_000 <= by * cx <= 40_000_000_000_000_000) by (nonlinear_arith)
        requires -200_000_000 <= by <= 200_000_000 && -200_000_000 <= cx <= 200_000_000;
}

/// The segment (x1,y1)-(x2,y2) meets the box with top-left corner (bx,by) and
/// side `bs`: it crosses the box's left, right, top or bottom edge.
pub open spec fn line_box_intersect(
    x1: int, y1: int, x2: int, y2: int,
    bx: int, by: int, bs: int,
) -> bool {
    ||| segments_intersect(x1, y1, x2, y2, bx, by, bx, by + bs)
    ||| segments_intersect(x1, y1, x2, y2, bx + bs, by, bx + bs, by + bs)
    ||| segments_intersect(x1, y1, x2, y2, bx, by, bx + bs, by)
    ||| segments_intersect(x1, y1, x2, y2, bx, by + bs, bx + bs, by + bs)
}

/// Intersection test for a line segment against a box's four edges; used for
/// line-of-sight checks.
pub fn line2box(x1: i32, y1: i32, x2: i32, y2: i32, bx: i32, by: i32, bs: i32) -> (r: bool)
    requires
        coord_ok(x1 as int), coord_ok(y1 as int),
        coord_ok(x2 as int), coord_ok(y2 as int),
        coord_ok(bx as int), coord_ok(by as int),
        coord_ok(bx as int + bs as int), coord_ok(by as int + bs as int),
    ensures
        r == line_box_intersect(
            x1 as int, y1 as int, x2 as int, y2 as int,
            bx as int, by as int, bs as int),
{
    let bxs: i32 = ((bx as i64 + bs as i64) as i32);
    let bys: i32 = ((by as i64 + bs as i64) as i32);

    let left = line2line(x1, y1, x2, y2, bx, by, bx, bys);
    let right = line2line(x1, y1, x2, y2, bxs, by, bxs, bys);
    let top = line2line(x1, y1, x2, y2, bx, by, bxs, by);
    let bottom = line2line(x1, y1, x2, y2, bx, bys, bxs, bys);

    left || right || top || bottom
}

/// Squared Euclidean distance between two points.
pub open spec fn square_dist(x1: int, y1: int, x2: int, y2: int) -> int {
    (x1 - x2) * (x1 - x2) + (y1 - y2) * (y1 - y2)
}

/// `r` is the Euclidean distance between the points, rounded up to the next
/// integer: the least non-negative `r` with `r * r` at least the squared
/// distance.
pub open spec fn is_ceil_dist(x1: int, y1: int, x2: int, y2: int, r: int) -> bool {
    &&& 0 <= r
    &&& square_dist(x1, y1, x2, y2) <= r * r
    &&& r > 0 ==> (r - 1) * (r - 1) < square_dist(x1, y1, x2, y2)
}

/// Euclidean distance between two points, rounded up to an integer.
pub fn distance2d(x1: i32, y1: i32, x2: i32, y2: i32) -> (r: i32)
    requires
        coord_ok(x1 as int), coord_ok(y1 as int),
        coord_ok(x2 as int), coord_ok(y2 as int),
    ensures
        is_ceil_dist(x1 as int, y1 as int, x2 as int, y2 as int, r as int),
{
    let dx: i64 = x1 as i64 - x2 as i64;
    let dy: i64 = y1 as i64 - y2 as i64;
    proof {
        assert(0 <= dx * dx <= 40_000_000_000_000_000) by (nonlinear_arith)
            requires -200_000_000 <= dx <= 200_000_000;
        assert(0 <= dy * dy <= 40_000_000_000_000_000) by (nonlinear_arith)
            requires -200_000_000 <= dy <= 200_000_000;
    }
    let n: i64 = dx * dx + dy * dy;
    let mut r: i64 = 0;
    let mut rsq: i64 = 0;
    while rsq < n
        invariant
            0 <= r <= 300_000_000,
            rsq == r * r,
            r > 0 ==> (r - 1) * (r - 1) < n,
        decreases n - r,
    {
        proof {
            assert(r < 300_000_000) by (nonlinear_arith)
                requires 0 <= r, r * r < n, n <= 80_000_000_000_000_000;
            assert((r + 1) * (r + 1) == r * r + 2 * r + 1) by (nonlinear_arith);
            assert(r >= 1 ==> r <= r * r) by (nonlinear_arith);
        }
        rsq = rsq + 2 * r + 1;
        r = r + 1;
    }
    r as i32
}

} // verus!
