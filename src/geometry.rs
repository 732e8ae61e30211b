use vstd::prelude::*;

verus! {

/// A point on an integer grid.
#[derive(Clone, Copy, Debug, PartialEq, Eq, Structural)]
pub struct Point {
    pub x: i64,
    pub y: i64,
}

/// Three corners with fixed roles.
#[derive(Clone, Copy, Debug, PartialEq, Eq, Structural)]
pub struct Triangle {
    pub top: Point,
    pub left: Point,
    pub right: Point,
}

/// The largest coordinate magnitude that `mid_point` and `refine` accept.
pub const HALF_RANGE: i64 = 0x3fff_ffff_ffff_ffff;

pub open spec fn abs(v: int) -> int {
    if v < 0 { -v } else { v }
}

/// Every coordinate of `p` has magnitude at most `m`.
pub open spec fn point_within(p: Point, m: int) -> bool {
    abs(p.x as int) <= m && abs(p.y as int) <= m
}

/// Every corner of `t` has coordinates of magnitude at most `m`.
pub open spec fn within(t: Triangle, m: int) -> bool {
    point_within(t.top, m) && point_within(t.left, m) && point_within(t.right, m)
}

/// The sum of two points, coordinate by coordinate.
pub open spec fn point_sum(p: Point, q: Point) -> Point {
    Point { x: (p.x + q.x) as i64, y: (p.y + q.y) as i64 }
}

/// `p` seen on the next finer grid level.
pub open spec fn double(p: Point) -> Point {
    point_sum(p, p)
}

/// `t` seen on the next finer grid level.
pub open spec fn double_tri(t: Triangle) -> Triangle {
    Triangle { top: double(t.top), left: double(t.left), right: double(t.right) }
}

/// The top corner triangle of the midpoint subdivision, one level finer.
pub open spec fn top_child(t: Triangle) -> Triangle {
    Triangle { top: double(t.top), left: point_sum(t.top, t.left), right: point_sum(t.top, t.right) }
}

/// The left corner triangle of the midpoint subdivision, one level finer.
pub open spec fn left_child(t: Triangle) -> Triangle {
    Triangle { top: point_sum(t.top, t.left), left: double(t.left), right: point_sum(t.left, t.right) }
}

/// The right corner triangle of the midpoint subdivision, one level finer.
pub open spec fn right_child(t: Triangle) -> Triangle {
    Triangle { top: point_sum(t.top, t.right), left: point_sum(t.left, t.right), right: double(t.right) }
}

/// The central triangle of the midpoint subdivision, one level finer: the
/// hole that is never drawn. Its roles are chosen so that it is `t` turned
/// by a half turn.
pub open spec fn central_child(t: Triangle) -> Triangle {
    Triangle { top: point_sum(t.left, t.right), left: point_sum(t.top, t.right), right: point_sum(t.top, t.left) }
}

/// Twice the signed area of `t`.
pub open spec fn area2(t: Triangle) -> int {
    (t.left.x - t.top.x) * (t.right.y - t.top.y) - (t.left.y - t.top.y) * (t.right.x - t.top.x)
}

/// The edge vectors of `t` from its top corner, as `(left - top, right - top)`.
pub open spec fn edges(t: Triangle) -> (int, int, int, int) {
    (
        t.left.x - t.top.x,
        t.left.y - t.top.y,
        t.right.x - t.top.x,
        t.right.y - t.top.y,
    )
}

/// Midpoint subdivision cuts `t` into four congruent quarters. On the finer
/// grid level, where `t` itself is `double_tri(t)`, each of the three corner
/// triangles and the central one has the edge vectors of `t`, half those of
/// `double_tri(t)` (the central one reversed, being turned by a half turn), a
/// quarter of its area, and the four areas add up to the whole.
pub proof fn lemma_midpoint_partition(t: Triangle)
    requires
        within(t, HALF_RANGE as int),
    ensures
        area2(double_tri(t)) == 4 * area2(t),
        edges(double_tri(t)) == ({
            let (a, b, c, d) = edges(t);
            (2 * a, 2 * b, 2 * c, 2 * d)
        }),
        edges(top_child(t)) == edges(t),
        edges(left_child(t)) == edges(t),
        edges(right_child(t)) == edges(t),
        edges(central_child(t)) == ({
            let (a, b, c, d) = edges(t);
            (-a, -b, -c, -d)
        }),
        4 * area2(top_child(t)) == area2(double_tri(t)),
        4 * area2(left_child(t)) == area2(double_tri(t)),
        4 * area2(right_child(t)) == area2(double_tri(t)),
        4 * area2(central_child(t)) == area2(double_tri(t)),
        area2(top_child(t)) + area2(left_child(t)) + area2(right_child(t)) + area2(
            central_child(t),
        ) == area2(double_tri(t)),
{
    let (a, b, c, d) = edges(t);
    assert(area2(t) == a * d - b * c);
    assert(area2(double_tri(t)) == (2 * a) * (2 * d) - (2 * b) * (2 * c)) by (nonlinear_arith)
        requires
            edges(double_tri(t)) == (2 * a, 2 * b, 2 * c, 2 * d),
    {
    }
    assert((2 * a) * (2 * d) - (2 * b) * (2 * c) == 4 * (a * d - b * c)) by (nonlinear_arith);
    assert(area2(central_child(t)) == (-a) * (-d) - (-b) * (-c));
    assert((-a) * (-d) - (-b) * (-c) == a * d - b * c) by (nonlinear_arith);
}

/// The midpoint of `p1` and `p2`, given on the next finer grid level, where it
/// is exactly `p1 + p2`.
pub fn mid_point(p1: Point, p2: Point) -> (r: Point)
    requires
        point_within(p1, HALF_RANGE as int),
        point_within(p2, HALF_RANGE as int),
    ensures
        r == point_sum(p1, p2),
        r.x == p1.x + p2.x,
        r.y == p1.y + p2.y,
{
    Point { x: p1.x + p2.x, y: p1.y + p2.y }
}

/// `p` on the next finer grid level: the same place, coordinates doubled.
pub fn refine(p: Point) -> (r: Point)
    requires
        point_within(p, HALF_RANGE as int),
    ensures
        r == double(p),
        r.x == 2 * p.x,
        r.y == 2 * p.y,
{
    mid_point(p, p)
}

/// The three corner triangles of the midpoint subdivision of `t`, in the
/// order top, left, right, all on the next finer grid level.
pub fn subdivide(t: &Triangle) -> (r: (Triangle, Triangle, Triangle))
    requires
        within(*t, HALF_RANGE as int),
    ensures
        r.0 == top_child(*t),
        r.1 == left_child(*t),
        r.2 == right_child(*t),
{
    let left_middle = mid_point(t.top, t.left);
    let right_middle = mid_point(t.top, t.right);
    let bottom_middle = mid_point(t.left, t.right);
    let top = refine(t.top);
    let left = refine(t.left);
    let right = refine(t.right);
    (
        Triangle { top, left: left_middle, right: right_middle },
        Triangle { top: left_middle, left, right: bottom_middle },
        Triangle { top: right_middle, left: bottom_middle, right },
    )
}

} // verus!
