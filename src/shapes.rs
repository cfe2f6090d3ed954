use vstd::prelude::*;

use crate::frame::{within_limits, COORD_LIMIT};
use crate::geometry::Point;
use crate::heightfield::{column_heights, columns, heightfield_from_points, Heightfield};

verus! {

/// The kind of collider geometry asked for.
#[derive(Clone, Copy, Debug, PartialEq, Eq, Structural)]
pub enum ShapeKind {
    Polyline,
    ConvexPolygon,
    ConvexHull,
    Heightfield,
}

/// The frame the points of a shape are given in.
#[derive(Clone, Copy, Debug, PartialEq, Eq, Structural)]
pub enum Frame {
    /// Image coordinates: origin at the top-left pixel, nothing negative.
    Raw,
    /// Centred on the bounding box of each loop, in half pixels.
    Translated,
}

/// Geometry for a physics backend to build its collider from.
#[derive(Clone, Debug)]
pub enum ShapeDescriptor {
    /// An open chain through the points.
    Polyline(Vec<Point>),
    /// The points, taken as a convex polygon's vertices.
    ConvexPolygon(Vec<Point>),
    /// The points, whose convex hull is the shape.
    ConvexHull(Vec<Point>),
    Heightfield(Heightfield),
}

/// Twice the signed area of the triangle `a`, `b`, `c`: positive when they turn
/// left, zero when they lie on one line.
pub open spec fn cross(a: Point, b: Point, c: Point) -> int {
    (b.x - a.x) * (c.y - a.y) - (b.y - a.y) * (c.x - a.x)
}

/// Some three points of `s` span a triangle of non-zero area.
pub open spec fn has_area(s: Seq<Point>) -> bool {
    exists|i: int, j: int, k: int|
        0 <= i < s.len() && 0 <= j < s.len() && 0 <= k < s.len() && #[trigger] cross(
            s[i],
            s[j],
            s[k],
        ) != 0
}

/// What synthesising `kind` from `pts` gives: a polyline for any non-empty
/// loop; a convex polygon or hull where the points span an area; a heightfield
/// where they cover two columns or more; nothing otherwise.
pub open spec fn synthesized(pts: Seq<Point>, kind: ShapeKind, r: Option<ShapeDescriptor>) -> bool {
    match kind {
        ShapeKind::Polyline => if pts.len() == 0 {
            r is None
        } else {
            r matches Some(ShapeDescriptor::Polyline(v)) && v@ == pts
        },
        ShapeKind::ConvexPolygon => if has_area(pts) {
            r matches Some(ShapeDescriptor::ConvexPolygon(v)) && v@ == pts
        } else {
            r is None
        },
        ShapeKind::ConvexHull => if has_area(pts) {
            r matches Some(ShapeDescriptor::ConvexHull(v)) && v@ == pts
        } else {
            r is None
        },
        ShapeKind::Heightfield => if columns(pts).len() < 2 {
            r is None
        } else {
            r matches Some(ShapeDescriptor::Heightfield(hf)) && hf.heights@ == column_heights(pts)
                && hf.x_scale == columns(pts).len() - 1
        },
    }
}

fn cross_exec(a: Point, b: Point, c: Point) -> (r: i128)
    requires
        within_limits(seq![a, b, c]),
    ensures
        r == cross(a, b, c),
{
    proof {
        assert(seq![a, b, c][0] == a && seq![a, b, c][1] == b && seq![a, b, c][2] == c);
        let l = COORD_LIMIT as int;
        let dx1 = b.x - a.x;
        let dy1 = b.y - a.y;
        let dx2 = c.x - a.x;
        let dy2 = c.y - a.y;
        assert(-2 * l <= dx1 <= 2 * l && -2 * l <= dy1 <= 2 * l);
        assert(-2 * l <= dx2 <= 2 * l && -2 * l <= dy2 <= 2 * l);
        assert(-4 * l * l <= dx1 * dy2 <= 4 * l * l) by (nonlinear_arith)
            requires -2 * l <= dx1 <= 2 * l, -2 * l <= dy2 <= 2 * l, l > 0;
        assert(-4 * l * l <= dy1 * dx2 <= 4 * l * l) by (nonlinear_arith)
            requires -2 * l <= dy1 <= 2 * l, -2 * l <= dx2 <= 2 * l, l > 0;
    }
    let dx1 = b.x as i128 - a.x as i128;
    let dy1 = b.y as i128 - a.y as i128;
    let dx2 = c.x as i128 - a.x as i128;
    let dy2 = c.y as i128 - a.y as i128;
    dx1 * dy2 - dy1 * dx2
}

/// Vectors parallel to one non-zero vector are parallel to each other.
proof fn lemma_parallel(dx: int, dy: int, ux: int, uy: int, vx: int, vy: int)
    requires
        dx != 0 || dy != 0,
        dx * uy - dy * ux == 0,
        dx * vy - dy * vx == 0,
    ensures
        ux * vy - uy * vx == 0,
{
    assert(dx * (ux * vy - uy * vx) == ux * (dx * vy - dy * vx) - vx * (dx * uy - dy * ux))
        by (nonlinear_arith);
    assert(dy * (ux * vy - uy * vx) == uy * (dx * vy - dy * vx) - vy * (dx * uy - dy * ux))
        by (nonlinear_arith);
    if dx != 0 {
        assert(ux * vy - uy * vx == 0) by (nonlinear_arith)
            requires dx * (ux * vy - uy * vx) == 0, dx != 0;
    } else {
        assert(ux * vy - uy * vx == 0) by (nonlinear_arith)
            requires dy * (ux * vy - uy * vx) == 0, dy != 0;
    }
}

/// Where every point lies on the line through `s[0]` and `s[a]`, no three
/// points span an area.
proof fn lemma_on_one_line(s: Seq<Point>, a: int)
    requires
        0 <= a < s.len(),
        s[a] != s[0],
        forall|j: int| 0 <= j < s.len() ==> #[trigger] cross(s[0], s[a], s[j]) == 0,
    ensures
        !has_area(s),
{
    assert forall|i: int, j: int, k: int|
        0 <= i < s.len() && 0 <= j < s.len() && 0 <= k < s.len() implies #[trigger] cross(
        s[i],
        s[j],
        s[k],
    ) == 0 by {
        let o = s[0];
        let dx = s[a].x - o.x;
        let dy = s[a].y - o.y;
        assert(cross(o, s[a], s[i]) == 0);
        assert(cross(o, s[a], s[j]) == 0);
        assert(cross(o, s[a], s[k]) == 0);
        let (ix, iy) = (s[i].x - o.x, s[i].y - o.y);
        let (jx, jy) = (s[j].x - o.x, s[j].y - o.y);
        let (kx, ky) = (s[k].x - o.x, s[k].y - o.y);
        lemma_parallel(dx, dy, ix, iy, jx, jy);
        lemma_parallel(dx, dy, jx, jy, kx, ky);
        lemma_parallel(dx, dy, ix, iy, kx, ky);
        assert((jx - ix) * (ky - iy) - (jy - iy) * (kx - ix) == (jx * ky - jy * kx) - (ix * ky
            - iy * kx) + (ix * jy - iy * jx)) by (nonlinear_arith);
    }
}

/// Whether some three points of `pts` span a triangle of non-zero area, which a
/// convex polygon or hull needs.
pub fn spans_area(pts: &Vec<Point>) -> (r: bool)
    requires
        within_limits(pts@),
    ensures
        r == has_area(pts@),
{
    let n = pts.len();
    if n == 0 {
        return false;
    }
    let o = pts[0];
    let mut a: usize = 1;
    while a < n && pts[a] == o
        invariant
            1 <= a <= n,
            n == pts@.len(),
            o == pts@[0],
            forall|k: int| 0 <= k < a ==> #[trigger] pts@[k] == o,
        decreases n - a,
    {
        a = a + 1;
    }
    if a == n {
        proof {
            assert forall|i: int, j: int, k: int|
                0 <= i < n && 0 <= j < n && 0 <= k < n implies #[trigger] cross(
                pts@[i],
                pts@[j],
                pts@[k],
            ) == 0 by {
                assert(pts@[i] == o && pts@[j] == o && pts@[k] == o);
            }
        }
        return false;
    }
    let d = pts[a];
    let mut j: usize = 0;
    while j < n
        invariant
            0 <= j <= n,
            n == pts@.len(),
            a < n,
            o == pts@[0],
            d == pts@[a as int],
            d != o,
            within_limits(pts@),
            forall|k: int| 0 <= k < j ==> #[trigger] cross(o, d, pts@[k]) == 0,
        decreases n - j,
    {
        let p = pts[j];
        proof {
            assert(within_limits(seq![o, d, p]));
        }
        if cross_exec(o, d, p) != 0 {
            proof {
                assert(cross(pts@[0], pts@[a as int], pts@[j as int]) != 0);
            }
            return true;
        }
        j = j + 1;
    }
    proof {
        lemma_on_one_line(pts@, a as int);
    }
    false
}

/// The descriptor of `kind` for `pts`, or nothing where the points cannot
/// make that shape.
pub fn synthesize(pts: Vec<Point>, kind: ShapeKind) -> (r: Option<ShapeDescriptor>)
    requires
        within_limits(pts@),
    ensures
        synthesized(pts@, kind, r),
{
    match kind {
        ShapeKind::Polyline => {
            if pts.len() == 0 {
                None
            } else {
                Some(ShapeDescriptor::Polyline(pts))
            }
        },
        ShapeKind::ConvexPolygon => {
            if spans_area(&pts) {
                Some(ShapeDescriptor::ConvexPolygon(pts))
            } else {
                None
            }
        },
        ShapeKind::ConvexHull => {
            if spans_area(&pts) {
                Some(ShapeDescriptor::ConvexHull(pts))
            } else {
                None
            }
        },
        ShapeKind::Heightfield => match heightfield_from_points(&pts) {
            Some(hf) => Some(ShapeDescriptor::Heightfield(hf)),
            None => None,
        },
    }
}

/// Convex shapes are never synthesised from points that span no area: not from
/// an empty set, nor from two points, nor from points that all lie on the line
/// through two distinct points `a` and `b`.
pub proof fn lemma_no_degenerate_convex_shape(
    pts: Seq<Point>,
    kind: ShapeKind,
    r: Option<ShapeDescriptor>,
    a: Point,
    b: Point,
)
    requires
        kind == ShapeKind::ConvexPolygon || kind == ShapeKind::ConvexHull,
        synthesized(pts, kind, r),
        pts.len() <= 2 || (a != b && forall|i: int|
            0 <= i < pts.len() ==> #[trigger] cross(a, b, pts[i]) == 0),
    ensures
        r is None,
{
    if pts.len() <= 2 {
        assert forall|i: int, j: int, k: int|
            0 <= i < pts.len() && 0 <= j < pts.len() && 0 <= k < pts.len() implies #[trigger] cross(
            pts[i],
            pts[j],
            pts[k],
        ) == 0 by {
            let (p, q, w) = (pts[i], pts[j], pts[k]);
            assert(i == j || j == k || i == k);
            if i == j {
                assert(cross(p, q, w) == 0) by (nonlinear_arith) requires p == q;
            } else if j == k {
                assert(cross(p, q, w) == 0) by (nonlinear_arith) requires q == w;
            } else {
                assert(cross(p, q, w) == 0) by (nonlinear_arith) requires p == w;
            }
        }
    } else {
        assert forall|i: int, j: int, k: int|
            0 <= i < pts.len() && 0 <= j < pts.len() && 0 <= k < pts.len() implies #[trigger] cross(
            pts[i],
            pts[j],
            pts[k],
        ) == 0 by {
            assert(cross(a, b, pts[i]) == 0);
            assert(cross(a, b, pts[j]) == 0);
            assert(cross(a, b, pts[k]) == 0);
            let dx = b.x - a.x;
            let dy = b.y - a.y;
            let (ix, iy) = (pts[i].x - a.x, pts[i].y - a.y);
            let (jx, jy) = (pts[j].x - a.x, pts[j].y - a.y);
            let (kx, ky) = (pts[k].x - a.x, pts[k].y - a.y);
            lemma_parallel(dx, dy, ix, iy, jx, jy);
            lemma_parallel(dx, dy, jx, jy, kx, ky);
            lemma_parallel(dx, dy, ix, iy, kx, ky);
            assert((jx - ix) * (ky - iy) - (jy - iy) * (kx - ix) == (jx * ky - jy * kx) - (ix
                * ky - iy * kx) + (ix * jy - iy * jx)) by (nonlinear_arith);
        }
    }
}

} // verus!
