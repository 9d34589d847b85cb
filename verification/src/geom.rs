//! Exact planar primitives on integer (micrometer) coordinates.
//!
//! Because coordinates are integers, orientation tests, crossing tests and
//! the point-in-polygon parity are decided exactly, with no epsilon.
use vstd::prelude::*;

verus! {

use crate::COORD_LIMIT;

/// A point in micrometers (1000 units = 1 mm).
#[derive(Clone, Copy, Debug, PartialEq, Eq, Structural)]
pub struct Point {
    pub x: i64,
    pub y: i64,
}

/// The point's coordinates are within the range the geometry accepts.
pub open spec fn in_range(p: Point) -> bool {
    -COORD_LIMIT <= p.x <= COORD_LIMIT && -COORD_LIMIT <= p.y <= COORD_LIMIT
}

/// Every vertex of the polygon is within range.
pub open spec fn wf_poly(s: Seq<Point>) -> bool {
    forall|i: int| 0 <= i < s.len() ==> in_range(#[trigger] s[i])
}

/// Twice the signed area of the triangle `a b c`; positive when `c` lies to
/// the left of the directed line `a -> b`.
pub open spec fn cross3(a: Point, b: Point, c: Point) -> int {
    (b.x - a.x) * (c.y - a.y) - (b.y - a.y) * (c.x - a.x)
}

/// Products of two in-range coordinate differences stay far inside `i128`.
pub proof fn lemma_diff_product_bound(a: int, b: int, m: int)
    requires
        -m <= a <= m,
        -m <= b <= m,
        0 <= m,
    ensures
        -(m * m) <= a * b <= m * m,
{
    assert(-(m * m) <= a * b <= m * m) by (nonlinear_arith)
        requires -m <= a <= m, -m <= b <= m, 0 <= m
    ;
}

/// A product is bounded by the product of its factors' bounds.
pub proof fn lemma_mul_bounds(a: int, b: int, m1: int, m2: int)
    requires
        -m1 <= a <= m1,
        -m2 <= b <= m2,
        0 <= m1,
        0 <= m2,
    ensures
        -(m1 * m2) <= a * b <= m1 * m2,
{
    assert(-(m1 * m2) <= a * b <= m1 * m2) by (nonlinear_arith)
        requires -m1 <= a <= m1, -m2 <= b <= m2, 0 <= m1, 0 <= m2
    ;
}

/// Exact orientation value as a wide integer.
pub fn cross3_exec(a: Point, b: Point, c: Point) -> (r: i128)
    requires
        in_range(a),
        in_range(b),
        in_range(c),
    ensures
        r == cross3(a, b, c),
        -8_000_000_000_000_000_000 <= r <= 8_000_000_000_000_000_000,
{
    let bx = b.x as i128 - a.x as i128;
    let by = b.y as i128 - a.y as i128;
    let cx = c.x as i128 - a.x as i128;
    let cy = c.y as i128 - a.y as i128;
    proof {
        lemma_diff_product_bound(bx as int, cy as int, 2 * COORD_LIMIT as int);
        lemma_diff_product_bound(by as int, cx as int, 2 * COORD_LIMIT as int);
    }
    bx * cy - by * cx
}

/// Proper crossing of segments `a1 a2` and `b1 b2`: each segment's endpoints
/// lie strictly on opposite sides of the other's line.
pub open spec fn spec_segments_intersect(a1: Point, a2: Point, b1: Point, b2: Point) -> bool {
    let d1 = cross3(a1, a2, b1);
    let d2 = cross3(a1, a2, b2);
    let d3 = cross3(b1, b2, a1);
    let d4 = cross3(b1, b2, a2);
    ((d1 > 0 && d2 < 0) || (d1 < 0 && d2 > 0)) && ((d3 > 0 && d4 < 0) || (d3 < 0 && d4 > 0))
}

/// Whether two segments properly cross, decided exactly.
pub fn segments_intersect(a1: Point, a2: Point, b1: Point, b2: Point) -> (r: bool)
    requires
        in_range(a1),
        in_range(a2),
        in_range(b1),
        in_range(b2),
    ensures
        r == spec_segments_intersect(a1, a2, b1, b2),
{
    let d1 = cross3_exec(a1, a2, b1);
    let d2 = cross3_exec(a1, a2, b2);
    let d3 = cross3_exec(b1, b2, a1);
    let d4 = cross3_exec(b1, b2, a2);
    ((d1 > 0 && d2 < 0) || (d1 < 0 && d2 > 0)) && ((d3 > 0 && d4 < 0) || (d3 < 0 && d4 > 0))
}

/// The edge from vertex `i` of the closed polygon, wrapping at the end.
pub open spec fn edge_to(s: Seq<Point>, i: int) -> Point {
    if i + 1 < s.len() {
        s[i + 1]
    } else {
        s[0]
    }
}

/// A horizontal ray from `pt` to `+infinity` crosses the open edge `a b`.
/// With the line-side test oriented by the edge's vertical direction this is
/// the exact form of the classical parity test.
pub open spec fn ray_crosses(pt: Point, a: Point, b: Point) -> bool {
    ((a.y > pt.y) != (b.y > pt.y)) && {
        let lhs = (pt.x - a.x) * (b.y - a.y);
        let rhs = (b.x - a.x) * (pt.y - a.y);
        if b.y > a.y {
            lhs < rhs
        } else {
            lhs > rhs
        }
    }
}

/// Number of polygon edges among the first `k` crossed by the ray from `pt`.
pub open spec fn crossing_count(pt: Point, s: Seq<Point>, k: int) -> int
    decreases k,
{
    if k <= 0 {
        0
    } else {
        crossing_count(pt, s, k - 1) + if ray_crosses(pt, s[k - 1], edge_to(s, k - 1)) {
            1int
        } else {
            0int
        }
    }
}

/// A point is inside a closed polygon when the ray parity is odd.
pub open spec fn spec_point_in_polygon(pt: Point, s: Seq<Point>) -> bool {
    crossing_count(pt, s, s.len() as int) % 2 == 1
}

fn ray_crosses_exec(pt: Point, a: Point, b: Point) -> (r: bool)
    requires
        in_range(pt),
        in_range(a),
        in_range(b),
    ensures
        r == ray_crosses(pt, a, b),
{
    if (a.y > pt.y) != (b.y > pt.y) {
        proof {
            lemma_diff_product_bound(
                pt.x as int - a.x as int,
                b.y as int - a.y as int,
                2 * COORD_LIMIT as int,
            );
            lemma_diff_product_bound(
                b.x as int - a.x as int,
                pt.y as int - a.y as int,
                2 * COORD_LIMIT as int,
            );
        }
        let lhs = (pt.x as i128 - a.x as i128) * (b.y as i128 - a.y as i128);
        let rhs = (b.x as i128 - a.x as i128) * (pt.y as i128 - a.y as i128);
        if b.y > a.y {
            lhs < rhs
        } else {
            lhs > rhs
        }
    } else {
        false
    }
}

/// Ray-casting parity test, exact on integer coordinates.
pub fn point_in_polygon(pt: Point, poly: &Vec<Point>) -> (r: bool)
    requires
        in_range(pt),
        wf_poly(poly@),
    ensures
        r == spec_point_in_polygon(pt, poly@),
{
    let n = poly.len();
    let mut inside = false;
    let mut i: usize = 0;
    while i < n
        invariant
            0 <= i <= n,
            n == poly@.len(),
            in_range(pt),
            wf_poly(poly@),
            inside == (crossing_count(pt, poly@, i as int) % 2 == 1),
        decreases n - i,
    {
        let b = if i + 1 < n {
            poly[i + 1]
        } else {
            poly[0]
        };
        assert(b == edge_to(poly@, i as int));
        if ray_crosses_exec(pt, poly[i], b) {
            inside = !inside;
        }
        i = i + 1;
    }
    inside
}

/// Some edge of `a` properly crosses some edge of `b`.
pub open spec fn spec_edges_cross(a: Seq<Point>, b: Seq<Point>) -> bool {
    exists|i: int, j: int|
        0 <= i < a.len() && 0 <= j < b.len() && spec_segments_intersect(
            a[i],
            edge_to(a, i),
            b[j],
            edge_to(b, j),
        )
}

/// Two closed polygons intersect: an edge crossing, or one containing a
/// vertex of the other.
pub open spec fn spec_polygons_intersect(a: Seq<Point>, b: Seq<Point>) -> bool {
    if a.len() == 0 || b.len() == 0 {
        false
    } else {
        spec_edges_cross(a, b) || spec_point_in_polygon(b[0], a) || spec_point_in_polygon(a[0], b)
    }
}

/// Exact polygon intersection test: edge crossings plus mutual containment.
pub fn polygons_intersect(a: &Vec<Point>, b: &Vec<Point>) -> (r: bool)
    requires
        wf_poly(a@),
        wf_poly(b@),
    ensures
        r == spec_polygons_intersect(a@, b@),
{
    if a.len() == 0 || b.len() == 0 {
        return false;
    }
    let an = a.len();
    let bn = b.len();
    let mut i: usize = 0;
    while i < an
        invariant
            0 <= i <= an,
            an == a@.len(),
            bn == b@.len(),
            bn > 0,
            wf_poly(a@),
            wf_poly(b@),
            forall|p: int, q: int|
                0 <= p < i && 0 <= q < bn ==> !spec_segments_intersect(
                    a@[p],
                    edge_to(a@, p),
                    b@[q],
                    edge_to(b@, q),
                ),
        decreases an - i,
    {
        let a2 = if i + 1 < an {
            a[i + 1]
        } else {
            a[0]
        };
        let mut j: usize = 0;
        while j < bn
            invariant
                0 <= j <= bn,
                0 <= i < an,
                an == a@.len(),
                bn == b@.len(),
                wf_poly(a@),
                wf_poly(b@),
                a2 == edge_to(a@, i as int),
                forall|q: int|
                    0 <= q < j ==> !spec_segments_intersect(
                        a@[i as int],
                        edge_to(a@, i as int),
                        b@[q],
                        edge_to(b@, q),
                    ),
            decreases bn - j,
        {
            let b2 = if j + 1 < bn {
                b[j + 1]
            } else {
                b[0]
            };
            assert(b2 == edge_to(b@, j as int));
            if segments_intersect(a[i], a2, b[j], b2) {
                return true;
            }
            j = j + 1;
        }
        i = i + 1;
    }
    if point_in_polygon(b[0], a) {
        return true;
    }
    if point_in_polygon(a[0], b) {
        return true;
    }
    false
}

/// Whether some edge of `a` properly crosses some edge of `b`.
pub fn edges_cross(a: &Vec<Point>, b: &Vec<Point>) -> (r: bool)
    requires
        wf_poly(a@),
        wf_poly(b@),
    ensures
        r == spec_edges_cross(a@, b@),
{
    let an = a.len();
    let bn = b.len();
    let mut i: usize = 0;
    while i < an
        invariant
            0 <= i <= an,
            an == a@.len(),
            bn == b@.len(),
            wf_poly(a@),
            wf_poly(b@),
            forall|p: int, q: int|
                0 <= p < i && 0 <= q < bn ==> !spec_segments_intersect(
                    a@[p],
                    edge_to(a@, p),
                    b@[q],
                    edge_to(b@, q),
                ),
        decreases an - i,
    {
        let a2 = if i + 1 < an {
            a[i + 1]
        } else {
            a[0]
        };
        let mut j: usize = 0;
        while j < bn
            invariant
                0 <= j <= bn,
                0 <= i < an,
                an == a@.len(),
                bn == b@.len(),
                wf_poly(a@),
                wf_poly(b@),
                a2 == edge_to(a@, i as int),
                forall|q: int|
                    0 <= q < j ==> !spec_segments_intersect(
                        a@[i as int],
                        edge_to(a@, i as int),
                        b@[q],
                        edge_to(b@, q),
                    ),
            decreases bn - j,
        {
            let b2 = if j + 1 < bn {
                b[j + 1]
            } else {
                b[0]
            };
            assert(b2 == edge_to(b@, j as int));
            if segments_intersect(a[i], a2, b[j], b2) {
                return true;
            }
            j = j + 1;
        }
        i = i + 1;
    }
    false
}

/// Sum of the shoelace cross terms over the first `k` edges: twice the
/// signed area once all edges are in.
pub open spec fn area2_partial(s: Seq<Point>, k: int) -> int
    decreases k,
{
    if k <= 0 {
        0
    } else {
        area2_partial(s, k - 1) + (s[k - 1].x * edge_to(s, k - 1).y - s[k - 1].y * edge_to(
            s,
            k - 1,
        ).x)
    }
}

/// Twice the signed area of a closed polygon; positive for counter-clockwise
/// winding. Zero when fewer than 3 vertices.
pub open spec fn spec_area2(s: Seq<Point>) -> int {
    if s.len() < 3 {
        0
    } else {
        area2_partial(s, s.len() as int)
    }
}

/// Twice the signed shoelace area, exact.
pub fn polygon_area2(poly: &Vec<Point>) -> (r: i128)
    requires
        wf_poly(poly@),
        poly@.len() <= 1_000_000,
    ensures
        r == spec_area2(poly@),
{
    let n = poly.len();
    if n < 3 {
        return 0;
    }
    let mut acc: i128 = 0;
    let mut i: usize = 0;
    while i < n
        invariant
            0 <= i <= n,
            n == poly@.len(),
            3 <= n <= 1_000_000,
            wf_poly(poly@),
            acc == area2_partial(poly@, i as int),
            -2_000_000_000_000_000_000_000_000 * (i as int) <= acc,
            acc <= 2_000_000_000_000_000_000_000_000 * (i as int),
        decreases n - i,
    {
        proof {
            assert(acc <= 2_000_000_000_000_000_000_000_000 * 1_000_000int) by (nonlinear_arith)
                requires
                    acc <= 2_000_000_000_000_000_000_000_000 * (i as int),
                    i as int <= 1_000_000,
            ;
            assert(-2_000_000_000_000_000_000_000_000 * 1_000_000int <= acc) by (nonlinear_arith)
                requires
                    -2_000_000_000_000_000_000_000_000 * (i as int) <= acc,
                    i as int <= 1_000_000,
            ;
        }
        let b = if i + 1 < n {
            poly[i + 1]
        } else {
            poly[0]
        };
        assert(b == edge_to(poly@, i as int));
        assert(in_range(poly@[i as int]));
        assert(in_range(poly@[0]));
        assert(i as int + 1 < n ==> in_range(poly@[i as int + 1]));
        proof {
            lemma_diff_product_bound(poly@[i as int].x as int, b.y as int, COORD_LIMIT as int);
            lemma_diff_product_bound(poly@[i as int].y as int, b.x as int, COORD_LIMIT as int);
        }
        let t = (poly[i].x as i128) * (b.y as i128) - (poly[i].y as i128) * (b.x as i128);
        acc = acc + t;
        i = i + 1;
    }
    acc
}

/// Axis-aligned bounds `(minx, miny, maxx, maxy)` of the first `k` points,
/// starting from the first point's coordinates.
pub open spec fn spec_bounds(s: Seq<Point>, k: int) -> (int, int, int, int)
    decreases k,
{
    if k <= 1 {
        (s[0].x as int, s[0].y as int, s[0].x as int, s[0].y as int)
    } else {
        let (a, b, c, d) = spec_bounds(s, k - 1);
        let p = s[k - 1];
        (
            if p.x < a {
                p.x as int
            } else {
                a
            },
            if p.y < b {
                p.y as int
            } else {
                b
            },
            if p.x > c {
                p.x as int
            } else {
                c
            },
            if p.y > d {
                p.y as int
            } else {
                d
            },
        )
    }
}

/// Bounding box of a non-empty point list.
pub fn bounds_of(pts: &Vec<Point>) -> (r: (i64, i64, i64, i64))
    requires
        pts@.len() > 0,
    ensures
        (r.0 as int, r.1 as int, r.2 as int, r.3 as int) == spec_bounds(pts@, pts@.len() as int),
{
    let n = pts.len();
    let mut minx = pts[0].x;
    let mut miny = pts[0].y;
    let mut maxx = pts[0].x;
    let mut maxy = pts[0].y;
    let mut i: usize = 1;
    while i < n
        invariant
            1 <= i <= n,
            n == pts@.len(),
            (minx as int, miny as int, maxx as int, maxy as int) == spec_bounds(pts@, i as int),
        decreases n - i,
    {
        let p = pts[i];
        if p.x < minx {
            minx = p.x;
        }
        if p.y < miny {
            miny = p.y;
        }
        if p.x > maxx {
            maxx = p.x;
        }
        if p.y > maxy {
            maxy = p.y;
        }
        i = i + 1;
    }
    (minx, miny, maxx, maxy)
}

/// Bounds of several point lists merged, skipping empty ones; the first
/// `k` lists folded together, `None` while all were empty.
pub open spec fn spec_bounds_all(polys: Seq<Seq<Point>>, k: int) -> Option<(int, int, int, int)>
    decreases k,
{
    if k <= 0 {
        None
    } else {
        let prev = spec_bounds_all(polys, k - 1);
        let p = polys[k - 1];
        if p.len() == 0 {
            prev
        } else {
            let (a, b, c, d) = spec_bounds(p, p.len() as int);
            match prev {
                None => Some((a, b, c, d)),
                Some((pa, pb, pc, pd)) => Some(
                    (
                        if a < pa {
                            a
                        } else {
                            pa
                        },
                        if b < pb {
                            b
                        } else {
                            pb
                        },
                        if c > pc {
                            c
                        } else {
                            pc
                        },
                        if d > pd {
                            d
                        } else {
                            pd
                        },
                    ),
                ),
            }
        }
    }
}

/// Merged bounding box of several outlines; `None` when every list is
/// empty.
pub fn bounds_of_all(polys: &Vec<Vec<Point>>) -> (r: Option<(i64, i64, i64, i64)>)
    ensures
        match r {
            Some(b) => spec_bounds_all(
                polys@.map_values(|v: Vec<Point>| v@),
                polys@.len() as int,
            ) == Some((b.0 as int, b.1 as int, b.2 as int, b.3 as int)),
            None => spec_bounds_all(
                polys@.map_values(|v: Vec<Point>| v@),
                polys@.len() as int,
            ) is None,
        },
{
    let ghost gp = polys@.map_values(|v: Vec<Point>| v@);
    let n = polys.len();
    let mut acc: Option<(i64, i64, i64, i64)> = None;
    let mut i: usize = 0;
    while i < n
        invariant
            0 <= i <= n,
            n == polys@.len(),
            gp == polys@.map_values(|v: Vec<Point>| v@),
            match acc {
                Some(b) => spec_bounds_all(gp, i as int) == Some(
                    (b.0 as int, b.1 as int, b.2 as int, b.3 as int),
                ),
                None => spec_bounds_all(gp, i as int) is None,
            },
        decreases n - i,
    {
        proof {
            assert(gp[i as int] == polys@[i as int]@);
        }
        if polys[i].len() > 0 {
            let b = bounds_of(&polys[i]);
            acc = match acc {
                None => Some(b),
                Some(p) => Some(
                    (
                        if b.0 < p.0 {
                            b.0
                        } else {
                            p.0
                        },
                        if b.1 < p.1 {
                            b.1
                        } else {
                            p.1
                        },
                        if b.2 > p.2 {
                            b.2
                        } else {
                            p.2
                        },
                        if b.3 > p.3 {
                            b.3
                        } else {
                            p.3
                        },
                    ),
                ),
            };
        }
        i = i + 1;
    }
    acc
}

/// The input sequence shifted by `(dx, dy)`.
pub open spec fn spec_translate(s: Seq<Point>, dx: int, dy: int) -> Seq<Point> {
    s.map(|i: int, p: Point| Point { x: (p.x + dx) as i64, y: (p.y + dy) as i64 })
}

/// Translate every point by `(dx, dy)`.
pub fn translate_geom(pts: &Vec<Point>, dx: i64, dy: i64) -> (r: Vec<Point>)
    requires
        wf_poly(pts@),
        -COORD_LIMIT <= dx <= COORD_LIMIT,
        -COORD_LIMIT <= dy <= COORD_LIMIT,
    ensures
        r@ == spec_translate(pts@, dx as int, dy as int),
        r@.len() == pts@.len(),
{
    let n = pts.len();
    let mut out: Vec<Point> = Vec::new();
    let mut i: usize = 0;
    while i < n
        invariant
            0 <= i <= n,
            n == pts@.len(),
            wf_poly(pts@),
            -COORD_LIMIT <= dx <= COORD_LIMIT,
            -COORD_LIMIT <= dy <= COORD_LIMIT,
            out@.len() == i as int,
            forall|j: int|
                0 <= j < i ==> out@[j] == (Point {
                    x: (pts@[j].x + dx) as i64,
                    y: (pts@[j].y + dy) as i64,
                }),
        decreases n - i,
    {
        assert(in_range(pts@[i as int]));
        let p = pts[i];
        out.push(Point { x: p.x + dx, y: p.y + dy });
        i = i + 1;
    }
    proof {
        assert(out@ =~= spec_translate(pts@, dx as int, dy as int));
    }
    out
}

} // verus!
