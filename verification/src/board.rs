//! Boards and their inner / outer (ring-expanded) outlines.
//!
//! A board is a rectangle, a rectangle with one quarter-round cut corner,
//! or a free polygon (whose vertices may carry rounding markers). The play
//! area is bounded by the inner outline; `outer_outline` expands it outward
//! by the ring width: exactly for the rectangle forms, and by the
//! miter-plus-arc construction for polygons.
use vstd::prelude::*;

verus! {

use crate::COORD_LIMIT;
use crate::fixed::{
    spec_div_trunc, div_trunc, spec_sin_mdeg, spec_cos_mdeg, sin_mdeg, cos_mdeg,
    spec_atan2_mdeg, atan2_mdeg, lemma_sin_bounds,
};
use crate::geom::{Point, in_range, wf_poly, spec_area2, polygon_area2};
use crate::shape::{
    PolygonPoint, wf_polygon_point, spec_expand, poly_to_points, spec_unit, dir_scale, unrot_ok,
    param_ok, coord_ok, PARAM_LIMIT,
};

/// Ring width of the board's middle layer, in micrometers (8 mm).
pub const RING_WIDTH_UM: i64 = 8_000;

/// Which corner of a cut-rectangle board is rounded off.
#[derive(Clone, Copy, Debug, PartialEq, Eq, Structural)]
pub enum CutCorner {
    TopRight,
    Other,
}

/// A board: the container the pieces must stay inside.
#[derive(Clone, Debug)]
pub enum Board {
    Rect { w: i64, h: i64 },
    RoundedCutRect { w: i64, h: i64, r: i64, cut_corner: CutCorner },
    Polygon { points: Vec<PolygonPoint> },
}

pub open spec fn wf_board(b: Board) -> bool {
    match b {
        Board::Rect { w, h } => param_ok(w as int) && param_ok(h as int),
        Board::RoundedCutRect { w, h, r, cut_corner } => param_ok(w as int) && param_ok(h as int)
            && param_ok(r as int),
        Board::Polygon { points } => points@.len() <= 10_000 && forall|i: int|
            0 <= i < points@.len() ==> wf_polygon_point(#[trigger] points@[i]),
    }
}

/// Point `i` of a circular arc around `c` with radius `rad`, starting at
/// `base` millidegrees and sweeping a quarter turn over `samples` steps.
pub open spec fn quarter_arc_point(c: Point, rad: int, base: int, samples: int, i: int) -> Point {
    let ang = base + spec_div_trunc(90_000 * i, samples);
    Point {
        x: (c.x + dir_scale(spec_cos_mdeg(ang), rad)) as i64,
        y: (c.y + dir_scale(spec_sin_mdeg(ang), rad)) as i64,
    }
}

/// A quarter arc, `samples + 1` points including both ends.
pub open spec fn spec_quarter_arc(c: Point, rad: int, base: int, samples: int) -> Seq<Point> {
    Seq::new((samples + 1) as nat, |i: int| quarter_arc_point(c, rad, base, samples, i))
}

/// Sample a quarter arc.
fn quarter_arc(c: Point, rad: i64, base: i64, samples: usize) -> (r: Vec<Point>)
    requires
        unrot_ok(c),
        0 <= rad <= 2 * PARAM_LIMIT,
        -360_000 <= base <= 360_000,
        1 <= samples <= 64,
    ensures
        r@ == spec_quarter_arc(c, rad as int, base as int, samples as int),
        forall|i: int|
            0 <= i < r@.len() ==> -400_000_000 <= #[trigger] r@[i].x <= 400_000_000
                && -400_000_000 <= r@[i].y <= 400_000_000,
{
    let mut out: Vec<Point> = Vec::new();
    let mut i: usize = 0;
    while i <= samples
        invariant
            0 <= i <= samples + 1,
            unrot_ok(c),
            0 <= rad <= 2 * PARAM_LIMIT,
            -360_000 <= base <= 360_000,
            1 <= samples <= 64,
            out@.len() == i as int,
            forall|k: int|
                0 <= k < i ==> #[trigger] out@[k] == quarter_arc_point(
                    c,
                    rad as int,
                    base as int,
                    samples as int,
                    k,
                ),
            forall|k: int|
                0 <= k < i ==> -400_000_000 <= #[trigger] out@[k].x <= 400_000_000
                    && -400_000_000 <= out@[k].y <= 400_000_000,
        decreases samples + 1 - i,
    {
        let ang = base + (90_000 * (i as i64)) / (samples as i64);
        let px = c.x + dir_scale2(cos_mdeg(ang), rad);
        let py = c.y + dir_scale2(sin_mdeg(ang), rad);
        out.push(Point { x: px, y: py });
        proof {
            assert(ang == base + spec_div_trunc(90_000 * i as int, samples as int));
            assert(out@[i as int] == quarter_arc_point(
                c,
                rad as int,
                base as int,
                samples as int,
                i as int,
            ));
        }
        i = i + 1;
    }
    proof {
        assert(out@ =~= spec_quarter_arc(c, rad as int, base as int, samples as int));
    }
    out
}

/// `dir_scale` for radii up to twice the parameter limit.
fn dir_scale2(u: i64, r: i64) -> (res: i64)
    requires
        -2_000_000 <= u <= 2_000_000,
        0 <= r <= 2 * PARAM_LIMIT,
    ensures
        res == dir_scale(u as int, r as int),
        -160_000_000 <= res <= 160_000_000,
{
    proof {
        crate::geom::lemma_mul_bounds(u as int, r as int, 2_000_000, 2 * PARAM_LIMIT as int);
    }
    let p: i128 = (u as i128) * (r as i128);
    proof {
        if p >= 0 {
            vstd::arithmetic::div_mod::lemma_div_is_ordered(
                p as int,
                160_000_000_000_000,
                1_000_000,
            );
            vstd::arithmetic::div_mod::lemma_div_pos_is_pos(p as int, 1_000_000);
        } else {
            vstd::arithmetic::div_mod::lemma_div_is_ordered(
                -p as int,
                160_000_000_000_000,
                1_000_000,
            );
            vstd::arithmetic::div_mod::lemma_div_pos_is_pos(-p as int, 1_000_000);
        }
    }
    let w = crate::div_fix(p);
    w as i64
}

/// The inner (play-area) outline of a board, when one is derivable: only a
/// polygon board without vertices has none.
pub open spec fn spec_inner_outline(b: Board) -> Option<Seq<Point>> {
    match b {
        Board::Rect { w, h } => Some(
            seq![
                Point { x: 0, y: 0 },
                Point { x: w, y: 0 },
                Point { x: w, y: h },
                Point { x: 0, y: h },
            ],
        ),
        Board::RoundedCutRect { w, h, r, cut_corner } => {
            if cut_corner is TopRight {
                let c = Point { x: (w - r) as i64, y: (h - r) as i64 };
                Some(
                    seq![
                        Point { x: 0, y: 0 },
                        Point { x: w, y: 0 },
                        Point { x: w, y: (h - r) as i64 },
                    ] + spec_quarter_arc(c, r as int, 0, 24) + seq![Point { x: 0, y: h }],
                )
            } else {
                Some(
                    seq![
                        Point { x: 0, y: 0 },
                        Point { x: w, y: 0 },
                        Point { x: w, y: h },
                        Point { x: 0, y: h },
                    ],
                )
            }
        },
        Board::Polygon { points } => {
            let expanded = spec_expand(points@, points@.len() as int);
            if expanded.len() == 0 {
                None
            } else {
                Some(expanded)
            }
        },
    }
}

/// Build the inner outline.
pub fn inner_outline(b: &Board) -> (r: Option<Vec<Point>>)
    requires
        wf_board(*b),
    ensures
        match r {
            Some(v) => spec_inner_outline(*b) == Some(v@) && wf_poly(v@),
            None => spec_inner_outline(*b) is None,
        },
{
    match b {
        Board::Rect { w, h } => {
            let mut out: Vec<Point> = Vec::new();
            out.push(Point { x: 0, y: 0 });
            out.push(Point { x: *w, y: 0 });
            out.push(Point { x: *w, y: *h });
            out.push(Point { x: 0, y: *h });
            proof {
                assert(out@ =~= spec_inner_outline(*b)->Some_0);
            }
            Some(out)
        },
        Board::RoundedCutRect { w, h, r, cut_corner } => {
            match cut_corner {
                CutCorner::TopRight => {
                    let c = Point { x: *w - *r, y: *h - *r };
                    let mut out: Vec<Point> = Vec::new();
                    out.push(Point { x: 0, y: 0 });
                    out.push(Point { x: *w, y: 0 });
                    out.push(Point { x: *w, y: *h - *r });
                    let arc = quarter_arc(c, *r, 0, 24);
                    let mut k: usize = 0;
                    let ghost base = out@;
                    while k < arc.len()
                        invariant
                            0 <= k <= arc@.len(),
                            out@ == base + arc@.subrange(0, k as int),
                            forall|q: int| 0 <= q < arc@.len() ==> in_range(#[trigger] arc@[q]),
                            forall|q: int| 0 <= q < base.len() ==> in_range(#[trigger] base[q]),
                        decreases arc@.len() - k,
                    {
                        out.push(arc[k]);
                        proof {
                            assert(out@ =~= base + arc@.subrange(0, k as int + 1));
                        }
                        k = k + 1;
                    }
                    proof {
                        assert(arc@.subrange(0, arc@.len() as int) =~= arc@);
                    }
                    out.push(Point { x: 0, y: *h });
                    proof {
                        assert(out@ =~= spec_inner_outline(*b)->Some_0);
                    }
                    Some(out)
                },
                CutCorner::Other => {
                    let mut out: Vec<Point> = Vec::new();
                    out.push(Point { x: 0, y: 0 });
                    out.push(Point { x: *w, y: 0 });
                    out.push(Point { x: *w, y: *h });
                    out.push(Point { x: 0, y: *h });
                    proof {
                        assert(out@ =~= spec_inner_outline(*b)->Some_0);
                    }
                    Some(out)
                },
            }
        },
        Board::Polygon { points } => {
            let expanded = poly_to_points(points);
            if expanded.len() == 0 {
                None
            } else {
                Some(expanded)
            }
        },
    }
}

/// Exact rational intersection of the lines through `a1 a2` and `b1 b2`,
/// before any range check: `None` when parallel.
pub open spec fn spec_line_intersection_raw(a1: Point, a2: Point, b1: Point, b2: Point) -> Option<
    (int, int),
> {
    let den = (a1.x - a2.x) * (b1.y - b2.y) - (a1.y - a2.y) * (b1.x - b2.x);
    if den == 0 {
        None
    } else {
        let pa = a1.x * a2.y - a1.y * a2.x;
        let pb = b1.x * b2.y - b1.y * b2.x;
        let numx = pa * (b1.x - b2.x) - (a1.x - a2.x) * pb;
        let numy = pa * (b1.y - b2.y) - (a1.y - a2.y) * pb;
        Some((spec_div_signed(numx, den), spec_div_signed(numy, den)))
    }
}

/// Truncating division with a signed divisor.
pub open spec fn spec_div_signed(a: int, b: int) -> int {
    if b > 0 {
        spec_div_trunc(a, b)
    } else {
        spec_div_trunc(-a, -b)
    }
}

fn div_signed(a: i128, b: i128) -> (r: i128)
    requires
        b != 0,
        -0x4000_0000_0000_0000_0000_0000_0000_0000 <= a <= 0x4000_0000_0000_0000_0000_0000_0000_0000,
        -0x4000_0000_0000_0000_0000_0000_0000_0000 <= b <= 0x4000_0000_0000_0000_0000_0000_0000_0000,
    ensures
        r == spec_div_signed(a as int, b as int),
{
    if b > 0 {
        div_trunc(a, b)
    } else {
        div_trunc(-a, -b)
    }
}

/// Line intersection, `Some` only when the miter point is representable.
pub fn line_intersection(a1: Point, a2: Point, b1: Point, b2: Point) -> (r: Option<Point>)
    requires
        in_range(a1),
        in_range(a2),
        in_range(b1),
        in_range(b2),
    ensures
        match spec_line_intersection_raw(a1, a2, b1, b2) {
            Some((x, y)) => {
                if -COORD_LIMIT <= x <= COORD_LIMIT && -COORD_LIMIT <= y <= COORD_LIMIT {
                    r == Some(Point { x: x as i64, y: y as i64 })
                } else {
                    r is None
                }
            },
            None => r is None,
        },
{
    let x1 = a1.x as i128;
    let y1 = a1.y as i128;
    let x2 = a2.x as i128;
    let y2 = a2.y as i128;
    let x3 = b1.x as i128;
    let y3 = b1.y as i128;
    let x4 = b2.x as i128;
    let y4 = b2.y as i128;
    proof {
        crate::geom::lemma_mul_bounds(
            a1.x - a2.x as int,
            b1.y - b2.y as int,
            2 * COORD_LIMIT as int,
            2 * COORD_LIMIT as int,
        );
        crate::geom::lemma_mul_bounds(
            a1.y - a2.y as int,
            b1.x - b2.x as int,
            2 * COORD_LIMIT as int,
            2 * COORD_LIMIT as int,
        );
        crate::geom::lemma_mul_bounds(
            a1.x as int,
            a2.y as int,
            COORD_LIMIT as int,
            COORD_LIMIT as int,
        );
        crate::geom::lemma_mul_bounds(
            a1.y as int,
            a2.x as int,
            COORD_LIMIT as int,
            COORD_LIMIT as int,
        );
        crate::geom::lemma_mul_bounds(
            b1.x as int,
            b2.y as int,
            COORD_LIMIT as int,
            COORD_LIMIT as int,
        );
        crate::geom::lemma_mul_bounds(
            b1.y as int,
            b2.x as int,
            COORD_LIMIT as int,
            COORD_LIMIT as int,
        );
    }
    proof {
        assert(-4_000_000_000_000_000_000 <= (x1 - x2) * (y3 - y4)
            <= 4_000_000_000_000_000_000) by (nonlinear_arith)
            requires
                -2_000_000_000 <= x1 - x2 <= 2_000_000_000,
                -2_000_000_000 <= y3 - y4 <= 2_000_000_000,
        ;
        assert(-4_000_000_000_000_000_000 <= (y1 - y2) * (x3 - x4)
            <= 4_000_000_000_000_000_000) by (nonlinear_arith)
            requires
                -2_000_000_000 <= y1 - y2 <= 2_000_000_000,
                -2_000_000_000 <= x3 - x4 <= 2_000_000_000,
        ;
    }
    let den = (x1 - x2) * (y3 - y4) - (y1 - y2) * (x3 - x4);
    if den == 0 {
        return None;
    }
    let pa = x1 * y2 - y1 * x2;
    let pb = x3 * y4 - y3 * x4;
    proof {
        crate::geom::lemma_mul_bounds(
            pa as int,
            b1.x - b2.x as int,
            2_000_000_000_000_000_000,
            2 * COORD_LIMIT as int,
        );
        crate::geom::lemma_mul_bounds(
            a1.x - a2.x as int,
            pb as int,
            2 * COORD_LIMIT as int,
            2_000_000_000_000_000_000,
        );
        crate::geom::lemma_mul_bounds(
            pa as int,
            b1.y - b2.y as int,
            2_000_000_000_000_000_000,
            2 * COORD_LIMIT as int,
        );
        crate::geom::lemma_mul_bounds(
            a1.y - a2.y as int,
            pb as int,
            2 * COORD_LIMIT as int,
            2_000_000_000_000_000_000,
        );
    }
    let numx = pa * (x3 - x4) - (x1 - x2) * pb;
    let numy = pa * (y3 - y4) - (y1 - y2) * pb;
    let px = div_signed(numx, den);
    let py = div_signed(numy, den);
    if -COORD_LIMIT as i128 <= px && px <= COORD_LIMIT as i128 && -COORD_LIMIT as i128 <= py && py
        <= COORD_LIMIT as i128 {
        Some(Point { x: px as i64, y: py as i64 })
    } else {
        None
    }
}

/// Outward unit normal (scaled by `FIX_ONE`) of the edge `p -> q`: the
/// right normal for counter-clockwise polygons, the left one otherwise.
pub open spec fn spec_normal(p: Point, q: Point, ccw: bool) -> (int, int) {
    let u = spec_unit(q.x - p.x, q.y - p.y);
    if ccw {
        (u.1, -u.0)
    } else {
        (-u.1, u.0)
    }
}

/// The previous index on a closed ring.
pub open spec fn prev_idx(n: int, i: int) -> int {
    if i == 0 {
        n - 1
    } else {
        i - 1
    }
}

/// A vertex of the polygon offset outward along a normal by `r`.
pub open spec fn offset_point(p: Point, nx: int, ny: int, r: int) -> Point {
    Point { x: (p.x + dir_scale(nx, r)) as i64, y: (p.y + dir_scale(ny, r)) as i64 }
}

/// The miter point at vertex `i`: the intersection of the two adjacent
/// offset edge lines, or the current offset vertex when they are parallel
/// or the intersection is out of range.
pub open spec fn spec_miter(s: Seq<Point>, i: int, r: int, ccw: bool) -> Point {
    let n = s.len() as int;
    let p0 = s[prev_idx(n, i)];
    let p1 = s[i];
    let p2 = crate::geom::edge_to(s, i);
    let n0 = spec_normal(p0, p1, ccw);
    let n1 = spec_normal(p1, p2, ccw);
    let a1 = offset_point(p0, n0.0, n0.1, r);
    let a2 = offset_point(p1, n0.0, n0.1, r);
    let b1 = offset_point(p1, n1.0, n1.1, r);
    let b2 = offset_point(p2, n1.0, n1.1, r);
    match spec_line_intersection_raw(a1, a2, b1, b2) {
        Some((x, y)) => {
            if -COORD_LIMIT <= x <= COORD_LIMIT && -COORD_LIMIT <= y <= COORD_LIMIT {
                Point { x: x as i64, y: y as i64 }
            } else {
                b1
            }
        },
        None => b1,
    }
}

/// The arc sweep at a join, normalized to a half turn and then forced to
/// the side that stays outside the polygon.
pub open spec fn spec_sweep(a0: int, a1: int, ccw: bool) -> int {
    let d0 = a1 - a0;
    let d1 = if d0 > 180_000 {
        d0 - 360_000
    } else if d0 <= -180_000 {
        d0 + 360_000
    } else {
        d0
    };
    if ccw {
        if d1 > 0 {
            d1 - 360_000
        } else {
            d1
        }
    } else {
        if d1 < 0 {
            d1 + 360_000
        } else {
            d1
        }
    }
}

/// One arc sample at a join around vertex `c`.
pub open spec fn join_arc_point(c: Point, a0: int, d: int, r: int, k: int) -> Point {
    let ang = a0 + spec_div_trunc(d * k, 8);
    Point {
        x: (c.x + dir_scale(spec_cos_mdeg(ang), r)) as i64,
        y: (c.y + dir_scale(spec_sin_mdeg(ang), r)) as i64,
    }
}

/// The rounded join inserted at vertex `i`: nine arc samples from the
/// previous edge's normal angle to the current one, then the miter point.
pub open spec fn spec_vertex_ring(s: Seq<Point>, i: int, r: int, ccw: bool) -> Seq<Point> {
    let n = s.len() as int;
    let c = s[i];
    let p0 = s[prev_idx(n, i)];
    let p2 = crate::geom::edge_to(s, i);
    let n0 = spec_normal(p0, c, ccw);
    let n1 = spec_normal(c, p2, ccw);
    let a0 = spec_atan2_mdeg(n0.1, n0.0);
    let a1 = spec_atan2_mdeg(n1.1, n1.0);
    let d = spec_sweep(a0, a1, ccw);
    Seq::new(9, |k: int| join_arc_point(c, a0, d, r, k)) + seq![spec_miter(s, i, r, ccw)]
}

/// The joins of the first `k` vertices, concatenated.
pub open spec fn spec_offset_prefix(s: Seq<Point>, r: int, ccw: bool, k: int) -> Seq<Point>
    decreases k,
{
    if k <= 0 {
        Seq::empty()
    } else {
        spec_offset_prefix(s, r, ccw, k - 1) + spec_vertex_ring(s, k - 1, r, ccw)
    }
}

/// Outward rounded offset of a closed polygon: per-vertex rounded joins
/// plus miter points; the input unchanged when it has fewer than three
/// vertices or the radius is not positive.
pub open spec fn spec_offset(s: Seq<Point>, r: int) -> Seq<Point> {
    if s.len() < 3 || r <= 0 {
        s
    } else {
        spec_offset_prefix(s, r, spec_area2(s) > 0, s.len() as int)
    }
}

/// One rounded join, executable.
fn vertex_ring(s: &Vec<Point>, i: usize, r: i64, ccw: bool) -> (out: Vec<Point>)
    requires
        s@.len() >= 2,
        s@.len() <= 250_000,
        i < s@.len(),
        forall|k: int| 0 <= k < s@.len() ==> unrot_ok(#[trigger] s@[k]),
        0 < r <= PARAM_LIMIT,
    ensures
        out@ == spec_vertex_ring(s@, i as int, r as int, ccw),
        forall|k: int| 0 <= k < out@.len() ==> in_range(#[trigger] out@[k]),
        out@.len() == 10,
{
    let n = s.len();
    let pi = if i == 0 {
        n - 1
    } else {
        i - 1
    };
    let c = s[i];
    let p0 = s[pi];
    let p2 = if i + 1 < n {
        s[i + 1]
    } else {
        s[0]
    };
    proof {
        assert(p2 == crate::geom::edge_to(s@, i as int));
        crate::shape::lemma_unit_range(c.x - p0.x as int, c.y - p0.y as int);
        crate::shape::lemma_unit_range(p2.x - c.x as int, p2.y - c.y as int);
    }
    let (e0x, e0y) = crate::shape::unit_scaled(c.x - p0.x, c.y - p0.y);
    let (n0x, n0y) = if ccw {
        (e0y, -e0x)
    } else {
        (-e0y, e0x)
    };
    let (e1x, e1y) = crate::shape::unit_scaled(p2.x - c.x, p2.y - c.y);
    let (n1x, n1y) = if ccw {
        (e1y, -e1x)
    } else {
        (-e1y, e1x)
    };
    let a0 = atan2_mdeg(n0y, n0x);
    let a1 = atan2_mdeg(n1y, n1x);
    let d0 = a1 - a0;
    let d1: i64 = if d0 > 180_000 {
        d0 - 360_000
    } else if d0 <= -180_000 {
        d0 + 360_000
    } else {
        d0
    };
    let d: i64 = if ccw {
        if d1 > 0 {
            d1 - 360_000
        } else {
            d1
        }
    } else {
        if d1 < 0 {
            d1 + 360_000
        } else {
            d1
        }
    };
    proof {
        assert((n0x as int, n0y as int) == spec_normal(p0, c, ccw));
        assert((n1x as int, n1y as int) == spec_normal(c, p2, ccw));
        assert(d == spec_sweep(a0 as int, a1 as int, ccw));
    }
    let mut out: Vec<Point> = Vec::new();
    let mut k: usize = 0;
    while k < 9
        invariant
            0 <= k <= 9,
            out@.len() == k as int,
            unrot_ok(c),
            0 < r <= PARAM_LIMIT,
            -360_000 <= d <= 360_000,
            -180_000 <= a0 <= 180_000,
            a0 == spec_atan2_mdeg(n0y as int, n0x as int),
            d == spec_sweep(a0 as int, spec_atan2_mdeg(n1y as int, n1x as int), ccw),
            forall|q: int|
                0 <= q < k ==> #[trigger] out@[q] == join_arc_point(
                    c,
                    a0 as int,
                    d as int,
                    r as int,
                    q,
                ),
            forall|q: int| 0 <= q < k ==> in_range(#[trigger] out@[q]),
        decreases 9 - k,
    {
        proof {
            crate::geom::lemma_mul_bounds(d as int, k as int, 360_000, 9);
        }
        let step = div_trunc((d as i128) * (k as i128), 8);
        let ang = a0 + (step as i64);
        let px = c.x + crate::shape::dir_scale_exec(cos_mdeg(ang), r);
        let py = c.y + crate::shape::dir_scale_exec(sin_mdeg(ang), r);
        out.push(Point { x: px, y: py });
        proof {
            assert(out@[k as int] == join_arc_point(c, a0 as int, d as int, r as int, k as int));
        }
        k = k + 1;
    }
    let oa1 = Point { x: p0.x + crate::shape::dir_scale_exec(n0x, r), y: p0.y + crate::shape::dir_scale_exec(n0y, r) };
    let oa2 = Point { x: c.x + crate::shape::dir_scale_exec(n0x, r), y: c.y + crate::shape::dir_scale_exec(n0y, r) };
    let ob1 = Point { x: c.x + crate::shape::dir_scale_exec(n1x, r), y: c.y + crate::shape::dir_scale_exec(n1y, r) };
    let ob2 = Point { x: p2.x + crate::shape::dir_scale_exec(n1x, r), y: p2.y + crate::shape::dir_scale_exec(n1y, r) };
    let miter = match line_intersection(oa1, oa2, ob1, ob2) {
        Some(m) => m,
        None => ob1,
    };
    proof {
        assert(oa1 == offset_point(p0, n0x as int, n0y as int, r as int));
        assert(miter == spec_miter(s@, i as int, r as int, ccw));
    }
    out.push(miter);
    proof {
        assert(out@ =~= spec_vertex_ring(s@, i as int, r as int, ccw));
    }
    out
}

/// Outward rounded offset, executable.
pub fn polygon_offset_rounded(inner: &Vec<Point>, r: i64) -> (out: Vec<Point>)
    requires
        inner@.len() <= 250_000,
        forall|k: int| 0 <= k < inner@.len() ==> unrot_ok(#[trigger] inner@[k]),
        0 <= r <= PARAM_LIMIT,
    ensures
        out@ == spec_offset(inner@, r as int),
        wf_poly(out@),
{
    let n = inner.len();
    if n < 3 || r <= 0 {
        let mut copy: Vec<Point> = Vec::new();
        let mut i: usize = 0;
        while i < n
            invariant
                0 <= i <= n,
                n == inner@.len(),
                forall|k: int| 0 <= k < inner@.len() ==> unrot_ok(#[trigger] inner@[k]),
                copy@ == inner@.subrange(0, i as int),
            decreases n - i,
        {
            copy.push(inner[i]);
            proof {
                assert(copy@ =~= inner@.subrange(0, i as int + 1));
            }
            i = i + 1;
        }
        proof {
            assert(copy@ =~= inner@);
        }
        return copy;
    }
    let area = polygon_area2(inner);
    let ccw = area > 0;
    let mut out: Vec<Point> = Vec::new();
    let mut i: usize = 0;
    while i < n
        invariant
            0 <= i <= n,
            n == inner@.len(),
            2 <= n <= 250_000,
            forall|k: int| 0 <= k < inner@.len() ==> unrot_ok(#[trigger] inner@[k]),
            0 < r <= PARAM_LIMIT,
            ccw == (spec_area2(inner@) > 0),
            out@ == spec_offset_prefix(inner@, r as int, ccw, i as int),
            forall|k: int| 0 <= k < out@.len() ==> in_range(#[trigger] out@[k]),
        decreases n - i,
    {
        let ring = vertex_ring(inner, i, r, ccw);
        let mut k: usize = 0;
        let ghost base = out@;
        while k < ring.len()
            invariant
                0 <= k <= ring@.len(),
                out@ == base + ring@.subrange(0, k as int),
                forall|q: int| 0 <= q < ring@.len() ==> in_range(#[trigger] ring@[q]),
                forall|q: int| 0 <= q < base.len() ==> in_range(#[trigger] base[q]),
            decreases ring@.len() - k,
        {
            out.push(ring[k]);
            proof {
                assert(out@ =~= base + ring@.subrange(0, k as int + 1));
            }
            k = k + 1;
        }
        proof {
            assert(ring@.subrange(0, ring@.len() as int) =~= ring@);
            assert(out@ == spec_offset_prefix(inner@, r as int, ccw, i as int + 1));
        }
        i = i + 1;
    }
    proof {
        assert(out@ == spec_offset(inner@, r as int));
    }
    out
}

/// The outer outline: the inner one pushed outward by `ring`. Exact for
/// the rectangle forms (edges moved out; the cut corner's radius grows by
/// `ring` about a fixed center), rounded offset for polygons.
pub open spec fn spec_outer_outline(b: Board, ring: int) -> Option<Seq<Point>> {
    match b {
        Board::Rect { w, h } => Some(
            seq![
                Point { x: -ring as i64, y: -ring as i64 },
                Point { x: (w + ring) as i64, y: -ring as i64 },
                Point { x: (w + ring) as i64, y: (h + ring) as i64 },
                Point { x: -ring as i64, y: (h + ring) as i64 },
            ],
        ),
        Board::RoundedCutRect { w, h, r, cut_corner } => {
            if cut_corner is TopRight {
                let c = Point { x: (w - r) as i64, y: (h - r) as i64 };
                Some(
                    seq![
                        Point { x: -ring as i64, y: -ring as i64 },
                        Point { x: (w + ring) as i64, y: -ring as i64 },
                        Point { x: (w + ring) as i64, y: (h - r) as i64 },
                    ] + spec_quarter_arc(c, r + ring, 0, 28) + seq![
                        Point { x: -ring as i64, y: (h + ring) as i64 },
                    ],
                )
            } else {
                Some(
                    seq![
                        Point { x: -ring as i64, y: -ring as i64 },
                        Point { x: (w + ring) as i64, y: -ring as i64 },
                        Point { x: (w + ring) as i64, y: (h + ring) as i64 },
                        Point { x: -ring as i64, y: (h + ring) as i64 },
                    ],
                )
            }
        },
        Board::Polygon { points } => {
            let expanded = spec_expand(points@, points@.len() as int);
            if expanded.len() < 3 {
                None
            } else {
                Some(spec_offset(expanded, ring))
            }
        },
    }
}

/// Build the outer outline for the given ring width.
pub fn outer_outline(b: &Board, ring: i64) -> (res: Option<Vec<Point>>)
    requires
        wf_board(*b),
        0 <= ring <= PARAM_LIMIT,
    ensures
        match res {
            Some(v) => spec_outer_outline(*b, ring as int) == Some(v@) && wf_poly(v@),
            None => spec_outer_outline(*b, ring as int) is None,
        },
{
    match b {
        Board::Rect { w, h } => {
            let mut out: Vec<Point> = Vec::new();
            out.push(Point { x: -ring, y: -ring });
            out.push(Point { x: *w + ring, y: -ring });
            out.push(Point { x: *w + ring, y: *h + ring });
            out.push(Point { x: -ring, y: *h + ring });
            proof {
                assert(out@ =~= spec_outer_outline(*b, ring as int)->Some_0);
            }
            Some(out)
        },
        Board::RoundedCutRect { w, h, r, cut_corner } => {
            match cut_corner {
                CutCorner::TopRight => {
                    let c = Point { x: *w - *r, y: *h - *r };
                    let mut out: Vec<Point> = Vec::new();
                    out.push(Point { x: -ring, y: -ring });
                    out.push(Point { x: *w + ring, y: -ring });
                    out.push(Point { x: *w + ring, y: *h - *r });
                    let arc = quarter_arc(c, *r + ring, 0, 28);
                    let mut k: usize = 0;
                    let ghost base = out@;
                    while k < arc.len()
                        invariant
                            0 <= k <= arc@.len(),
                            out@ == base + arc@.subrange(0, k as int),
                            forall|q: int| 0 <= q < arc@.len() ==> in_range(#[trigger] arc@[q]),
                            forall|q: int| 0 <= q < base.len() ==> in_range(#[trigger] base[q]),
                        decreases arc@.len() - k,
                    {
                        out.push(arc[k]);
                        proof {
                            assert(out@ =~= base + arc@.subrange(0, k as int + 1));
                        }
                        k = k + 1;
                    }
                    proof {
                        assert(arc@.subrange(0, arc@.len() as int) =~= arc@);
                    }
                    out.push(Point { x: -ring, y: *h + ring });
                    proof {
                        assert(out@ =~= spec_outer_outline(*b, ring as int)->Some_0);
                    }
                    Some(out)
                },
                CutCorner::Other => {
                    let mut out: Vec<Point> = Vec::new();
                    out.push(Point { x: -ring, y: -ring });
                    out.push(Point { x: *w + ring, y: -ring });
                    out.push(Point { x: *w + ring, y: *h + ring });
                    out.push(Point { x: -ring, y: *h + ring });
                    proof {
                        assert(out@ =~= spec_outer_outline(*b, ring as int)->Some_0);
                    }
                    Some(out)
                },
            }
        },
        Board::Polygon { points } => {
            let expanded = poly_to_points(points);
            if expanded.len() < 3 {
                None
            } else {
                Some(polygon_offset_rounded(&expanded, ring))
            }
        },
    }
}

/// Identity at zero ring width: for a rectangle board, the outer outline
/// with `ring == 0` is exactly the inner outline.
pub proof fn lemma_outer_ring_zero_rect(b: Board)
    requires
        wf_board(b),
        b is Rect,
    ensures
        spec_outer_outline(b, 0) == spec_inner_outline(b),
{
    assert(spec_outer_outline(b, 0)->Some_0 =~= spec_inner_outline(b)->Some_0);
}

/// The same identity for polygon boards: a zero offset leaves the
/// expanded outline unchanged.
pub proof fn lemma_outer_ring_zero_polygon(b: Board)
    requires
        wf_board(b),
        b is Polygon,
        spec_expand(b->Polygon_points@, b->Polygon_points@.len() as int).len() >= 3,
    ensures
        spec_outer_outline(b, 0) == spec_inner_outline(b),
{
}

/// One stretch of a board boundary for drawing: a straight segment, or a
/// circular arc (radius and center set) between its two tangent points.
#[derive(Clone, Copy, Debug, PartialEq, Eq, Structural)]
pub struct Segment {
    pub start: Point,
    pub end: Point,
    pub radius: Option<i64>,
    pub center: Option<Point>,
}

/// The boundary segments from vertex position `j` on, entering at `curr`:
/// a plain vertex closes a straight segment; a rounded vertex contributes
/// the straight lead-in and its arc.
pub open spec fn spec_segments_from(poly: Seq<PolygonPoint>, curr: Point, j: int) -> Seq<Segment>
    decreases poly.len() - j,
{
    let n = poly.len() as int;
    if j < 0 || j >= n {
        Seq::empty()
    } else {
        let next_idx = if j + 1 < n {
            j + 1
        } else {
            0
        };
        match poly[next_idx] {
            PolygonPoint::Plain { x, y } => {
                let nx = Point { x, y };
                seq![Segment { start: curr, end: nx, radius: None, center: None }]
                    + spec_segments_from(poly, nx, j + 1)
            },
            PolygonPoint::Rounded { x, y, r } => {
                let next2 = (j + 2) % n;
                let (start, end, center) = crate::shape::corner_frame(
                    curr,
                    crate::shape::spec_xy(poly[next2]),
                    x,
                    y,
                    r,
                );
                seq![
                    Segment { start: curr, end: start, radius: None, center: None },
                    Segment { start, end, radius: Some(r), center: Some(center) },
                ] + spec_segments_from(poly, end, j + 1)
            },
        }
    }
}

/// All boundary segments of a free polygon with optional rounded corners.
pub open spec fn spec_polygon_segments(poly: Seq<PolygonPoint>) -> Seq<Segment> {
    if poly.len() == 0 {
        Seq::empty()
    } else {
        spec_segments_from(poly, crate::shape::spec_xy(poly[0]), 0)
    }
}

/// Walk a rounded polygon's boundary into straight and arc segments.
pub fn polygon_segments(poly: &Vec<PolygonPoint>) -> (out: Vec<Segment>)
    requires
        poly@.len() <= 10_000,
        forall|i: int| 0 <= i < poly@.len() ==> wf_polygon_point(#[trigger] poly@[i]),
    ensures
        out@ == spec_polygon_segments(poly@),
{
    let n = poly.len();
    let mut out: Vec<Segment> = Vec::new();
    if n == 0 {
        return out;
    }
    let first = crate::shape::xy_of_point(&poly[0]);
    let mut curr = first;
    let mut j: usize = 0;
    while j < n
        invariant
            0 <= j <= n,
            n == poly@.len(),
            1 <= n <= 10_000,
            forall|i: int| 0 <= i < poly@.len() ==> wf_polygon_point(#[trigger] poly@[i]),
            unrot_ok(curr),
            spec_polygon_segments(poly@) == out@ + spec_segments_from(poly@, curr, j as int),
        decreases n - j,
    {
        let next_idx = if j + 1 < n {
            j + 1
        } else {
            0
        };
        match poly[next_idx] {
            PolygonPoint::Plain { x, y } => {
                let nx = Point { x, y };
                out.push(Segment { start: curr, end: nx, radius: None, center: None });
                proof {
                    lemma_concat_assoc_segments();
                }
                curr = nx;
            },
            PolygonPoint::Rounded { x, y, r } => {
                let next2 = (j + 2) % n;
                proof {
                    vstd::arithmetic::div_mod::lemma_mod_bound((j + 2) as int, n as int);
                }
                let next_xy = crate::shape::xy_of_point(&poly[next2]);
                let (start, endp, center) = crate::shape::corner_frame_exec(
                    curr,
                    next_xy,
                    x,
                    y,
                    r,
                );
                out.push(Segment { start: curr, end: start, radius: None, center: None });
                out.push(Segment { start, end: endp, radius: Some(r), center: Some(center) });
                proof {
                    lemma_concat_assoc_segments();
                }
                curr = endp;
            },
        }
        j = j + 1;
    }
    proof {
        assert(spec_segments_from(poly@, curr, n as int) =~= Seq::<Segment>::empty());
        assert(out@ + Seq::<Segment>::empty() =~= out@);
    }
    out
}

/// Concatenation of segment lists is associative.
proof fn lemma_concat_assoc_segments()
    ensures
        forall|x: Seq<Segment>, y: Seq<Segment>, z: Seq<Segment>|
            #[trigger] ((x + y) + z) == x + (y + z),
{
    assert forall|x: Seq<Segment>, y: Seq<Segment>, z: Seq<Segment>| #[trigger] ((x + y) + z) == x
        + (y + z) by {
        assert((x + y) + z =~= x + (y + z));
    }
}

/// The boundary segments of a board: four sides for a rectangle, the
/// sides plus the corner arc for a cut rectangle, the walked boundary for
/// a polygon.
pub open spec fn spec_board_segments(b: Board) -> Seq<Segment> {
    match b {
        Board::Rect { w, h } => seq![
            Segment {
                start: Point { x: 0, y: 0 },
                end: Point { x: w, y: 0 },
                radius: None,
                center: None,
            },
            Segment {
                start: Point { x: w, y: 0 },
                end: Point { x: w, y: h },
                radius: None,
                center: None,
            },
            Segment {
                start: Point { x: w, y: h },
                end: Point { x: 0, y: h },
                radius: None,
                center: None,
            },
            Segment {
                start: Point { x: 0, y: h },
                end: Point { x: 0, y: 0 },
                radius: None,
                center: None,
            },
        ],
        Board::RoundedCutRect { w, h, r, cut_corner } => {
            if cut_corner is TopRight {
                let c = Point { x: (w - r) as i64, y: (h - r) as i64 };
                seq![
                    Segment {
                        start: Point { x: 0, y: 0 },
                        end: Point { x: w, y: 0 },
                        radius: None,
                        center: None,
                    },
                    Segment {
                        start: Point { x: w, y: 0 },
                        end: Point { x: w, y: (h - r) as i64 },
                        radius: None,
                        center: None,
                    },
                    Segment {
                        start: Point { x: w, y: (h - r) as i64 },
                        end: Point { x: (w - r) as i64, y: h },
                        radius: Some(r),
                        center: Some(c),
                    },
                    Segment {
                        start: Point { x: (w - r) as i64, y: h },
                        end: Point { x: 0, y: h },
                        radius: None,
                        center: None,
                    },
                    Segment {
                        start: Point { x: 0, y: h },
                        end: Point { x: 0, y: 0 },
                        radius: None,
                        center: None,
                    },
                ]
            } else {
                seq![
                    Segment {
                        start: Point { x: 0, y: 0 },
                        end: Point { x: w, y: 0 },
                        radius: None,
                        center: None,
                    },
                    Segment {
                        start: Point { x: w, y: 0 },
                        end: Point { x: w, y: h },
                        radius: None,
                        center: None,
                    },
                    Segment {
                        start: Point { x: w, y: h },
                        end: Point { x: 0, y: h },
                        radius: None,
                        center: None,
                    },
                    Segment {
                        start: Point { x: 0, y: h },
                        end: Point { x: 0, y: 0 },
                        radius: None,
                        center: None,
                    },
                ]
            }
        },
        Board::Polygon { points } => spec_polygon_segments(points@),
    }
}

/// The board boundary as drawable segments.
pub fn board_segments(b: &Board) -> (out: Vec<Segment>)
    requires
        wf_board(*b),
    ensures
        out@ == spec_board_segments(*b),
{
    match b {
        Board::Rect { w, h } => {
            let mut out: Vec<Segment> = Vec::new();
            out.push(Segment {
                start: Point { x: 0, y: 0 },
                end: Point { x: *w, y: 0 },
                radius: None,
                center: None,
            });
            out.push(Segment {
                start: Point { x: *w, y: 0 },
                end: Point { x: *w, y: *h },
                radius: None,
                center: None,
            });
            out.push(Segment {
                start: Point { x: *w, y: *h },
                end: Point { x: 0, y: *h },
                radius: None,
                center: None,
            });
            out.push(Segment {
                start: Point { x: 0, y: *h },
                end: Point { x: 0, y: 0 },
                radius: None,
                center: None,
            });
            proof {
                assert(out@ =~= spec_board_segments(*b));
            }
            out
        },
        Board::RoundedCutRect { w, h, r, cut_corner } => {
            match cut_corner {
                CutCorner::TopRight => {
                    let c = Point { x: *w - *r, y: *h - *r };
                    let mut out: Vec<Segment> = Vec::new();
                    out.push(Segment {
                        start: Point { x: 0, y: 0 },
                        end: Point { x: *w, y: 0 },
                        radius: None,
                        center: None,
                    });
                    out.push(Segment {
                        start: Point { x: *w, y: 0 },
                        end: Point { x: *w, y: *h - *r },
                        radius: None,
                        center: None,
                    });
                    out.push(Segment {
                        start: Point { x: *w, y: *h - *r },
                        end: Point { x: *w - *r, y: *h },
                        radius: Some(*r),
                        center: Some(c),
                    });
                    out.push(Segment {
                        start: Point { x: *w - *r, y: *h },
                        end: Point { x: 0, y: *h },
                        radius: None,
                        center: None,
                    });
                    out.push(Segment {
                        start: Point { x: 0, y: *h },
                        end: Point { x: 0, y: 0 },
                        radius: None,
                        center: None,
                    });
                    proof {
                        assert(out@ =~= spec_board_segments(*b));
                    }
                    out
                },
                CutCorner::Other => {
                    let mut out: Vec<Segment> = Vec::new();
                    out.push(Segment {
                        start: Point { x: 0, y: 0 },
                        end: Point { x: *w, y: 0 },
                        radius: None,
                        center: None,
                    });
                    out.push(Segment {
                        start: Point { x: *w, y: 0 },
                        end: Point { x: *w, y: *h },
                        radius: None,
                        center: None,
                    });
                    out.push(Segment {
                        start: Point { x: *w, y: *h },
                        end: Point { x: 0, y: *h },
                        radius: None,
                        center: None,
                    });
                    out.push(Segment {
                        start: Point { x: 0, y: *h },
                        end: Point { x: 0, y: 0 },
                        radius: None,
                        center: None,
                    });
                    proof {
                        assert(out@ =~= spec_board_segments(*b));
                    }
                    out
                },
            }
        },
        Board::Polygon { points } => polygon_segments(points),
    }
}

} // verus!
