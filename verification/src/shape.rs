//! Shape descriptors and the outline generator.
//!
//! A `Piece` pairs a `ShapeKind` with a `Pose`. `outline` produces the
//! closed polyline of the posed shape together with its reference center:
//! the shape is built in its own frame, mirrored when flipped, then rotated
//! about the center. Every produced coordinate is pinned exactly by the
//! spec functions below.
use vstd::prelude::*;

verus! {

use crate::{FIX_ONE, spec_div_fix, div_fix};
use crate::fixed::{
    spec_div_trunc, div_trunc, spec_sin_mdeg, spec_cos_mdeg, sin_mdeg, cos_mdeg, lemma_sin_bounds,
    spec_atan2_mdeg, atan2_mdeg, spec_isqrt, isqrt_u128, lemma_sin_half_bounds, norm_mdeg,
    lemma_sin_period,
};
use crate::geom::{Point, in_range};

/// Largest shape parameter / position magnitude accepted (in micrometers).
pub const PARAM_LIMIT: i64 = 40_000_000;

/// Unrotated outline points stay within this magnitude.
pub const UNROT_LIMIT: i64 = 160_000_000;

/// Largest rotation magnitude accepted, in millidegrees.
pub const ROT_LIMIT: i64 = 36_000_000_000;

/// How the `at` point anchors the shape.
#[derive(Clone, Copy, Debug, PartialEq, Eq, Structural)]
pub enum Anchor {
    BottomLeft,
    Center,
}

/// A free-polygon vertex: plain, or a corner to be rounded with radius `r`.
#[derive(Clone, Copy, Debug, PartialEq, Eq, Structural)]
pub enum PolygonPoint {
    Plain { x: i64, y: i64 },
    Rounded { x: i64, y: i64, r: i64 },
}

/// The closed set of supported shapes.
#[derive(Clone, Debug)]
pub enum ShapeKind {
    Rect { w: i64, h: i64 },
    EquilateralTriangle { side: i64 },
    RightTriangle { a: i64, b: i64 },
    RegularPolygon { n: u32, side: i64 },
    Circle { diameter: Option<i64>, radius: Option<i64> },
    IsoscelesTrapezoid { base_bottom: i64, base_top: i64, height: i64 },
    Parallelogram { base: i64, offset_top: i64, height: i64 },
    FreePolygon { points: Vec<PolygonPoint> },
}

/// Position, rotation (millidegrees), anchor mode and mirror flag.
#[derive(Clone, Copy, Debug, PartialEq, Eq, Structural)]
pub struct Pose {
    pub at: Point,
    pub rotation_mdeg: i64,
    pub anchor: Anchor,
    pub flip: bool,
}

/// A puzzle piece: a shape with a pose and optional identity.
#[derive(Clone, Debug)]
pub struct Piece {
    pub id: Option<String>,
    pub shape: ShapeKind,
    pub pose: Pose,
    pub label_idx: Option<usize>,
    pub color_idx: Option<usize>,
}

pub open spec fn param_ok(v: int) -> bool {
    0 <= v <= PARAM_LIMIT
}

pub open spec fn coord_ok(v: int) -> bool {
    -PARAM_LIMIT <= v <= PARAM_LIMIT
}

pub open spec fn wf_polygon_point(p: PolygonPoint) -> bool {
    match p {
        PolygonPoint::Plain { x, y } => coord_ok(x as int) && coord_ok(y as int),
        PolygonPoint::Rounded { x, y, r } => coord_ok(x as int) && coord_ok(y as int) && param_ok(
            r as int,
        ),
    }
}

pub open spec fn wf_shape(s: ShapeKind) -> bool {
    match s {
        ShapeKind::Rect { w, h } => param_ok(w as int) && param_ok(h as int),
        ShapeKind::EquilateralTriangle { side } => param_ok(side as int),
        ShapeKind::RightTriangle { a, b } => param_ok(a as int) && param_ok(b as int),
        ShapeKind::RegularPolygon { n, side } => 3 <= n <= 64 && 0 <= side <= 2_000_000,
        ShapeKind::Circle { diameter, radius } => (match diameter {
            Some(d) => param_ok(d as int),
            None => true,
        }) && (match radius {
            Some(r) => param_ok(r as int),
            None => true,
        }),
        ShapeKind::IsoscelesTrapezoid { base_bottom, base_top, height } => param_ok(
            base_bottom as int,
        ) && param_ok(base_top as int) && param_ok(height as int),
        ShapeKind::Parallelogram { base, offset_top, height } => param_ok(base as int) && coord_ok(
            offset_top as int,
        ) && param_ok(height as int),
        ShapeKind::FreePolygon { points } => points@.len() <= 10_000 && forall|i: int|
            0 <= i < points@.len() ==> wf_polygon_point(#[trigger] points@[i]),
    }
}

pub open spec fn wf_pose(p: Pose) -> bool {
    coord_ok(p.at.x as int) && coord_ok(p.at.y as int) && -ROT_LIMIT <= p.rotation_mdeg <= ROT_LIMIT
}

pub open spec fn wf_piece(p: Piece) -> bool {
    wf_shape(p.shape) && wf_pose(p.pose)
}

/// A point stays within the unrotated-outline range.
pub open spec fn unrot_ok(p: Point) -> bool {
    -UNROT_LIMIT <= p.x <= UNROT_LIMIT && -UNROT_LIMIT <= p.y <= UNROT_LIMIT
}

/// A posed outline point: within range with headroom left for a requested
/// drag delta of up to `PARAM_LIMIT`.
pub open spec fn posed_ok(p: Point) -> bool {
    -960_000_000 <= p.x <= 960_000_000 && -960_000_000 <= p.y <= 960_000_000
}

pub open spec fn spec_half(v: int) -> int {
    spec_div_trunc(v, 2)
}

pub open spec fn spec_third(v: int) -> int {
    spec_div_trunc(v, 3)
}

pub open spec fn spec_quarter(v: int) -> int {
    spec_div_trunc(v, 4)
}

pub(crate) fn half(v: i64) -> (r: i64)
    ensures
        r == spec_half(v as int),
        v >= 0 ==> 0 <= r <= v,
        v < 0 ==> v <= r <= 0,
{
    let w = div_trunc(v as i128, 2);
    w as i64
}

fn third(v: i64) -> (r: i64)
    ensures
        r == spec_third(v as int),
        v >= 0 ==> 0 <= r <= v,
        v < 0 ==> v <= r <= 0,
{
    let w = div_trunc(v as i128, 3);
    w as i64
}

fn quarter(v: i64) -> (r: i64)
    ensures
        r == spec_quarter(v as int),
        v >= 0 ==> 0 <= r <= v,
        v < 0 ==> v <= r <= 0,
{
    let w = div_trunc(v as i128, 4);
    w as i64
}

/// Mirror `q` across the vertical line through `c` when `flip`, then rotate
/// by `rot` millidegrees about `c`.
pub open spec fn spec_rotate_point(q: Point, c: Point, rot: int, flip: bool) -> Point {
    let dx = if flip {
        c.x - q.x
    } else {
        q.x - c.x
    };
    let dy = q.y - c.y;
    let co = spec_cos_mdeg(rot);
    let si = spec_sin_mdeg(rot);
    Point {
        x: (c.x + spec_div_fix(dx * co - dy * si)) as i64,
        y: (c.y + spec_div_fix(dx * si + dy * co)) as i64,
    }
}

/// Every point of `s` rotated about `c`.
pub open spec fn spec_rotate_all(s: Seq<Point>, c: Point, rot: int, flip: bool) -> Seq<Point> {
    s.map(|_i: int, q: Point| spec_rotate_point(q, c, rot, flip))
}

/// Rotate `q` about `c`, exactly as the spec states it.
pub fn rotate_point(q: Point, c: Point, rot: i64, flip: bool) -> (r: Point)
    requires
        unrot_ok(q),
        unrot_ok(c),
        -38_000_000_000 <= rot <= 38_000_000_000,
    ensures
        r == spec_rotate_point(q, c, rot as int, flip),
        posed_ok(r),
        in_range(r),
{
    let dx: i64 = if flip {
        c.x - q.x
    } else {
        q.x - c.x
    };
    let dy: i64 = q.y - c.y;
    let co = cos_mdeg(rot);
    let si = sin_mdeg(rot);
    proof {
        crate::geom::lemma_mul_bounds(dx as int, co as int, 400_000_000, 1_000_000);
        crate::geom::lemma_mul_bounds(dy as int, si as int, 400_000_000, 1_000_000);
        crate::geom::lemma_mul_bounds(dx as int, si as int, 400_000_000, 1_000_000);
        crate::geom::lemma_mul_bounds(dy as int, co as int, 400_000_000, 1_000_000);
    }
    let numx: i128 = (dx as i128) * (co as i128) - (dy as i128) * (si as i128);
    let numy: i128 = (dx as i128) * (si as i128) + (dy as i128) * (co as i128);
    let offx = div_fix_bounded(numx);
    let offy = div_fix_bounded(numy);
    Point { x: c.x + offx, y: c.y + offy }
}

/// Divide a product bounded by `8e17 * FIX_ONE`-ish by `FIX_ONE`, returning
/// an `i64` with the quotient bound made explicit.
fn div_fix_bounded(v: i128) -> (r: i64)
    requires
        -800_000_000_000_000 <= v <= 800_000_000_000_000,
    ensures
        r == spec_div_fix(v as int),
        -800_000_000 <= r <= 800_000_000,
{
    proof {
        if v >= 0 {
            vstd::arithmetic::div_mod::lemma_div_is_ordered(
                v as int,
                800_000_000_000_000,
                1_000_000,
            );
            vstd::arithmetic::div_mod::lemma_div_pos_is_pos(v as int, 1_000_000);
        } else {
            vstd::arithmetic::div_mod::lemma_div_is_ordered(
                -v as int,
                800_000_000_000_000,
                1_000_000,
            );
            vstd::arithmetic::div_mod::lemma_div_pos_is_pos(-v as int, 1_000_000);
        }
    }
    let w = div_fix(v);
    w as i64
}

/// Unit vector toward `(dx, dy)`, scaled by `FIX_ONE`; zero for the zero
/// vector.
pub open spec fn spec_unit(dx: int, dy: int) -> (int, int) {
    let len = spec_isqrt((dx * dx + dy * dy) as nat) as int;
    if len == 0 {
        (0, 0)
    } else {
        (spec_div_trunc(dx * 1_000_000, len), spec_div_trunc(dy * 1_000_000, len))
    }
}

proof fn lemma_unit_component(d: int, len: int, n: int)
    requires
        d * d <= n,
        crate::fixed::is_isqrt(n, len),
        len >= 1,
    ensures
        -len <= d <= len,
{
    assert(-len <= d <= len) by (nonlinear_arith)
        requires d * d <= n, n < (len + 1) * (len + 1), 0 <= len
    ;
}

/// Scaled unit vector, exact per `spec_unit`.
pub(crate) fn unit_scaled(dx: i64, dy: i64) -> (r: (i64, i64))
    requires
        -450_000_000 <= dx <= 450_000_000,
        -450_000_000 <= dy <= 450_000_000,
    ensures
        (r.0 as int, r.1 as int) == spec_unit(dx as int, dy as int),
        -1_000_000 <= r.0 <= 1_000_000,
        -1_000_000 <= r.1 <= 1_000_000,
{
    proof {
        crate::geom::lemma_mul_bounds(dx as int, dx as int, 450_000_000, 450_000_000);
        crate::geom::lemma_mul_bounds(dy as int, dy as int, 450_000_000, 450_000_000);
        assert(dx as int * dx as int >= 0) by (nonlinear_arith);
        assert(dy as int * dy as int >= 0) by (nonlinear_arith);
    }
    let n2: i128 = (dx as i128) * (dx as i128) + (dy as i128) * (dy as i128);
    let len = isqrt_u128(n2 as u128);
    if len == 0 {
        (0, 0)
    } else {
        proof {
            lemma_unit_component(dx as int, len as int, n2 as int);
            lemma_unit_component(dy as int, len as int, n2 as int);
            assert(dx as int * 1_000_000 <= len as int * 1_000_000) by (nonlinear_arith)
                requires dx as int <= len as int
            ;
            assert(-(len as int) * 1_000_000 <= dx as int * 1_000_000) by (nonlinear_arith)
                requires -(len as int) <= dx as int
            ;
            assert(dy as int * 1_000_000 <= len as int * 1_000_000) by (nonlinear_arith)
                requires dy as int <= len as int
            ;
            assert(-(len as int) * 1_000_000 <= dy as int * 1_000_000) by (nonlinear_arith)
                requires -(len as int) <= dy as int
            ;
            assert((len as int * 1_000_000) / (len as int) == 1_000_000) by (nonlinear_arith)
                requires len as int >= 1
            ;
        }
        let ux = div_trunc((dx as i128) * 1_000_000, len as i128);
        let uy = div_trunc((dy as i128) * 1_000_000, len as i128);
        proof {
            if dx >= 0 {
                vstd::arithmetic::div_mod::lemma_div_is_ordered(
                    dx as int * 1_000_000,
                    len as int * 1_000_000,
                    len as int,
                );
            } else {
                vstd::arithmetic::div_mod::lemma_div_is_ordered(
                    -(dx as int) * 1_000_000,
                    len as int * 1_000_000,
                    len as int,
                );
                assert(-(dx as int) * 1_000_000 == -(dx as int * 1_000_000)) by (nonlinear_arith);
            }
            if dy >= 0 {
                vstd::arithmetic::div_mod::lemma_div_is_ordered(
                    dy as int * 1_000_000,
                    len as int * 1_000_000,
                    len as int,
                );
            } else {
                vstd::arithmetic::div_mod::lemma_div_is_ordered(
                    -(dy as int) * 1_000_000,
                    len as int * 1_000_000,
                    len as int,
                );
                assert(-(dy as int) * 1_000_000 == -(dy as int * 1_000_000)) by (nonlinear_arith);
            }
        }
        (ux as i64, uy as i64)
    }
}

/// The coordinates of a polygon vertex, ignoring any rounding radius.
pub open spec fn spec_xy(p: PolygonPoint) -> Point {
    match p {
        PolygonPoint::Plain { x, y } => Point { x, y },
        PolygonPoint::Rounded { x, y, r } => Point { x, y },
    }
}

/// Scale a `FIX_ONE`-scaled direction component by `r` and round toward
/// zero: one coordinate of a point at distance `r` along a unit vector.
pub open spec fn dir_scale(u: int, r: int) -> int {
    spec_div_fix(u * r)
}

pub(crate) fn dir_scale_exec(u: i64, r: i64) -> (res: i64)
    requires
        -2_000_000 <= u <= 2_000_000,
        0 <= r <= PARAM_LIMIT,
    ensures
        res == dir_scale(u as int, r as int),
        -80_000_000 <= res <= 80_000_000,
{
    proof {
        crate::geom::lemma_mul_bounds(u as int, r as int, 2_000_000, PARAM_LIMIT as int);
    }
    let p: i128 = (u as i128) * (r as i128);
    proof {
        if p >= 0 {
            vstd::arithmetic::div_mod::lemma_div_is_ordered(
                p as int,
                80_000_000_000_000,
                1_000_000,
            );
            vstd::arithmetic::div_mod::lemma_div_pos_is_pos(p as int, 1_000_000);
        } else {
            vstd::arithmetic::div_mod::lemma_div_is_ordered(
                -p as int,
                80_000_000_000_000,
                1_000_000,
            );
            vstd::arithmetic::div_mod::lemma_div_pos_is_pos(-p as int, 1_000_000);
        }
    }
    let w = div_fix(p);
    w as i64
}

/// The tangent points and arc center that frame one rounded corner:
/// `(start, end, center)`.
pub open spec fn corner_frame(prev: Point, next: Point, cx: i64, cy: i64, cr: i64) -> (
    Point,
    Point,
    Point,
) {
    let (v1x, v1y) = spec_unit(prev.x - cx, prev.y - cy);
    let (v2x, v2y) = spec_unit(next.x - cx, next.y - cy);
    let start = Point {
        x: (cx + dir_scale(v1x, cr as int)) as i64,
        y: (cy + dir_scale(v1y, cr as int)) as i64,
    };
    let end = Point {
        x: (cx + dir_scale(v2x, cr as int)) as i64,
        y: (cy + dir_scale(v2y, cr as int)) as i64,
    };
    let center = Point {
        x: (cx + dir_scale(v1x + v2x, cr as int)) as i64,
        y: (cy + dir_scale(v1y + v2y, cr as int)) as i64,
    };
    (start, end, center)
}

/// The sweep from `sa` toward `ea`, reduced to the shorter way around.
pub open spec fn short_sweep(sa: int, ea: int) -> int {
    let d0 = ea - sa;
    if d0 > 180_000 {
        d0 - 360_000
    } else if d0 <= -180_000 {
        d0 + 360_000
    } else {
        d0
    }
}

/// The `j`-th (0-based) of 24 arc samples around `center` with radius `cr`,
/// starting at angle `sa` and sweeping by `d`.
pub open spec fn arc_point(center: Point, sa: int, d: int, cr: i64, j: int) -> Point {
    let ang = sa + spec_div_trunc(d * (j + 1), 24);
    Point {
        x: (center.x + dir_scale(spec_cos_mdeg(ang), cr as int)) as i64,
        y: (center.y + dir_scale(spec_sin_mdeg(ang), cr as int)) as i64,
    }
}

/// The points that replace one rounded corner: the lead-in tangent point,
/// then a 24-sample circular arc swept the shorter way toward the exit
/// tangent point.
pub open spec fn spec_expand_corner(prev: Point, next: Point, cx: i64, cy: i64, cr: i64) -> Seq<
    Point,
> {
    let (start, end, center) = corner_frame(prev, next, cx, cy, cr);
    let sa = spec_atan2_mdeg(start.y - center.y, start.x - center.x);
    let ea = spec_atan2_mdeg(end.y - center.y, end.x - center.x);
    let d = short_sweep(sa, ea);
    seq![start] + Seq::new(24, |j: int| arc_point(center, sa, d, cr, j))
}

/// Expansion of the first `k` vertices of a free polygon: plain vertices
/// pass through; a rounded corner with a preceding output point and a
/// following vertex becomes its arc; other rounded corners are skipped.
pub open spec fn spec_expand(poly: Seq<PolygonPoint>, k: int) -> Seq<Point>
    decreases k,
{
    if k <= 0 {
        Seq::empty()
    } else {
        let acc = spec_expand(poly, k - 1);
        match poly[k - 1] {
            PolygonPoint::Plain { x, y } => acc.push(Point { x, y }),
            PolygonPoint::Rounded { x, y, r } => {
                if acc.len() == 0 || k >= poly.len() {
                    acc
                } else {
                    acc + spec_expand_corner(acc.last(), spec_xy(poly[k]), x, y, r)
                }
            },
        }
    }
}

/// The scaled unit vector's components never exceed `FIX_ONE`.
pub proof fn lemma_unit_range(dx: int, dy: int)
    ensures
        -1_000_000 <= spec_unit(dx, dy).0 <= 1_000_000,
        -1_000_000 <= spec_unit(dx, dy).1 <= 1_000_000,
{
    let n = dx * dx + dy * dy;
    assert(dx * dx >= 0) by (nonlinear_arith);
    assert(dy * dy >= 0) by (nonlinear_arith);
    crate::fixed::lemma_isqrt_is_isqrt(n as nat);
    let len = spec_isqrt(n as nat) as int;
    if len == 0 {
    } else {
        lemma_unit_component(dx, len, n);
        lemma_unit_component(dy, len, n);
        lemma_div_trunc_unit(dx, len);
        lemma_div_trunc_unit(dy, len);
    }
}

proof fn lemma_div_trunc_unit(d: int, len: int)
    requires
        len >= 1,
        -len <= d <= len,
    ensures
        -1_000_000 <= spec_div_trunc(d * 1_000_000, len) <= 1_000_000,
{
    if d >= 0 {
        assert(d * 1_000_000 <= len * 1_000_000) by (nonlinear_arith)
            requires d <= len
        ;
        assert(d * 1_000_000 >= 0) by (nonlinear_arith)
            requires d >= 0
        ;
        vstd::arithmetic::div_mod::lemma_div_is_ordered(d * 1_000_000, len * 1_000_000, len);
        assert((len * 1_000_000) / len == 1_000_000) by (nonlinear_arith)
            requires len >= 1
        ;
        vstd::arithmetic::div_mod::lemma_div_pos_is_pos(d * 1_000_000, len);
    } else {
        assert(-(d * 1_000_000) <= len * 1_000_000) by (nonlinear_arith)
            requires -len <= d
        ;
        assert(-(d * 1_000_000) >= 0) by (nonlinear_arith)
            requires d < 0
        ;
        vstd::arithmetic::div_mod::lemma_div_is_ordered(-(d * 1_000_000), len * 1_000_000, len);
        assert((len * 1_000_000) / len == 1_000_000) by (nonlinear_arith)
            requires len >= 1
        ;
        vstd::arithmetic::div_mod::lemma_div_pos_is_pos(-(d * 1_000_000), len);
    }
}

/// Every point replacing a rounded corner stays within the unrotated range.
pub proof fn lemma_expand_corner_range(prev: Point, next: Point, cx: i64, cy: i64, cr: i64)
    requires
        coord_ok(cx as int),
        coord_ok(cy as int),
        param_ok(cr as int),
    ensures
        forall|i: int|
            0 <= i < spec_expand_corner(prev, next, cx, cy, cr).len() ==> unrot_ok(
                #[trigger] spec_expand_corner(prev, next, cx, cy, cr)[i],
            ),
{
    let s = spec_expand_corner(prev, next, cx, cy, cr);
    let (start, end, center) = corner_frame(prev, next, cx, cy, cr);
    lemma_unit_range(prev.x - cx, prev.y - cy);
    lemma_unit_range(next.x - cx, next.y - cy);
    lemma_dir_scale_range(cr as int);
    assert(unrot_ok(start));
    assert(-120_000_000 <= center.x <= 120_000_000);
    assert(-120_000_000 <= center.y <= 120_000_000);
    let sa = spec_atan2_mdeg(start.y - center.y, start.x - center.x);
    let ea = spec_atan2_mdeg(end.y - center.y, end.x - center.x);
    let d = short_sweep(sa, ea);
    assert forall|i: int| 0 <= i < s.len() implies unrot_ok(s[i]) by {
        if i == 0 {
            assert(s[i] == start);
        } else {
            let j = i - 1;
            let ang = sa + spec_div_trunc(d * (j + 1), 24);
            lemma_sin_bounds(ang);
            lemma_sin_bounds(ang + 90_000);
            assert(s[i] == arc_point(center, sa, d, cr, j));
        }
    }
}

/// `dir_scale` of any fixed-point component within `[-2 FIX_ONE, 2 FIX_ONE]`
/// stays within twice the radius.
proof fn lemma_dir_scale_range(r: int)
    requires
        0 <= r <= PARAM_LIMIT,
    ensures
        forall|u: int|
            -2_000_000 <= u <= 2_000_000 ==> -80_000_000 <= #[trigger] dir_scale(u, r)
                <= 80_000_000,
        forall|u: int|
            -1_000_000 <= u <= 1_000_000 ==> -40_000_000 <= #[trigger] dir_scale(u, r)
                <= 40_000_000,
{
    assert forall|u: int| -2_000_000 <= u <= 2_000_000 implies -80_000_000 <= #[trigger] dir_scale(
        u,
        r,
    ) <= 80_000_000 by {
        crate::geom::lemma_mul_bounds(u, r, 2_000_000, PARAM_LIMIT as int);
        let p = u * r;
        if p >= 0 {
            vstd::arithmetic::div_mod::lemma_div_is_ordered(p, 80_000_000_000_000, 1_000_000);
            vstd::arithmetic::div_mod::lemma_div_pos_is_pos(p, 1_000_000);
        } else {
            vstd::arithmetic::div_mod::lemma_div_is_ordered(-p, 80_000_000_000_000, 1_000_000);
            vstd::arithmetic::div_mod::lemma_div_pos_is_pos(-p, 1_000_000);
        }
    }
    assert forall|u: int| -1_000_000 <= u <= 1_000_000 implies -40_000_000 <= #[trigger] dir_scale(
        u,
        r,
    ) <= 40_000_000 by {
        crate::geom::lemma_mul_bounds(u, r, 1_000_000, PARAM_LIMIT as int);
        let p = u * r;
        if p >= 0 {
            vstd::arithmetic::div_mod::lemma_div_is_ordered(p, 40_000_000_000_000, 1_000_000);
            vstd::arithmetic::div_mod::lemma_div_pos_is_pos(p, 1_000_000);
        } else {
            vstd::arithmetic::div_mod::lemma_div_is_ordered(-p, 40_000_000_000_000, 1_000_000);
            vstd::arithmetic::div_mod::lemma_div_pos_is_pos(-p, 1_000_000);
        }
    }
}

/// The coordinates of a vertex, ignoring any rounding radius.
pub fn xy_of_point(p: &PolygonPoint) -> (r: Point)
    ensures
        r == spec_xy(*p),
{
    match p {
        PolygonPoint::Plain { x, y } => Point { x: *x, y: *y },
        PolygonPoint::Rounded { x, y, r: _ } => Point { x: *x, y: *y },
    }
}

/// Compute the tangent points and arc center framing a rounded corner.
pub fn corner_frame_exec(prev: Point, next: Point, cx: i64, cy: i64, cr: i64) -> (r: (
    Point,
    Point,
    Point,
))
    requires
        unrot_ok(prev),
        unrot_ok(next),
        coord_ok(cx as int),
        coord_ok(cy as int),
        param_ok(cr as int),
    ensures
        r == corner_frame(prev, next, cx, cy, cr),
        unrot_ok(r.0),
        unrot_ok(r.1),
        unrot_ok(r.2),
{
    proof {
        lemma_unit_range(prev.x as int - cx as int, prev.y as int - cy as int);
        lemma_unit_range(next.x as int - cx as int, next.y as int - cy as int);
        lemma_dir_scale_range(cr as int);
    }
    let (v1x, v1y) = unit_scaled(prev.x - cx, prev.y - cy);
    let (v2x, v2y) = unit_scaled(next.x - cx, next.y - cy);
    let start = Point { x: cx + dir_scale_exec(v1x, cr), y: cy + dir_scale_exec(v1y, cr) };
    let endp = Point { x: cx + dir_scale_exec(v2x, cr), y: cy + dir_scale_exec(v2y, cr) };
    let center = Point {
        x: cx + dir_scale_exec(v1x + v2x, cr),
        y: cy + dir_scale_exec(v1y + v2y, cr),
    };
    (start, endp, center)
}

/// Replace one rounded corner by its tangent lead-in and arc samples.
fn expand_corner(prev: Point, next: Point, cx: i64, cy: i64, cr: i64) -> (res: Vec<Point>)
    requires
        unrot_ok(prev),
        unrot_ok(next),
        coord_ok(cx as int),
        coord_ok(cy as int),
        param_ok(cr as int),
    ensures
        res@ == spec_expand_corner(prev, next, cx, cy, cr),
        forall|i: int| 0 <= i < res@.len() ==> unrot_ok(#[trigger] res@[i]),
{
    proof {
        lemma_expand_corner_range(prev, next, cx, cy, cr);
        lemma_unit_range(prev.x as int - cx as int, prev.y as int - cy as int);
        lemma_unit_range(next.x as int - cx as int, next.y as int - cy as int);
    }
    let (v1x, v1y) = unit_scaled(prev.x - cx, prev.y - cy);
    let (v2x, v2y) = unit_scaled(next.x - cx, next.y - cy);
    let start = Point { x: cx + dir_scale_exec(v1x, cr), y: cy + dir_scale_exec(v1y, cr) };
    let endp = Point { x: cx + dir_scale_exec(v2x, cr), y: cy + dir_scale_exec(v2y, cr) };
    let center = Point {
        x: cx + dir_scale_exec(v1x + v2x, cr),
        y: cy + dir_scale_exec(v1y + v2y, cr),
    };
    proof {
        assert((start, endp, center) == corner_frame(prev, next, cx, cy, cr));
    }
    let sa = atan2_mdeg(start.y - center.y, start.x - center.x);
    let ea = atan2_mdeg(endp.y - center.y, endp.x - center.x);
    let d0 = ea - sa;
    let d: i64 = if d0 > 180_000 {
        d0 - 360_000
    } else if d0 <= -180_000 {
        d0 + 360_000
    } else {
        d0
    };
    proof {
        assert(d == short_sweep(sa as int, ea as int));
    }
    let ghost spec_seq = spec_expand_corner(prev, next, cx, cy, cr);
    let mut out: Vec<Point> = Vec::new();
    out.push(start);
    let mut j: usize = 0;
    while j < 24
        invariant
            0 <= j <= 24,
            out@.len() == j + 1,
            -180_000 <= sa <= 180_000,
            -180_000 <= d <= 180_000,
            sa == spec_atan2_mdeg(start.y - center.y, start.x - center.x),
            d == short_sweep(
                spec_atan2_mdeg(start.y - center.y, start.x - center.x),
                spec_atan2_mdeg(endp.y - center.y, endp.x - center.x),
            ),
            spec_seq == spec_expand_corner(prev, next, cx, cy, cr),
            spec_seq == seq![start] + Seq::new(
                24,
                |q: int| arc_point(center, sa as int, d as int, cr, q),
            ),
            forall|k: int| 0 <= k <= j ==> out@[k] == spec_seq[k],
            -120_000_000 <= center.x <= 120_000_000,
            -120_000_000 <= center.y <= 120_000_000,
            0 <= cr <= PARAM_LIMIT,
        decreases 24 - j,
    {
        proof {
            crate::geom::lemma_mul_bounds(d as int, j as int + 1, 180_000, 25);
        }
        let step = div_trunc((d as i128) * ((j + 1) as i128), 24);
        let ang = sa + (step as i64);
        let px = center.x + dir_scale_exec(cos_mdeg(ang), cr);
        let py = center.y + dir_scale_exec(sin_mdeg(ang), cr);
        out.push(Point { x: px, y: py });
        proof {
            let jj = j as int;
            assert(Point { x: px, y: py } == arc_point(center, sa as int, d as int, cr, jj));
            assert(spec_seq[jj + 1] == arc_point(center, sa as int, d as int, cr, jj));
        }
        j = j + 1;
    }
    proof {
        assert(out@ =~= spec_seq);
    }
    out
}

/// Expand every free-polygon vertex; rounded corners become arcs.
pub fn poly_to_points(poly: &Vec<PolygonPoint>) -> (res: Vec<Point>)
    requires
        poly@.len() <= 10_000,
        forall|i: int| 0 <= i < poly@.len() ==> wf_polygon_point(#[trigger] poly@[i]),
    ensures
        res@ == spec_expand(poly@, poly@.len() as int),
        forall|i: int| 0 <= i < res@.len() ==> unrot_ok(#[trigger] res@[i]),
        res@.len() <= 250_000,
{
    let n = poly.len();
    let mut out: Vec<Point> = Vec::new();
    let mut i: usize = 0;
    while i < n
        invariant
            0 <= i <= n,
            n == poly@.len(),
            n <= 10_000,
            forall|k: int| 0 <= k < poly@.len() ==> wf_polygon_point(#[trigger] poly@[k]),
            out@ == spec_expand(poly@, i as int),
            forall|k: int| 0 <= k < out@.len() ==> unrot_ok(#[trigger] out@[k]),
            out@.len() <= 25 * i,
        decreases n - i,
    {
        match poly[i] {
            PolygonPoint::Plain { x, y } => {
                out.push(Point { x, y });
            },
            PolygonPoint::Rounded { x, y, r } => {
                if out.len() == 0 || i + 1 >= n {
                } else {
                    let prev = out[out.len() - 1];
                    let next = xy_of_point(&poly[i + 1]);
                    assert(wf_polygon_point(poly@[i as int + 1]));
                    let add = expand_corner(prev, next, x, y, r);
                    let mut k: usize = 0;
                    let ghost base = out@;
                    while k < add.len()
                        invariant
                            0 <= k <= add@.len(),
                            out@ == base + add@.subrange(0, k as int),
                            forall|q: int| 0 <= q < add@.len() ==> unrot_ok(#[trigger] add@[q]),
                            forall|q: int| 0 <= q < base.len() ==> unrot_ok(#[trigger] base[q]),
                        decreases add@.len() - k,
                    {
                        out.push(add[k]);
                        proof {
                            assert(out@ =~= base + add@.subrange(0, k as int + 1));
                        }
                        k = k + 1;
                    }
                    proof {
                        assert(add@.subrange(0, add@.len() as int) =~= add@);
                        assert(out@ == base + add@);
                    }
                }
            },
        }
        i = i + 1;
    }
    out
}

pub open spec fn opt0(v: Option<i64>) -> int {
    match v {
        Some(x) => x as int,
        None => 0,
    }
}

/// Sum of the x coordinates of the first `k` points.
pub open spec fn sum_x(s: Seq<Point>, k: int) -> int
    decreases k,
{
    if k <= 0 {
        0
    } else {
        sum_x(s, k - 1) + s[k - 1].x
    }
}

/// Sum of the y coordinates of the first `k` points.
pub open spec fn sum_y(s: Seq<Point>, k: int) -> int
    decreases k,
{
    if k <= 0 {
        0
    } else {
        sum_y(s, k - 1) + s[k - 1].y
    }
}

/// The average of a point sequence, truncated toward zero; the reference
/// center of a free polygon.
pub open spec fn spec_centroid(s: Seq<Point>) -> Point {
    let n = if s.len() == 0 {
        1int
    } else {
        s.len() as int
    };
    Point {
        x: spec_div_trunc(sum_x(s, s.len() as int), n) as i64,
        y: spec_div_trunc(sum_y(s, s.len() as int), n) as i64,
    }
}

proof fn lemma_sum_bound(s: Seq<Point>, k: int)
    requires
        0 <= k <= s.len(),
        forall|i: int| 0 <= i < s.len() ==> unrot_ok(#[trigger] s[i]),
    ensures
        -(k * UNROT_LIMIT as int) <= sum_x(s, k) <= k * UNROT_LIMIT as int,
        -(k * UNROT_LIMIT as int) <= sum_y(s, k) <= k * UNROT_LIMIT as int,
    decreases k,
{
    if k > 0 {
        lemma_sum_bound(s, k - 1);
        assert((k - 1) * UNROT_LIMIT as int + UNROT_LIMIT as int == k * UNROT_LIMIT as int)
            by (nonlinear_arith);
    }
}

/// Centroid of a point list, averaged with truncation.
fn centroid_of(pts: &Vec<Point>) -> (c: Point)
    requires
        forall|i: int| 0 <= i < pts@.len() ==> unrot_ok(#[trigger] pts@[i]),
        pts@.len() <= 250_000,
    ensures
        c == spec_centroid(pts@),
        unrot_ok(c),
{
    let n = pts.len();
    let mut sx: i128 = 0;
    let mut sy: i128 = 0;
    let mut i: usize = 0;
    while i < n
        invariant
            0 <= i <= n,
            n == pts@.len(),
            n <= 250_000,
            forall|k: int| 0 <= k < pts@.len() ==> unrot_ok(#[trigger] pts@[k]),
            sx == sum_x(pts@, i as int),
            sy == sum_y(pts@, i as int),
            -(i as int * UNROT_LIMIT as int) <= sx <= i as int * UNROT_LIMIT as int,
            -(i as int * UNROT_LIMIT as int) <= sy <= i as int * UNROT_LIMIT as int,
        decreases n - i,
    {
        proof {
            assert(i as int * UNROT_LIMIT as int + UNROT_LIMIT as int == (i as int + 1)
                * UNROT_LIMIT as int) by (nonlinear_arith);
            assert((i as int + 1) * UNROT_LIMIT as int <= 250_000 * UNROT_LIMIT as int)
                by (nonlinear_arith)
                requires i as int + 1 <= 250_000
            ;
        }
        sx = sx + pts[i].x as i128;
        sy = sy + pts[i].y as i128;
        i = i + 1;
    }
    let den: i128 = if n == 0 {
        1
    } else {
        n as i128
    };
    proof {
        assert(n as int * UNROT_LIMIT as int <= 250_000 * UNROT_LIMIT as int) by (nonlinear_arith)
            requires n as int <= 250_000
        ;
        lemma_avg_bound(sx as int, den as int, n as int);
        lemma_avg_bound(sy as int, den as int, n as int);
    }
    let cx = div_trunc(sx, den);
    let cy = div_trunc(sy, den);
    Point { x: cx as i64, y: cy as i64 }
}

/// A truncated average of values within the unrotated range stays in range.
proof fn lemma_avg_bound(s: int, den: int, n: int)
    requires
        den == if n == 0 {
            1int
        } else {
            n
        },
        n >= 0,
        -(n * UNROT_LIMIT as int) <= s <= n * UNROT_LIMIT as int,
    ensures
        -UNROT_LIMIT as int <= spec_div_trunc(s, den) <= UNROT_LIMIT as int,
{
    if n == 0 {
        assert(s == 0) by (nonlinear_arith)
            requires -(n * UNROT_LIMIT as int) <= s <= n * UNROT_LIMIT as int, n == 0
        ;
    } else {
        if s >= 0 {
            vstd::arithmetic::div_mod::lemma_div_is_ordered(s, n * UNROT_LIMIT as int, n);
            assert((n * UNROT_LIMIT as int) / n == UNROT_LIMIT as int) by (nonlinear_arith)
                requires n >= 1
            ;
            vstd::arithmetic::div_mod::lemma_div_pos_is_pos(s, n);
        } else {
            vstd::arithmetic::div_mod::lemma_div_is_ordered(-s, n * UNROT_LIMIT as int, n);
            assert((n * UNROT_LIMIT as int) / n == UNROT_LIMIT as int) by (nonlinear_arith)
                requires n >= 1
            ;
            vstd::arithmetic::div_mod::lemma_div_pos_is_pos(-s, n);
        }
    }
}

/// The unrotated corner ring and the reference center of a shape, before
/// the pose's flip and rotation are applied. Regular polygons and circles
/// have no meaningful unrotated ring here (rotation enters their vertex
/// angles directly), so they yield their tessellations at rotation zero.
pub open spec fn spec_base(shape: ShapeKind, pose: Pose) -> (Seq<Point>, Point) {
    let at = pose.at;
    let centered = pose.anchor is Center;
    match shape {
        ShapeKind::Rect { w, h } => {
            let bl = if centered {
                Point { x: (at.x - spec_half(w as int)) as i64, y: (at.y - spec_half(h as int)) as i64 }
            } else {
                at
            };
            (
                seq![
                    bl,
                    Point { x: (bl.x + w) as i64, y: bl.y },
                    Point { x: (bl.x + w) as i64, y: (bl.y + h) as i64 },
                    Point { x: bl.x, y: (bl.y + h) as i64 },
                ],
                Point { x: (bl.x + spec_half(w as int)) as i64, y: (bl.y + spec_half(h as int)) as i64 },
            )
        },
        ShapeKind::EquilateralTriangle { side } => {
            let hh = (spec_isqrt((3 * side * side) as nat) / 2) as int;
            let bl = if centered {
                Point {
                    x: (at.x - spec_half(side as int)) as i64,
                    y: (at.y - spec_third(hh)) as i64,
                }
            } else {
                at
            };
            let a = bl;
            let b = Point { x: (bl.x + side) as i64, y: bl.y };
            let c = Point { x: (bl.x + spec_half(side as int)) as i64, y: (bl.y + hh) as i64 };
            (
                seq![a, b, c],
                Point {
                    x: spec_div_trunc(a.x + b.x + c.x, 3) as i64,
                    y: spec_div_trunc(a.y + b.y + c.y, 3) as i64,
                },
            )
        },
        ShapeKind::RightTriangle { a: leg_a, b: leg_b } => {
            let a = at;
            let b = Point { x: (at.x + leg_a) as i64, y: at.y };
            let c = Point { x: at.x, y: (at.y + leg_b) as i64 };
            (
                seq![a, b, c],
                Point {
                    x: spec_div_trunc(a.x + b.x + c.x, 3) as i64,
                    y: spec_div_trunc(a.y + b.y + c.y, 3) as i64,
                },
            )
        },
        ShapeKind::IsoscelesTrapezoid { base_bottom, base_top, height } => {
            let bl = at;
            let br = Point { x: (bl.x + base_bottom) as i64, y: bl.y };
            let tl = Point {
                x: (bl.x + spec_half(base_bottom - base_top)) as i64,
                y: (bl.y + height) as i64,
            };
            let tr = Point { x: (tl.x + base_top) as i64, y: tl.y };
            (
                seq![bl, br, tr, tl],
                Point {
                    x: spec_quarter(bl.x + br.x + tr.x + tl.x) as i64,
                    y: spec_quarter(bl.y + br.y + tr.y + tl.y) as i64,
                },
            )
        },
        ShapeKind::Parallelogram { base, offset_top, height } => {
            let bl = at;
            let br = Point { x: (bl.x + base) as i64, y: bl.y };
            let tl = Point { x: (bl.x + offset_top) as i64, y: (bl.y + height) as i64 };
            let tr = Point { x: (tl.x + base) as i64, y: tl.y };
            (
                seq![bl, br, tr, tl],
                Point {
                    x: spec_quarter(bl.x + br.x + tr.x + tl.x) as i64,
                    y: spec_quarter(bl.y + br.y + tr.y + tl.y) as i64,
                },
            )
        },
        ShapeKind::FreePolygon { points } => {
            let expanded = spec_expand(points@, points@.len() as int);
            (expanded, spec_centroid(expanded))
        },
        ShapeKind::RegularPolygon { n, side } => (Seq::empty(), at),
        ShapeKind::Circle { diameter, radius } => (Seq::empty(), at),
    }
}

/// The circumradius of a regular `n`-gon with the given side length, in
/// fixed-point: `side / (2 sin(pi/n))`.
pub open spec fn spec_ngon_radius(n: u32, side: i64) -> int {
    spec_div_trunc(side * 1_000_000, 2 * spec_sin_mdeg(spec_div_trunc(180_000, n as int)))
}

/// Vertex `i` of the posed regular polygon.
pub open spec fn spec_ngon_point(at: Point, rr: int, rot: int, flip: bool, n: int, i: int) -> Point {
    let base = rot + if flip {
        180_000int
    } else {
        0int
    };
    let ang = base + spec_div_trunc(i * 360_000, n);
    Point {
        x: (at.x + dir_scale(spec_cos_mdeg(ang), rr)) as i64,
        y: (at.y + dir_scale(spec_sin_mdeg(ang), rr)) as i64,
    }
}

/// The circle's effective radius: half the diameter when given, else the
/// radius, else zero.
pub open spec fn spec_circle_radius(diameter: Option<i64>, radius: Option<i64>) -> int {
    match diameter {
        Some(d) => spec_half(d as int),
        None => opt0(radius),
    }
}

/// Vertex `i` of the 32-gon tessellating a circle.
pub open spec fn spec_circle_point(at: Point, rr: int, i: int) -> Point {
    let ang = 11_250 * i;
    Point {
        x: (at.x + dir_scale(spec_cos_mdeg(ang), rr)) as i64,
        y: (at.y + dir_scale(spec_sin_mdeg(ang), rr)) as i64,
    }
}

/// The posed outline: the base ring mirrored/rotated about the center, or
/// the direct tessellation for regular polygons and circles.
pub open spec fn spec_outline_points(p: Piece) -> Seq<Point> {
    match p.shape {
        ShapeKind::RegularPolygon { n, side } => Seq::new(
            n as nat,
            |i: int|
                spec_ngon_point(
                    p.pose.at,
                    spec_ngon_radius(n, side),
                    p.pose.rotation_mdeg as int,
                    p.pose.flip,
                    n as int,
                    i,
                ),
        ),
        ShapeKind::Circle { diameter, radius } => Seq::new(
            32,
            |i: int| spec_circle_point(p.pose.at, spec_circle_radius(diameter, radius), i),
        ),
        _ => {
            let (base, c) = spec_base(p.shape, p.pose);
            spec_rotate_all(base, c, p.pose.rotation_mdeg as int, p.pose.flip)
        },
    }
}

/// The reference center of the posed shape; independent of rotation/flip.
pub open spec fn spec_outline_center(p: Piece) -> Point {
    spec_base(p.shape, p.pose).1
}

/// Rotate every point about `c`.
fn rotate_all(pts: &Vec<Point>, c: Point, rot: i64, flip: bool) -> (r: Vec<Point>)
    requires
        forall|i: int| 0 <= i < pts@.len() ==> unrot_ok(#[trigger] pts@[i]),
        unrot_ok(c),
        -38_000_000_000 <= rot <= 38_000_000_000,
    ensures
        r@ == spec_rotate_all(pts@, c, rot as int, flip),
        crate::geom::wf_poly(r@),
        forall|i: int| 0 <= i < r@.len() ==> posed_ok(#[trigger] r@[i]),
{
    let n = pts.len();
    let mut out: Vec<Point> = Vec::new();
    let mut i: usize = 0;
    while i < n
        invariant
            0 <= i <= n,
            n == pts@.len(),
            forall|k: int| 0 <= k < pts@.len() ==> unrot_ok(#[trigger] pts@[k]),
            unrot_ok(c),
            -38_000_000_000 <= rot <= 38_000_000_000,
            out@.len() == i as int,
            forall|k: int|
                0 <= k < i ==> out@[k] == spec_rotate_point(pts@[k], c, rot as int, flip)
                    && posed_ok(#[trigger] out@[k]) && in_range(out@[k]),
        decreases n - i,
    {
        let q = rotate_point(pts[i], c, rot, flip);
        out.push(q);
        i = i + 1;
    }
    proof {
        assert(out@ =~= spec_rotate_all(pts@, c, rot as int, flip));
    }
    out
}

proof fn lemma_eqtri_height(side: int)
    requires
        0 <= side,
    ensures
        0 <= spec_isqrt((3 * side * side) as nat) <= 2 * side,
{
    let n = (3 * side * side) as nat;
    assert(3 * side * side >= 0) by (nonlinear_arith)
        requires side >= 0
    ;
    crate::fixed::lemma_isqrt_is_isqrt(n);
    let r = spec_isqrt(n) as int;
    assert(r * r <= 3 * side * side);
    assert(r <= 2 * side) by (nonlinear_arith)
        requires r * r <= 3 * side * side, 0 <= r, 0 <= side
    ;
}

/// Lower bound on the sine used for a regular polygon's circumradius.
proof fn lemma_ngon_sin(n: int)
    requires
        3 <= n <= 64,
    ensures
        49_000 <= spec_sin_mdeg(spec_div_trunc(180_000, n)) <= 1_000_000,
{
    let m = spec_div_trunc(180_000, n);
    assert(m == 180_000int / n);
    assert(2_812 <= m <= 60_000) by {
        vstd::arithmetic::div_mod::lemma_div_is_ordered_by_denominator(180_000, 3, n);
        vstd::arithmetic::div_mod::lemma_div_is_ordered_by_denominator(180_000, n, 64);
        assert(180_000int / 3 == 60_000);
        assert(180_000int / 64 == 2_812);
    }
    assert(norm_mdeg(m) == m) by {
        vstd::arithmetic::div_mod::lemma_small_mod(m as nat, 360_000);
    }
    let t = m * (180_000 - m);
    assert(t >= 498_252_656) by (nonlinear_arith)
        requires 2_812 <= m <= 60_000, t == m * (180_000 - m)
    ;
    assert(t <= 8_100_000_000) by (nonlinear_arith)
        requires 0 <= m <= 180_000, t == m * (180_000 - m)
    ;
    let num = 4 * t * 1_000_000;
    let den = 40_500_000_000 - t;
    assert(num >= 49_000 * den);
    assert(num / den >= (49_000 * den) / den) by {
        vstd::arithmetic::div_mod::lemma_div_is_ordered(49_000 * den, num, den);
    }
    assert((49_000 * den) / den == 49_000) by (nonlinear_arith)
        requires den >= 1
    ;
    crate::fixed::lemma_sin_half_bounds(m);
}

/// The posed outline of a piece and its reference center.
///
/// The outline is the closed polyline of the shape after anchoring,
/// mirroring and rotation; the center is where rotation pivots and is what
/// callers label and drag by. Both are pinned exactly by the spec.
#[verifier::rlimit(100)]
pub fn outline(p: &Piece) -> (r: (Vec<Point>, Point))
    requires
        wf_piece(*p),
    ensures
        r.0@ == spec_outline_points(*p),
        r.1 == spec_outline_center(*p),
        crate::geom::wf_poly(r.0@),
        forall|i: int| 0 <= i < r.0@.len() ==> posed_ok(#[trigger] r.0@[i]),
        in_range(r.1),
        r.0@.len() <= 250_000,
{
    let rot = p.pose.rotation_mdeg;
    let flip = p.pose.flip;
    let at = p.pose.at;
    let centered = match p.pose.anchor {
        Anchor::Center => true,
        Anchor::BottomLeft => false,
    };
    match &p.shape {
        ShapeKind::Rect { w, h } => {
            let w = *w;
            let h = *h;
            let bl = if centered {
                Point { x: at.x - half(w), y: at.y - half(h) }
            } else {
                at
            };
            let mut base: Vec<Point> = Vec::new();
            base.push(bl);
            base.push(Point { x: bl.x + w, y: bl.y });
            base.push(Point { x: bl.x + w, y: bl.y + h });
            base.push(Point { x: bl.x, y: bl.y + h });
            let c = Point { x: bl.x + half(w), y: bl.y + half(h) };
            proof {
                assert(base@ =~= spec_base(p.shape, p.pose).0);
                assert(c == spec_base(p.shape, p.pose).1);
            }
            (rotate_all(&base, c, rot, flip), c)
        },
        ShapeKind::EquilateralTriangle { side } => {
            let side = *side;
            proof {
                lemma_eqtri_height(side as int);
                crate::geom::lemma_mul_bounds(
                    3 * side as int,
                    side as int,
                    150_000_000,
                    PARAM_LIMIT as int,
                );
            }
            let hh_wide = isqrt_u128(((3 * (side as i128)) * (side as i128)) as u128) / 2;
            let hh = hh_wide as i64;
            let bl = if centered {
                Point { x: at.x - half(side), y: at.y - third(hh) }
            } else {
                at
            };
            let a = bl;
            let b = Point { x: bl.x + side, y: bl.y };
            let cc = Point { x: bl.x + half(side), y: bl.y + hh };
            let mut base: Vec<Point> = Vec::new();
            base.push(a);
            base.push(b);
            base.push(cc);
            let sx3 = div_trunc(a.x as i128 + b.x as i128 + cc.x as i128, 3);
            let sy3 = div_trunc(a.y as i128 + b.y as i128 + cc.y as i128, 3);
            let c = Point { x: sx3 as i64, y: sy3 as i64 };
            proof {
                assert(base@ =~= spec_base(p.shape, p.pose).0);
                assert(c == spec_base(p.shape, p.pose).1);
            }
            (rotate_all(&base, c, rot, flip), c)
        },
        ShapeKind::RightTriangle { a: leg_a, b: leg_b } => {
            let la = *leg_a;
            let lb = *leg_b;
            let a = at;
            let b = Point { x: at.x + la, y: at.y };
            let cc = Point { x: at.x, y: at.y + lb };
            let mut base: Vec<Point> = Vec::new();
            base.push(a);
            base.push(b);
            base.push(cc);
            let sx3 = div_trunc(a.x as i128 + b.x as i128 + cc.x as i128, 3);
            let sy3 = div_trunc(a.y as i128 + b.y as i128 + cc.y as i128, 3);
            let c = Point { x: sx3 as i64, y: sy3 as i64 };
            proof {
                assert(base@ =~= spec_base(p.shape, p.pose).0);
                assert(c == spec_base(p.shape, p.pose).1);
            }
            (rotate_all(&base, c, rot, flip), c)
        },
        ShapeKind::IsoscelesTrapezoid { base_bottom, base_top, height } => {
            let b0 = *base_bottom;
            let b1 = *base_top;
            let h = *height;
            let bl = at;
            let br = Point { x: bl.x + b0, y: bl.y };
            let tl = Point { x: bl.x + half(b0 - b1), y: bl.y + h };
            let tr = Point { x: tl.x + b1, y: tl.y };
            let mut base: Vec<Point> = Vec::new();
            base.push(bl);
            base.push(br);
            base.push(tr);
            base.push(tl);
            let sx4 = div_trunc(bl.x as i128 + br.x as i128 + tr.x as i128 + tl.x as i128, 4);
            let sy4 = div_trunc(bl.y as i128 + br.y as i128 + tr.y as i128 + tl.y as i128, 4);
            let c = Point { x: sx4 as i64, y: sy4 as i64 };
            proof {
                assert(base@ =~= spec_base(p.shape, p.pose).0);
                assert(c == spec_base(p.shape, p.pose).1);
            }
            (rotate_all(&base, c, rot, flip), c)
        },
        ShapeKind::Parallelogram { base: pbase, offset_top, height } => {
            let b = *pbase;
            let off = *offset_top;
            let h = *height;
            let bl = at;
            let br = Point { x: bl.x + b, y: bl.y };
            let tl = Point { x: bl.x + off, y: bl.y + h };
            let tr = Point { x: tl.x + b, y: tl.y };
            let mut base: Vec<Point> = Vec::new();
            base.push(bl);
            base.push(br);
            base.push(tr);
            base.push(tl);
            let sx4 = div_trunc(bl.x as i128 + br.x as i128 + tr.x as i128 + tl.x as i128, 4);
            let sy4 = div_trunc(bl.y as i128 + br.y as i128 + tr.y as i128 + tl.y as i128, 4);
            let c = Point { x: sx4 as i64, y: sy4 as i64 };
            proof {
                assert(base@ =~= spec_base(p.shape, p.pose).0);
                assert(c == spec_base(p.shape, p.pose).1);
            }
            (rotate_all(&base, c, rot, flip), c)
        },
        ShapeKind::FreePolygon { points } => {
            let expanded = poly_to_points(points);
            let c = centroid_of(&expanded);
            proof {
                assert(expanded@ == spec_base(p.shape, p.pose).0);
                assert(c == spec_base(p.shape, p.pose).1);
            }
            (rotate_all(&expanded, c, rot, flip), c)
        },
        ShapeKind::RegularPolygon { n, side } => {
            let n = *n;
            let side = *side;
            proof {
                lemma_ngon_sin(n as int);
            }
            let m = 180_000i64 / (n as i64);
            let si = sin_mdeg(m);
            let num: i128 = (side as i128) * 1_000_000;
            let rr_wide = num / (2 * (si as i128));
            proof {
                vstd::arithmetic::div_mod::lemma_div_is_ordered_by_denominator(
                    num as int,
                    98_000,
                    2 * si as int,
                );
                vstd::arithmetic::div_mod::lemma_div_is_ordered(
                    num as int,
                    2_000_000_000_000,
                    98_000,
                );
                vstd::arithmetic::div_mod::lemma_div_pos_is_pos(num as int, 2 * si as int);
                assert(2_000_000_000_000int / 98_000 == 20_408_163);
            }
            let rr = rr_wide as i64;
            let ghost rr_spec = spec_ngon_radius(n, side);
            proof {
                assert(rr == rr_spec);
            }
            let count = n as usize;
            let mut out: Vec<Point> = Vec::new();
            let mut i: usize = 0;
            while i < count
                invariant
                    0 <= i <= count,
                    count == n as int,
                    3 <= n <= 64,
                    0 <= rr <= 40_000_000,
                    rr == rr_spec,
                    -ROT_LIMIT <= rot <= ROT_LIMIT,
                    at == p.pose.at,
                    flip == p.pose.flip,
                    rot == p.pose.rotation_mdeg,
                    coord_ok(at.x as int),
                    coord_ok(at.y as int),
                    out@.len() == i as int,
                    forall|k: int|
                        0 <= k < i ==> out@[k] == spec_ngon_point(
                            at,
                            rr_spec,
                            rot as int,
                            flip,
                            n as int,
                            k,
                        ) && posed_ok(#[trigger] out@[k]) && in_range(out@[k]),
                decreases count - i,
            {
                let base_ang: i64 = rot + if flip {
                    180_000
                } else {
                    0
                };
                let ang = base_ang + ((i as i64) * 360_000) / (n as i64);
                let px = at.x + dir_scale_exec(cos_mdeg(ang), rr);
                let py = at.y + dir_scale_exec(sin_mdeg(ang), rr);
                out.push(Point { x: px, y: py });
                i = i + 1;
            }
            proof {
                assert(out@ =~= spec_outline_points(*p));
                assert(at == spec_outline_center(*p));
            }
            (out, at)
        },
        ShapeKind::Circle { diameter, radius } => {
            let rr: i64 = match diameter {
                Some(d) => half(*d),
                None => match radius {
                    Some(r) => *r,
                    None => 0,
                },
            };
            let ghost rr_spec = spec_circle_radius(*diameter, *radius);
            proof {
                assert(rr == rr_spec);
            }
            let mut out: Vec<Point> = Vec::new();
            let mut i: usize = 0;
            while i < 32
                invariant
                    0 <= i <= 32,
                    0 <= rr <= 40_000_000,
                    rr == rr_spec,
                    at == p.pose.at,
                    coord_ok(at.x as int),
                    coord_ok(at.y as int),
                    out@.len() == i as int,
                    forall|k: int|
                        0 <= k < i ==> out@[k] == spec_circle_point(at, rr_spec, k) && posed_ok(
                            #[trigger] out@[k],
                        ) && in_range(out@[k]),
                decreases 32 - i,
            {
                let ang = 11_250 * (i as i64);
                let px = at.x + dir_scale_exec(cos_mdeg(ang), rr);
                let py = at.y + dir_scale_exec(sin_mdeg(ang), rr);
                out.push(Point { x: px, y: py });
                i = i + 1;
            }
            proof {
                assert(out@ =~= spec_outline_points(*p));
                assert(at == spec_outline_center(*p));
            }
            (out, at)
        },
    }
}

/// At rotation zero without flip, rotating about any center is the
/// identity: the cosine is exactly `FIX_ONE` and the sine exactly zero.
pub proof fn lemma_rotate_identity(q: Point, c: Point)
    requires
        unrot_ok(q),
        unrot_ok(c),
    ensures
        spec_rotate_point(q, c, 0, false) == q,
{
    lemma_sin_half_bounds(90_000);
    lemma_sin_half_bounds(0);
    vstd::arithmetic::div_mod::lemma_small_mod(90_000nat, 360_000nat);
    vstd::arithmetic::div_mod::lemma_small_mod(0nat, 360_000nat);
    assert(spec_cos_mdeg(0) == 1_000_000);
    assert(spec_sin_mdeg(0) == 0);
    let dx = q.x - c.x;
    let dy = q.y - c.y;
    assert(dx * 1_000_000 - dy * 0 == dx * 1_000_000) by (nonlinear_arith);
    assert(dx * 0 + dy * 1_000_000 == dy * 1_000_000) by (nonlinear_arith);
    lemma_mul_div_exact(dx);
    lemma_mul_div_exact(dy);
}

proof fn lemma_mul_div_exact(d: int)
    ensures
        spec_div_fix(d * 1_000_000) == d,
{
    if d >= 0 {
        assert(d * 1_000_000 >= 0) by (nonlinear_arith)
            requires d >= 0
        ;
        vstd::arithmetic::div_mod::lemma_div_multiples_vanish(d, 1_000_000);
        assert((1_000_000 * d) == (d * 1_000_000)) by (nonlinear_arith);
    } else {
        assert(-(d * 1_000_000) == (-d) * 1_000_000) by (nonlinear_arith);
        assert((-d) * 1_000_000 >= 0) by (nonlinear_arith)
            requires d < 0
        ;
        vstd::arithmetic::div_mod::lemma_div_multiples_vanish(-d, 1_000_000);
        assert((1_000_000 * (-d)) == ((-d) * 1_000_000)) by (nonlinear_arith);
    }
}

/// An unrotated, unflipped piece's outline is exactly its base ring: the
/// generated points coincide with the closed-form construction, so the
/// outline's reference center is the analytically expected one (for a
/// bottom-left rectangle, `(x + w/2, y + h/2)`).
pub proof fn lemma_outline_unrotated(p: Piece)
    requires
        wf_piece(p),
        p.pose.rotation_mdeg == 0,
        !p.pose.flip,
        !(p.shape is RegularPolygon),
        !(p.shape is Circle),
    ensures
        spec_outline_points(p) == spec_base(p.shape, p.pose).0,
        spec_outline_center(p) == spec_base(p.shape, p.pose).1,
{
    let (base, c) = spec_base(p.shape, p.pose);
    lemma_base_in_range(p);
    assert forall|i: int| 0 <= i < base.len() implies #[trigger] spec_rotate_all(
        base,
        c,
        0,
        false,
    )[i] == base[i] by {
        lemma_rotate_identity(base[i], c);
    }
    assert(spec_outline_points(p) =~= base);
}

/// The expected rectangle center, stated in closed form.
pub proof fn lemma_rect_center(p: Piece)
    requires
        wf_piece(p),
        p.shape is Rect,
        p.pose.anchor is BottomLeft,
    ensures
        spec_outline_center(p) == (Point {
            x: (p.pose.at.x + spec_half(p.shape->Rect_w as int)) as i64,
            y: (p.pose.at.y + spec_half(p.shape->Rect_h as int)) as i64,
        }),
{
}

/// Every base point and the base center stay within the unrotated range.
pub proof fn lemma_base_in_range(p: Piece)
    requires
        wf_piece(p),
    ensures
        forall|i: int|
            0 <= i < spec_base(p.shape, p.pose).0.len() ==> unrot_ok(
                #[trigger] spec_base(p.shape, p.pose).0[i],
            ),
        unrot_ok(spec_base(p.shape, p.pose).1),
{
    match p.shape {
        ShapeKind::EquilateralTriangle { side } => {
            lemma_eqtri_height(side as int);
        },
        ShapeKind::FreePolygon { points } => {
            lemma_expand_in_range(points@, points@.len() as int);
            let expanded = spec_expand(points@, points@.len() as int);
            lemma_expand_len(points@, points@.len() as int);
            lemma_sum_bound(expanded, expanded.len() as int);
            lemma_avg_bound(
                sum_x(expanded, expanded.len() as int),
                if expanded.len() == 0 {
                    1int
                } else {
                    expanded.len() as int
                },
                expanded.len() as int,
            );
            lemma_avg_bound(
                sum_y(expanded, expanded.len() as int),
                if expanded.len() == 0 {
                    1int
                } else {
                    expanded.len() as int
                },
                expanded.len() as int,
            );
        },
        _ => {},
    }
}

/// Expanded free-polygon points stay within the unrotated range.
pub proof fn lemma_expand_in_range(poly: Seq<PolygonPoint>, k: int)
    requires
        k <= poly.len(),
        forall|i: int| 0 <= i < poly.len() ==> wf_polygon_point(#[trigger] poly[i]),
    ensures
        forall|i: int|
            0 <= i < spec_expand(poly, k).len() ==> unrot_ok(#[trigger] spec_expand(poly, k)[i]),
    decreases k,
{
    if k > 0 {
        lemma_expand_in_range(poly, k - 1);
        let acc = spec_expand(poly, k - 1);
        match poly[k - 1] {
            PolygonPoint::Plain { x, y } => {},
            PolygonPoint::Rounded { x, y, r } => {
                if acc.len() == 0 || k >= poly.len() {
                } else {
                    lemma_expand_corner_range(acc.last(), spec_xy(poly[k]), x, y, r);
                }
            },
        }
    }
}

/// The expansion grows by at most 25 points per vertex.
pub proof fn lemma_expand_len(poly: Seq<PolygonPoint>, k: int)
    requires
        0 <= k,
    ensures
        spec_expand(poly, k).len() <= 25 * k,
    decreases k,
{
    if k > 0 {
        lemma_expand_len(poly, k - 1);
    }
}

/// Closure under a full turn: adding 360 degrees to a piece's rotation
/// leaves its outline and center unchanged, exactly.
pub proof fn lemma_full_turn_closure(p: Piece, q: Piece)
    requires
        wf_piece(p),
        q.shape == p.shape,
        q.pose.at == p.pose.at,
        q.pose.anchor == p.pose.anchor,
        q.pose.flip == p.pose.flip,
        q.pose.rotation_mdeg == p.pose.rotation_mdeg + 360_000,
    ensures
        spec_outline_points(q) == spec_outline_points(p),
        spec_outline_center(q) == spec_outline_center(p),
{
    let rot = p.pose.rotation_mdeg as int;
    assert(spec_base(q.shape, q.pose) == spec_base(p.shape, p.pose));
    match p.shape {
        ShapeKind::RegularPolygon { n, side } => {
            let rr = spec_ngon_radius(n, side);
            assert forall|i: int| 0 <= i < n as int implies spec_ngon_point(
                q.pose.at,
                rr,
                rot + 360_000,
                q.pose.flip,
                n as int,
                i,
            ) == spec_ngon_point(p.pose.at, rr, rot, p.pose.flip, n as int, i) by {
                let base = rot + if p.pose.flip {
                    180_000int
                } else {
                    0int
                };
                let ang = base + spec_div_trunc(i * 360_000, n as int);
                lemma_sin_period(ang);
                lemma_sin_period(ang + 90_000);
            }
            assert(spec_outline_points(q) =~= spec_outline_points(p));
        },
        ShapeKind::Circle { diameter, radius } => {
            assert(spec_outline_points(q) =~= spec_outline_points(p));
        },
        _ => {
            let (base, c) = spec_base(p.shape, p.pose);
            assert forall|i: int| 0 <= i < base.len() implies #[trigger] spec_rotate_all(
                base,
                c,
                rot + 360_000,
                p.pose.flip,
            )[i] == spec_rotate_all(base, c, rot, p.pose.flip)[i] by {
                lemma_sin_period(rot);
                lemma_sin_period(rot + 90_000);
                assert(spec_rotate_point(base[i], c, rot + 360_000, p.pose.flip)
                    == spec_rotate_point(base[i], c, rot, p.pose.flip));
            }
            assert(spec_outline_points(q) =~= spec_outline_points(p));
        },
    }
}

/// The centroid of an unrotated rectangle's outline is exactly the
/// analytically expected center `(x + w/2, y + h/2)`: with even side
/// lengths the average of the four corners is the reported center.
pub proof fn lemma_rect_centroid(p: Piece)
    requires
        wf_piece(p),
        p.shape is Rect,
        p.shape->Rect_w % 2 == 0,
        p.shape->Rect_h % 2 == 0,
        p.pose.rotation_mdeg == 0,
        !p.pose.flip,
    ensures
        spec_centroid(spec_outline_points(p)) == spec_outline_center(p),
{
    lemma_outline_unrotated(p);
    let (base, c) = spec_base(p.shape, p.pose);
    let w = p.shape->Rect_w as int;
    let h = p.shape->Rect_h as int;
    let bl = base[0];
    assert(base.len() == 4);
    assert(sum_x(base, 0) == 0);
    assert(sum_y(base, 0) == 0);
    assert(sum_x(base, 1) == bl.x);
    assert(sum_x(base, 2) == sum_x(base, 1) + base[1].x);
    assert(sum_x(base, 3) == sum_x(base, 2) + base[2].x);
    assert(sum_x(base, 4) == sum_x(base, 3) + base[3].x);
    assert(sum_y(base, 1) == bl.y);
    assert(sum_y(base, 2) == sum_y(base, 1) + base[1].y);
    assert(sum_y(base, 3) == sum_y(base, 2) + base[2].y);
    assert(sum_y(base, 4) == sum_y(base, 3) + base[3].y);
    assert(sum_x(base, 4) == 4 * bl.x + 2 * w);
    assert(sum_y(base, 4) == 4 * bl.y + 2 * h);
    assert(spec_half(w) == w / 2);
    assert(spec_half(h) == h / 2);
    assert(w == 2 * (w / 2)) by {
        vstd::arithmetic::div_mod::lemma_fundamental_div_mod(w, 2);
    }
    assert(h == 2 * (h / 2)) by {
        vstd::arithmetic::div_mod::lemma_fundamental_div_mod(h, 2);
    }
    let cx = bl.x + w / 2;
    let cy = bl.y + h / 2;
    assert(sum_x(base, 4) == 4 * cx);
    assert(sum_y(base, 4) == 4 * cy);
    assert(spec_div_trunc(4 * cx, 4) == cx) by {
        if cx >= 0 {
            vstd::arithmetic::div_mod::lemma_div_multiples_vanish(cx, 4);
        } else {
            assert(-(4 * cx) == 4 * (-cx)) by (nonlinear_arith);
            vstd::arithmetic::div_mod::lemma_div_multiples_vanish(-cx, 4);
        }
    }
    assert(spec_div_trunc(4 * cy, 4) == cy) by {
        if cy >= 0 {
            vstd::arithmetic::div_mod::lemma_div_multiples_vanish(cy, 4);
        } else {
            assert(-(4 * cy) == 4 * (-cy)) by (nonlinear_arith);
            vstd::arithmetic::div_mod::lemma_div_multiples_vanish(-cy, 4);
        }
    }
}

/// Rounding expansion is the identity on a polygon without rounded
/// corners.
pub proof fn lemma_expand_plain(poly: Seq<PolygonPoint>, k: int)
    requires
        0 <= k <= poly.len(),
        forall|i: int| 0 <= i < poly.len() ==> #[trigger] poly[i] is Plain,
    ensures
        spec_expand(poly, k) == Seq::new(k as nat, |i: int| spec_xy(poly[i])),
    decreases k,
{
    if k > 0 {
        lemma_expand_plain(poly, k - 1);
        assert(spec_expand(poly, k) =~= Seq::new(k as nat, |i: int| spec_xy(poly[i])));
    } else {
        assert(spec_expand(poly, k) =~= Seq::new(k as nat, |i: int| spec_xy(poly[i])));
    }
}

/// Round-trip for free polygons: with no rounded corners, no rotation and
/// no flip, the outline is exactly the input vertex list.
pub proof fn lemma_free_polygon_round_trip(p: Piece)
    requires
        wf_piece(p),
        p.shape is FreePolygon,
        forall|i: int|
            0 <= i < p.shape->FreePolygon_points@.len()
                ==> #[trigger] p.shape->FreePolygon_points@[i] is Plain,
        p.pose.rotation_mdeg == 0,
        !p.pose.flip,
    ensures
        spec_outline_points(p) == Seq::new(
            p.shape->FreePolygon_points@.len(),
            |i: int| spec_xy(p.shape->FreePolygon_points@[i]),
        ),
{
    let pts = p.shape->FreePolygon_points@;
    lemma_expand_plain(pts, pts.len() as int);
    lemma_outline_unrotated(p);
}

} // verus!
