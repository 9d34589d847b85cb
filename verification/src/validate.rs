//! The layout validator: piece-piece overlaps and board containment.
//!
//! Piece-piece overlap is decided by exact shape tests with a tolerance
//! band (discs exactly; other outlines as compounds of triangles), OR-ed
//! with an exact polygon-intersection fallback. Board containment uses the
//! inner and ring-expanded outer outlines: a piece is in violation when it
//! is not inside the outer outline, penetrates the inner boundary beyond
//! the tolerance, or rests on the ring farther than the tolerance allows.
use vstd::prelude::*;

verus! {

use crate::geom::{
    Point, in_range, wf_poly, edge_to, spec_point_in_polygon, point_in_polygon,
    spec_polygons_intersect, polygons_intersect, spec_segments_intersect, segments_intersect,
};
use crate::shape::{
    Piece, ShapeKind, wf_piece, spec_outline_points, spec_outline_center, spec_circle_radius,
    outline, PARAM_LIMIT,
};
use crate::board::{Board, wf_board, spec_inner_outline, spec_outer_outline, inner_outline, outer_outline, RING_WIDTH_UM};
use crate::collide::{
    tri_seq_of, spec_triangulate, triangulate_polygon, spec_convex_deep, convex_deep_overlap,
    spec_ball_ball_deep, ball_ball_deep, spec_ball_poly_deep, ball_poly_deep, spec_seg_dist_lt,
    seg_dist_lt, spec_seg_dist_le, seg_dist_le, wf_tri,
};

/// Validation tolerance, in micrometers (0.10 mm): touching and tiny
/// overlaps within this band are legal.
pub const TOLERANCE_UM: i64 = 100;

/// What a violation record reports.
#[derive(Clone, Copy, Debug, PartialEq, Eq, Structural)]
pub enum ViolationKind {
    /// The piece overlaps the piece with the given stable label.
    OverlapsPiece(usize),
    /// The piece is outside the board's legal play area.
    OutsideBoard,
}

/// One violation, attributed to a piece by its stable label.
#[derive(Clone, Copy, Debug, PartialEq, Eq, Structural)]
pub struct Violation {
    pub piece: usize,
    pub kind: ViolationKind,
}

/// The stable label of the piece at position `i`: its assigned label
/// index, or its position.
pub open spec fn spec_label(p: Piece, i: int) -> int {
    match p.label_idx {
        Some(l) => l as int,
        None => i,
    }
}

/// The disc radius of a circle piece; zero for other shapes.
pub open spec fn spec_radius(p: Piece) -> int {
    match p.shape {
        ShapeKind::Circle { diameter, radius } => spec_circle_radius(diameter, radius),
        _ => 0,
    }
}

/// Deep overlap between two outlines treated as triangle compounds; when
/// either cannot be triangulated, the raw outlines are compared by
/// separating axes as a conservative fallback.
pub open spec fn spec_poly_poly_deep(ga: Seq<Point>, gb: Seq<Point>, eps: int) -> bool {
    let ta = spec_triangulate(ga);
    let tb = spec_triangulate(gb);
    if ta.len() == 0 || tb.len() == 0 {
        spec_convex_deep(ga, gb, eps)
    } else {
        exists|i: int, j: int|
            0 <= i < ta.len() && 0 <= j < tb.len() && spec_convex_deep(
                tri_seq_of(ta[i]),
                tri_seq_of(tb[j]),
                eps,
            )
    }
}

/// Deep overlap between two pieces: discs exactly, everything else as a
/// compound of triangles.
pub open spec fn spec_pieces_deep(pa: Piece, pb: Piece, eps: int) -> bool {
    let ga = spec_outline_points(pa);
    let gb = spec_outline_points(pb);
    if pa.shape is Circle && pb.shape is Circle {
        spec_ball_ball_deep(
            spec_outline_center(pa),
            spec_radius(pa),
            spec_outline_center(pb),
            spec_radius(pb),
            eps,
        )
    } else if pa.shape is Circle {
        spec_ball_poly_deep(spec_outline_center(pa), spec_radius(pa), gb, eps)
    } else if pb.shape is Circle {
        spec_ball_poly_deep(spec_outline_center(pb), spec_radius(pb), ga, eps)
    } else {
        spec_poly_poly_deep(ga, gb, eps)
    }
}

/// The pair is flagged: deep overlap, or the exact polygon-intersection
/// safety net.
pub open spec fn spec_pair_flag(pa: Piece, pb: Piece, eps: int) -> bool {
    spec_pieces_deep(pa, pb, eps) || spec_polygons_intersect(
        spec_outline_points(pa),
        spec_outline_points(pb),
    )
}

/// Every outline point lies inside `poly` by the parity rule.
pub open spec fn spec_all_inside(g: Seq<Point>, poly: Seq<Point>) -> bool {
    forall|i: int| 0 <= i < g.len() ==> spec_point_in_polygon(#[trigger] g[i], poly)
}

/// A convex part (or raw outline) and a segment are within `k` of each
/// other: they cross, the segment starts inside, or some vertex of either
/// is within `k` of the other.
pub open spec fn spec_poly_seg_near(poly: Seq<Point>, s1: Point, s2: Point, k: int) -> bool {
    poly.len() > 0 && ((exists|i: int|
        0 <= i < poly.len() && spec_segments_intersect(#[trigger] poly[i], edge_to(poly, i), s1, s2))
        || spec_point_in_polygon(s1, poly) || (exists|i: int|
        0 <= i < poly.len() && spec_seg_dist_le(s1, s2, #[trigger] poly[i], k)) || (exists|i: int|
        0 <= i < poly.len() && (spec_seg_dist_le(#[trigger] poly[i], edge_to(poly, i), s1, k)
            || spec_seg_dist_le(poly[i], edge_to(poly, i), s2, k))))
}

/// The piece's shape penetrates the board's inner boundary deeper than
/// `eps`.
pub open spec fn spec_board_deep(p: Piece, inner: Seq<Point>, eps: int) -> bool {
    let g = spec_outline_points(p);
    if p.shape is Circle {
        exists|i: int|
            0 <= i < inner.len() && spec_seg_dist_lt(
                #[trigger] inner[i],
                edge_to(inner, i),
                spec_outline_center(p),
                spec_radius(p) - eps,
            )
    } else {
        let t = spec_triangulate(g);
        if t.len() == 0 {
            exists|i: int|
                0 <= i < inner.len() && spec_convex_deep(
                    g,
                    seq![#[trigger] inner[i], edge_to(inner, i)],
                    eps,
                )
        } else {
            exists|j: int, i: int|
                0 <= j < t.len() && 0 <= i < inner.len() && spec_convex_deep(
                    tri_seq_of(t[j]),
                    seq![inner[i], edge_to(inner, i)],
                    eps,
                )
        }
    }
}

/// The piece's shape is within `eps` of the board's inner boundary.
pub open spec fn spec_board_near(p: Piece, inner: Seq<Point>, eps: int) -> bool {
    let g = spec_outline_points(p);
    if p.shape is Circle {
        exists|i: int|
            0 <= i < inner.len() && spec_seg_dist_le(
                #[trigger] inner[i],
                edge_to(inner, i),
                spec_outline_center(p),
                spec_radius(p) + eps,
            )
    } else {
        let t = spec_triangulate(g);
        if t.len() == 0 {
            exists|i: int|
                0 <= i < inner.len() && spec_poly_seg_near(
                    g,
                    #[trigger] inner[i],
                    edge_to(inner, i),
                    eps,
                )
        } else {
            exists|j: int, i: int|
                0 <= j < t.len() && 0 <= i < inner.len() && spec_poly_seg_near(
                    tri_seq_of(t[j]),
                    inner[i],
                    edge_to(inner, i),
                    eps,
                )
        }
    }
}

/// Whether a piece violates board containment, given the inner outline and
/// the optional outer (ring-expanded) outline.
pub open spec fn spec_board_violation(
    p: Piece,
    inner: Seq<Point>,
    outer: Option<Seq<Point>>,
    eps: int,
) -> bool {
    let g = spec_outline_points(p);
    let outside_outer = match outer {
        Some(o) => !spec_all_inside(g, o),
        None => false,
    };
    if outside_outer {
        true
    } else if spec_board_deep(p, inner, eps) {
        true
    } else if !spec_all_inside(g, inner) && !spec_board_near(p, inner, eps) {
        true
    } else {
        false
    }
}

/// The violations of pairs `(a, b)` for `b` from `b0` up.
pub open spec fn spec_pairs_from(ps: Seq<Piece>, a: int, b0: int, eps: int) -> Seq<Violation>
    decreases ps.len() - b0,
{
    if b0 < 0 || b0 >= ps.len() || a < 0 || a >= ps.len() {
        Seq::empty()
    } else {
        let rest = spec_pairs_from(ps, a, b0 + 1, eps);
        if spec_pair_flag(ps[a], ps[b0], eps) {
            seq![
                Violation {
                    piece: spec_label(ps[a], a) as usize,
                    kind: ViolationKind::OverlapsPiece(spec_label(ps[b0], b0) as usize),
                },
            ] + rest
        } else {
            rest
        }
    }
}

/// The piece-pair violations for first pieces from `a0` up.
pub open spec fn spec_all_pairs(ps: Seq<Piece>, a0: int, eps: int) -> Seq<Violation>
    decreases ps.len() - a0,
{
    if a0 < 0 || a0 >= ps.len() {
        Seq::empty()
    } else {
        spec_pairs_from(ps, a0, a0 + 1, eps) + spec_all_pairs(ps, a0 + 1, eps)
    }
}

/// The board violations for pieces from `i0` up.
pub open spec fn spec_board_list(
    ps: Seq<Piece>,
    inner: Seq<Point>,
    outer: Option<Seq<Point>>,
    i0: int,
    eps: int,
) -> Seq<Violation>
    decreases ps.len() - i0,
{
    if i0 < 0 || i0 >= ps.len() {
        Seq::empty()
    } else {
        let rest = spec_board_list(ps, inner, outer, i0 + 1, eps);
        if spec_board_violation(ps[i0], inner, outer, eps) {
            seq![
                Violation {
                    piece: spec_label(ps[i0], i0) as usize,
                    kind: ViolationKind::OutsideBoard,
                },
            ] + rest
        } else {
            rest
        }
    }
}

/// Every violation of the layout, in piece order: pair overlaps first,
/// then board containment. The verdict for each piece depends only on the
/// shapes, not on any caller-side ordering of checks.
pub open spec fn spec_validate(b: Option<Board>, ps: Seq<Piece>, eps: int) -> Seq<Violation> {
    let pair_part = spec_all_pairs(ps, 0, eps);
    let board_part = match b {
        Some(bd) => match spec_inner_outline(bd) {
            Some(inner) => spec_board_list(
                ps,
                inner,
                spec_outer_outline(bd, RING_WIDTH_UM as int),
                0,
                eps,
            ),
            None => Seq::empty(),
        },
        None => Seq::empty(),
    };
    pair_part + board_part
}

/// The disc radius of a circle piece, executable.
fn radius_of(p: &Piece) -> (r: i64)
    requires
        wf_piece(*p),
    ensures
        r == spec_radius(*p),
        0 <= r <= PARAM_LIMIT,
{
    match &p.shape {
        ShapeKind::Circle { diameter, radius } => match diameter {
            Some(d) => crate::shape::half(*d),
            None => match radius {
                Some(rr) => *rr,
                None => 0,
            },
        },
        _ => 0,
    }
}

/// Compound-versus-compound deep overlap.
fn poly_poly_deep(ga: &Vec<Point>, gb: &Vec<Point>, eps: i64) -> (res: bool)
    requires
        wf_poly(ga@),
        wf_poly(gb@),
        ga@.len() <= 250_000,
        gb@.len() <= 250_000,
        0 <= eps <= 1_000_000,
    ensures
        res == spec_poly_poly_deep(ga@, gb@, eps as int),
{
    let ta = triangulate_polygon(ga);
    let tb = triangulate_polygon(gb);
    if ta.len() == 0 || tb.len() == 0 {
        return convex_deep_overlap(ga, gb, eps);
    }
    let an = ta.len();
    let bn = tb.len();
    let mut i: usize = 0;
    while i < an
        invariant
            0 <= i <= an,
            an == ta@.len(),
            bn == tb@.len(),
            ta@ == spec_triangulate(ga@),
            tb@ == spec_triangulate(gb@),
            forall|q: int| 0 <= q < an ==> wf_tri(#[trigger] ta@[q]),
            forall|q: int| 0 <= q < bn ==> wf_tri(#[trigger] tb@[q]),
            0 <= eps <= 1_000_000,
            forall|q: int, w: int|
                0 <= q < i && 0 <= w < bn ==> !spec_convex_deep(
                    tri_seq_of(#[trigger] ta@[q]),
                    tri_seq_of(#[trigger] tb@[w]),
                    eps as int,
                ),
        decreases an - i,
    {
        let va = crate::collide::tri_vec(&ta[i]);
        let mut j: usize = 0;
        while j < bn
            invariant
                0 <= j <= bn,
                0 <= i < an,
                an == ta@.len(),
                bn == tb@.len(),
                va@ == tri_seq_of(ta@[i as int]),
                ta@ == spec_triangulate(ga@),
                tb@ == spec_triangulate(gb@),
                forall|q: int| 0 <= q < an ==> wf_tri(#[trigger] ta@[q]),
                forall|q: int| 0 <= q < bn ==> wf_tri(#[trigger] tb@[q]),
                0 <= eps <= 1_000_000,
                forall|w: int|
                    0 <= w < j ==> !spec_convex_deep(
                        tri_seq_of(ta@[i as int]),
                        tri_seq_of(#[trigger] tb@[w]),
                        eps as int,
                    ),
            decreases bn - j,
        {
            let vb = crate::collide::tri_vec(&tb[j]);
            if convex_deep_overlap(&va, &vb, eps) {
                proof {
                    assert(spec_convex_deep(
                        tri_seq_of(ta@[i as int]),
                        tri_seq_of(tb@[j as int]),
                        eps as int,
                    ));
                }
                return true;
            }
            j = j + 1;
        }
        i = i + 1;
    }
    false
}

/// Deep overlap between two pieces.
fn pieces_deep(pa: &Piece, pb: &Piece, eps: i64) -> (res: bool)
    requires
        wf_piece(*pa),
        wf_piece(*pb),
        0 <= eps <= 1_000_000,
    ensures
        res == spec_pieces_deep(*pa, *pb, eps as int),
{
    let (ga, ca) = outline(pa);
    let (gb, cb) = outline(pb);
    let circ_a = matches!(&pa.shape, ShapeKind::Circle { .. });
    let circ_b = matches!(&pb.shape, ShapeKind::Circle { .. });
    if circ_a && circ_b {
        ball_ball_deep(ca, radius_of(pa), cb, radius_of(pb), eps)
    } else if circ_a {
        ball_poly_deep(ca, radius_of(pa), &gb, eps)
    } else if circ_b {
        ball_poly_deep(cb, radius_of(pb), &ga, eps)
    } else {
        poly_poly_deep(&ga, &gb, eps)
    }
}

/// Whether a pair is flagged: deep overlap or the exact edge-crossing
/// fallback.
pub fn pair_flag(pa: &Piece, pb: &Piece, eps: i64) -> (res: bool)
    requires
        wf_piece(*pa),
        wf_piece(*pb),
        0 <= eps <= 1_000_000,
    ensures
        res == spec_pair_flag(*pa, *pb, eps as int),
{
    if pieces_deep(pa, pb, eps) {
        return true;
    }
    let (ga, _ca) = outline(pa);
    let (gb, _cb) = outline(pb);
    polygons_intersect(&ga, &gb)
}

fn all_inside(g: &Vec<Point>, poly: &Vec<Point>) -> (res: bool)
    requires
        wf_poly(g@),
        wf_poly(poly@),
    ensures
        res == spec_all_inside(g@, poly@),
{
    let n = g.len();
    let mut i: usize = 0;
    while i < n
        invariant
            0 <= i <= n,
            n == g@.len(),
            wf_poly(g@),
            wf_poly(poly@),
            forall|q: int| 0 <= q < i ==> spec_point_in_polygon(#[trigger] g@[q], poly@),
        decreases n - i,
    {
        if !point_in_polygon(g[i], poly) {
            return false;
        }
        i = i + 1;
    }
    true
}

fn poly_seg_near(poly: &Vec<Point>, s1: Point, s2: Point, k: i64) -> (res: bool)
    requires
        wf_poly(poly@),
        in_range(s1),
        in_range(s2),
        -200_000_000 <= k <= 200_000_000,
    ensures
        res == spec_poly_seg_near(poly@, s1, s2, k as int),
{
    let n = poly.len();
    if n == 0 {
        return false;
    }
    let mut i: usize = 0;
    while i < n
        invariant
            0 <= i <= n,
            n == poly@.len(),
            wf_poly(poly@),
            in_range(s1),
            in_range(s2),
            -200_000_000 <= k <= 200_000_000,
            forall|q: int|
                0 <= q < i ==> !spec_segments_intersect(
                    #[trigger] poly@[q],
                    edge_to(poly@, q),
                    s1,
                    s2,
                ) && !spec_seg_dist_le(s1, s2, poly@[q], k as int) && !spec_seg_dist_le(
                    poly@[q],
                    edge_to(poly@, q),
                    s1,
                    k as int,
                ) && !spec_seg_dist_le(poly@[q], edge_to(poly@, q), s2, k as int),
        decreases n - i,
    {
        let b = if i + 1 < n {
            poly[i + 1]
        } else {
            poly[0]
        };
        assert(b == edge_to(poly@, i as int));
        if segments_intersect(poly[i], b, s1, s2) {
            return true;
        }
        if seg_dist_le(s1, s2, poly[i], k) {
            return true;
        }
        if seg_dist_le(poly[i], b, s1, k) {
            return true;
        }
        if seg_dist_le(poly[i], b, s2, k) {
            return true;
        }
        i = i + 1;
    }
    if point_in_polygon(s1, poly) {
        return true;
    }
    false
}

/// Whether a piece penetrates the inner boundary beyond `eps`.
#[verifier::rlimit(100)]
fn board_deep(p: &Piece, inner: &Vec<Point>, eps: i64) -> (res: bool)
    requires
        wf_piece(*p),
        wf_poly(inner@),
        0 <= eps <= 1_000_000,
    ensures
        res == spec_board_deep(*p, inner@, eps as int),
{
    let (g, c) = outline(p);
    let n = inner.len();
    if matches!(&p.shape, ShapeKind::Circle { .. }) {
        let rad = radius_of(p);
        let mut i: usize = 0;
        while i < n
            invariant
                0 <= i <= n,
                n == inner@.len(),
                wf_poly(inner@),
                in_range(c),
                c == spec_outline_center(*p),
                rad == spec_radius(*p),
                p.shape is Circle,
                0 <= rad <= PARAM_LIMIT,
                0 <= eps <= 1_000_000,
                forall|q: int|
                    0 <= q < i ==> !spec_seg_dist_lt(
                        #[trigger] inner@[q],
                        edge_to(inner@, q),
                        c,
                        rad - eps,
                    ),
            decreases n - i,
        {
            let b = if i + 1 < n {
                inner[i + 1]
            } else {
                inner[0]
            };
            assert(b == edge_to(inner@, i as int));
            if seg_dist_lt(inner[i], b, c, rad - eps) {
                proof {
                    assert(spec_seg_dist_lt(
                        inner@[i as int],
                        edge_to(inner@, i as int),
                        spec_outline_center(*p),
                        spec_radius(*p) - eps,
                    ));
                }
                return true;
            }
            i = i + 1;
        }
        return false;
    }
    let t = triangulate_polygon(&g);
    if t.len() == 0 {
        let mut i: usize = 0;
        while i < n
            invariant
                0 <= i <= n,
                n == inner@.len(),
                wf_poly(inner@),
                wf_poly(g@),
                g@ == spec_outline_points(*p),
                spec_triangulate(g@).len() == 0,
                !(p.shape is Circle),
                0 <= eps <= 1_000_000,
                forall|q: int|
                    0 <= q < i ==> !spec_convex_deep(
                        g@,
                        seq![#[trigger] inner@[q], edge_to(inner@, q)],
                        eps as int,
                    ),
            decreases n - i,
        {
            let b = if i + 1 < n {
                inner[i + 1]
            } else {
                inner[0]
            };
            assert(b == edge_to(inner@, i as int));
            let mut seg: Vec<Point> = Vec::new();
            seg.push(inner[i]);
            seg.push(b);
            proof {
                assert(seg@ =~= seq![inner@[i as int], edge_to(inner@, i as int)]);
            }
            if convex_deep_overlap(&g, &seg, eps) {
                proof {
                    assert(spec_convex_deep(
                        g@,
                        seq![inner@[i as int], edge_to(inner@, i as int)],
                        eps as int,
                    ));
                }
                return true;
            }
            i = i + 1;
        }
        return false;
    }
    let tn = t.len();
    let mut j: usize = 0;
    while j < tn
        invariant
            0 <= j <= tn,
            tn == t@.len(),
            t@ == spec_triangulate(g@),
            g@ == spec_outline_points(*p),
            !(p.shape is Circle),
            tn > 0,
            wf_poly(inner@),
            n == inner@.len(),
            forall|q: int| 0 <= q < tn ==> wf_tri(#[trigger] t@[q]),
            0 <= eps <= 1_000_000,
            forall|q: int, w: int|
                0 <= q < j && 0 <= w < n ==> !spec_convex_deep(
                    tri_seq_of(#[trigger] t@[q]),
                    seq![#[trigger] inner@[w], edge_to(inner@, w)],
                    eps as int,
                ),
        decreases tn - j,
    {
        let tv = crate::collide::tri_vec(&t[j]);
        let mut i: usize = 0;
        while i < n
            invariant
                0 <= i <= n,
                0 <= j < tn,
                tn == t@.len(),
                n == inner@.len(),
                wf_poly(inner@),
                tv@ == tri_seq_of(t@[j as int]),
                t@ == spec_triangulate(g@),
                g@ == spec_outline_points(*p),
                !(p.shape is Circle),
                forall|q: int| 0 <= q < tn ==> wf_tri(#[trigger] t@[q]),
                0 <= eps <= 1_000_000,
                forall|w: int|
                    0 <= w < i ==> !spec_convex_deep(
                        tri_seq_of(t@[j as int]),
                        seq![#[trigger] inner@[w], edge_to(inner@, w)],
                        eps as int,
                    ),
            decreases n - i,
        {
            let b = if i + 1 < n {
                inner[i + 1]
            } else {
                inner[0]
            };
            assert(b == edge_to(inner@, i as int));
            let mut seg: Vec<Point> = Vec::new();
            seg.push(inner[i]);
            seg.push(b);
            proof {
                assert(seg@ =~= seq![inner@[i as int], edge_to(inner@, i as int)]);
            }
            if convex_deep_overlap(&tv, &seg, eps) {
                proof {
                    assert(spec_convex_deep(
                        tri_seq_of(t@[j as int]),
                        seq![inner@[i as int], edge_to(inner@, i as int)],
                        eps as int,
                    ));
                }
                return true;
            }
            i = i + 1;
        }
        j = j + 1;
    }
    false
}

/// Whether a piece is within `eps` of the inner boundary.
#[verifier::rlimit(100)]
fn board_near(p: &Piece, inner: &Vec<Point>, eps: i64) -> (res: bool)
    requires
        wf_piece(*p),
        wf_poly(inner@),
        0 <= eps <= 1_000_000,
    ensures
        res == spec_board_near(*p, inner@, eps as int),
{
    let (g, c) = outline(p);
    let n = inner.len();
    if matches!(&p.shape, ShapeKind::Circle { .. }) {
        let rad = radius_of(p);
        let mut i: usize = 0;
        while i < n
            invariant
                0 <= i <= n,
                n == inner@.len(),
                wf_poly(inner@),
                in_range(c),
                c == spec_outline_center(*p),
                rad == spec_radius(*p),
                p.shape is Circle,
                0 <= rad <= PARAM_LIMIT,
                0 <= eps <= 1_000_000,
                forall|q: int|
                    0 <= q < i ==> !spec_seg_dist_le(
                        #[trigger] inner@[q],
                        edge_to(inner@, q),
                        c,
                        rad + eps,
                    ),
            decreases n - i,
        {
            let b = if i + 1 < n {
                inner[i + 1]
            } else {
                inner[0]
            };
            assert(b == edge_to(inner@, i as int));
            if seg_dist_le(inner[i], b, c, rad + eps) {
                proof {
                    assert(spec_seg_dist_le(
                        inner@[i as int],
                        edge_to(inner@, i as int),
                        spec_outline_center(*p),
                        spec_radius(*p) + eps,
                    ));
                }
                return true;
            }
            i = i + 1;
        }
        return false;
    }
    let t = triangulate_polygon(&g);
    if t.len() == 0 {
        let mut i: usize = 0;
        while i < n
            invariant
                0 <= i <= n,
                n == inner@.len(),
                wf_poly(inner@),
                wf_poly(g@),
                g@ == spec_outline_points(*p),
                spec_triangulate(g@).len() == 0,
                !(p.shape is Circle),
                0 <= eps <= 1_000_000,
                forall|q: int|
                    0 <= q < i ==> !spec_poly_seg_near(
                        g@,
                        #[trigger] inner@[q],
                        edge_to(inner@, q),
                        eps as int,
                    ),
            decreases n - i,
        {
            let b = if i + 1 < n {
                inner[i + 1]
            } else {
                inner[0]
            };
            assert(b == edge_to(inner@, i as int));
            if poly_seg_near(&g, inner[i], b, eps) {
                proof {
                    assert(spec_poly_seg_near(
                        g@,
                        inner@[i as int],
                        edge_to(inner@, i as int),
                        eps as int,
                    ));
                }
                return true;
            }
            i = i + 1;
        }
        return false;
    }
    let tn = t.len();
    let mut j: usize = 0;
    while j < tn
        invariant
            0 <= j <= tn,
            tn == t@.len(),
            t@ == spec_triangulate(g@),
            g@ == spec_outline_points(*p),
            !(p.shape is Circle),
            tn > 0,
            wf_poly(inner@),
            n == inner@.len(),
            forall|q: int| 0 <= q < tn ==> wf_tri(#[trigger] t@[q]),
            0 <= eps <= 1_000_000,
            forall|q: int, w: int|
                0 <= q < j && 0 <= w < n ==> !spec_poly_seg_near(
                    tri_seq_of(#[trigger] t@[q]),
                    #[trigger] inner@[w],
                    edge_to(inner@, w),
                    eps as int,
                ),
        decreases tn - j,
    {
        let tv = crate::collide::tri_vec(&t[j]);
        let mut i: usize = 0;
        while i < n
            invariant
                0 <= i <= n,
                0 <= j < tn,
                tn == t@.len(),
                n == inner@.len(),
                wf_poly(inner@),
                tv@ == tri_seq_of(t@[j as int]),
                t@ == spec_triangulate(g@),
                g@ == spec_outline_points(*p),
                !(p.shape is Circle),
                forall|q: int| 0 <= q < tn ==> wf_tri(#[trigger] t@[q]),
                0 <= eps <= 1_000_000,
                forall|w: int|
                    0 <= w < i ==> !spec_poly_seg_near(
                        tri_seq_of(t@[j as int]),
                        #[trigger] inner@[w],
                        edge_to(inner@, w),
                        eps as int,
                    ),
            decreases n - i,
        {
            let b = if i + 1 < n {
                inner[i + 1]
            } else {
                inner[0]
            };
            assert(b == edge_to(inner@, i as int));
            if poly_seg_near(&tv, inner[i], b, eps) {
                proof {
                    assert(spec_poly_seg_near(
                        tri_seq_of(t@[j as int]),
                        inner@[i as int],
                        edge_to(inner@, i as int),
                        eps as int,
                    ));
                }
                return true;
            }
            i = i + 1;
        }
        j = j + 1;
    }
    false
}

/// Whether one piece violates board containment.
fn board_violation(p: &Piece, inner: &Vec<Point>, outer: &Option<Vec<Point>>, eps: i64) -> (res:
    bool)
    requires
        wf_piece(*p),
        wf_poly(inner@),
        match outer {
            Some(o) => wf_poly(o@),
            None => true,
        },
        0 <= eps <= 1_000_000,
    ensures
        res == spec_board_violation(
            *p,
            inner@,
            match outer {
                Some(o) => Some(o@),
                None => None,
            },
            eps as int,
        ),
{
    let (g, _c) = outline(p);
    let outside_outer = match outer {
        Some(o) => !all_inside(&g, o),
        None => false,
    };
    if outside_outer {
        return true;
    }
    if board_deep(p, inner, eps) {
        return true;
    }
    if !all_inside(&g, inner) && !board_near(p, inner, eps) {
        return true;
    }
    false
}

fn label_of(p: &Piece, i: usize) -> (l: usize)
    ensures
        l as int == spec_label(*p, i as int),
{
    match p.label_idx {
        Some(l) => l,
        None => i,
    }
}

/// Validate a layout: every piece-pair overlap beyond the tolerance and
/// every board-containment failure, as a list of violation records
/// attributed by stable label. The result is a function of the descriptors
/// alone.
#[verifier::rlimit(100)]
pub fn validate(board: &Option<Board>, pieces: &Vec<Piece>) -> (out: Vec<Violation>)
    requires
        match board {
            Some(b) => wf_board(*b),
            None => true,
        },
        forall|i: int| 0 <= i < pieces@.len() ==> wf_piece(#[trigger] pieces@[i]),
    ensures
        out@ == spec_validate(
            match board {
                Some(b) => Some(*b),
                None => None,
            },
            pieces@,
            TOLERANCE_UM as int,
        ),
{
    let eps = TOLERANCE_UM;
    let n = pieces.len();
    let mut out: Vec<Violation> = Vec::new();
    let mut a: usize = 0;
    while a < n
        invariant
            0 <= a <= n,
            n == pieces@.len(),
            forall|i: int| 0 <= i < pieces@.len() ==> wf_piece(#[trigger] pieces@[i]),
            eps == TOLERANCE_UM,
            spec_all_pairs(pieces@, 0, eps as int) == out@ + spec_all_pairs(
                pieces@,
                a as int,
                eps as int,
            ),
        decreases n - a,
    {
        let mut b = a + 1;
        while b < n
            invariant
                a < b <= n + 1,
                b >= a + 1,
                0 <= a < n,
                n == pieces@.len(),
                forall|i: int| 0 <= i < pieces@.len() ==> wf_piece(#[trigger] pieces@[i]),
                eps == TOLERANCE_UM,
                spec_all_pairs(pieces@, 0, eps as int) == out@ + spec_pairs_from(
                    pieces@,
                    a as int,
                    b as int,
                    eps as int,
                ) + spec_all_pairs(pieces@, a as int + 1, eps as int),
            decreases n - b,
        {
            if pair_flag(&pieces[a], &pieces[b], eps) {
                let la = label_of(&pieces[a], a);
                let lb = label_of(&pieces[b], b);
                out.push(Violation { piece: la, kind: ViolationKind::OverlapsPiece(lb) });
            }
            proof {
                let ps = pieces@;
                let aa = a as int;
                let bb = b as int;
                assert(spec_pairs_from(ps, aa, bb, eps as int) == (if spec_pair_flag(
                    ps[aa],
                    ps[bb],
                    eps as int,
                ) {
                    seq![
                        Violation {
                            piece: spec_label(ps[aa], aa) as usize,
                            kind: ViolationKind::OverlapsPiece(spec_label(ps[bb], bb) as usize),
                        },
                    ] + spec_pairs_from(ps, aa, bb + 1, eps as int)
                } else {
                    spec_pairs_from(ps, aa, bb + 1, eps as int)
                }));
                assert(spec_all_pairs(ps, 0, eps as int) == out@ + spec_pairs_from(
                    ps,
                    aa,
                    bb + 1,
                    eps as int,
                ) + spec_all_pairs(ps, aa + 1, eps as int)) by {
                    crate::validate::lemma_concat_assoc();
                }
            }
            b = b + 1;
        }
        proof {
            assert(spec_pairs_from(pieces@, a as int, b as int, eps as int) =~= Seq::<
                Violation,
            >::empty());
            assert(out@ + Seq::<Violation>::empty() =~= out@);
        }
        a = a + 1;
    }
    proof {
        assert(spec_all_pairs(pieces@, n as int, eps as int) =~= Seq::<Violation>::empty());
        assert(out@ + Seq::<Violation>::empty() =~= out@);
        assert(out@ == spec_all_pairs(pieces@, 0, eps as int));
    }
    let ghost pair_part = out@;
    match board {
        Some(bd) => {
            match inner_outline(bd) {
                Some(inner) => {
                    let outer = outer_outline(bd, RING_WIDTH_UM);
                    let ghost gouter = match &outer {
                        Some(o) => Some(o@),
                        None => None::<Seq<Point>>,
                    };
                    let mut i: usize = 0;
                    while i < n
                        invariant
                            0 <= i <= n,
                            n == pieces@.len(),
                            forall|q: int| 0 <= q < pieces@.len() ==> wf_piece(#[trigger] pieces@[q]),
                            eps == TOLERANCE_UM,
                            wf_poly(inner@),
                            match outer {
                                Some(o) => wf_poly(o@) && gouter == Some(o@),
                                None => gouter is None,
                            },
                            pair_part + spec_board_list(
                                pieces@,
                                inner@,
                                gouter,
                                0,
                                eps as int,
                            ) == out@ + spec_board_list(pieces@, inner@, gouter, i as int, eps as int),
                        decreases n - i,
                    {
                        if board_violation(&pieces[i], &inner, &outer, eps) {
                            let li = label_of(&pieces[i], i);
                            out.push(Violation { piece: li, kind: ViolationKind::OutsideBoard });
                        }
                        proof {
                            lemma_concat_assoc();
                        }
                        i = i + 1;
                    }
                    proof {
                        assert(spec_board_list(pieces@, inner@, gouter, n as int, eps as int) =~= Seq::<
                            Violation,
                        >::empty());
                        assert(out@ + Seq::<Violation>::empty() =~= out@);
                        assert(spec_inner_outline(*bd) == Some(inner@));
                        assert(match spec_outer_outline(*bd, RING_WIDTH_UM as int) {
                            Some(o) => gouter == Some(o),
                            None => gouter is None,
                        });
                    }
                    out
                },
                None => {
                    proof {
                        assert(out@ + Seq::<Violation>::empty() =~= out@);
                    }
                    out
                },
            }
        },
        None => {
            proof {
                assert(out@ + Seq::<Violation>::empty() =~= out@);
            }
            out
        },
    }
}

/// Concatenation of violation lists is associative.
pub proof fn lemma_concat_assoc()
    ensures
        forall|x: Seq<Violation>, y: Seq<Violation>, z: Seq<Violation>|
            #[trigger] ((x + y) + z) == x + (y + z),
{
    assert forall|x: Seq<Violation>, y: Seq<Violation>, z: Seq<Violation>| #[trigger] ((x + y)
        + z) == x + (y + z) by {
        assert((x + y) + z =~= x + (y + z));
    }
}

} // verus!
