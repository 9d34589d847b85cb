//! Collision shapes: ear-clipping triangulation of outlines, exact
//! penetration tests between convex parts, and exact ball (disc) tests.
//!
//! A concave outline becomes a list of triangles; two pieces overlap
//! "deeply" (beyond the tolerance) when some pair of their parts does. All
//! comparisons are exact integer arithmetic: a penetration `o / |axis|`
//! against a tolerance `eps` is decided as `o > 0 && o^2 > eps^2 |axis|^2`.
use vstd::prelude::*;

verus! {

use crate::geom::{Point, in_range, wf_poly, cross3, cross3_exec, edge_to, spec_area2, polygon_area2};

/// One triangle of a decomposed outline.
#[derive(Clone, Copy, Debug, PartialEq, Eq, Structural)]
pub struct Tri {
    pub a: Point,
    pub b: Point,
    pub c: Point,
}

pub open spec fn wf_tri(t: Tri) -> bool {
    in_range(t.a) && in_range(t.b) && in_range(t.c)
}

/// A triangle's vertices as a three-point outline.
pub open spec fn tri_seq_of(t: Tri) -> Seq<Point> {
    seq![t.a, t.b, t.c]
}

/// Materialize a triangle as a three-point outline.
pub fn tri_vec(t: &Tri) -> (v: Vec<Point>)
    ensures
        v@ == tri_seq_of(*t),
{
    let mut v: Vec<Point> = Vec::new();
    v.push(t.a);
    v.push(t.b);
    v.push(t.c);
    proof {
        assert(v@ =~= tri_seq_of(*t));
    }
    v
}

/// The next position on a ring of `n` items.
pub open spec fn next_pos(n: int, k: int) -> int {
    if k + 1 < n {
        k + 1
    } else {
        0
    }
}

/// The previous position on a ring of `n` items.
pub open spec fn prev_pos(n: int, k: int) -> int {
    if k == 0 {
        n - 1
    } else {
        k - 1
    }
}

/// The candidate triangle at position `k` of the working index ring.
pub open spec fn tri_at(pts: Seq<Point>, idxs: Seq<int>, k: int) -> Tri {
    let n = idxs.len() as int;
    Tri { a: pts[idxs[prev_pos(n, k)]], b: pts[idxs[k]], c: pts[idxs[next_pos(n, k)]] }
}

/// `p` lies inside or on the (counter-clockwise) triangle.
pub open spec fn pt_in_tri(p: Point, t: Tri) -> bool {
    cross3(t.a, t.b, p) >= 0 && cross3(t.b, t.c, p) >= 0 && cross3(t.c, t.a, p) >= 0
}

/// Position `k` is an ear: a convex corner whose triangle holds no other
/// remaining vertex.
pub open spec fn is_ear(pts: Seq<Point>, idxs: Seq<int>, k: int) -> bool {
    let n = idxs.len() as int;
    let t = tri_at(pts, idxs, k);
    cross3(t.a, t.b, t.c) > 0 && forall|m: int|
        0 <= m < n && m != k && m != prev_pos(n, k) && m != next_pos(n, k) ==> !pt_in_tri(
            pts[#[trigger] idxs[m]],
            t,
        )
}

/// The first ear at or after position `k`, if any.
pub open spec fn find_ear(pts: Seq<Point>, idxs: Seq<int>, k: int) -> Option<int>
    decreases idxs.len() - k,
{
    if k < 0 || k >= idxs.len() {
        None
    } else if is_ear(pts, idxs, k) {
        Some(k)
    } else {
        find_ear(pts, idxs, k + 1)
    }
}

/// Clip ears until a triangle remains; stop early (keeping what was cut so
/// far) when no ear can be found on a degenerate ring.
pub open spec fn spec_clip(pts: Seq<Point>, idxs: Seq<int>) -> Seq<Tri>
    decreases idxs.len(),
{
    if idxs.len() < 3 {
        Seq::empty()
    } else if idxs.len() == 3 {
        seq![tri_at(pts, idxs, 1)]
    } else {
        match find_ear(pts, idxs, 0) {
            None => Seq::empty(),
            Some(k) => {
                if 0 <= k < idxs.len() {
                    seq![tri_at(pts, idxs, k)] + spec_clip(pts, idxs.remove(k))
                } else {
                    Seq::empty()
                }
            },
        }
    }
}

/// The working ring: vertex positions in order, reversed for clockwise
/// outlines so that ears are always counter-clockwise.
pub open spec fn start_ring(pts: Seq<Point>) -> Seq<int> {
    if spec_area2(pts) >= 0 {
        Seq::new(pts.len(), |i: int| i)
    } else {
        Seq::new(pts.len(), |i: int| pts.len() - 1 - i)
    }
}

/// Ear-clipping triangulation; empty when the outline has fewer than three
/// vertices or clipping gets stuck immediately.
pub open spec fn spec_triangulate(pts: Seq<Point>) -> Seq<Tri> {
    if pts.len() < 3 {
        Seq::empty()
    } else {
        spec_clip(pts, start_ring(pts))
    }
}

/// All positions of a ring index into `pts`.
pub open spec fn ring_ok(pts: Seq<Point>, idxs: Seq<int>) -> bool {
    forall|i: int| 0 <= i < idxs.len() ==> 0 <= #[trigger] idxs[i] < pts.len()
}

fn tri_at_exec(pts: &Vec<Point>, idxs: &Vec<usize>, k: usize) -> (t: Tri)
    requires
        ring_ok(pts@, idxs@.map_values(|v: usize| v as int)),
        k < idxs@.len(),
    ensures
        t == tri_at(pts@, idxs@.map_values(|v: usize| v as int), k as int),
{
    let n = idxs.len();
    let pk = if k == 0 {
        n - 1
    } else {
        k - 1
    };
    let nk = if k + 1 < n {
        k + 1
    } else {
        0
    };
    proof {
        let g = idxs@.map_values(|v: usize| v as int);
        assert(g[pk as int] == idxs@[pk as int] as int);
        assert(g[k as int] == idxs@[k as int] as int);
        assert(g[nk as int] == idxs@[nk as int] as int);
        assert(0 <= g[pk as int] < pts@.len());
        assert(0 <= g[k as int] < pts@.len());
        assert(0 <= g[nk as int] < pts@.len());
    }
    Tri { a: pts[idxs[pk]], b: pts[idxs[k]], c: pts[idxs[nk]] }
}

fn is_ear_exec(pts: &Vec<Point>, idxs: &Vec<usize>, k: usize) -> (r: bool)
    requires
        wf_poly(pts@),
        ring_ok(pts@, idxs@.map_values(|v: usize| v as int)),
        k < idxs@.len(),
    ensures
        r == is_ear(pts@, idxs@.map_values(|v: usize| v as int), k as int),
{
    let ghost gidxs = idxs@.map_values(|v: usize| v as int);
    let n = idxs.len();
    let t = tri_at_exec(pts, idxs, k);
    proof {
        assert(in_range(t.a) && in_range(t.b) && in_range(t.c));
    }
    if !(cross3_exec(t.a, t.b, t.c) > 0) {
        return false;
    }
    let pk = if k == 0 {
        n - 1
    } else {
        k - 1
    };
    let nk = if k + 1 < n {
        k + 1
    } else {
        0
    };
    let mut m: usize = 0;
    while m < n
        invariant
            0 <= m <= n,
            n == idxs@.len(),
            wf_poly(pts@),
            ring_ok(pts@, gidxs),
            gidxs == idxs@.map_values(|v: usize| v as int),
            k < n,
            pk as int == prev_pos(n as int, k as int),
            nk as int == next_pos(n as int, k as int),
            t == tri_at(pts@, gidxs, k as int),
            forall|q: int|
                0 <= q < m && q != k && q != pk && q != nk ==> !pt_in_tri(
                    pts@[#[trigger] gidxs[q]],
                    t,
                ),
        decreases n - m,
    {
        if m != k && m != pk && m != nk {
            proof {
                assert(gidxs[m as int] == idxs@[m as int] as int);
                assert(0 <= gidxs[m as int] < pts@.len());
            }
            let p = pts[idxs[m]];
            assert(p == pts@[gidxs[m as int]]);
            let c1 = cross3_exec(t.a, t.b, p);
            let c2 = cross3_exec(t.b, t.c, p);
            let c3 = cross3_exec(t.c, t.a, p);
            if c1 >= 0 && c2 >= 0 && c3 >= 0 {
                return false;
            }
        }
        m = m + 1;
    }
    true
}

/// Triangulate a closed outline by ear clipping.
pub fn triangulate_polygon(pts: &Vec<Point>) -> (out: Vec<Tri>)
    requires
        wf_poly(pts@),
        pts@.len() <= 250_000,
    ensures
        out@ == spec_triangulate(pts@),
        forall|i: int| 0 <= i < out@.len() ==> wf_tri(#[trigger] out@[i]),
{
    let n = pts.len();
    if n < 3 {
        let out: Vec<Tri> = Vec::new();
        return out;
    }
    let area = polygon_area2(pts);
    let mut idxs: Vec<usize> = Vec::new();
    if area >= 0 {
        let mut i: usize = 0;
        while i < n
            invariant
                0 <= i <= n,
                n == pts@.len(),
                idxs@.len() == i as int,
                forall|q: int| 0 <= q < i ==> #[trigger] idxs@[q] == q,
            decreases n - i,
        {
            idxs.push(i);
            i = i + 1;
        }
        proof {
            assert(idxs@.map_values(|v: usize| v as int) =~= start_ring(pts@));
        }
    } else {
        let mut i: usize = 0;
        while i < n
            invariant
                0 <= i <= n,
                n == pts@.len(),
                idxs@.len() == i as int,
                forall|q: int| 0 <= q < i ==> #[trigger] idxs@[q] == n - 1 - q,
            decreases n - i,
        {
            idxs.push(n - 1 - i);
            i = i + 1;
        }
        proof {
            assert(idxs@.map_values(|v: usize| v as int) =~= start_ring(pts@));
        }
    }
    let mut out: Vec<Tri> = Vec::new();
    proof {
        assert(ring_ok(pts@, idxs@.map_values(|v: usize| v as int)));
    }
    while idxs.len() > 3
        invariant
            wf_poly(pts@),
            3 <= idxs@.len() <= pts@.len(),
            ring_ok(pts@, idxs@.map_values(|v: usize| v as int)),
            spec_triangulate(pts@) == out@ + spec_clip(pts@, idxs@.map_values(|v: usize| v as int)),
            forall|i: int| 0 <= i < out@.len() ==> wf_tri(#[trigger] out@[i]),
        decreases idxs@.len(),
    {
        let ghost gidxs = idxs@.map_values(|v: usize| v as int);
        let len = idxs.len();
        let mut k: usize = 0;
        let mut found: bool = false;
        while k < len && !found
            invariant
                0 <= k <= len,
                len == idxs@.len(),
                wf_poly(pts@),
                ring_ok(pts@, gidxs),
                gidxs == idxs@.map_values(|v: usize| v as int),
                !found ==> find_ear(pts@, gidxs, 0) == find_ear(pts@, gidxs, k as int),
                found ==> k < len && find_ear(pts@, gidxs, 0) == Some(k as int),
            decreases len - k, (if found { 0int } else { 1int }),
        {
            if is_ear_exec(pts, &idxs, k) {
                found = true;
            } else {
                proof {
                    assert(find_ear(pts@, gidxs, k as int) == find_ear(pts@, gidxs, k as int + 1));
                }
                k = k + 1;
            }
        }
        if !found {
            proof {
                assert(find_ear(pts@, gidxs, 0) is None);
                assert(spec_clip(pts@, gidxs) =~= Seq::<Tri>::empty());
                assert(out@ =~= out@ + spec_clip(pts@, gidxs));
            }
            return out;
        }
        let t = tri_at_exec(pts, &idxs, k);
        out.push(t);
        let _removed = idxs.remove(k);
        proof {
            assert(idxs@.map_values(|v: usize| v as int) =~= gidxs.remove(k as int));
            assert(ring_ok(pts@, gidxs.remove(k as int)));
        }
    }
    let t = tri_at_exec(pts, &idxs, 1);
    out.push(t);
    proof {
        assert(spec_clip(pts@, idxs@.map_values(|v: usize| v as int)) =~= seq![
            tri_at(pts@, idxs@.map_values(|v: usize| v as int), 1),
        ]);
        assert(out@ =~= spec_triangulate(pts@));
    }
    out
}

/// A separating-axis candidate: the normal of edge `i`.
pub open spec fn axis_of(s: Seq<Point>, i: int) -> (int, int) {
    let p = s[i];
    let q = edge_to(s, i);
    (q.y - p.y, p.x - q.x)
}

pub open spec fn dot_axis(p: Point, ax: (int, int)) -> int {
    p.x * ax.0 + p.y * ax.1
}

/// Least projection of the first `k` points onto `ax`.
pub open spec fn proj_min(s: Seq<Point>, ax: (int, int), k: int) -> int
    decreases k,
{
    if k <= 1 {
        dot_axis(s[0], ax)
    } else {
        let m = proj_min(s, ax, k - 1);
        let d = dot_axis(s[k - 1], ax);
        if d < m {
            d
        } else {
            m
        }
    }
}

/// Greatest projection of the first `k` points onto `ax`.
pub open spec fn proj_max(s: Seq<Point>, ax: (int, int), k: int) -> int
    decreases k,
{
    if k <= 1 {
        dot_axis(s[0], ax)
    } else {
        let m = proj_max(s, ax, k - 1);
        let d = dot_axis(s[k - 1], ax);
        if d > m {
            d
        } else {
            m
        }
    }
}

/// The two shapes' projections onto `ax` overlap by more than
/// `eps * |ax|`; a zero axis (degenerate edge) never separates and is
/// treated as deep.
pub open spec fn axis_deep(a: Seq<Point>, b: Seq<Point>, ax: (int, int), eps: int) -> bool {
    if ax.0 == 0 && ax.1 == 0 {
        true
    } else {
        let lo = {
            let la = proj_min(a, ax, a.len() as int);
            let lb = proj_min(b, ax, b.len() as int);
            if la > lb {
                la
            } else {
                lb
            }
        };
        let hi = {
            let ha = proj_max(a, ax, a.len() as int);
            let hb = proj_max(b, ax, b.len() as int);
            if ha < hb {
                ha
            } else {
                hb
            }
        };
        let o = hi - lo;
        o > 0 && o * o > eps * eps * (ax.0 * ax.0 + ax.1 * ax.1)
    }
}

/// Two convex shapes interpenetrate beyond `eps`: every separating-axis
/// candidate from either shape's edges shows an overlap deeper than `eps`.
pub open spec fn spec_convex_deep(a: Seq<Point>, b: Seq<Point>, eps: int) -> bool {
    a.len() > 0 && b.len() > 0 && (forall|i: int|
        0 <= i < a.len() ==> axis_deep(a, b, #[trigger] axis_of(a, i), eps)) && (forall|j: int|
        0 <= j < b.len() ==> axis_deep(a, b, #[trigger] axis_of(b, j), eps))
}

fn proj_range(s: &Vec<Point>, ax0: i64, ax1: i64) -> (r: (i128, i128))
    requires
        wf_poly(s@),
        s@.len() >= 1,
        -2_000_000_000 <= ax0 <= 2_000_000_000,
        -2_000_000_000 <= ax1 <= 2_000_000_000,
    ensures
        r.0 == proj_min(s@, (ax0 as int, ax1 as int), s@.len() as int),
        r.1 == proj_max(s@, (ax0 as int, ax1 as int), s@.len() as int),
        -4_000_000_000_000_000_000 <= r.0 <= 4_000_000_000_000_000_000,
        -4_000_000_000_000_000_000 <= r.1 <= 4_000_000_000_000_000_000,
{
    let ghost ax = (ax0 as int, ax1 as int);
    proof {
        crate::geom::lemma_mul_bounds(
            s@[0].x as int,
            ax0 as int,
            crate::COORD_LIMIT as int,
            2_000_000_000,
        );
        crate::geom::lemma_mul_bounds(
            s@[0].y as int,
            ax1 as int,
            crate::COORD_LIMIT as int,
            2_000_000_000,
        );
    }
    let d0 = (s[0].x as i128) * (ax0 as i128) + (s[0].y as i128) * (ax1 as i128);
    let mut lo = d0;
    let mut hi = d0;
    let n = s.len();
    let mut i: usize = 1;
    while i < n
        invariant
            1 <= i <= n,
            n == s@.len(),
            wf_poly(s@),
            -2_000_000_000 <= ax0 <= 2_000_000_000,
            -2_000_000_000 <= ax1 <= 2_000_000_000,
            ax == (ax0 as int, ax1 as int),
            lo == proj_min(s@, ax, i as int),
            hi == proj_max(s@, ax, i as int),
            -4_000_000_000_000_000_000 <= lo <= 4_000_000_000_000_000_000,
            -4_000_000_000_000_000_000 <= hi <= 4_000_000_000_000_000_000,
        decreases n - i,
    {
        proof {
            crate::geom::lemma_mul_bounds(
                s@[i as int].x as int,
                ax0 as int,
                crate::COORD_LIMIT as int,
                2_000_000_000,
            );
            crate::geom::lemma_mul_bounds(
                s@[i as int].y as int,
                ax1 as int,
                crate::COORD_LIMIT as int,
                2_000_000_000,
            );
        }
        let d = (s[i].x as i128) * (ax0 as i128) + (s[i].y as i128) * (ax1 as i128);
        if d < lo {
            lo = d;
        }
        if d > hi {
            hi = d;
        }
        i = i + 1;
    }
    (lo, hi)
}

fn axis_deep_exec(a: &Vec<Point>, b: &Vec<Point>, ax0: i64, ax1: i64, eps: i64) -> (r: bool)
    requires
        wf_poly(a@),
        wf_poly(b@),
        a@.len() >= 1,
        b@.len() >= 1,
        -2_000_000_000 <= ax0 <= 2_000_000_000,
        -2_000_000_000 <= ax1 <= 2_000_000_000,
        0 <= eps <= 1_000_000,
    ensures
        r == axis_deep(a@, b@, (ax0 as int, ax1 as int), eps as int),
{
    if ax0 == 0 && ax1 == 0 {
        return true;
    }
    let (la, ha) = proj_range(a, ax0, ax1);
    let (lb, hb) = proj_range(b, ax0, ax1);
    let lo = if la > lb {
        la
    } else {
        lb
    };
    let hi = if ha < hb {
        ha
    } else {
        hb
    };
    let o = hi - lo;
    if o <= 0 {
        return false;
    }
    proof {
        crate::geom::lemma_mul_bounds(ax0 as int, ax0 as int, 2_000_000_000, 2_000_000_000);
        crate::geom::lemma_mul_bounds(ax1 as int, ax1 as int, 2_000_000_000, 2_000_000_000);
        crate::geom::lemma_mul_bounds(eps as int, eps as int, 1_000_000, 1_000_000);
        assert(o * o <= 64_000_000_000_000_000_000_000_000_000_000_000_000) by (nonlinear_arith)
            requires 0 < o <= 8_000_000_000_000_000_000
        ;
        assert(0 <= (ax0 as int) * (ax0 as int) + (ax1 as int) * (ax1 as int)
            <= 8_000_000_000_000_000_000) by (nonlinear_arith)
            requires -2_000_000_000 <= ax0 as int <= 2_000_000_000,
                -2_000_000_000 <= ax1 as int <= 2_000_000_000,
        ;
        assert((eps as int) * (eps as int) * ((ax0 as int) * (ax0 as int) + (ax1 as int) * (
        ax1 as int)) <= 1_000_000_000_000 * 8_000_000_000_000_000_000) by (nonlinear_arith)
            requires
                0 <= eps as int <= 1_000_000,
                0 <= (ax0 as int) * (ax0 as int) + (ax1 as int) * (ax1 as int)
                    <= 8_000_000_000_000_000_000,
        ;
    }
    let ax2 = (ax0 as i128) * (ax0 as i128) + (ax1 as i128) * (ax1 as i128);
    o * o > (eps as i128) * (eps as i128) * ax2
}

/// Exact convex-convex deep-penetration test by separating axes.
pub fn convex_deep_overlap(a: &Vec<Point>, b: &Vec<Point>, eps: i64) -> (r: bool)
    requires
        wf_poly(a@),
        wf_poly(b@),
        0 <= eps <= 1_000_000,
    ensures
        r == spec_convex_deep(a@, b@, eps as int),
{
    let an = a.len();
    let bn = b.len();
    if an == 0 || bn == 0 {
        return false;
    }
    let mut i: usize = 0;
    while i < an
        invariant
            0 <= i <= an,
            an == a@.len(),
            bn == b@.len(),
            an >= 1,
            bn >= 1,
            wf_poly(a@),
            wf_poly(b@),
            0 <= eps <= 1_000_000,
            forall|q: int| 0 <= q < i ==> axis_deep(a@, b@, #[trigger] axis_of(a@, q), eps as int),
        decreases an - i,
    {
        let p = a[i];
        let q = if i + 1 < an {
            a[i + 1]
        } else {
            a[0]
        };
        assert(q == edge_to(a@, i as int));
        if !axis_deep_exec(a, b, q.y - p.y, p.x - q.x, eps) {
            proof {
                assert(((q.y - p.y) as int, (p.x - q.x) as int) == axis_of(a@, i as int));
            }
            return false;
        }
        i = i + 1;
    }
    let mut j: usize = 0;
    while j < bn
        invariant
            0 <= j <= bn,
            an == a@.len(),
            bn == b@.len(),
            an >= 1,
            bn >= 1,
            wf_poly(a@),
            wf_poly(b@),
            0 <= eps <= 1_000_000,
            forall|q: int| 0 <= q < an ==> axis_deep(a@, b@, #[trigger] axis_of(a@, q), eps as int),
            forall|q: int| 0 <= q < j ==> axis_deep(a@, b@, #[trigger] axis_of(b@, q), eps as int),
        decreases bn - j,
    {
        let p = b[j];
        let q = if j + 1 < bn {
            b[j + 1]
        } else {
            b[0]
        };
        assert(q == edge_to(b@, j as int));
        if !axis_deep_exec(a, b, q.y - p.y, p.x - q.x, eps) {
            proof {
                assert(((q.y - p.y) as int, (p.x - q.x) as int) == axis_of(b@, j as int));
            }
            return false;
        }
        j = j + 1;
    }
    true
}

/// The distance from `p` to the segment `a b` is strictly below `k`,
/// decided exactly by squared comparisons in the three Voronoi regions.
pub open spec fn spec_seg_dist_lt(a: Point, b: Point, p: Point, k: int) -> bool {
    if k <= 0 {
        false
    } else {
        let abx = b.x - a.x;
        let aby = b.y - a.y;
        let apx = p.x - a.x;
        let apy = p.y - a.y;
        let d1 = abx * apx + aby * apy;
        let ab2 = abx * abx + aby * aby;
        if d1 <= 0 {
            apx * apx + apy * apy < k * k
        } else if d1 >= ab2 {
            let bpx = p.x - b.x;
            let bpy = p.y - b.y;
            bpx * bpx + bpy * bpy < k * k
        } else {
            let cr = cross3(a, b, p);
            cr * cr < k * k * ab2
        }
    }
}

/// Non-strict twin of `spec_seg_dist_lt`.
pub open spec fn spec_seg_dist_le(a: Point, b: Point, p: Point, k: int) -> bool {
    if k < 0 {
        false
    } else {
        let abx = b.x - a.x;
        let aby = b.y - a.y;
        let apx = p.x - a.x;
        let apy = p.y - a.y;
        let d1 = abx * apx + aby * apy;
        let ab2 = abx * abx + aby * aby;
        if d1 <= 0 {
            apx * apx + apy * apy <= k * k
        } else if d1 >= ab2 {
            let bpx = p.x - b.x;
            let bpy = p.y - b.y;
            bpx * bpx + bpy * bpy <= k * k
        } else {
            let cr = cross3(a, b, p);
            cr * cr <= k * k * ab2
        }
    }
}

/// Decide both segment-distance comparisons; `strict` selects which.
fn seg_dist_cmp(a: Point, b: Point, p: Point, k: i64, strict: bool) -> (r: bool)
    requires
        in_range(a),
        in_range(b),
        in_range(p),
        -200_000_000 <= k <= 200_000_000,
    ensures
        strict ==> r == spec_seg_dist_lt(a, b, p, k as int),
        !strict ==> r == spec_seg_dist_le(a, b, p, k as int),
{
    if strict && k <= 0 {
        return false;
    }
    if !strict && k < 0 {
        return false;
    }
    let abx = (b.x - a.x) as i128;
    let aby = (b.y - a.y) as i128;
    let apx = (p.x - a.x) as i128;
    let apy = (p.y - a.y) as i128;
    proof {
        crate::geom::lemma_mul_bounds(abx as int, apx as int, 2_000_000_000, 2_000_000_000);
        crate::geom::lemma_mul_bounds(aby as int, apy as int, 2_000_000_000, 2_000_000_000);
        crate::geom::lemma_mul_bounds(abx as int, abx as int, 2_000_000_000, 2_000_000_000);
        crate::geom::lemma_mul_bounds(aby as int, aby as int, 2_000_000_000, 2_000_000_000);
        crate::geom::lemma_mul_bounds(apx as int, apx as int, 2_000_000_000, 2_000_000_000);
        crate::geom::lemma_mul_bounds(apy as int, apy as int, 2_000_000_000, 2_000_000_000);
        crate::geom::lemma_mul_bounds(k as int, k as int, 200_000_000, 200_000_000);
    }
    let d1 = abx * apx + aby * apy;
    let ab2 = abx * abx + aby * aby;
    let kk = (k as i128) * (k as i128);
    if d1 <= 0 {
        let d2 = apx * apx + apy * apy;
        if strict {
            d2 < kk
        } else {
            d2 <= kk
        }
    } else if d1 >= ab2 {
        let bpx = (p.x - b.x) as i128;
        let bpy = (p.y - b.y) as i128;
        proof {
            crate::geom::lemma_mul_bounds(bpx as int, bpx as int, 2_000_000_000, 2_000_000_000);
            crate::geom::lemma_mul_bounds(bpy as int, bpy as int, 2_000_000_000, 2_000_000_000);
        }
        let d2 = bpx * bpx + bpy * bpy;
        if strict {
            d2 < kk
        } else {
            d2 <= kk
        }
    } else {
        let cr = cross3_exec(a, b, p);
        proof {
            crate::geom::lemma_mul_bounds(
                cr as int,
                cr as int,
                8_000_000_000_000_000_000,
                8_000_000_000_000_000_000,
            );
            crate::geom::lemma_mul_bounds(
                kk as int,
                ab2 as int,
                40_000_000_000_000_000,
                8_000_000_000_000_000_000,
            );
        }
        let c2 = cr * cr;
        let rhs = kk * ab2;
        if strict {
            c2 < rhs
        } else {
            c2 <= rhs
        }
    }
}

/// Strict segment-distance comparison.
pub fn seg_dist_lt(a: Point, b: Point, p: Point, k: i64) -> (r: bool)
    requires
        in_range(a),
        in_range(b),
        in_range(p),
        -200_000_000 <= k <= 200_000_000,
    ensures
        r == spec_seg_dist_lt(a, b, p, k as int),
{
    seg_dist_cmp(a, b, p, k, true)
}

/// Non-strict segment-distance comparison.
pub fn seg_dist_le(a: Point, b: Point, p: Point, k: i64) -> (r: bool)
    requires
        in_range(a),
        in_range(b),
        in_range(p),
        -200_000_000 <= k <= 200_000_000,
    ensures
        r == spec_seg_dist_le(a, b, p, k as int),
{
    seg_dist_cmp(a, b, p, k, false)
}

/// Two discs interpenetrate beyond `eps`.
pub open spec fn spec_ball_ball_deep(c1: Point, r1: int, c2: Point, r2: int, eps: int) -> bool {
    let k = r1 + r2 - eps;
    k > 0 && {
        let dx = c2.x - c1.x;
        let dy = c2.y - c1.y;
        dx * dx + dy * dy < k * k
    }
}

/// Exact disc-disc deep-overlap test.
pub fn ball_ball_deep(c1: Point, r1: i64, c2: Point, r2: i64, eps: i64) -> (r: bool)
    requires
        in_range(c1),
        in_range(c2),
        0 <= r1 <= 100_000_000,
        0 <= r2 <= 100_000_000,
        0 <= eps <= 1_000_000,
    ensures
        r == spec_ball_ball_deep(c1, r1 as int, c2, r2 as int, eps as int),
{
    let k = r1 + r2 - eps;
    if k <= 0 {
        return false;
    }
    let dx = (c2.x - c1.x) as i128;
    let dy = (c2.y - c1.y) as i128;
    proof {
        crate::geom::lemma_mul_bounds(dx as int, dx as int, 2_000_000_000, 2_000_000_000);
        crate::geom::lemma_mul_bounds(dy as int, dy as int, 2_000_000_000, 2_000_000_000);
        crate::geom::lemma_mul_bounds(k as int, k as int, 200_000_000, 200_000_000);
    }
    dx * dx + dy * dy < (k as i128) * (k as i128)
}

/// A disc penetrates a closed polyline's area beyond `eps`: its center is
/// contained, or some edge comes closer than `r - eps`.
pub open spec fn spec_ball_poly_deep(c: Point, r: int, poly: Seq<Point>, eps: int) -> bool {
    poly.len() > 0 && (crate::geom::spec_point_in_polygon(c, poly) || exists|i: int|
        0 <= i < poly.len() && spec_seg_dist_lt(#[trigger] poly[i], edge_to(poly, i), c, r - eps))
}

/// Exact disc-polygon deep-overlap test.
pub fn ball_poly_deep(c: Point, r: i64, poly: &Vec<Point>, eps: i64) -> (res: bool)
    requires
        in_range(c),
        wf_poly(poly@),
        0 <= r <= 100_000_000,
        0 <= eps <= 1_000_000,
    ensures
        res == spec_ball_poly_deep(c, r as int, poly@, eps as int),
{
    let n = poly.len();
    if n == 0 {
        return false;
    }
    if crate::geom::point_in_polygon(c, poly) {
        return true;
    }
    let mut i: usize = 0;
    while i < n
        invariant
            0 <= i <= n,
            n == poly@.len(),
            in_range(c),
            wf_poly(poly@),
            0 <= r <= 100_000_000,
            0 <= eps <= 1_000_000,
            forall|q: int|
                0 <= q < i ==> !spec_seg_dist_lt(
                    #[trigger] poly@[q],
                    edge_to(poly@, q),
                    c,
                    r - eps,
                ),
        decreases n - i,
    {
        let b = if i + 1 < n {
            poly[i + 1]
        } else {
            poly[0]
        };
        assert(b == edge_to(poly@, i as int));
        if seg_dist_lt(poly[i], b, c, r - eps) {
            return true;
        }
        i = i + 1;
    }
    false
}

} // verus!
