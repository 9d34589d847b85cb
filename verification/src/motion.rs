//! The constrained-motion solver: how far a dragged piece may actually
//! move toward a requested delta.
//!
//! A transient world is read off the descriptors: the board's inner and
//! outer outlines are fixed barriers that the moving outline must not
//! cross, and every other piece's outline is a solid obstacle it must not
//! intersect. The requested delta is scaled by the largest fraction (found
//! by bisection on the fixed-point unit) whose endpoint is free and whose
//! vertex sweeps cross no barrier, so large deltas cannot tunnel through
//! thin obstacles. Nothing persists across calls: identical inputs give
//! identical outputs.
use vstd::prelude::*;

verus! {

use crate::{FIX_ONE, spec_div_fix, div_fix};
use crate::geom::{
    Point, wf_poly, edge_to, spec_translate, spec_polygons_intersect, polygons_intersect,
    spec_edges_cross, edges_cross, spec_segments_intersect, segments_intersect, in_range,
};
use crate::shape::{Piece, wf_piece, spec_outline_points, outline, posed_ok, PARAM_LIMIT};
use crate::board::{Board, wf_board, spec_inner_outline, spec_outer_outline, inner_outline, outer_outline, RING_WIDTH_UM};

/// One component of the requested delta scaled by the fraction `t` of
/// `FIX_ONE`, rounded toward zero.
pub open spec fn spec_frac(d: int, t: int) -> int {
    spec_div_fix(d * t)
}

/// Some vertex of the moving outline sweeps across an edge of `obstacle`
/// while translating by `(ox, oy)`.
pub open spec fn spec_sweep_hits(mg: Seq<Point>, ox: int, oy: int, obstacle: Seq<Point>) -> bool {
    exists|i: int, j: int|
        0 <= i < mg.len() && 0 <= j < obstacle.len() && spec_segments_intersect(
            mg[i],
            Point { x: (mg[i].x + ox) as i64, y: (mg[i].y + oy) as i64 },
            obstacle[j],
            edge_to(obstacle, j),
        )
}

/// The moving outline, translated to fraction `t` of the requested delta,
/// is in collision: it meets another piece's outline, sweeps across one,
/// or crosses (or sweeps across) a board barrier.
pub open spec fn spec_blocked(
    board: Option<Board>,
    ps: Seq<Piece>,
    idx: int,
    dx: int,
    dy: int,
    t: int,
) -> bool {
    let mg = spec_outline_points(ps[idx]);
    let ox = spec_frac(dx, t);
    let oy = spec_frac(dy, t);
    let moved = spec_translate(mg, ox, oy);
    let piece_hit = exists|j: int|
        0 <= j < ps.len() && j != idx && (spec_polygons_intersect(
            moved,
            spec_outline_points(#[trigger] ps[j]),
        ) || spec_sweep_hits(mg, ox, oy, spec_outline_points(ps[j])));
    let inner_hit = match board {
        Some(b) => match spec_inner_outline(b) {
            Some(w) => spec_edges_cross(moved, w) || spec_sweep_hits(mg, ox, oy, w),
            None => false,
        },
        None => false,
    };
    let outer_hit = match board {
        Some(b) => match spec_outer_outline(b, RING_WIDTH_UM as int) {
            Some(w) => spec_edges_cross(moved, w) || spec_sweep_hits(mg, ox, oy, w),
            None => false,
        },
        None => false,
    };
    piece_hit || inner_hit || outer_hit
}

/// Bisection for the largest free fraction in `[lo, hi]`, keeping the
/// lower end free.
pub open spec fn spec_bisect(
    board: Option<Board>,
    ps: Seq<Piece>,
    idx: int,
    dx: int,
    dy: int,
    lo: int,
    hi: int,
    fuel: nat,
) -> int
    decreases fuel,
{
    if fuel == 0 {
        lo
    } else {
        let mid = (lo + hi) / 2;
        if spec_blocked(board, ps, idx, dx, dy, mid) {
            spec_bisect(board, ps, idx, dx, dy, lo, mid, (fuel - 1) as nat)
        } else {
            spec_bisect(board, ps, idx, dx, dy, mid, hi, (fuel - 1) as nat)
        }
    }
}

/// Bisection steps taken per call.
pub const BISECT_STEPS: u32 = 20;

/// The delta actually allowed for the piece at `idx` requesting `(dx, dy)`.
pub open spec fn spec_allowed(
    board: Option<Board>,
    ps: Seq<Piece>,
    idx: int,
    dx: int,
    dy: int,
    enforce: bool,
) -> (int, int) {
    if !enforce {
        (dx, dy)
    } else if idx < 0 || idx >= ps.len() || spec_outline_points(ps[idx]).len() == 0 {
        (0, 0)
    } else if !spec_blocked(board, ps, idx, dx, dy, FIX_ONE as int) {
        (dx, dy)
    } else if spec_blocked(board, ps, idx, dx, dy, 0) {
        (0, 0)
    } else {
        let t = spec_bisect(board, ps, idx, dx, dy, 0, FIX_ONE as int, BISECT_STEPS as nat);
        (spec_frac(dx, t), spec_frac(dy, t))
    }
}

/// Scale one delta component to a fraction of `FIX_ONE`.
fn frac_exec(d: i64, t: i64) -> (r: i64)
    requires
        -PARAM_LIMIT <= d <= PARAM_LIMIT,
        0 <= t <= FIX_ONE,
    ensures
        r == spec_frac(d as int, t as int),
        -PARAM_LIMIT <= r <= PARAM_LIMIT,
{
    proof {
        crate::geom::lemma_mul_bounds(d as int, t as int, PARAM_LIMIT as int, FIX_ONE as int);
    }
    let p: i128 = (d as i128) * (t as i128);
    proof {
        if p >= 0 {
            vstd::arithmetic::div_mod::lemma_div_is_ordered(
                p as int,
                40_000_000_000_000,
                1_000_000,
            );
            vstd::arithmetic::div_mod::lemma_div_pos_is_pos(p as int, 1_000_000);
        } else {
            vstd::arithmetic::div_mod::lemma_div_is_ordered(
                -p as int,
                40_000_000_000_000,
                1_000_000,
            );
            vstd::arithmetic::div_mod::lemma_div_pos_is_pos(-p as int, 1_000_000);
        }
    }
    let w = div_fix(p);
    w as i64
}

/// Translate a posed outline by a bounded offset.
fn translate_posed(pts: &Vec<Point>, ox: i64, oy: i64) -> (r: Vec<Point>)
    requires
        forall|i: int| 0 <= i < pts@.len() ==> posed_ok(#[trigger] pts@[i]),
        -PARAM_LIMIT <= ox <= PARAM_LIMIT,
        -PARAM_LIMIT <= oy <= PARAM_LIMIT,
    ensures
        r@ == spec_translate(pts@, ox as int, oy as int),
        wf_poly(r@),
{
    let n = pts.len();
    let mut out: Vec<Point> = Vec::new();
    let mut i: usize = 0;
    while i < n
        invariant
            0 <= i <= n,
            n == pts@.len(),
            forall|k: int| 0 <= k < pts@.len() ==> posed_ok(#[trigger] pts@[k]),
            -PARAM_LIMIT <= ox <= PARAM_LIMIT,
            -PARAM_LIMIT <= oy <= PARAM_LIMIT,
            out@.len() == i as int,
            forall|k: int|
                0 <= k < i ==> #[trigger] out@[k] == (Point {
                    x: (pts@[k].x + ox) as i64,
                    y: (pts@[k].y + oy) as i64,
                }) && in_range(out@[k]),
        decreases n - i,
    {
        let p = pts[i];
        out.push(Point { x: p.x + ox, y: p.y + oy });
        i = i + 1;
    }
    proof {
        assert(out@ =~= spec_translate(pts@, ox as int, oy as int));
    }
    out
}

/// Whether a vertex of `mg` sweeps across an edge of `obstacle`.
fn sweep_hits(mg: &Vec<Point>, ox: i64, oy: i64, obstacle: &Vec<Point>) -> (r: bool)
    requires
        forall|i: int| 0 <= i < mg@.len() ==> posed_ok(#[trigger] mg@[i]),
        wf_poly(obstacle@),
        -PARAM_LIMIT <= ox <= PARAM_LIMIT,
        -PARAM_LIMIT <= oy <= PARAM_LIMIT,
    ensures
        r == spec_sweep_hits(mg@, ox as int, oy as int, obstacle@),
{
    let mn = mg.len();
    let on = obstacle.len();
    let mut i: usize = 0;
    while i < mn
        invariant
            0 <= i <= mn,
            mn == mg@.len(),
            on == obstacle@.len(),
            forall|k: int| 0 <= k < mg@.len() ==> posed_ok(#[trigger] mg@[k]),
            wf_poly(obstacle@),
            -PARAM_LIMIT <= ox <= PARAM_LIMIT,
            -PARAM_LIMIT <= oy <= PARAM_LIMIT,
            forall|p: int, q: int|
                0 <= p < i && 0 <= q < on ==> !spec_segments_intersect(
                    mg@[p],
                    Point { x: (mg@[p].x + ox) as i64, y: (mg@[p].y + oy) as i64 },
                    obstacle@[q],
                    edge_to(obstacle@, q),
                ),
        decreases mn - i,
    {
        let a1 = mg[i];
        let a2 = Point { x: a1.x + ox, y: a1.y + oy };
        let mut j: usize = 0;
        while j < on
            invariant
                0 <= j <= on,
                0 <= i < mn,
                mn == mg@.len(),
                on == obstacle@.len(),
                forall|k: int| 0 <= k < mg@.len() ==> posed_ok(#[trigger] mg@[k]),
                wf_poly(obstacle@),
                a1 == mg@[i as int],
                a2 == (Point { x: (mg@[i as int].x + ox) as i64, y: (mg@[i as int].y + oy) as i64 }),
                in_range(a1),
                in_range(a2),
                forall|q: int|
                    0 <= q < j ==> !spec_segments_intersect(
                        mg@[i as int],
                        Point { x: (mg@[i as int].x + ox) as i64, y: (mg@[i as int].y + oy) as i64 },
                        obstacle@[q],
                        edge_to(obstacle@, q),
                    ),
            decreases on - j,
        {
            let b2 = if j + 1 < on {
                obstacle[j + 1]
            } else {
                obstacle[0]
            };
            assert(b2 == edge_to(obstacle@, j as int));
            if segments_intersect(a1, a2, obstacle[j], b2) {
                return true;
            }
            j = j + 1;
        }
        i = i + 1;
    }
    false
}

/// Whether the mover collides at fraction `t` of the requested delta.
fn blocked_at(
    board: &Option<Board>,
    pieces: &Vec<Piece>,
    idx: usize,
    dx: i64,
    dy: i64,
    t: i64,
) -> (r: bool)
    requires
        match board {
            Some(b) => wf_board(*b),
            None => true,
        },
        forall|i: int| 0 <= i < pieces@.len() ==> wf_piece(#[trigger] pieces@[i]),
        idx < pieces@.len(),
        -PARAM_LIMIT <= dx <= PARAM_LIMIT,
        -PARAM_LIMIT <= dy <= PARAM_LIMIT,
        0 <= t <= FIX_ONE,
    ensures
        r == spec_blocked(
            match board {
                Some(b) => Some(*b),
                None => None,
            },
            pieces@,
            idx as int,
            dx as int,
            dy as int,
            t as int,
        ),
{
    let (mg, _c) = outline(&pieces[idx]);
    let ox = frac_exec(dx, t);
    let oy = frac_exec(dy, t);
    let moved = translate_posed(&mg, ox, oy);
    let n = pieces.len();
    let mut j: usize = 0;
    while j < n
        invariant
            0 <= j <= n,
            n == pieces@.len(),
            idx < n,
            forall|i: int| 0 <= i < pieces@.len() ==> wf_piece(#[trigger] pieces@[i]),
            mg@ == spec_outline_points(pieces@[idx as int]),
            forall|k: int| 0 <= k < mg@.len() ==> posed_ok(#[trigger] mg@[k]),
            ox == spec_frac(dx as int, t as int),
            oy == spec_frac(dy as int, t as int),
            -PARAM_LIMIT <= ox <= PARAM_LIMIT,
            -PARAM_LIMIT <= oy <= PARAM_LIMIT,
            moved@ == spec_translate(mg@, ox as int, oy as int),
            wf_poly(moved@),
            forall|q: int|
                0 <= q < j && q != idx as int ==> !spec_polygons_intersect(
                    moved@,
                    spec_outline_points(#[trigger] pieces@[q]),
                ) && !spec_sweep_hits(mg@, ox as int, oy as int, spec_outline_points(pieces@[q])),
        decreases n - j,
    {
        if j != idx {
            let (og, _oc) = outline(&pieces[j]);
            if polygons_intersect(&moved, &og) {
                return true;
            }
            if sweep_hits(&mg, ox, oy, &og) {
                return true;
            }
        }
        j = j + 1;
    }
    match board {
        Some(b) => {
            match inner_outline(b) {
                Some(w) => {
                    if edges_cross(&moved, &w) {
                        return true;
                    }
                    if sweep_hits(&mg, ox, oy, &w) {
                        return true;
                    }
                },
                None => {},
            }
            match outer_outline(b, RING_WIDTH_UM) {
                Some(w) => {
                    if edges_cross(&moved, &w) {
                        return true;
                    }
                    if sweep_hits(&mg, ox, oy, &w) {
                        return true;
                    }
                },
                None => {},
            }
            false
        },
        None => false,
    }
}

/// How far the piece at `moving_idx` may move toward `(dx, dy)`.
///
/// With `enforce` off the requested delta is returned unchanged. With it
/// on, the full delta is allowed when the destination is free and no
/// barrier is swept across; a blocked start yields `(0, 0)`; otherwise the
/// delta is scaled by the largest free fraction found by bisection.
pub fn allowed_delta(
    board: &Option<Board>,
    pieces: &Vec<Piece>,
    moving_idx: usize,
    dx: i64,
    dy: i64,
    enforce: bool,
) -> (r: (i64, i64))
    requires
        match board {
            Some(b) => wf_board(*b),
            None => true,
        },
        forall|i: int| 0 <= i < pieces@.len() ==> wf_piece(#[trigger] pieces@[i]),
        moving_idx < pieces@.len(),
        -PARAM_LIMIT <= dx <= PARAM_LIMIT,
        -PARAM_LIMIT <= dy <= PARAM_LIMIT,
    ensures
        (r.0 as int, r.1 as int) == spec_allowed(
            match board {
                Some(b) => Some(*b),
                None => None,
            },
            pieces@,
            moving_idx as int,
            dx as int,
            dy as int,
            enforce,
        ),
        !enforce ==> r == (dx, dy),
{
    let ghost gboard = match board {
        Some(b) => Some(*b),
        None => None::<Board>,
    };
    if !enforce {
        return (dx, dy);
    }
    let (mg, _c) = outline(&pieces[moving_idx]);
    if mg.len() == 0 {
        return (0, 0);
    }
    if !blocked_at(board, pieces, moving_idx, dx, dy, FIX_ONE) {
        return (dx, dy);
    }
    if blocked_at(board, pieces, moving_idx, dx, dy, 0) {
        return (0, 0);
    }
    let mut lo: i64 = 0;
    let mut hi: i64 = FIX_ONE;
    let mut step: u32 = 0;
    while step < BISECT_STEPS
        invariant
            0 <= step <= BISECT_STEPS,
            0 <= lo <= hi <= FIX_ONE,
            match board {
                Some(b) => wf_board(*b),
                None => true,
            },
            gboard == match board {
                Some(b) => Some(*b),
                None => None::<Board>,
            },
            forall|i: int| 0 <= i < pieces@.len() ==> wf_piece(#[trigger] pieces@[i]),
            moving_idx < pieces@.len(),
            -PARAM_LIMIT <= dx <= PARAM_LIMIT,
            -PARAM_LIMIT <= dy <= PARAM_LIMIT,
            spec_bisect(
                gboard,
                pieces@,
                moving_idx as int,
                dx as int,
                dy as int,
                0,
                FIX_ONE as int,
                BISECT_STEPS as nat,
            ) == spec_bisect(
                gboard,
                pieces@,
                moving_idx as int,
                dx as int,
                dy as int,
                lo as int,
                hi as int,
                (BISECT_STEPS - step) as nat,
            ),
        decreases BISECT_STEPS - step,
    {
        let mid = lo + (hi - lo) / 2;
        proof {
            assert(mid as int == (lo as int + hi as int) / 2) by {
                assert((lo as int + hi as int) / 2 == lo as int + (hi as int - lo as int) / 2) by {
                    vstd::arithmetic::div_mod::lemma_hoist_over_denominator(
                        hi as int - lo as int,
                        lo as int,
                        2,
                    );
                }
            }
        }
        if blocked_at(board, pieces, moving_idx, dx, dy, mid) {
            hi = mid;
        } else {
            lo = mid;
        }
        step = step + 1;
    }
    let rx = frac_exec(dx, lo);
    let ry = frac_exec(dy, lo);
    (rx, ry)
}

/// Bisection keeps its result inside `[lo, hi)` and free, given a free
/// lower end and a blocked upper end.
pub proof fn lemma_bisect_free(
    board: Option<Board>,
    ps: Seq<Piece>,
    idx: int,
    dx: int,
    dy: int,
    lo: int,
    hi: int,
    fuel: nat,
)
    requires
        0 <= lo < hi,
        !spec_blocked(board, ps, idx, dx, dy, lo),
        spec_blocked(board, ps, idx, dx, dy, hi),
    ensures
        lo <= spec_bisect(board, ps, idx, dx, dy, lo, hi, fuel) < hi,
        !spec_blocked(board, ps, idx, dx, dy, spec_bisect(board, ps, idx, dx, dy, lo, hi, fuel)),
    decreases fuel,
{
    if fuel == 0 {
    } else {
        let mid = (lo + hi) / 2;
        vstd::arithmetic::div_mod::lemma_div_is_ordered(2 * lo, lo + hi, 2);
        vstd::arithmetic::div_mod::lemma_div_is_ordered(lo + hi, 2 * hi, 2);
        assert((2 * lo) / 2 == lo) by (nonlinear_arith);
        assert((2 * hi) / 2 == hi) by (nonlinear_arith);
        assert(lo <= mid <= hi);
        if spec_blocked(board, ps, idx, dx, dy, mid) {
            assert(mid > lo);
            lemma_bisect_free(board, ps, idx, dx, dy, lo, mid, (fuel - 1) as nat);
        } else {
            if mid == hi {
                assert(false);
            }
            lemma_bisect_free(board, ps, idx, dx, dy, mid, hi, (fuel - 1) as nat);
        }
    }
}

/// Scaling by a fraction strictly below one never grows a component, and
/// strictly shrinks a nonzero one.
pub proof fn lemma_frac_shrinks(d: int, t: int)
    requires
        0 <= t < 1_000_000,
    ensures
        d > 0 ==> 0 <= spec_frac(d, t) < d,
        d < 0 ==> d < spec_frac(d, t) <= 0,
        d == 0 ==> spec_frac(d, t) == 0,
{
    if d > 0 {
        lemma_frac_shrinks_pos(d, t);
    } else if d < 0 {
        lemma_frac_shrinks_pos(-d, t);
        assert((-d) * t == -(d * t)) by (nonlinear_arith);
        assert(spec_frac(d, t) == -spec_frac(-d, t));
    } else {
        assert(d * t == 0) by (nonlinear_arith)
            requires d == 0
        ;
    }
}

proof fn lemma_frac_shrinks_pos(d: int, t: int)
    requires
        d > 0,
        0 <= t < 1_000_000,
    ensures
        0 <= spec_frac(d, t) < d,
{
    if d > 0 {
        assert(d * t >= 0) by (nonlinear_arith)
            requires d > 0, t >= 0
        ;
        assert(d * t <= d * 1_000_000 - d) by (nonlinear_arith)
            requires d > 0, t <= 1_000_000 - 1
        ;
        vstd::arithmetic::div_mod::lemma_div_is_ordered(d * t, d * 1_000_000 - d, 1_000_000);
        assert((d * 1_000_000 - d) / 1_000_000 < d) by {
            assert(d * 1_000_000 - d == (d - 1) * 1_000_000 + (1_000_000 - d % 1_000_000)
                - 1_000_000 + d % 1_000_000 + 1_000_000 - d) by (nonlinear_arith);
            assert((d * 1_000_000 - d) / 1_000_000 <= d - 1) by {
                assert(d * 1_000_000 - d <= (d - 1) * 1_000_000 + 999_999) by (nonlinear_arith)
                    requires d >= 1
                ;
                vstd::arithmetic::div_mod::lemma_div_is_ordered(
                    d * 1_000_000 - d,
                    (d - 1) * 1_000_000 + 999_999,
                    1_000_000,
                );
                assert(((d - 1) * 1_000_000 + 999_999) / 1_000_000 == d - 1) by {
                    vstd::arithmetic::div_mod::lemma_fundamental_div_mod_converse(
                        (d - 1) * 1_000_000 + 999_999,
                        1_000_000,
                        d - 1,
                        999_999,
                    );
                }
            }
        }
        vstd::arithmetic::div_mod::lemma_div_pos_is_pos(d * t, 1_000_000);
    }
}

/// With enforcement on, a free start and a blocked destination, the
/// returned delta is strictly shorter than the requested one: the piece is
/// held back, never passed through the obstacle.
pub proof fn lemma_blocked_delta_shrinks(
    board: Option<Board>,
    ps: Seq<Piece>,
    idx: int,
    dx: int,
    dy: int,
)
    requires
        0 <= idx < ps.len(),
        spec_outline_points(ps[idx]).len() > 0,
        spec_blocked(board, ps, idx, dx, dy, FIX_ONE as int),
        !spec_blocked(board, ps, idx, dx, dy, 0),
        dx != 0 || dy != 0,
    ensures
        ({
            let (rx, ry) = spec_allowed(board, ps, idx, dx, dy, true);
            rx * rx + ry * ry < dx * dx + dy * dy
        }),
{
    let t = spec_bisect(board, ps, idx, dx, dy, 0, FIX_ONE as int, BISECT_STEPS as nat);
    lemma_bisect_free(board, ps, idx, dx, dy, 0, FIX_ONE as int, BISECT_STEPS as nat);
    assert(0 <= t < 1_000_000);
    let rx = spec_frac(dx, t);
    let ry = spec_frac(dy, t);
    lemma_frac_shrinks(dx, t);
    lemma_frac_shrinks(dy, t);
    if dx != 0 {
        assert(rx * rx < dx * dx) by (nonlinear_arith)
            requires (dx > 0 && 0 <= rx < dx) || (dx < 0 && dx < rx <= 0)
        ;
        assert(ry * ry <= dy * dy) by (nonlinear_arith)
            requires (dy > 0 && 0 <= ry < dy) || (dy < 0 && dy < ry <= 0) || (dy == 0 && ry == 0)
        ;
    } else {
        assert(rx == 0);
        assert(ry * ry < dy * dy) by (nonlinear_arith)
            requires (dy > 0 && 0 <= ry < dy) || (dy < 0 && dy < ry <= 0)
        ;
    }
}

} // verus!
