use tangram_engine::fixed::{atan2_mdeg, cos_mdeg, isqrt_u128, norm_angle, sin_mdeg};
use tangram_engine::geom::{bounds_of, bounds_of_all, point_in_polygon, polygons_intersect, segments_intersect, Point};
use tangram_engine::shape::{outline, poly_to_points, Anchor, Piece, PolygonPoint, Pose, ShapeKind};
use tangram_engine::board::{board_segments, inner_outline, outer_outline, polygon_offset_rounded, polygon_segments, Board, CutCorner};
use tangram_engine::collide::triangulate_polygon;
use tangram_engine::validate::{validate, Violation, ViolationKind};
use tangram_engine::motion::allowed_delta;

fn rect_piece(w: i64, h: i64, x: i64, y: i64, rot: i64) -> Piece {
    Piece {
        id: None,
        shape: ShapeKind::Rect { w, h },
        pose: Pose {
            at: Point { x, y },
            rotation_mdeg: rot,
            anchor: Anchor::BottomLeft,
            flip: false,
        },
        label_idx: None,
        color_idx: None,
    }
}

#[test]
fn sine_exact_quarter_points() {
    assert_eq!(sin_mdeg(0), 0);
    assert_eq!(sin_mdeg(90_000), 1_000_000);
    assert_eq!(sin_mdeg(180_000), 0);
    assert_eq!(sin_mdeg(270_000), -1_000_000);
    assert_eq!(cos_mdeg(0), 1_000_000);
    assert_eq!(cos_mdeg(180_000), -1_000_000);
}

#[test]
fn sine_thirty_degrees_is_exact_half() {
    assert_eq!(sin_mdeg(30_000), 500_000);
    assert_eq!(sin_mdeg(150_000), 500_000);
    assert_eq!(sin_mdeg(-30_000), sin_mdeg(330_000));
}

#[test]
fn angle_normalization() {
    assert_eq!(norm_angle(360_000), 0);
    assert_eq!(norm_angle(-90_000), 270_000);
    assert_eq!(norm_angle(725_000), 5_000);
}

#[test]
fn integer_square_roots() {
    assert_eq!(isqrt_u128(0), 0);
    assert_eq!(isqrt_u128(1), 1);
    assert_eq!(isqrt_u128(2), 1);
    assert_eq!(isqrt_u128(144), 12);
    assert_eq!(isqrt_u128(145), 12);
    assert_eq!(isqrt_u128(10_000_000_000), 100_000);
}

#[test]
fn atan2_axes() {
    assert_eq!(atan2_mdeg(0, 5_000), 0);
    assert_eq!(atan2_mdeg(5_000, 0), 90_000);
    assert_eq!(atan2_mdeg(0, -5_000), 180_000);
    assert_eq!(atan2_mdeg(-5_000, 0), -90_000);
    assert_eq!(atan2_mdeg(1_000, 1_000), 45_000);
}

#[test]
fn rect_outline_and_center_unrotated() {
    let p = rect_piece(10_000, 10_000, 10_000, 10_000, 0);
    let (pts, ctr) = outline(&p);
    assert_eq!(ctr, Point { x: 15_000, y: 15_000 });
    assert_eq!(
        pts,
        vec![
            Point { x: 10_000, y: 10_000 },
            Point { x: 20_000, y: 10_000 },
            Point { x: 20_000, y: 20_000 },
            Point { x: 10_000, y: 20_000 },
        ]
    );
}

#[test]
fn full_turn_reproduces_outline() {
    let a = rect_piece(12_000, 7_000, 3_000, 4_000, 17_000);
    let b = rect_piece(12_000, 7_000, 3_000, 4_000, 17_000 + 360_000);
    let (pa, ca) = outline(&a);
    let (pb, cb) = outline(&b);
    assert_eq!(pa, pb);
    assert_eq!(ca, cb);
}

#[test]
fn quarter_turn_square_maps_onto_itself() {
    let a = rect_piece(10_000, 10_000, 0, 0, 0);
    let b = rect_piece(10_000, 10_000, 0, 0, 90_000);
    let (pa, _) = outline(&a);
    let (pb, _) = outline(&b);
    // Same vertex set, rotated winding.
    for q in pb.iter() {
        assert!(pa.contains(q));
    }
}

#[test]
fn free_polygon_without_rounding_round_trips() {
    let pts = vec![
        PolygonPoint::Plain { x: 0, y: 0 },
        PolygonPoint::Plain { x: 30_000, y: 0 },
        PolygonPoint::Plain { x: 0, y: 30_000 },
    ];
    let p = Piece {
        id: None,
        shape: ShapeKind::FreePolygon { points: pts },
        pose: Pose {
            at: Point { x: 0, y: 0 },
            rotation_mdeg: 0,
            anchor: Anchor::BottomLeft,
            flip: false,
        },
        label_idx: None,
        color_idx: None,
    };
    let (out, _ctr) = outline(&p);
    assert_eq!(
        out,
        vec![
            Point { x: 0, y: 0 },
            Point { x: 30_000, y: 0 },
            Point { x: 0, y: 30_000 },
        ]
    );
}

#[test]
fn rounded_corner_expands_into_arc() {
    let pts = vec![
        PolygonPoint::Plain { x: 0, y: 0 },
        PolygonPoint::Rounded { x: 20_000, y: 0, r: 5_000 },
        PolygonPoint::Plain { x: 20_000, y: 20_000 },
    ];
    let out = poly_to_points(&pts);
    // plain + (lead-in + 24 arc samples) + plain
    assert_eq!(out.len(), 1 + 25 + 1);
    assert_eq!(out[0], Point { x: 0, y: 0 });
    // The lead-in tangent point sits on the bottom edge, 5 mm before the corner.
    assert_eq!(out[1], Point { x: 15_000, y: 0 });
}

#[test]
fn circle_tessellates_into_32_gon() {
    let p = Piece {
        id: None,
        shape: ShapeKind::Circle { diameter: Some(30_000), radius: None },
        pose: Pose {
            at: Point { x: 50_000, y: 40_000 },
            rotation_mdeg: 0,
            anchor: Anchor::Center,
            flip: false,
        },
        label_idx: None,
        color_idx: None,
    };
    let (pts, ctr) = outline(&p);
    assert_eq!(pts.len(), 32);
    assert_eq!(ctr, Point { x: 50_000, y: 40_000 });
    assert_eq!(pts[0], Point { x: 65_000, y: 40_000 });
}

#[test]
fn regular_polygon_vertex_count() {
    let p = Piece {
        id: None,
        shape: ShapeKind::RegularPolygon { n: 6, side: 10_000 },
        pose: Pose {
            at: Point { x: 0, y: 0 },
            rotation_mdeg: 0,
            anchor: Anchor::Center,
            flip: false,
        },
        label_idx: None,
        color_idx: None,
    };
    let (pts, _) = outline(&p);
    assert_eq!(pts.len(), 6);
}

#[test]
fn board_inner_outline_rect() {
    let b = Board::Rect { w: 200_000, h: 150_000 };
    let inner = inner_outline(&b).unwrap();
    assert_eq!(
        inner,
        vec![
            Point { x: 0, y: 0 },
            Point { x: 200_000, y: 0 },
            Point { x: 200_000, y: 150_000 },
            Point { x: 0, y: 150_000 },
        ]
    );
}

#[test]
fn outer_ring_zero_equals_inner_for_rect() {
    let b = Board::Rect { w: 200_000, h: 150_000 };
    let inner = inner_outline(&b).unwrap();
    let outer = outer_outline(&b, 0).unwrap();
    assert_eq!(inner, outer);
}

#[test]
fn outer_ring_zero_equals_inner_for_polygon() {
    let b = Board::Polygon {
        points: vec![
            PolygonPoint::Plain { x: 0, y: 0 },
            PolygonPoint::Plain { x: 100_000, y: 0 },
            PolygonPoint::Plain { x: 50_000, y: 80_000 },
        ],
    };
    let inner = inner_outline(&b).unwrap();
    let outer = outer_outline(&b, 0).unwrap();
    assert_eq!(inner, outer);
}

#[test]
fn outer_outline_expands_rect_by_ring() {
    let b = Board::Rect { w: 200_000, h: 150_000 };
    let outer = outer_outline(&b, 8_000).unwrap();
    assert_eq!(
        outer,
        vec![
            Point { x: -8_000, y: -8_000 },
            Point { x: 208_000, y: -8_000 },
            Point { x: 208_000, y: 158_000 },
            Point { x: -8_000, y: 158_000 },
        ]
    );
}

#[test]
fn cut_rect_board_has_arc() {
    let b = Board::RoundedCutRect {
        w: 200_000,
        h: 150_000,
        r: 20_000,
        cut_corner: CutCorner::TopRight,
    };
    let inner = inner_outline(&b).unwrap();
    // 3 corners + 25 arc samples + 1 corner
    assert_eq!(inner.len(), 3 + 25 + 1);
    let outer = outer_outline(&b, 8_000).unwrap();
    assert_eq!(outer.len(), 3 + 29 + 1);
}

#[test]
fn triangulation_of_a_square() {
    let square = vec![
        Point { x: 0, y: 0 },
        Point { x: 10_000, y: 0 },
        Point { x: 10_000, y: 10_000 },
        Point { x: 0, y: 10_000 },
    ];
    let tris = triangulate_polygon(&square);
    assert_eq!(tris.len(), 2);
}

#[test]
fn segment_and_containment_primitives() {
    let a1 = Point { x: 0, y: 0 };
    let a2 = Point { x: 10, y: 10 };
    let b1 = Point { x: 0, y: 10 };
    let b2 = Point { x: 10, y: 0 };
    assert!(segments_intersect(a1, a2, b1, b2));
    assert!(!segments_intersect(a1, a2, Point { x: 20, y: 0 }, Point { x: 20, y: 10 }));
    let square = vec![
        Point { x: 0, y: 0 },
        Point { x: 10_000, y: 0 },
        Point { x: 10_000, y: 10_000 },
        Point { x: 0, y: 10_000 },
    ];
    assert!(point_in_polygon(Point { x: 5_000, y: 5_000 }, &square));
    assert!(!point_in_polygon(Point { x: 15_000, y: 5_000 }, &square));
    let other = vec![
        Point { x: 5_000, y: 5_000 },
        Point { x: 15_000, y: 5_000 },
        Point { x: 15_000, y: 15_000 },
        Point { x: 5_000, y: 15_000 },
    ];
    assert!(polygons_intersect(&square, &other));
}

#[test]
fn bounds_of_posed_rect() {
    let p = rect_piece(50_000, 50_000, 10_000, 10_000, 0);
    let (pts, _) = outline(&p);
    let (minx, miny, maxx, maxy) = bounds_of(&pts);
    assert_eq!((minx, miny, maxx, maxy), (10_000, 10_000, 60_000, 60_000));
}

#[test]
fn validate_reports_nothing_for_a_gap() {
    // Two 10x10 mm squares with a 1 mm gap.
    let pieces = vec![
        rect_piece(10_000, 10_000, 10_000, 10_000, 0),
        rect_piece(10_000, 10_000, 21_000, 10_000, 0),
    ];
    let out = validate(&None, &pieces);
    assert!(out.is_empty());
}

#[test]
fn validate_reports_one_overlap_for_minus_gap() {
    // The same squares overlapping by 1 mm.
    let pieces = vec![
        rect_piece(10_000, 10_000, 10_000, 10_000, 0),
        rect_piece(10_000, 10_000, 19_000, 10_000, 0),
    ];
    let out = validate(&None, &pieces);
    assert_eq!(out.len(), 1);
    assert_eq!(
        out[0],
        Violation { piece: 0, kind: ViolationKind::OverlapsPiece(1) }
    );
}

#[test]
fn validate_piece_inside_board() {
    let board = Some(Board::Rect { w: 200_000, h: 150_000 });
    let pieces = vec![rect_piece(50_000, 50_000, 10_000, 10_000, 0)];
    let out = validate(&board, &pieces);
    assert!(out.is_empty());
}

#[test]
fn validate_piece_beyond_board_edge() {
    let board = Some(Board::Rect { w: 200_000, h: 150_000 });
    // Extends to x = 240 mm, beyond the 200 mm board width.
    let pieces = vec![rect_piece(50_000, 50_000, 190_000, 10_000, 0)];
    let out = validate(&board, &pieces);
    assert_eq!(out.len(), 1);
    assert_eq!(out[0], Violation { piece: 0, kind: ViolationKind::OutsideBoard });
}

#[test]
fn allowed_delta_without_enforcement_is_identity() {
    let pieces = vec![
        rect_piece(10_000, 10_000, 0, 0, 0),
        rect_piece(10_000, 10_000, 10_000, 0, 0),
    ];
    assert_eq!(allowed_delta(&None, &pieces, 0, 12_345, -678, false), (12_345, -678));
    assert_eq!(allowed_delta(&None, &pieces, 0, 0, 0, false), (0, 0));
}

#[test]
fn allowed_delta_free_path_is_granted() {
    let lone = vec![rect_piece(10_000, 10_000, 0, 0, 0)];
    assert_eq!(allowed_delta(&None, &lone, 0, 5_000, 5_000, true), (5_000, 5_000));
    // Well inside a board, the full delta is granted too.
    let board = Some(Board::Rect { w: 200_000, h: 150_000 });
    let inside = vec![rect_piece(10_000, 10_000, 50_000, 50_000, 0)];
    assert_eq!(allowed_delta(&board, &inside, 0, 5_000, 5_000, true), (5_000, 5_000));
}

#[test]
fn allowed_delta_blocked_is_strictly_shorter() {
    // A piece flush against a fixed obstacle, pushed straight into it.
    let pieces = vec![
        rect_piece(10_000, 10_000, 0, 0, 0),
        rect_piece(10_000, 10_000, 10_500, 0, 0),
    ];
    let (dx, dy) = allowed_delta(&None, &pieces, 0, 8_000, 0, true);
    let req: i128 = 8_000 * 8_000;
    let got: i128 = (dx as i128) * (dx as i128) + (dy as i128) * (dy as i128);
    assert!(got < req);
    // And it never moves backward.
    assert!(dx >= 0);
}

#[test]
fn allowed_delta_blocked_by_board_wall() {
    let board = Some(Board::Rect { w: 200_000, h: 150_000 });
    let pieces = vec![rect_piece(10_000, 10_000, 185_000, 50_000, 0)];
    // 20 mm to the right would cross the wall at x = 200 mm.
    let (dx, dy) = allowed_delta(&board, &pieces, 0, 20_000, 0, true);
    let req: i128 = 20_000 * 20_000;
    let got: i128 = (dx as i128) * (dx as i128) + (dy as i128) * (dy as i128);
    assert!(got < req);
}

#[test]
fn board_segment_walk() {
    let b = Board::Rect { w: 200_000, h: 150_000 };
    let segs = board_segments(&b);
    assert_eq!(segs.len(), 4);
    assert_eq!(segs[0].start, Point { x: 0, y: 0 });
    assert_eq!(segs[0].end, Point { x: 200_000, y: 0 });
    assert!(segs[0].radius.is_none());

    let cut = Board::RoundedCutRect {
        w: 200_000,
        h: 150_000,
        r: 20_000,
        cut_corner: CutCorner::TopRight,
    };
    let segs = board_segments(&cut);
    assert_eq!(segs.len(), 5);
    assert_eq!(segs[2].radius, Some(20_000));
    assert_eq!(segs[2].center, Some(Point { x: 180_000, y: 130_000 }));
}

#[test]
fn polygon_segment_walk_with_rounding() {
    let poly = vec![
        PolygonPoint::Plain { x: 0, y: 0 },
        PolygonPoint::Rounded { x: 40_000, y: 0, r: 5_000 },
        PolygonPoint::Plain { x: 40_000, y: 40_000 },
        PolygonPoint::Plain { x: 0, y: 40_000 },
    ];
    let segs = polygon_segments(&poly);
    // lead-in + arc for the rounded corner, plain edges elsewhere.
    assert_eq!(segs.len(), 5);
    assert_eq!(segs[0].start, Point { x: 0, y: 0 });
    assert_eq!(segs[0].end, Point { x: 35_000, y: 0 });
    assert_eq!(segs[1].radius, Some(5_000));
    assert_eq!(segs[1].start, Point { x: 35_000, y: 0 });
    assert_eq!(segs[1].end, Point { x: 40_000, y: 5_000 });
}

#[test]
fn merged_bounds() {
    let polys = vec![
        vec![Point { x: 0, y: 0 }, Point { x: 10, y: 5 }],
        vec![],
        vec![Point { x: -3, y: 8 }],
    ];
    assert_eq!(bounds_of_all(&polys), Some((-3, 0, 10, 8)));
    let empty: Vec<Vec<Point>> = vec![vec![]];
    assert_eq!(bounds_of_all(&empty), None);
}

#[test]
fn offset_leaves_degenerate_polygons_unchanged() {
    // Fewer than three vertices: returned unchanged even with a positive radius.
    let two = vec![Point { x: 0, y: 0 }, Point { x: 50_000, y: 0 }];
    assert_eq!(polygon_offset_rounded(&two, 8_000), two);
    let one = vec![Point { x: 5, y: 7 }];
    assert_eq!(polygon_offset_rounded(&one, 8_000), one);
    // Zero radius: likewise.
    let tri = vec![
        Point { x: 0, y: 0 },
        Point { x: 50_000, y: 0 },
        Point { x: 0, y: 50_000 },
    ];
    assert_eq!(polygon_offset_rounded(&tri, 0), tri);
    // A real polygon with a real ring is offset: ten points per vertex.
    assert_eq!(polygon_offset_rounded(&tri, 8_000).len(), 30);
}
