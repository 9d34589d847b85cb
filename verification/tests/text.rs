use tangram_engine::labels::{
    decimal_string, fmt_mm, group_key_for_piece, label_for_piece, piece_color, str_eq, svg_escape,
    LabelConfig,
};
use tangram_engine::query::{get_query_param, url_decode};
use tangram_engine::png_out::{encode_rgba_to_png_bytes, PngError};
use tangram_engine::puzzle::{assign_piece_colors, Puzzle};
use tangram_engine::shape::{Anchor, Piece, Pose, ShapeKind};
use tangram_engine::geom::Point;

fn piece_with_id(id: Option<&str>, shape: ShapeKind) -> Piece {
    Piece {
        id: id.map(|s| s.to_string()),
        shape,
        pose: Pose {
            at: Point { x: 0, y: 0 },
            rotation_mdeg: 0,
            anchor: Anchor::BottomLeft,
            flip: false,
        },
        label_idx: None,
        color_idx: None,
    }
}

#[test]
fn string_equality() {
    assert!(str_eq("zh-CN", "zh-CN"));
    assert!(!str_eq("zh", "en"));
    assert!(!str_eq("zh", "zh "));
}

#[test]
fn language_normalization() {
    let mut cfg = LabelConfig::new();
    assert!(cfg.is_en());
    cfg.set_language("zh-CN");
    assert!(!cfg.is_en());
    cfg.set_language("ZH");
    assert!(!cfg.is_en());
    cfg.set_language("fr");
    assert!(cfg.is_en());
}

#[test]
fn label_lookup_by_id() {
    let mut cfg = LabelConfig::new();
    cfg.set_label_map(&vec![
        ("sq5".to_string(), "Square 5 cm".to_string()),
        ("tri".to_string(), "Triangle".to_string()),
    ]);
    let p = piece_with_id(Some("tri"), ShapeKind::Rect { w: 1, h: 1 });
    assert_eq!(cfg.label_from_catalog_only(&p), "Triangle");
    let q = piece_with_id(Some("other"), ShapeKind::Rect { w: 1, h: 1 });
    assert_eq!(cfg.label_from_catalog_only(&q), "");
    let r = piece_with_id(None, ShapeKind::Rect { w: 1, h: 1 });
    assert_eq!(cfg.label_from_catalog_only(&r), "");
}

#[test]
fn svg_escaping() {
    assert_eq!(svg_escape("a&b<c>d"), "a&amp;b&lt;c&gt;d");
    assert_eq!(svg_escape("plain"), "plain");
    assert_eq!(svg_escape(""), "");
}

#[test]
fn palette_cycles() {
    assert_eq!(piece_color(0), "red");
    assert_eq!(piece_color(3), "gold");
    assert_eq!(piece_color(15), "slategray");
    assert_eq!(piece_color(16), "red");
    assert_eq!(piece_color(35), "gold");
}

#[test]
fn decimal_rendering() {
    assert_eq!(decimal_string(0), "0");
    assert_eq!(decimal_string(7), "7");
    assert_eq!(decimal_string(120), "120");
    assert_eq!(decimal_string(1_000_000), "1000000");
}

#[test]
fn millimeter_formatting() {
    assert_eq!(fmt_mm(12_000), "12");
    assert_eq!(fmt_mm(12_500), "12.5");
    assert_eq!(fmt_mm(12_340), "12.34");
    assert_eq!(fmt_mm(12_345), "12.345");
    assert_eq!(fmt_mm(0), "0");
    assert_eq!(fmt_mm(5), "0.005");
}

#[test]
fn group_keys() {
    let p = piece_with_id(None, ShapeKind::Rect { w: 12_000, h: 8_000 });
    assert_eq!(group_key_for_piece(&p), "rect:w=12;h=8");
    let q = piece_with_id(Some("sq5"), ShapeKind::Rect { w: 12_000, h: 8_000 });
    assert_eq!(group_key_for_piece(&q), "sq5");
    let c = piece_with_id(None, ShapeKind::Circle { diameter: Some(30_000), radius: None });
    assert_eq!(group_key_for_piece(&c), "circle:d=30;r=0");
    let g = piece_with_id(None, ShapeKind::RegularPolygon { n: 6, side: 10_000 });
    assert_eq!(group_key_for_piece(&g), "regular_polygon:n=6;side=10");
}

#[test]
fn query_parameters() {
    assert_eq!(get_query_param("?a=b&c=d", "c"), Some("d".to_string()));
    assert_eq!(get_query_param("?a=b&c=d", "a"), Some("b".to_string()));
    assert_eq!(get_query_param("?a=b&c=d", "x"), None);
    assert_eq!(get_query_param("a=b", "a"), Some("b".to_string()));
    assert_eq!(get_query_param("?k", "k"), Some("".to_string()));
    assert_eq!(get_query_param("", "k"), None);
}

#[test]
fn query_values_are_url_decoded() {
    assert_eq!(get_query_param("?x=1+2", "x"), Some("1 2".to_string()));
    assert_eq!(get_query_param("?n=%41%42", "n"), Some("AB".to_string()));
    assert_eq!(url_decode("a+b%21"), "a b!");
    assert_eq!(url_decode("plain"), "plain");
}

#[test]
fn png_encoding_is_deterministic() {
    let rgba = vec![255u8, 0, 0, 255, 0, 255, 0, 255, 0, 0, 255, 255, 255, 255, 255, 255];
    let a = encode_rgba_to_png_bytes(2, 2, &rgba).unwrap();
    let b = encode_rgba_to_png_bytes(2, 2, &rgba).unwrap();
    assert!(!a.is_empty());
    assert_eq!(a, b);
    // PNG signature.
    assert_eq!(&a[..4], &[0x89u8, b'P', b'N', b'G']);
}

#[test]
fn color_and_label_assignment_is_stable() {
    let mut puz = Puzzle {
        units: Some("mm".to_string()),
        board: None,
        pieces: vec![
            piece_with_id(None, ShapeKind::Rect { w: 1_000, h: 1_000 }),
            piece_with_id(None, ShapeKind::Rect { w: 2_000, h: 2_000 }),
        ],
        note_en: None,
        note_zh: None,
    };
    assign_piece_colors(&mut puz);
    assert_eq!(puz.pieces[0].label_idx, Some(0));
    assert_eq!(puz.pieces[1].color_idx, Some(1));
}

#[test]
fn shape_labels() {
    let sq = piece_with_id(None, ShapeKind::Rect { w: 50_000, h: 50_000 });
    assert_eq!(label_for_piece(&sq), "Square (side 50 mm)");
    let re = piece_with_id(None, ShapeKind::Rect { w: 50_000, h: 30_000 });
    assert_eq!(label_for_piece(&re), "Rectangle (50\u{d7}30 mm)");
    let hexagon = piece_with_id(None, ShapeKind::RegularPolygon { n: 6, side: 25_000 });
    assert_eq!(label_for_piece(&hexagon), "Regular hexagon (side 25 mm)");
    let c = piece_with_id(None, ShapeKind::Circle { diameter: None, radius: Some(15_000) });
    assert_eq!(label_for_piece(&c), "Circle (diameter 30 mm)");
}

#[test]
fn catalog_or_fallback() {
    let mut cfg = LabelConfig::new();
    cfg.set_label_map(&vec![("sq5".to_string(), "Square 5 cm".to_string())]);
    let known = piece_with_id(Some("sq5"), ShapeKind::Rect { w: 50_000, h: 50_000 });
    assert_eq!(cfg.label_from_catalog_or_fallback(&known), "Square 5 cm");
    let unknown = piece_with_id(None, ShapeKind::Rect { w: 50_000, h: 50_000 });
    assert_eq!(cfg.label_from_catalog_or_fallback(&unknown), "Square (side 50 mm)");
}

#[test]
fn png_encoding_rejects_short_pixel_data() {
    let short = vec![0u8; 3];
    assert_eq!(
        encode_rgba_to_png_bytes(2, 2, &short),
        Err(PngError::EncodingFailed)
    );
}

#[test]
fn png_encoding_succeeds_on_well_sized_input() {
    let rgba = vec![0u8; 4 * 3 * 5];
    assert!(encode_rgba_to_png_bytes(3, 5, &rgba).is_ok());
}

#[test]
fn png_encoding_rejects_oversized_dimensions() {
    let rgba = vec![0u8; 4];
    assert_eq!(
        encode_rgba_to_png_bytes(40_000, 1, &rgba),
        Err(PngError::EncodingFailed)
    );
}
