//! Labels, grouping keys, colors and the small string utilities around
//! them.
//!
//! Label/language state is carried in an explicit `LabelConfig` value that
//! the caller threads through, rather than ambient global state: callers
//! may override labels without rebuilding a catalog, and no hidden
//! cross-call coupling exists.
use vstd::prelude::*;

verus! {

use crate::shape::{Piece, ShapeKind};

/// Caller-supplied label lookup and language preference.
pub struct LabelConfig {
    pub language: String,
    pub labels: Vec<(String, String)>,
}

/// Compare two strings character by character.
pub fn str_eq(a: &str, b: &str) -> (r: bool)
    ensures
        r == (a@ == b@),
{
    let an = a.unicode_len();
    let bn = b.unicode_len();
    if an != bn {
        proof {
            assert(a@ != b@) by {
                if a@ == b@ {
                    assert(a@.len() == b@.len());
                }
            }
        }
        return false;
    }
    let mut i: usize = 0;
    while i < an
        invariant
            0 <= i <= an,
            an == a@.len(),
            an == b@.len(),
            forall|k: int| 0 <= k < i ==> a@[k] == b@[k],
        decreases an - i,
    {
        if a.get_char(i) != b.get_char(i) {
            return false;
        }
        i = i + 1;
    }
    proof {
        assert(a@ =~= b@);
    }
    true
}

/// The language tag stored for any request: `"zh"` for the recognized
/// Chinese tags, `"en"` otherwise.
pub open spec fn spec_normalized_language(lang: Seq<char>) -> Seq<char> {
    if lang == "zh"@ || lang == "ZH"@ || lang == "Zh"@ || lang == "zH"@ || lang == "zh-CN"@ || lang
        == "zh_TW"@ {
        "zh"@
    } else {
        "en"@
    }
}

impl LabelConfig {
    /// An empty English configuration.
    pub fn new() -> (r: LabelConfig)
        ensures
            r.language@ == "en"@,
            r.labels@.len() == 0,
    {
        LabelConfig { language: "en".to_owned(), labels: Vec::new() }
    }

    /// Record the caller's language choice, normalized to `"en"` / `"zh"`.
    pub fn set_language(&mut self, lang: &str)
        ensures
            final(self).language@ == spec_normalized_language(lang@),
            final(self).labels@ == old(self).labels@,
    {
        let zh = str_eq(lang, "zh") || str_eq(lang, "ZH") || str_eq(lang, "Zh") || str_eq(
            lang,
            "zH",
        ) || str_eq(lang, "zh-CN") || str_eq(lang, "zh_TW");
        if zh {
            self.language = "zh".to_owned();
        } else {
            self.language = "en".to_owned();
        }
    }

    /// Replace the label map with the given id-to-label pairs.
    pub fn set_label_map(&mut self, map: &Vec<(String, String)>)
        ensures
            final(self).labels@.len() == map@.len(),
            forall|i: int|
                0 <= i < map@.len() ==> (#[trigger] final(self).labels@[i]).0@ == map@[i].0@
                    && final(self).labels@[i].1@ == map@[i].1@,
            final(self).language@ == old(self).language@,
    {
        let mut out: Vec<(String, String)> = Vec::new();
        let n = map.len();
        let mut i: usize = 0;
        while i < n
            invariant
                0 <= i <= n,
                n == map@.len(),
                out@.len() == i as int,
                forall|k: int|
                    0 <= k < i ==> (#[trigger] out@[k]).0@ == map@[k].0@ && out@[k].1@
                        == map@[k].1@,
            decreases n - i,
        {
            let k = map[i].0.clone();
            let v = map[i].1.clone();
            out.push((k, v));
            i = i + 1;
        }
        self.labels = out;
    }

    /// Whether the configured language is English.
    pub fn is_en(&self) -> (r: bool)
        ensures
            r == (self.language@ == "en"@),
    {
        str_eq(self.language.as_str(), "en")
    }

    /// The first label stored for `id`, if any.
    pub fn lookup(&self, id: &str) -> (r: Option<String>)
        ensures
            match r {
                Some(v) => exists|i: int|
                    0 <= i < self.labels@.len() && (#[trigger] self.labels@[i]).0@ == id@
                        && self.labels@[i].1@ == v@,
                None => forall|i: int|
                    0 <= i < self.labels@.len() ==> (#[trigger] self.labels@[i]).0@ != id@,
            },
    {
        let n = self.labels.len();
        let mut i: usize = 0;
        while i < n
            invariant
                0 <= i <= n,
                n == self.labels@.len(),
                forall|k: int| 0 <= k < i ==> (#[trigger] self.labels@[k]).0@ != id@,
            decreases n - i,
        {
            if str_eq(self.labels[i].0.as_str(), id) {
                let v = self.labels[i].1.clone();
                return Some(v);
            }
            i = i + 1;
        }
        None
    }

    /// The catalog label of a piece with an id, or the empty string.
    pub fn label_from_catalog_only(&self, p: &Piece) -> (r: String)
        ensures
            match p.id {
                Some(id) => (exists|i: int|
                    0 <= i < self.labels@.len() && (#[trigger] self.labels@[i]).0@ == id@
                        && self.labels@[i].1@ == r@) || ((forall|i: int|
                    0 <= i < self.labels@.len() ==> (#[trigger] self.labels@[i]).0@ != id@) && r@
                    == Seq::<char>::empty()),
                None => r@ == Seq::<char>::empty(),
            },
    {
        match &p.id {
            Some(id) => match self.lookup(id.as_str()) {
                Some(l) => l,
                None => String::new(),
            },
            None => String::new(),
        }
    }
}

/// The escape of one character in SVG text content.
pub open spec fn esc_char(c: char) -> Seq<char> {
    if c == '&' {
        "&amp;"@
    } else if c == '<' {
        "&lt;"@
    } else if c == '>' {
        "&gt;"@
    } else {
        seq![c]
    }
}

/// The SVG escape of the first `k` characters.
pub open spec fn spec_svg_escape(s: Seq<char>, k: int) -> Seq<char>
    decreases k,
{
    if k <= 0 {
        Seq::empty()
    } else {
        spec_svg_escape(s, k - 1) + esc_char(s[k - 1])
    }
}

/// Escape `&`, `<` and `>` for SVG text content.
pub fn svg_escape(s: &str) -> (r: String)
    ensures
        r@ == spec_svg_escape(s@, s@.len() as int),
{
    let n = s.unicode_len();
    let mut out = String::new();
    let mut i: usize = 0;
    while i < n
        invariant
            0 <= i <= n,
            n == s@.len(),
            out@ == spec_svg_escape(s@, i as int),
        decreases n - i,
    {
        let c = s.get_char(i);
        if c == '&' {
            out.append("&amp;");
        } else if c == '<' {
            out.append("&lt;");
        } else if c == '>' {
            out.append("&gt;");
        } else {
            let piece = s.substring_char(i, i + 1);
            out.append(piece);
            proof {
                assert(piece@ =~= seq![s@[i as int]]);
            }
        }
        i = i + 1;
    }
    out
}

/// The fixed 16-color palette entry for index `i`, cycling.
pub open spec fn spec_piece_color(i: int) -> Seq<char> {
    let k = i % 16;
    if k == 0 {
        "red"@
    } else if k == 1 {
        "orangered"@
    } else if k == 2 {
        "orange"@
    } else if k == 3 {
        "gold"@
    } else if k == 4 {
        "yellowgreen"@
    } else if k == 5 {
        "green"@
    } else if k == 6 {
        "mediumseagreen"@
    } else if k == 7 {
        "teal"@
    } else if k == 8 {
        "deepskyblue"@
    } else if k == 9 {
        "dodgerblue"@
    } else if k == 10 {
        "blueviolet"@
    } else if k == 11 {
        "purple"@
    } else if k == 12 {
        "fuchsia"@
    } else if k == 13 {
        "hotpink"@
    } else if k == 14 {
        "peru"@
    } else {
        "slategray"@
    }
}

/// The stable color name for a piece index: a fixed categorical palette of
/// sixteen easily described hues, cycling by index.
pub fn piece_color(i: usize) -> (r: String)
    ensures
        r@ == spec_piece_color(i as int),
{
    let k = i % 16;
    let s: &str = if k == 0 {
        "red"
    } else if k == 1 {
        "orangered"
    } else if k == 2 {
        "orange"
    } else if k == 3 {
        "gold"
    } else if k == 4 {
        "yellowgreen"
    } else if k == 5 {
        "green"
    } else if k == 6 {
        "mediumseagreen"
    } else if k == 7 {
        "teal"
    } else if k == 8 {
        "deepskyblue"
    } else if k == 9 {
        "dodgerblue"
    } else if k == 10 {
        "blueviolet"
    } else if k == 11 {
        "purple"
    } else if k == 12 {
        "fuchsia"
    } else if k == 13 {
        "hotpink"
    } else if k == 14 {
        "peru"
    } else {
        "slategray"
    };
    s.to_owned()
}

/// The decimal digit character for `d` in `0..10`.
pub open spec fn digit_char(d: int) -> char {
    if d == 0 {
        '0'
    } else if d == 1 {
        '1'
    } else if d == 2 {
        '2'
    } else if d == 3 {
        '3'
    } else if d == 4 {
        '4'
    } else if d == 5 {
        '5'
    } else if d == 6 {
        '6'
    } else if d == 7 {
        '7'
    } else if d == 8 {
        '8'
    } else {
        '9'
    }
}

/// The decimal digits of a nonnegative number, most significant first.
pub open spec fn spec_decimal(n: int) -> Seq<char>
    decreases n,
{
    if n < 10 {
        seq![digit_char(n)]
    } else {
        spec_decimal(n / 10) + seq![digit_char(n % 10)]
    }
}

fn digit_str(d: u64) -> (r: &'static str)
    requires
        d < 10,
    ensures
        r@ == seq![digit_char(d as int)],
{
    proof {
        reveal_strlit("0");
        reveal_strlit("1");
        reveal_strlit("2");
        reveal_strlit("3");
        reveal_strlit("4");
        reveal_strlit("5");
        reveal_strlit("6");
        reveal_strlit("7");
        reveal_strlit("8");
        reveal_strlit("9");
    }
    if d == 0 {
        "0"
    } else if d == 1 {
        "1"
    } else if d == 2 {
        "2"
    } else if d == 3 {
        "3"
    } else if d == 4 {
        "4"
    } else if d == 5 {
        "5"
    } else if d == 6 {
        "6"
    } else if d == 7 {
        "7"
    } else if d == 8 {
        "8"
    } else {
        "9"
    }
}

/// Decimal rendering of a nonnegative number.
pub fn decimal_string(n: u64) -> (r: String)
    ensures
        r@ == spec_decimal(n as int),
    decreases n,
{
    if n < 10 {
        digit_str(n).to_owned()
    } else {
        let mut s = decimal_string(n / 10);
        s.append(digit_str(n % 10));
        s
    }
}

/// Millimeter rendering of a micrometer quantity: the whole millimeters,
/// then up to three fractional digits with trailing zeros dropped.
pub open spec fn spec_fmt_mm(um: int) -> Seq<char> {
    let whole = um / 1000;
    let frac = um % 1000;
    if frac == 0 {
        spec_decimal(whole)
    } else {
        let d1 = frac / 100;
        let d2 = (frac / 10) % 10;
        let d3 = frac % 10;
        if d3 == 0 {
            if d2 == 0 {
                spec_decimal(whole) + "."@ + seq![digit_char(d1)]
            } else {
                spec_decimal(whole) + "."@ + seq![digit_char(d1), digit_char(d2)]
            }
        } else {
            spec_decimal(whole) + "."@ + seq![digit_char(d1), digit_char(d2), digit_char(d3)]
        }
    }
}

/// Render a nonnegative micrometer quantity in millimeters.
pub fn fmt_mm(um: i64) -> (r: String)
    requires
        0 <= um,
    ensures
        r@ == spec_fmt_mm(um as int),
{
    let n = um as u64;
    let whole = n / 1000;
    let frac = n % 1000;
    let mut s = decimal_string(whole);
    if frac == 0 {
        return s;
    }
    let d1 = frac / 100;
    let d2 = (frac / 10) % 10;
    let d3 = frac % 10;
    s.append(".");
    s.append(digit_str(d1));
    if d3 == 0 {
        if d2 == 0 {
            proof {
                assert(s@ =~= spec_fmt_mm(um as int));
            }
            return s;
        }
        s.append(digit_str(d2));
        proof {
            assert(s@ =~= spec_fmt_mm(um as int));
        }
        return s;
    }
    s.append(digit_str(d2));
    s.append(digit_str(d3));
    proof {
        assert(s@ =~= spec_fmt_mm(um as int));
    }
    s
}

/// Signed millimeter rendering.
pub open spec fn spec_fmt_mm_signed(um: int) -> Seq<char> {
    if um < 0 {
        "-"@ + spec_fmt_mm(-um)
    } else {
        spec_fmt_mm(um)
    }
}

fn fmt_mm_signed(um: i64) -> (r: String)
    requires
        um > i64::MIN,
    ensures
        r@ == spec_fmt_mm_signed(um as int),
{
    if um < 0 {
        let mut s = "-".to_owned();
        s.append(fmt_mm(-um).as_str());
        proof {
            assert(s@ =~= spec_fmt_mm_signed(um as int));
        }
        s
    } else {
        fmt_mm(um)
    }
}

/// The structural grouping signature of a piece without an id: its kind
/// and key parameters, in millimeters.
pub open spec fn spec_group_signature(shape: ShapeKind) -> Seq<char> {
    match shape {
        ShapeKind::Rect { w, h } => "rect:w="@ + spec_fmt_mm(w as int) + ";h="@ + spec_fmt_mm(
            h as int,
        ),
        ShapeKind::EquilateralTriangle { side } => "equilateral_triangle:side="@ + spec_fmt_mm(
            side as int,
        ),
        ShapeKind::RightTriangle { a, b } => "right_triangle:a="@ + spec_fmt_mm(a as int) + ";b="@
            + spec_fmt_mm(b as int),
        ShapeKind::RegularPolygon { n, side } => "regular_polygon:n="@ + spec_decimal(n as int)
            + ";side="@ + spec_fmt_mm(side as int),
        ShapeKind::Circle { diameter, radius } => "circle:d="@ + spec_fmt_mm(
            crate::shape::opt0(diameter),
        ) + ";r="@ + spec_fmt_mm(crate::shape::opt0(radius)),
        ShapeKind::IsoscelesTrapezoid { base_bottom, base_top, height } => "isosceles_trapezoid:bb="@
            + spec_fmt_mm(base_bottom as int) + ";bt="@ + spec_fmt_mm(base_top as int) + ";h="@
            + spec_fmt_mm(height as int),
        ShapeKind::Parallelogram { base, offset_top, height } => "parallelogram:base="@
            + spec_fmt_mm(base as int) + ";off="@ + spec_fmt_mm_signed(offset_top as int) + ";h="@
            + spec_fmt_mm(height as int),
        ShapeKind::FreePolygon { points } => "polygon"@,
    }
}

/// The stable grouping key of a piece: its id when present, else the
/// structural signature of its shape.
pub fn group_key_for_piece(p: &Piece) -> (r: String)
    requires
        crate::shape::wf_piece(*p),
    ensures
        match p.id {
            Some(id) => r@ == id@,
            None => r@ == spec_group_signature(p.shape),
        },
{
    match &p.id {
        Some(id) => id.clone(),
        None => {
            match &p.shape {
                ShapeKind::Rect { w, h } => {
                    let mut s = "rect:w=".to_owned();
                    s.append(fmt_mm(*w).as_str());
                    s.append(";h=");
                    s.append(fmt_mm(*h).as_str());
                    proof {
                        assert(s@ =~= spec_group_signature(p.shape));
                    }
                    s
                },
                ShapeKind::EquilateralTriangle { side } => {
                    let mut s = "equilateral_triangle:side=".to_owned();
                    s.append(fmt_mm(*side).as_str());
                    proof {
                        assert(s@ =~= spec_group_signature(p.shape));
                    }
                    s
                },
                ShapeKind::RightTriangle { a, b } => {
                    let mut s = "right_triangle:a=".to_owned();
                    s.append(fmt_mm(*a).as_str());
                    s.append(";b=");
                    s.append(fmt_mm(*b).as_str());
                    proof {
                        assert(s@ =~= spec_group_signature(p.shape));
                    }
                    s
                },
                ShapeKind::RegularPolygon { n, side } => {
                    let mut s = "regular_polygon:n=".to_owned();
                    s.append(decimal_string(*n as u64).as_str());
                    s.append(";side=");
                    s.append(fmt_mm(*side).as_str());
                    proof {
                        assert(s@ =~= spec_group_signature(p.shape));
                    }
                    s
                },
                ShapeKind::Circle { diameter, radius } => {
                    let d = match diameter {
                        Some(v) => *v,
                        None => 0,
                    };
                    let rr = match radius {
                        Some(v) => *v,
                        None => 0,
                    };
                    let mut s = "circle:d=".to_owned();
                    s.append(fmt_mm(d).as_str());
                    s.append(";r=");
                    s.append(fmt_mm(rr).as_str());
                    proof {
                        assert(s@ =~= spec_group_signature(p.shape));
                    }
                    s
                },
                ShapeKind::IsoscelesTrapezoid { base_bottom, base_top, height } => {
                    let mut s = "isosceles_trapezoid:bb=".to_owned();
                    s.append(fmt_mm(*base_bottom).as_str());
                    s.append(";bt=");
                    s.append(fmt_mm(*base_top).as_str());
                    s.append(";h=");
                    s.append(fmt_mm(*height).as_str());
                    proof {
                        assert(s@ =~= spec_group_signature(p.shape));
                    }
                    s
                },
                ShapeKind::Parallelogram { base, offset_top, height } => {
                    let mut s = "parallelogram:base=".to_owned();
                    s.append(fmt_mm(*base).as_str());
                    s.append(";off=");
                    s.append(fmt_mm_signed(*offset_top).as_str());
                    s.append(";h=");
                    s.append(fmt_mm(*height).as_str());
                    proof {
                        assert(s@ =~= spec_group_signature(p.shape));
                    }
                    s
                },
                ShapeKind::FreePolygon { points: _ } => "polygon".to_owned(),
            }
        },
    }
}

/// The human-readable description of a shape, dimensions in millimeters.
pub open spec fn spec_shape_label(shape: ShapeKind) -> Seq<char> {
    match shape {
        ShapeKind::Circle { diameter, radius } => {
            let d = match diameter {
                Some(v) => v as int,
                None => 2 * crate::shape::opt0(radius),
            };
            "Circle (diameter "@ + spec_fmt_mm(d) + " mm)"@
        },
        ShapeKind::Rect { w, h } => {
            if w == h {
                "Square (side "@ + spec_fmt_mm(w as int) + " mm)"@
            } else {
                "Rectangle ("@ + spec_fmt_mm(w as int) + "\u{d7}"@ + spec_fmt_mm(h as int)
                    + " mm)"@
            }
        },
        ShapeKind::RegularPolygon { n, side } => {
            if n == 5 {
                "Regular pentagon (side "@ + spec_fmt_mm(side as int) + " mm)"@
            } else if n == 6 {
                "Regular hexagon (side "@ + spec_fmt_mm(side as int) + " mm)"@
            } else {
                "Regular "@ + spec_decimal(n as int) + "-gon (side "@ + spec_fmt_mm(side as int)
                    + " mm)"@
            }
        },
        ShapeKind::EquilateralTriangle { side } => "Equilateral triangle (side "@ + spec_fmt_mm(
            side as int,
        ) + " mm)"@,
        ShapeKind::RightTriangle { a, b } => "Right triangle (legs "@ + spec_fmt_mm(a as int)
            + "\u{d7}"@ + spec_fmt_mm(b as int) + " mm)"@,
        ShapeKind::IsoscelesTrapezoid { base_bottom, base_top, height } => "Isosceles trapezoid (bottom "@
            + spec_fmt_mm(base_bottom as int) + " mm, top "@ + spec_fmt_mm(base_top as int)
            + " mm, height "@ + spec_fmt_mm(height as int) + " mm)"@,
        ShapeKind::Parallelogram { base, offset_top, height } => "Parallelogram (base "@
            + spec_fmt_mm(base as int) + " mm, top offset "@ + spec_fmt_mm_signed(offset_top as int)
            + " mm, height "@ + spec_fmt_mm(height as int) + " mm)"@,
        ShapeKind::FreePolygon { points } => "polygon"@,
    }
}

/// Describe a piece's shape in words, dimensions in millimeters.
pub fn label_for_piece(p: &Piece) -> (r: String)
    requires
        crate::shape::wf_piece(*p),
    ensures
        r@ == spec_shape_label(p.shape),
{
    match &p.shape {
        ShapeKind::Circle { diameter, radius } => {
            let d: i64 = match diameter {
                Some(v) => *v,
                None => match radius {
                    Some(v) => 2 * *v,
                    None => 0,
                },
            };
            let mut s = "Circle (diameter ".to_owned();
            s.append(fmt_mm(d).as_str());
            s.append(" mm)");
            proof {
                assert(s@ =~= spec_shape_label(p.shape));
            }
            s
        },
        ShapeKind::Rect { w, h } => {
            if *w == *h {
                let mut s = "Square (side ".to_owned();
                s.append(fmt_mm(*w).as_str());
                s.append(" mm)");
                proof {
                    assert(s@ =~= spec_shape_label(p.shape));
                }
                s
            } else {
                let mut s = "Rectangle (".to_owned();
                s.append(fmt_mm(*w).as_str());
                s.append("\u{d7}");
                s.append(fmt_mm(*h).as_str());
                s.append(" mm)");
                proof {
                    assert(s@ =~= spec_shape_label(p.shape));
                }
                s
            }
        },
        ShapeKind::RegularPolygon { n, side } => {
            if *n == 5 {
                let mut s = "Regular pentagon (side ".to_owned();
                s.append(fmt_mm(*side).as_str());
                s.append(" mm)");
                proof {
                    assert(s@ =~= spec_shape_label(p.shape));
                }
                s
            } else if *n == 6 {
                let mut s = "Regular hexagon (side ".to_owned();
                s.append(fmt_mm(*side).as_str());
                s.append(" mm)");
                proof {
                    assert(s@ =~= spec_shape_label(p.shape));
                }
                s
            } else {
                let mut s = "Regular ".to_owned();
                s.append(decimal_string(*n as u64).as_str());
                s.append("-gon (side ");
                s.append(fmt_mm(*side).as_str());
                s.append(" mm)");
                proof {
                    assert(s@ =~= spec_shape_label(p.shape));
                }
                s
            }
        },
        ShapeKind::EquilateralTriangle { side } => {
            let mut s = "Equilateral triangle (side ".to_owned();
            s.append(fmt_mm(*side).as_str());
            s.append(" mm)");
            proof {
                assert(s@ =~= spec_shape_label(p.shape));
            }
            s
        },
        ShapeKind::RightTriangle { a, b } => {
            let mut s = "Right triangle (legs ".to_owned();
            s.append(fmt_mm(*a).as_str());
            s.append("\u{d7}");
            s.append(fmt_mm(*b).as_str());
            s.append(" mm)");
            proof {
                assert(s@ =~= spec_shape_label(p.shape));
            }
            s
        },
        ShapeKind::IsoscelesTrapezoid { base_bottom, base_top, height } => {
            let mut s = "Isosceles trapezoid (bottom ".to_owned();
            s.append(fmt_mm(*base_bottom).as_str());
            s.append(" mm, top ");
            s.append(fmt_mm(*base_top).as_str());
            s.append(" mm, height ");
            s.append(fmt_mm(*height).as_str());
            s.append(" mm)");
            proof {
                assert(s@ =~= spec_shape_label(p.shape));
            }
            s
        },
        ShapeKind::Parallelogram { base, offset_top, height } => {
            let mut s = "Parallelogram (base ".to_owned();
            s.append(fmt_mm(*base).as_str());
            s.append(" mm, top offset ");
            s.append(fmt_mm_signed(*offset_top).as_str());
            s.append(" mm, height ");
            s.append(fmt_mm(*height).as_str());
            s.append(" mm)");
            proof {
                assert(s@ =~= spec_shape_label(p.shape));
            }
            s
        },
        ShapeKind::FreePolygon { points: _ } => "polygon".to_owned(),
    }
}

impl LabelConfig {
    /// The catalog label for a piece with an id, else the descriptive
    /// fallback label for its shape.
    pub fn label_from_catalog_or_fallback(&self, p: &Piece) -> (r: String)
        requires
            crate::shape::wf_piece(*p),
        ensures
            match p.id {
                Some(id) => (exists|i: int|
                    0 <= i < self.labels@.len() && (#[trigger] self.labels@[i]).0@ == id@
                        && self.labels@[i].1@ == r@) || ((forall|i: int|
                    0 <= i < self.labels@.len() ==> (#[trigger] self.labels@[i]).0@ != id@) && r@
                    == spec_shape_label(p.shape)),
                None => r@ == spec_shape_label(p.shape),
            },
    {
        match &p.id {
            Some(id) => match self.lookup(id.as_str()) {
                Some(l) => l,
                None => label_for_piece(p),
            },
            None => label_for_piece(p),
        }
    }
}

} // verus!
