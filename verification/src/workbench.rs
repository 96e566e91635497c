//! The sketcher's tool tables and names: default keys, icons, the hint
//! a tool shows before its first click, which tools draw, and the names
//! new sketches get.

use vstd::prelude::*;

use crate::constrain::{spec_dimension_for, spec_fits, SelectionShape};
use crate::text::{append_str, decimal, decimal_text, str_eq};

verus! {

/// The default key of a tool, if it has one. A plain letter draws or
/// edits; Shift and a letter constrains.
pub open spec fn spec_tool_key(id: Seq<char>) -> Option<Seq<char>> {
    if id == "sketch.point"@ {
        Some("O"@)
    } else if id == "sketch.line"@ {
        Some("L"@)
    } else if id == "sketch.polyline"@ {
        Some("P"@)
    } else if id == "sketch.arc"@ {
        Some("A"@)
    } else if id == "sketch.circle"@ {
        Some("C"@)
    } else if id == "sketch.ellipse"@ {
        Some("E"@)
    } else if id == "sketch.bspline"@ {
        Some("B"@)
    } else if id == "sketch.rect"@ {
        Some("R"@)
    } else if id == "sketch.polygon"@ {
        Some("G"@)
    } else if id == "sketch.slot"@ {
        Some("S"@)
    } else if id == "sketch.trim"@ {
        Some("T"@)
    } else if id == "sketch.external"@ {
        Some("X"@)
    } else if id == "sketch.construction"@ {
        Some("N"@)
    } else if id == "sketch.constrain.coincident"@ {
        Some("Shift+C"@)
    } else if id == "sketch.constrain.point_on_object"@ {
        Some("Shift+O"@)
    } else if id == "sketch.constrain.vertical"@ {
        Some("Shift+V"@)
    } else if id == "sketch.constrain.horizontal"@ {
        Some("Shift+H"@)
    } else if id == "sketch.constrain.parallel"@ {
        Some("Shift+P"@)
    } else if id == "sketch.constrain.perpendicular"@ {
        Some("Shift+N"@)
    } else if id == "sketch.constrain.tangent"@ {
        Some("Shift+T"@)
    } else if id == "sketch.constrain.equal"@ {
        Some("Shift+E"@)
    } else if id == "sketch.constrain.symmetric"@ {
        Some("Shift+S"@)
    } else if id == "sketch.constrain.block"@ {
        Some("Shift+B"@)
    } else if id == "sketch.constrain.dimension"@ {
        Some("Shift+D"@)
    } else if id == "sketch.constrain.lock"@ {
        Some("Shift+K"@)
    } else if id == "sketch.constrain.distance_x"@ {
        Some("Shift+L"@)
    } else if id == "sketch.constrain.distance_y"@ {
        Some("Shift+I"@)
    } else if id == "sketch.constrain.radius"@ {
        Some("Shift+R"@)
    } else if id == "sketch.constrain.angle"@ {
        Some("Shift+A"@)
    } else {
        None
    }
}

/// The default key of a tool, if it has one.
pub fn tool_key(id: &str) -> (r: Option<&'static str>)
    ensures
        match r {
            Some(k) => spec_tool_key(id@) == Some(k@),
            None => spec_tool_key(id@) is None,
        },
{
    if str_eq(id, "sketch.point") {
        Some("O")
    } else if str_eq(id, "sketch.line") {
        Some("L")
    } else if str_eq(id, "sketch.polyline") {
        Some("P")
    } else if str_eq(id, "sketch.arc") {
        Some("A")
    } else if str_eq(id, "sketch.circle") {
        Some("C")
    } else if str_eq(id, "sketch.ellipse") {
        Some("E")
    } else if str_eq(id, "sketch.bspline") {
        Some("B")
    } else if str_eq(id, "sketch.rect") {
        Some("R")
    } else if str_eq(id, "sketch.polygon") {
        Some("G")
    } else if str_eq(id, "sketch.slot") {
        Some("S")
    } else if str_eq(id, "sketch.trim") {
        Some("T")
    } else if str_eq(id, "sketch.external") {
        Some("X")
    } else if str_eq(id, "sketch.construction") {
        Some("N")
    } else if str_eq(id, "sketch.constrain.coincident") {
        Some("Shift+C")
    } else if str_eq(id, "sketch.constrain.point_on_object") {
        Some("Shift+O")
    } else if str_eq(id, "sketch.constrain.vertical") {
        Some("Shift+V")
    } else if str_eq(id, "sketch.constrain.horizontal") {
        Some("Shift+H")
    } else if str_eq(id, "sketch.constrain.parallel") {
        Some("Shift+P")
    } else if str_eq(id, "sketch.constrain.perpendicular") {
        Some("Shift+N")
    } else if str_eq(id, "sketch.constrain.tangent") {
        Some("Shift+T")
    } else if str_eq(id, "sketch.constrain.equal") {
        Some("Shift+E")
    } else if str_eq(id, "sketch.constrain.symmetric") {
        Some("Shift+S")
    } else if str_eq(id, "sketch.constrain.block") {
        Some("Shift+B")
    } else if str_eq(id, "sketch.constrain.dimension") {
        Some("Shift+D")
    } else if str_eq(id, "sketch.constrain.lock") {
        Some("Shift+K")
    } else if str_eq(id, "sketch.constrain.distance_x") {
        Some("Shift+L")
    } else if str_eq(id, "sketch.constrain.distance_y") {
        Some("Shift+I")
    } else if str_eq(id, "sketch.constrain.radius") {
        Some("Shift+R")
    } else if str_eq(id, "sketch.constrain.angle") {
        Some("Shift+A")
    } else {
        None
    }
}

/// The icon of a tool of the geometry row, in toolbar order; `sketch` for
/// any other.
pub open spec fn geometry_tool_icon(tool: Seq<char>) -> Seq<char> {
    if tool == "sketch.select"@ {
        "select"@
    } else if tool == "sketch.point"@ {
        "point"@
    } else if tool == "sketch.line"@ {
        "line"@
    } else if tool == "sketch.arc"@ {
        "arc"@
    } else if tool == "sketch.circle"@ {
        "circle"@
    } else if tool == "sketch.ellipse"@ {
        "ellipse"@
    } else if tool == "sketch.bspline"@ {
        "bspline"@
    } else if tool == "sketch.rect"@ {
        "rectangle"@
    } else if tool == "sketch.polygon"@ {
        "regular-polygon"@
    } else if tool == "sketch.slot"@ {
        "slot"@
    } else if tool == "sketch.fillet"@ {
        "sketch-fillet"@
    } else if tool == "sketch.trim"@ {
        "trim"@
    } else if tool == "sketch.extend"@ {
        "extend"@
    } else if tool == "sketch.split"@ {
        "split"@
    } else if tool == "sketch.copy"@ {
        "copy-geometry"@
    } else if tool == "sketch.translate"@ {
        "move-geometry"@
    } else if tool == "sketch.rotate"@ {
        "rotate-geometry"@
    } else if tool == "sketch.scale"@ {
        "scale-geometry"@
    } else if tool == "sketch.offset"@ {
        "offset-geometry"@
    } else if tool == "sketch.mirror"@ {
        "symmetry-geometry"@
    } else {
        "sketch"@
    }
}

/// The icon of a canonical tool id, for the viewport hint: the variants'
/// own, else the geometry row's.
pub open spec fn spec_tool_icon(tool: Seq<char>) -> Seq<char> {
    if tool == "sketch.external"@ {
        "external-geometry"@
    } else if tool == "sketch.arc3"@ {
        "arc-3pt"@
    } else if tool == "sketch.circle3"@ {
        "circle-3pt"@
    } else if tool == "sketch.ellipse3"@ {
        "ellipse-3pt"@
    } else if tool == "sketch.polyline"@ {
        "polyline"@
    } else if tool == "sketch.ellipse_arc"@ {
        "arc-of-ellipse"@
    } else if tool == "sketch.rect_center"@ {
        "rectangle-centered"@
    } else if tool == "sketch.arc_slot"@ {
        "arc-slot"@
    } else if tool == "sketch.chamfer"@ {
        "sketch-chamfer"@
    } else {
        geometry_tool_icon(tool)
    }
}

fn geometry_icon(tool: &str) -> (s: &'static str)
    ensures
        s@ == geometry_tool_icon(tool@),
{
    if str_eq(tool, "sketch.select") {
        "select"
    } else if str_eq(tool, "sketch.point") {
        "point"
    } else if str_eq(tool, "sketch.line") {
        "line"
    } else if str_eq(tool, "sketch.arc") {
        "arc"
    } else if str_eq(tool, "sketch.circle") {
        "circle"
    } else if str_eq(tool, "sketch.ellipse") {
        "ellipse"
    } else if str_eq(tool, "sketch.bspline") {
        "bspline"
    } else if str_eq(tool, "sketch.rect") {
        "rectangle"
    } else if str_eq(tool, "sketch.polygon") {
        "regular-polygon"
    } else if str_eq(tool, "sketch.slot") {
        "slot"
    } else if str_eq(tool, "sketch.fillet") {
        "sketch-fillet"
    } else if str_eq(tool, "sketch.trim") {
        "trim"
    } else if str_eq(tool, "sketch.extend") {
        "extend"
    } else if str_eq(tool, "sketch.split") {
        "split"
    } else if str_eq(tool, "sketch.copy") {
        "copy-geometry"
    } else if str_eq(tool, "sketch.translate") {
        "move-geometry"
    } else if str_eq(tool, "sketch.rotate") {
        "rotate-geometry"
    } else if str_eq(tool, "sketch.scale") {
        "scale-geometry"
    } else if str_eq(tool, "sketch.offset") {
        "offset-geometry"
    } else if str_eq(tool, "sketch.mirror") {
        "symmetry-geometry"
    } else {
        "sketch"
    }
}

/// The icon of a canonical tool id, for the viewport hint.
pub fn tool_icon(tool: &str) -> (s: &'static str)
    ensures
        s@ == spec_tool_icon(tool@),
{
    if str_eq(tool, "sketch.external") {
        "external-geometry"
    } else if str_eq(tool, "sketch.arc3") {
        "arc-3pt"
    } else if str_eq(tool, "sketch.circle3") {
        "circle-3pt"
    } else if str_eq(tool, "sketch.ellipse3") {
        "ellipse-3pt"
    } else if str_eq(tool, "sketch.polyline") {
        "polyline"
    } else if str_eq(tool, "sketch.ellipse_arc") {
        "arc-of-ellipse"
    } else if str_eq(tool, "sketch.rect_center") {
        "rectangle-centered"
    } else if str_eq(tool, "sketch.arc_slot") {
        "arc-slot"
    } else if str_eq(tool, "sketch.chamfer") {
        "sketch-chamfer"
    } else {
        geometry_icon(tool)
    }
}

/// The name and first prompt of a tool with no shape in progress.
pub open spec fn spec_idle_hint(tool: Seq<char>) -> (Seq<char>, Seq<char>) {
    if tool == "sketch.point"@ {
        ("Point"@, "Click to place a point"@)
    } else if tool == "sketch.line"@ {
        ("Line"@, "Click the start point"@)
    } else if tool == "sketch.polyline"@ {
        ("Polyline"@, "Click the start point"@)
    } else if tool == "sketch.arc"@ {
        ("Arc"@, "Click the center"@)
    } else if tool == "sketch.arc3"@ {
        ("Arc"@, "Click the first endpoint"@)
    } else if tool == "sketch.circle"@ {
        ("Circle"@, "Click the center"@)
    } else if tool == "sketch.circle3"@ {
        ("Circle"@, "Click a first rim point"@)
    } else if tool == "sketch.ellipse"@ {
        ("Ellipse"@, "Click the center"@)
    } else if tool == "sketch.ellipse3"@ {
        ("Ellipse"@, "Click one end of the major axis"@)
    } else if tool == "sketch.ellipse_arc"@ {
        ("Arc of ellipse"@, "Click the center"@)
    } else if tool == "sketch.bspline"@ {
        ("B-spline"@, "Click the first control point"@)
    } else if tool == "sketch.rect"@ {
        ("Rectangle"@, "Click the first corner"@)
    } else if tool == "sketch.rect_center"@ {
        ("Rectangle"@, "Click the center"@)
    } else if tool == "sketch.polygon"@ {
        ("Polygon"@, "Click the center"@)
    } else if tool == "sketch.slot"@ {
        ("Slot"@, "Click the centerline start"@)
    } else if tool == "sketch.arc_slot"@ {
        ("Arc slot"@, "Click the arc center"@)
    } else if tool == "sketch.fillet"@ {
        ("Fillet"@, "Click a corner point"@)
    } else if tool == "sketch.chamfer"@ {
        ("Chamfer"@, "Click a corner point"@)
    } else if tool == "sketch.trim"@ {
        ("Trim"@, "Click the span to remove"@)
    } else if tool == "sketch.external"@ {
        ("External geometry"@, "Click edges of a solid to bring them in; Ctrl picks more"@)
    } else if tool == "sketch.extend"@ {
        ("Extend"@, "Click the end to extend"@)
    } else if tool == "sketch.split"@ {
        ("Split"@, "Click where to split"@)
    } else if tool == "sketch.offset"@ {
        ("Offset"@, "Click the curve to offset"@)
    } else if tool == "sketch.translate"@ {
        ("Move"@, "Click the base point"@)
    } else if tool == "sketch.rotate"@ {
        ("Rotate"@, "Click the pivot"@)
    } else if tool == "sketch.scale"@ {
        ("Scale"@, "Click the base point"@)
    } else if tool == "sketch.mirror"@ {
        ("Symmetry"@, "Click a mirror line or its first point"@)
    } else {
        ("Select"@, "Click to select · drag for a box"@)
    }
}

/// The name and first prompt of a tool with no shape in progress.
pub fn idle_hint(tool: &str) -> (r: (&'static str, &'static str))
    ensures
        (r.0@, r.1@) == spec_idle_hint(tool@),
{
    if str_eq(tool, "sketch.point") {
        ("Point", "Click to place a point")
    } else if str_eq(tool, "sketch.line") {
        ("Line", "Click the start point")
    } else if str_eq(tool, "sketch.polyline") {
        ("Polyline", "Click the start point")
    } else if str_eq(tool, "sketch.arc") {
        ("Arc", "Click the center")
    } else if str_eq(tool, "sketch.arc3") {
        ("Arc", "Click the first endpoint")
    } else if str_eq(tool, "sketch.circle") {
        ("Circle", "Click the center")
    } else if str_eq(tool, "sketch.circle3") {
        ("Circle", "Click a first rim point")
    } else if str_eq(tool, "sketch.ellipse") {
        ("Ellipse", "Click the center")
    } else if str_eq(tool, "sketch.ellipse3") {
        ("Ellipse", "Click one end of the major axis")
    } else if str_eq(tool, "sketch.ellipse_arc") {
        ("Arc of ellipse", "Click the center")
    } else if str_eq(tool, "sketch.bspline") {
        ("B-spline", "Click the first control point")
    } else if str_eq(tool, "sketch.rect") {
        ("Rectangle", "Click the first corner")
    } else if str_eq(tool, "sketch.rect_center") {
        ("Rectangle", "Click the center")
    } else if str_eq(tool, "sketch.polygon") {
        ("Polygon", "Click the center")
    } else if str_eq(tool, "sketch.slot") {
        ("Slot", "Click the centerline start")
    } else if str_eq(tool, "sketch.arc_slot") {
        ("Arc slot", "Click the arc center")
    } else if str_eq(tool, "sketch.fillet") {
        ("Fillet", "Click a corner point")
    } else if str_eq(tool, "sketch.chamfer") {
        ("Chamfer", "Click a corner point")
    } else if str_eq(tool, "sketch.trim") {
        ("Trim", "Click the span to remove")
    } else if str_eq(tool, "sketch.external") {
        ("External geometry", "Click edges of a solid to bring them in; Ctrl picks more")
    } else if str_eq(tool, "sketch.extend") {
        ("Extend", "Click the end to extend")
    } else if str_eq(tool, "sketch.split") {
        ("Split", "Click where to split")
    } else if str_eq(tool, "sketch.offset") {
        ("Offset", "Click the curve to offset")
    } else if str_eq(tool, "sketch.translate") {
        ("Move", "Click the base point")
    } else if str_eq(tool, "sketch.rotate") {
        ("Rotate", "Click the pivot")
    } else if str_eq(tool, "sketch.scale") {
        ("Scale", "Click the base point")
    } else if str_eq(tool, "sketch.mirror") {
        ("Symmetry", "Click a mirror line or its first point")
    } else {
        ("Select", "Click to select · drag for a box")
    }
}

/// Whether a tool draws geometry (as opposed to selecting, editing or
/// constraining it).
pub open spec fn spec_is_draw_tool(tool: Seq<char>) -> bool {
    tool == "sketch.point"@
        || tool == "sketch.line"@
        || tool == "sketch.polyline"@
        || tool == "sketch.arc"@
        || tool == "sketch.arc3"@
        || tool == "sketch.circle"@
        || tool == "sketch.circle3"@
        || tool == "sketch.ellipse"@
        || tool == "sketch.ellipse3"@
        || tool == "sketch.ellipse_arc"@
        || tool == "sketch.bspline"@
        || tool == "sketch.rect"@
        || tool == "sketch.rect_center"@
        || tool == "sketch.polygon"@
        || tool == "sketch.slot"@
        || tool == "sketch.arc_slot"@
}

/// Whether a tool draws geometry.
pub fn is_draw_tool(tool: &str) -> (b: bool)
    ensures
        b == spec_is_draw_tool(tool@),
{
    str_eq(tool, "sketch.point")
        || str_eq(tool, "sketch.line")
        || str_eq(tool, "sketch.polyline")
        || str_eq(tool, "sketch.arc")
        || str_eq(tool, "sketch.arc3")
        || str_eq(tool, "sketch.circle")
        || str_eq(tool, "sketch.circle3")
        || str_eq(tool, "sketch.ellipse")
        || str_eq(tool, "sketch.ellipse3")
        || str_eq(tool, "sketch.ellipse_arc")
        || str_eq(tool, "sketch.bspline")
        || str_eq(tool, "sketch.rect")
        || str_eq(tool, "sketch.rect_center")
        || str_eq(tool, "sketch.polygon")
        || str_eq(tool, "sketch.slot")
        || str_eq(tool, "sketch.arc_slot")
}

/// `c` in lower case, for the ASCII letters.
pub open spec fn ascii_lower(c: char) -> char {
    if 'A' <= c && c <= 'Z' {
        ((c as int) + 32) as char
    } else {
        c
    }
}

fn to_ascii_lower(c: char) -> (r: char)
    ensures
        r == ascii_lower(c),
{
    if 'A' <= c && c <= 'Z' {
        ((c as u8) + 32) as char
    } else {
        c
    }
}

/// What follows `sketch_`, or else `sketch`, at the start of a lower-case
/// name.
pub open spec fn after_sketch_prefix(lower: Seq<char>) -> Option<Seq<char>> {
    if lower.len() >= 7 && lower.take(7) == "sketch_"@ {
        Some(lower.skip(7))
    } else if lower.len() >= 6 && lower.take(6) == "sketch"@ {
        Some(lower.skip(6))
    } else {
        None
    }
}

/// `s` without its leading underscores, periods and spaces.
pub open spec fn trim_separators(s: Seq<char>) -> Seq<char>
    decreases s.len(),
{
    if s.len() > 0 && (s[0] == '_' || s[0] == '.' || s[0] == ' ') {
        trim_separators(s.drop_first())
    } else {
        s
    }
}

/// Whether every character is a decimal digit.
pub open spec fn all_digits(s: Seq<char>) -> bool {
    forall|i: int| 0 <= i < s.len() ==> '0' <= #[trigger] s[i] && s[i] <= '9'
}

/// The number the decimal digits `s` write.
pub open spec fn digits_value(s: Seq<char>) -> int
    decreases s.len(),
{
    if s.len() == 0 {
        0
    } else {
        digits_value(s.drop_last()) * 10 + (s.last() as int - '0' as int)
    }
}

/// What `str::parse::<u32>` reads: decimal digits, one `+` allowed in
/// front, and a value that fits.
pub open spec fn spec_parse_u32(s: Seq<char>) -> Option<u32> {
    let d = if s.len() > 0 && s[0] == '+' { s.drop_first() } else { s };
    if d.len() > 0 && all_digits(d) && digits_value(d) <= u32::MAX {
        Some(digits_value(d) as u32)
    } else {
        None
    }
}

/// The index a sketch's name carries: `sketch` is `0`, `sketch_3`,
/// `Sketch3` and `sketch.3` are `3`; `None` for a name of another shape.
pub open spec fn spec_parse_sketch_index(name: Seq<char>) -> Option<u32> {
    match after_sketch_prefix(name.map_values(|c: char| ascii_lower(c))) {
        None => None,
        Some(rest) => {
            let t = trim_separators(rest);
            if t.len() == 0 {
                Some(0)
            } else {
                spec_parse_u32(t)
            }
        },
    }
}

proof fn lemma_digits_value_nonneg(s: Seq<char>)
    requires
        all_digits(s),
    ensures
        digits_value(s) >= 0,
    decreases s.len(),
{
    if s.len() > 0 {
        lemma_digits_value_nonneg(s.drop_last());
    }
}

/// `s` read as decimal digits, when they fit in a `u32`.
fn parse_u32(s: &Vec<char>, from: usize) -> (r: Option<u32>)
    requires
        from <= s@.len(),
    ensures
        r == spec_parse_u32(s@.skip(from as int)),
{
    let ghost t = s@.skip(from as int);
    let mut i = from;
    if i < s.len() && s[i] == '+' {
        i = i + 1;
    }
    let ghost d = s@.skip(i as int);
    assert(d =~= if t.len() > 0 && t[0] == '+' { t.drop_first() } else { t });
    if i == s.len() {
        return None;
    }
    let start = i;
    let mut acc: u64 = 0;
    let mut over = false;
    while i < s.len()
        invariant
            start <= i <= s@.len(),
            d == s@.skip(start as int),
            t == s@.skip(from as int),
            d == if t.len() > 0 && t[0] == '+' { t.drop_first() } else { t },
            all_digits(s@.subrange(start as int, i as int)),
            !over ==> acc == digits_value(s@.subrange(start as int, i as int)),
            !over ==> acc <= u32::MAX,
            over ==> digits_value(s@.subrange(start as int, i as int)) > u32::MAX,
        decreases s@.len() - i,
    {
        let c = s[i];
        if c < '0' || c > '9' {
            assert(d[i - start] == c);
            assert(!all_digits(d));
            return None;
        }
        let ghost prefix = s@.subrange(start as int, i as int);
        let ghost next = s@.subrange(start as int, i + 1);
        assert(next.drop_last() =~= prefix);
        assert(all_digits(next));
        proof {
            lemma_digits_value_nonneg(prefix);
        }
        if !over {
            let v = acc * 10 + ((c as u32) - ('0' as u32)) as u64;
            if v > 0xffff_ffff {
                over = true;
            } else {
                acc = v;
            }
        }
        i = i + 1;
    }
    assert(s@.subrange(start as int, i as int) =~= d);
    if over {
        None
    } else {
        Some(acc as u32)
    }
}

/// The index a sketch's name carries: `sketch` is `0`, `sketch_3`,
/// `Sketch3` and `sketch.3` are `3`; `None` for a name of another shape.
pub fn parse_sketch_index(name: &str) -> (r: Option<u32>)
    ensures
        r == spec_parse_sketch_index(name@),
{
    let chars = crate::text::chars_of(name);
    let mut lower: Vec<char> = Vec::new();
    let mut k: usize = 0;
    while k < chars.len()
        invariant
            k <= chars@.len(),
            chars@ == name@,
            lower@ == chars@.take(k as int).map_values(|c: char| ascii_lower(c)),
        decreases chars@.len() - k,
    {
        lower.push(to_ascii_lower(chars[k]));
        k = k + 1;
        assert(lower@ =~= chars@.take(k as int).map_values(|c: char| ascii_lower(c)));
    }
    assert(chars@.take(chars@.len() as int) =~= chars@);
    let ghost l = lower@;
    let n = lower.len();
    let mut i: usize = if n >= 7 && lower[0] == 's' && lower[1] == 'k' && lower[2] == 'e' && lower[3] == 't'
        && lower[4] == 'c' && lower[5] == 'h' && lower[6] == '_' {
        assert(l.take(7) =~= "sketch_"@) by {
            reveal_strlit("sketch_");
        }
        7
    } else if n >= 6 && lower[0] == 's' && lower[1] == 'k' && lower[2] == 'e' && lower[3] == 't' && lower[4] == 'c'
        && lower[5] == 'h' {
        proof {
            reveal_strlit("sketch_");
            reveal_strlit("sketch");
            assert(l.take(6) =~= "sketch"@);
            if n >= 7 && l.take(7) == "sketch_"@ {
                assert(l[6] == "sketch_"@[6]);
            }
        }
        6
    } else {
        proof {
            reveal_strlit("sketch_");
            reveal_strlit("sketch");
            if n >= 7 && l.take(7) == "sketch_"@ {
                assert(l[0] == "sketch_"@[0]);
                assert(l[1] == "sketch_"@[1]);
                assert(l[2] == "sketch_"@[2]);
                assert(l[3] == "sketch_"@[3]);
                assert(l[4] == "sketch_"@[4]);
                assert(l[5] == "sketch_"@[5]);
                assert(l[6] == "sketch_"@[6]);
            }
            if n >= 6 && l.take(6) == "sketch"@ {
                assert(l[0] == "sketch"@[0]);
                assert(l[1] == "sketch"@[1]);
                assert(l[2] == "sketch"@[2]);
                assert(l[3] == "sketch"@[3]);
                assert(l[4] == "sketch"@[4]);
                assert(l[5] == "sketch"@[5]);
            }
        }
        return None;
    };
    let ghost rest = l.skip(i as int);
    assert(after_sketch_prefix(l) == Some(rest));
    while i < n && (lower[i] == '_' || lower[i] == '.' || lower[i] == ' ')
        invariant
            i <= n,
            n == l.len(),
            lower@ == l,
            trim_separators(rest) == trim_separators(l.skip(i as int)),
        decreases n - i,
    {
        assert(l.skip(i as int).drop_first() =~= l.skip(i + 1));
        i = i + 1;
    }
    assert(trim_separators(l.skip(i as int)) == l.skip(i as int));
    if i == n {
        assert(l.skip(i as int).len() == 0);
        Some(0)
    } else {
        parse_u32(&lower, i)
    }
}

/// The highest index among the names of the sketches (nodes of the
/// sketch workbench, `wb.sketch`), if any has one.
pub open spec fn max_sketch_index(nodes: Seq<(String, String)>) -> Option<u32>
    decreases nodes.len(),
{
    if nodes.len() == 0 {
        None
    } else {
        let before = max_sketch_index(nodes.drop_last());
        let here = if nodes.last().0@ == "wb.sketch"@ { spec_parse_sketch_index(nodes.last().1@) } else { None };
        match (before, here) {
            (None, h) => h,
            (b, None) => b,
            (Some(a), Some(b)) => Some(if a < b { b } else { a }),
        }
    }
}

/// The name a new sketch gets: `sketch` in a document with no numbered
/// sketch, else one past the highest index (`sketch_4` after `sketch_3`),
/// held at the largest index there is.
pub open spec fn spec_next_sketch_name(nodes: Seq<(String, String)>) -> Seq<char> {
    match max_sketch_index(nodes) {
        None => "sketch"@,
        Some(m) => "sketch_"@ + decimal_text(if m == u32::MAX { m as nat } else { (m + 1) as nat }),
    }
}

/// The name for a new sketch among the feature tree's nodes, each its
/// workbench id and its name.
pub fn next_sketch_name(nodes: &Vec<(String, String)>) -> (s: String)
    ensures
        s@ == spec_next_sketch_name(nodes@),
{
    let mut max_index: Option<u32> = None;
    let mut i: usize = 0;
    while i < nodes.len()
        invariant
            i <= nodes@.len(),
            max_index == max_sketch_index(nodes@.take(i as int)),
        decreases nodes@.len() - i,
    {
        assert(nodes@.take(i + 1).drop_last() =~= nodes@.take(i as int));
        let here = if str_eq(nodes[i].0.as_str(), "wb.sketch") {
            parse_sketch_index(nodes[i].1.as_str())
        } else {
            None
        };
        max_index = match (max_index, here) {
            (None, h) => h,
            (b, None) => b,
            (Some(a), Some(b)) => Some(if a < b { b } else { a }),
        };
        i = i + 1;
    }
    assert(nodes@.take(nodes@.len() as int) =~= nodes@);
    match max_index {
        None => String::from_str("sketch"),
        Some(m) => {
            let mut s = String::from_str("sketch_");
            proof {
                reveal_strlit("sketch_");
            }
            let next: u32 = if m == u32::MAX { m } else { m + 1 };
            append_str(&mut s, decimal(next as u64).as_str());
            s
        },
    }
}

/// The log line of a carbon copy of sketch `name`: `count` elements, and
/// `constraints` constraints where the copy was a plain translation; a
/// turned copy leaves the constraints behind.
pub open spec fn spec_carbon_copy_log(name: Seq<char>, count: nat, constraints: nat, is_translation: bool) -> Seq<char> {
    if is_translation {
        "Carbon copy of "@ + name + ": "@ + decimal_text(count) + " elements, "@ + decimal_text(constraints)
            + " constraints"@
    } else {
        "Carbon copy of "@ + name + ": "@ + decimal_text(count)
            + " elements; its constraints stay behind, as its axes are turned against this sketch's"@
    }
}

/// The log line of a carbon copy.
pub fn carbon_copy_log(name: &str, count: usize, constraints: usize, is_translation: bool) -> (s: String)
    ensures
        s@ == spec_carbon_copy_log(name@, count as nat, constraints as nat, is_translation),
{
    let mut s = String::from_str("Carbon copy of ");
    append_str(&mut s, name);
    append_str(&mut s, ": ");
    append_str(&mut s, decimal(count as u64).as_str());
    if is_translation {
        append_str(&mut s, " elements, ");
        append_str(&mut s, decimal(constraints as u64).as_str());
        append_str(&mut s, " constraints");
    } else {
        append_str(&mut s, " elements; its constraints stay behind, as its axes are turned against this sketch's");
    }
    s
}


proof fn lemma_digit_char_value(d: nat)
    requires
        d < 10,
    ensures
        '0' <= crate::text::digit_char(d) <= '9',
        crate::text::digit_char(d) as int - '0' as int == d,
{
}

/// The decimal text of `n` reads back as `n`.
proof fn lemma_decimal_reads_back(n: nat)
    ensures
        decimal_text(n).len() > 0,
        all_digits(decimal_text(n)),
        digits_value(decimal_text(n)) == n,
    decreases n,
{
    if n < 10 {
        lemma_digit_char_value(n);
        let t = decimal_text(n);
        assert(t.drop_last() =~= Seq::<char>::empty());
        assert(digits_value(t.drop_last()) == 0);
        assert(digits_value(t) == digits_value(t.drop_last()) * 10 + (t.last() as int - '0' as int));
    } else {
        lemma_decimal_reads_back(n / 10);
        lemma_digit_char_value(n % 10);
        let t = decimal_text(n);
        assert(t.drop_last() =~= decimal_text(n / 10));
        assert(t.last() == crate::text::digit_char(n % 10));
        assert((n / 10) * 10 + n % 10 == n) by (nonlinear_arith);
        assert(digits_value(t) == digits_value(t.drop_last()) * 10 + (t.last() as int - '0' as int));
        assert(digits_value(t.drop_last()) == n / 10);
        assert(all_digits(t)) by {
            assert forall|i: int| 0 <= i < t.len() implies '0' <= #[trigger] t[i] && t[i] <= '9' by {
                if i < t.len() - 1 {
                    assert(t[i] == decimal_text(n / 10)[i]);
                }
            }
        }
    }
}

/// Law: a sketch named `sketch_` and a decimal index reads back as that
/// index, whatever the index.
pub proof fn law_numbered_name_reads_back(n: u32)
    ensures
        spec_parse_sketch_index("sketch_"@ + decimal_text(n as nat)) == Some(n),
{
    reveal_strlit("sketch_");
    reveal_strlit("sketch");
    lemma_decimal_reads_back(n as nat);
    let d = decimal_text(n as nat);
    let name = "sketch_"@ + d;
    let lower = name.map_values(|c: char| ascii_lower(c));
    assert(lower =~= name);
    assert(name.take(7) =~= "sketch_"@);
    assert(name.skip(7) =~= d);
    assert('0' <= d[0] <= '9');
    assert(trim_separators(d) == d);
}

/// The highest index is at least every sketch's index.
proof fn lemma_max_sketch_index(nodes: Seq<(String, String)>, j: int)
    requires
        0 <= j < nodes.len(),
        nodes[j].0@ == "wb.sketch"@,
        spec_parse_sketch_index(nodes[j].1@) is Some,
    ensures
        max_sketch_index(nodes) matches Some(m) && spec_parse_sketch_index(nodes[j].1@)->0 <= m,
    decreases nodes.len(),
{
    if j < nodes.len() - 1 {
        lemma_max_sketch_index(nodes.drop_last(), j);
        assert(nodes.drop_last()[j] == nodes[j]);
    }
}

/// Law: the name a new sketch gets reads back as an index, and that index
/// is past every existing sketch's (where the largest index is not yet
/// taken).
pub proof fn law_next_sketch_name_is_new(nodes: Seq<(String, String)>)
    ensures
        spec_parse_sketch_index(spec_next_sketch_name(nodes)) is Some,
        forall|j: int|
            0 <= j < nodes.len() && nodes[j].0@ == "wb.sketch"@ && (#[trigger] spec_parse_sketch_index(nodes[j].1@)) is Some
                && spec_parse_sketch_index(nodes[j].1@)->0 < u32::MAX ==> spec_parse_sketch_index(nodes[j].1@)->0
                < spec_parse_sketch_index(spec_next_sketch_name(nodes))->0,
{
    match max_sketch_index(nodes) {
        None => {
            reveal_strlit("sketch");
            let name = "sketch"@;
            assert(name.map_values(|c: char| ascii_lower(c)) =~= name);
            assert(name.take(6) =~= "sketch"@);
            assert(name.skip(6) =~= Seq::<char>::empty());
            assert forall|j: int|
                0 <= j < nodes.len() && nodes[j].0@ == "wb.sketch"@ && #[trigger] spec_parse_sketch_index(nodes[j].1@) is Some implies false by {
                lemma_max_sketch_index(nodes, j);
            }
        },
        Some(m) => {
            let next: u32 = if m == u32::MAX { m } else { (m + 1) as u32 };
            law_numbered_name_reads_back(next);
            assert forall|j: int|
                0 <= j < nodes.len() && nodes[j].0@ == "wb.sketch"@ && (#[trigger] spec_parse_sketch_index(nodes[j].1@)) is Some
                    && spec_parse_sketch_index(nodes[j].1@)->0 < u32::MAX implies spec_parse_sketch_index(nodes[j].1@)->0
                    < next by {
                lemma_max_sketch_index(nodes, j);
            }
        },
    }
}

/// What the solver's verdict on a sketch is about.
#[derive(Debug, Clone, Copy, PartialEq, Eq)]
pub enum SolverKind {
    Empty,
    Unanalyzed,
    Conflicting,
    Redundant,
    Fully,
    Under,
}

/// The solver's verdict on the edited sketch, as the panel, the HUD and
/// the status bar show it.
#[derive(Debug, Clone, PartialEq, Eq)]
pub struct SolverVerdict {
    pub kind: SolverKind,
    pub title: String,
    pub body: String,
    pub dof: i32,
    /// Constraints whose geometry a click on the message selects.
    pub offenders: Vec<u128>,
}

/// `n` in decimal, with a minus sign when negative.
pub open spec fn signed_text(n: int) -> Seq<char> {
    if n < 0 {
        seq!['-'] + decimal_text((-n) as nat)
    } else {
        decimal_text(n as nat)
    }
}

fn signed_decimal(n: i32) -> (s: String)
    ensures
        s@ == signed_text(n as int),
{
    if n < 0 {
        let mut s = String::from_str("-");
        proof {
            reveal_strlit("-");
        }
        let m: i64 = -(n as i64);
        append_str(&mut s, decimal(m as u64).as_str());
        assert(s@ =~= signed_text(n as int));
        s
    } else {
        decimal(n as u64)
    }
}

/// The verdict, from what the last solve and analysis found: an empty
/// sketch first, then one too large to analyse, conflicts (or a solve
/// that did not converge), redundancy, full constraint, and else the
/// degrees of freedom that remain.
pub open spec fn spec_verdict(
    has_geometry: bool,
    has_constraints: bool,
    not_converged: bool,
    analyzed: bool,
    dof: i32,
    conflicting: Seq<u128>,
    redundant: Seq<u128>,
) -> (SolverKind, Seq<char>, Seq<char>, Seq<u128>) {
    if !has_geometry {
        (SolverKind::Empty, "Empty sketch"@, "Draw geometry with the tools above."@, Seq::empty())
    } else if !analyzed {
        (SolverKind::Unanalyzed, "Not analyzed"@, "Too many constraints to check for conflicts."@, Seq::empty())
    } else if not_converged || conflicting.len() > 0 {
        (
            SolverKind::Conflicting,
            "Conflicting constraints"@,
            "Constraints contradict each other. Click to select their geometry."@,
            conflicting,
        )
    } else if redundant.len() > 0 {
        (
            SolverKind::Redundant,
            "Redundant constraints"@,
            "Some constraints add nothing the others do not already enforce."@,
            redundant,
        )
    } else if dof == 0 && has_constraints {
        (SolverKind::Fully, "Fully constrained"@, "Sketch has 0 degrees of freedom."@, Seq::empty())
    } else {
        (
            SolverKind::Under,
            "Under-constrained"@,
            signed_text(dof as int) + " degrees of freedom remain. Add dimensions or constraints."@,
            Seq::empty(),
        )
    }
}

/// The solver's verdict on a sketch (whether it has geometry and
/// constraints), from the last solve (`not_converged`) and the last
/// analysis: whether it ran, the degrees of freedom, and the conflicting
/// and redundant constraints it found.
pub fn solver_verdict(
    has_geometry: bool,
    has_constraints: bool,
    not_converged: bool,
    analyzed: bool,
    dof: i32,
    conflicting: Vec<u128>,
    redundant: Vec<u128>,
) -> (v: SolverVerdict)
    ensures
        (v.kind, v.title@, v.body@, v.offenders@) == spec_verdict(
            has_geometry,
            has_constraints,
            not_converged,
            analyzed,
            dof,
            conflicting@,
            redundant@,
        ),
        v.dof == dof,
{
    if !has_geometry {
        SolverVerdict {
            kind: SolverKind::Empty,
            title: String::from_str("Empty sketch"),
            body: String::from_str("Draw geometry with the tools above."),
            dof,
            offenders: Vec::new(),
        }
    } else if !analyzed {
        SolverVerdict {
            kind: SolverKind::Unanalyzed,
            title: String::from_str("Not analyzed"),
            body: String::from_str("Too many constraints to check for conflicts."),
            dof,
            offenders: Vec::new(),
        }
    } else if not_converged || conflicting.len() > 0 {
        SolverVerdict {
            kind: SolverKind::Conflicting,
            title: String::from_str("Conflicting constraints"),
            body: String::from_str("Constraints contradict each other. Click to select their geometry."),
            dof,
            offenders: conflicting,
        }
    } else if redundant.len() > 0 {
        SolverVerdict {
            kind: SolverKind::Redundant,
            title: String::from_str("Redundant constraints"),
            body: String::from_str("Some constraints add nothing the others do not already enforce."),
            dof,
            offenders: redundant,
        }
    } else if dof == 0 && has_constraints {
        SolverVerdict {
            kind: SolverKind::Fully,
            title: String::from_str("Fully constrained"),
            body: String::from_str("Sketch has 0 degrees of freedom."),
            dof,
            offenders: Vec::new(),
        }
    } else {
        let mut body = signed_decimal(dof);
        append_str(&mut body, " degrees of freedom remain. Add dimensions or constraints.");
        SolverVerdict {
            kind: SolverKind::Under,
            title: String::from_str("Under-constrained"),
            body,
            dof,
            offenders: Vec::new(),
        }
    }
}

/// Whether `name` is a sketch tool's: it starts with `sketch.`.
pub open spec fn is_sketch_tool(name: Seq<char>) -> bool {
    name.len() >= 7 && name.take(7) == "sketch."@
}

fn starts_with_sketch(name: &str) -> (b: bool)
    ensures
        b == is_sketch_tool(name@),
{
    let c = crate::text::chars_of(name);
    proof {
        reveal_strlit("sketch.");
    }
    if c.len() < 7 {
        return false;
    }
    let b = c[0] == 's' && c[1] == 'k' && c[2] == 'e' && c[3] == 't' && c[4] == 'c' && c[5] == 'h' && c[6] == '.';
    proof {
        if b {
            assert(name@.take(7) =~= "sketch."@);
        } else if name@.take(7) == "sketch."@ {
            assert(name@.take(7)[0] == 's');
            assert(name@.take(7)[1] == 'k');
            assert(name@.take(7)[2] == 'e');
            assert(name@.take(7)[3] == 't');
            assert(name@.take(7)[4] == 'c');
            assert(name@.take(7)[5] == 'h');
            assert(name@.take(7)[6] == '.');
        }
    }
    b
}

/// The tool a base tool and its variant fold into; `None` for a tool that
/// is not the sketcher's.
pub open spec fn spec_canonical_tool(base: Seq<char>, variant: Option<Seq<char>>) -> Option<Seq<char>> {
    if !is_sketch_tool(base) {
        None
    } else if base == "sketch.arc"@ && variant == Some("3pt"@) {
        Some("sketch.arc3"@)
    } else if base == "sketch.circle"@ && variant == Some("3pt"@) {
        Some("sketch.circle3"@)
    } else if base == "sketch.ellipse"@ && variant == Some("3pt"@) {
        Some("sketch.ellipse3"@)
    } else if base == "sketch.ellipse"@ && variant == Some("arc"@) {
        Some("sketch.ellipse_arc"@)
    } else if base == "sketch.rect"@ && variant == Some("center"@) {
        Some("sketch.rect_center"@)
    } else if base == "sketch.rect"@ && variant == Some("rounded"@) {
        Some("sketch.rect_rounded"@)
    } else if base == "sketch.slot"@ && variant == Some("arc"@) {
        Some("sketch.arc_slot"@)
    } else if base == "sketch.fillet"@ && variant == Some("chamfer"@) {
        Some("sketch.chamfer"@)
    } else if base == "sketch.copy"@ {
        Some("sketch.translate"@)
    } else {
        Some(base)
    }
}

/// The polygon's sides a variant asks for: its number, held between 3 and
/// 12; the old count where the variant is no number.
pub open spec fn sides_after(base: Seq<char>, variant: Option<Seq<char>>, sides: u32) -> u32 {
    if is_sketch_tool(base) && base == "sketch.polygon"@ {
        match variant {
            Some(v) => match spec_parse_u32(v) {
                Some(n) => if n < 3 { 3 } else if n > 12 { 12 } else { n },
                None => sides,
            },
            None => sides,
        }
    } else {
        sides
    }
}

/// Whether a spline is periodic after a variant: `periodic` says so, any
/// other variant says not.
pub open spec fn periodic_after(base: Seq<char>, variant: Option<Seq<char>>, periodic: bool) -> bool {
    if is_sketch_tool(base) && base == "sketch.bspline"@ {
        match variant {
            Some(v) => v == "periodic"@,
            None => periodic,
        }
    } else {
        periodic
    }
}

fn opt_eq(variant: Option<&str>, text: &str) -> (b: bool)
    ensures
        b == (match variant {
            Some(v) => v@ == text@,
            None => false,
        }),
{
    match variant {
        Some(v) => str_eq(v, text),
        None => false,
    }
}

/// Fold a tool and its variant (as the toolbar splits a tool id) into the
/// tool it specialises, applying the variant's parameters: a polygon's
/// sides, a spline's periodicity. `None` for a tool that is not the
/// sketcher's.
pub fn canonical_tool(
    base: &str,
    variant: Option<&str>,
    polygon_sides: &mut u32,
    bspline_periodic: &mut bool,
) -> (r: Option<String>)
    ensures
        ({
            let v = match variant {
                Some(v) => Some(v@),
                None => None,
            };
            &&& match r {
                Some(t) => spec_canonical_tool(base@, v) == Some(t@),
                None => spec_canonical_tool(base@, v) is None,
            }
            &&& *final(polygon_sides) == sides_after(base@, v, *old(polygon_sides))
            &&& *final(bspline_periodic) == periodic_after(base@, v, *old(bspline_periodic))
        }),
{
    if !starts_with_sketch(base) {
        return None;
    }
    let text: &str = if str_eq(base, "sketch.arc") && opt_eq(variant, "3pt") {
        "sketch.arc3"
    } else if str_eq(base, "sketch.circle") && opt_eq(variant, "3pt") {
        "sketch.circle3"
    } else if str_eq(base, "sketch.ellipse") && opt_eq(variant, "3pt") {
        "sketch.ellipse3"
    } else if str_eq(base, "sketch.ellipse") && opt_eq(variant, "arc") {
        "sketch.ellipse_arc"
    } else if str_eq(base, "sketch.rect") && opt_eq(variant, "center") {
        "sketch.rect_center"
    } else if str_eq(base, "sketch.rect") && opt_eq(variant, "rounded") {
        "sketch.rect_rounded"
    } else if str_eq(base, "sketch.slot") && opt_eq(variant, "arc") {
        "sketch.arc_slot"
    } else if str_eq(base, "sketch.fillet") && opt_eq(variant, "chamfer") {
        "sketch.chamfer"
    } else if str_eq(base, "sketch.copy") {
        "sketch.translate"
    } else {
        base
    };
    if str_eq(base, "sketch.polygon") {
        if let Some(v) = variant {
            let digits = crate::text::chars_of(v);
            if let Some(n) = parse_u32(&digits, 0) {
                proof {
                    assert(digits@.skip(0) =~= v@);
                }
                *polygon_sides = if n < 3 { 3 } else if n > 12 { 12 } else { n };
            } else {
                proof {
                    assert(digits@.skip(0) =~= v@);
                }
            }
        }
    }
    if str_eq(base, "sketch.bspline") {
        if let Some(v) = variant {
            *bspline_periodic = str_eq(v, "periodic");
        }
    }
    Some(text.to_owned())
}

/// What of the bench's state decides whether a tool can be used.
#[derive(Debug, Clone, Copy, PartialEq, Eq, Default)]
pub struct BenchState {
    /// A sketch is open for editing.
    pub editing: bool,
    /// A body is selected in the document.
    pub body_selected: bool,
    /// The document's active object is a sketch.
    pub sketch_active: bool,
    /// A face is selected.
    pub face_selected: bool,
    /// Some geometry is selected.
    pub geometry_selected: bool,
    /// Some constraint is selected.
    pub constraints_selected: bool,
    /// The last diagnosis found conflicting constraints.
    pub conflicting: bool,
    /// The last diagnosis found redundant constraints.
    pub redundant: bool,
}

/// What follows `sketch.constrain.` in a constraint tool's id.
pub open spec fn constrain_rest(tool: Seq<char>) -> Option<Seq<char>> {
    let p = "sketch.constrain."@;
    if tool.len() >= p.len() && tool.take(p.len() as int) == p {
        Some(tool.skip(p.len() as int))
    } else {
        None
    }
}

/// Whether a tool can be used: a constraint tool (by its variant, else
/// what follows `sketch.constrain.`) where the selection takes it, the
/// dimension tool where the selection takes some dimension, the rest by
/// what each needs; any other tool while a sketch is open.
pub open spec fn spec_tool_enabled(tool: Seq<char>, variant: Option<Seq<char>>, shape: SelectionShape, st: BenchState) -> bool {
    match constrain_rest(tool) {
        Some(rest) => {
            let which = match variant {
                Some(v) => v,
                None => rest,
            };
            if which == "dimension"@ {
                st.editing && spec_dimension_for(shape) is Some
            } else {
                st.editing && spec_fits(which, shape)
            }
        },
        None => if tool == "sketch.create"@ {
            st.body_selected
        } else if tool == "sketch.edit"@ {
            !st.editing && st.sketch_active
        } else if tool == "sketch.attach"@ {
            st.editing && st.face_selected
        } else if tool == "sketch.array"@ {
            st.editing && st.geometry_selected
        } else if tool == "sketch.toggle_driving"@ || tool == "sketch.toggle_active"@ {
            st.editing && st.constraints_selected
        } else if tool == "sketch.select_conflicting"@ {
            st.editing && st.conflicting
        } else if tool == "sketch.select_redundant"@ {
            st.editing && st.redundant
        } else {
            st.editing
        },
    }
}

/// The text of `c` from `from` on.
fn chars_from(c: &Vec<char>, from: usize) -> (s: String)
    requires
        from <= c@.len(),
    ensures
        s@ == c@.skip(from as int),
{
    let mut s = String::new();
    let mut i: usize = from;
    assert(s@ =~= c@.subrange(from as int, from as int));
    while i < c.len()
        invariant
            from <= i <= c@.len(),
            s@ == c@.subrange(from as int, i as int),
        decreases c@.len() - i,
    {
        crate::text::push_char(&mut s, c[i]);
        i = i + 1;
        assert(s@ =~= c@.subrange(from as int, i as int));
    }
    s
}

/// Whether a tool can be used (`spec_tool_enabled`); `variant` is the
/// variant the toolbar reads off the tool's id.
pub fn tool_enabled(tool: &str, variant: Option<&str>, shape: &SelectionShape, st: &BenchState) -> (b: bool)
    ensures
        b == spec_tool_enabled(
            tool@,
            match variant {
                Some(v) => Some(v@),
                None => None,
            },
            *shape,
            *st,
        ),
{
    let prefix = crate::text::chars_of("sketch.constrain.");
    let c = crate::text::chars_of(tool);
    proof {
        reveal_strlit("sketch.constrain.");
    }
    let mut is_constrain = c.len() >= prefix.len();
    let mut i: usize = 0;
    while is_constrain && i < prefix.len()
        invariant
            i <= prefix@.len(),
            prefix@ == "sketch.constrain."@,
            c@ == tool@,
            is_constrain ==> c@.len() >= prefix@.len() && forall|j: int| 0 <= j < i ==> c@[j] == prefix@[j],
            !is_constrain ==> constrain_rest(tool@) is None,
        decreases prefix@.len() - i,
    {
        if c[i] != prefix[i] {
            is_constrain = false;
            proof {
                if tool@.len() >= prefix@.len() && tool@.take(prefix@.len() as int) == prefix@ {
                    assert(tool@.take(prefix@.len() as int)[i as int] == tool@[i as int]);
                }
            }
        }
        i = i + 1;
    }
    if is_constrain {
        assert(tool@.take(prefix@.len() as int) =~= prefix@);
        let rest = chars_from(&c, prefix.len());
        let which: &str = match variant {
            Some(v) => v,
            None => rest.as_str(),
        };
        if str_eq(which, "dimension") {
            return st.editing && crate::constrain::dimension_for(shape).is_some();
        }
        return st.editing && crate::constrain::fits(which, shape);
    }
    if str_eq(tool, "sketch.create") {
        st.body_selected
    } else if str_eq(tool, "sketch.edit") {
        !st.editing && st.sketch_active
    } else if str_eq(tool, "sketch.attach") {
        st.editing && st.face_selected
    } else if str_eq(tool, "sketch.array") {
        st.editing && st.geometry_selected
    } else if str_eq(tool, "sketch.toggle_driving") || str_eq(tool, "sketch.toggle_active") {
        st.editing && st.constraints_selected
    } else if str_eq(tool, "sketch.select_conflicting") {
        st.editing && st.conflicting
    } else if str_eq(tool, "sketch.select_redundant") {
        st.editing && st.redundant
    } else {
        st.editing
    }
}
} // verus!
