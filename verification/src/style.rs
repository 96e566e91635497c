//! Names and icons shared by the viewport glyphs and the task panel: which
//! icon a constraint draws with, and how an element is called in a list.

use vstd::prelude::*;

use crate::ident::{hyphenated, id_text};
use crate::sketch::{
    has_id, is_first_with_id, lemma_lookup_at, lookup, ConstraintKind, GeometryElement, Reference, Sketch,
};
use crate::text::{append_str, chars_of, decimal, decimal_text, push_char};

verus! {

/// The design set's icon for a constraint kind.
pub open spec fn spec_constraint_icon(kind: ConstraintKind) -> Seq<char> {
    match kind {
        ConstraintKind::FixedPoint { .. } => "constraint-lock"@,
        ConstraintKind::Coincident { .. } => "constraint-coincident"@,
        ConstraintKind::Parallel { .. } => "constraint-parallel"@,
        ConstraintKind::Perpendicular { .. } => "constraint-perpendicular"@,
        ConstraintKind::EqualLength { .. } | ConstraintKind::EqualRadius { .. } => "constraint-equal"@,
        ConstraintKind::Length { .. } | ConstraintKind::Distance { .. } => "constraint-distance"@,
        ConstraintKind::Radius { .. } => "constraint-radius"@,
        ConstraintKind::Diameter { .. } => "constraint-diameter"@,
        ConstraintKind::PointOnLine { .. }
        | ConstraintKind::PointOnCircle { .. }
        | ConstraintKind::PointOnEllipse { .. }
        | ConstraintKind::Midpoint { .. } => "constraint-point-on-object"@,
        ConstraintKind::Horizontal { .. } => "constraint-horizontal"@,
        ConstraintKind::Vertical { .. } => "constraint-vertical"@,
        ConstraintKind::Block { .. } => "constraint-block"@,
        ConstraintKind::DistanceX { .. } => "constraint-distance-x"@,
        ConstraintKind::DistanceY { .. } => "constraint-distance-y"@,
        ConstraintKind::Angle { .. } | ConstraintKind::AngleToAxis { .. } => "constraint-angle"@,
        ConstraintKind::Tangent { .. } => "constraint-tangent"@,
        ConstraintKind::Symmetric { .. } | ConstraintKind::SymmetricAboutPoint { .. } => "constraint-symmetric"@,
    }
}

/// The design set's icon for a constraint kind.
pub fn constraint_icon(kind: &ConstraintKind) -> (s: &'static str)
    ensures
        s@ == spec_constraint_icon(*kind),
{
    match kind {
        ConstraintKind::FixedPoint { .. } => "constraint-lock",
        ConstraintKind::Coincident { .. } => "constraint-coincident",
        ConstraintKind::Parallel { .. } => "constraint-parallel",
        ConstraintKind::Perpendicular { .. } => "constraint-perpendicular",
        ConstraintKind::EqualLength { .. } | ConstraintKind::EqualRadius { .. } => "constraint-equal",
        ConstraintKind::Length { .. } | ConstraintKind::Distance { .. } => "constraint-distance",
        ConstraintKind::Radius { .. } => "constraint-radius",
        ConstraintKind::Diameter { .. } => "constraint-diameter",
        ConstraintKind::PointOnLine { .. }
        | ConstraintKind::PointOnCircle { .. }
        | ConstraintKind::PointOnEllipse { .. }
        | ConstraintKind::Midpoint { .. } => "constraint-point-on-object",
        ConstraintKind::Horizontal { .. } => "constraint-horizontal",
        ConstraintKind::Vertical { .. } => "constraint-vertical",
        ConstraintKind::Block { .. } => "constraint-block",
        ConstraintKind::DistanceX { .. } => "constraint-distance-x",
        ConstraintKind::DistanceY { .. } => "constraint-distance-y",
        ConstraintKind::Angle { .. } | ConstraintKind::AngleToAxis { .. } => "constraint-angle",
        ConstraintKind::Tangent { .. } => "constraint-tangent",
        ConstraintKind::Symmetric { .. } | ConstraintKind::SymmetricAboutPoint { .. } => "constraint-symmetric",
    }
}

/// The design set's icon for a geometry element.
pub open spec fn spec_element_icon(element: GeometryElement) -> Seq<char> {
    match element {
        GeometryElement::Point(_) => "point"@,
        GeometryElement::Line(_) => "line"@,
        GeometryElement::Arc(_) => "arc"@,
        GeometryElement::Circle(_) => "circle"@,
        GeometryElement::Ellipse(_) => "ellipse"@,
        GeometryElement::BSpline(_) => "bspline"@,
    }
}

/// The design set's icon for a geometry element.
pub fn element_icon(element: &GeometryElement) -> (s: &'static str)
    ensures
        s@ == spec_element_icon(*element),
{
    match element {
        GeometryElement::Point(_) => "point",
        GeometryElement::Line(_) => "line",
        GeometryElement::Arc(_) => "arc",
        GeometryElement::Circle(_) => "circle",
        GeometryElement::Ellipse(_) => "ellipse",
        GeometryElement::BSpline(_) => "bspline",
    }
}

/// The element's kind as a word.
pub open spec fn spec_element_kind(element: GeometryElement) -> Seq<char> {
    match element {
        GeometryElement::Point(_) => "Point"@,
        GeometryElement::Line(_) => "Line"@,
        GeometryElement::Arc(_) => "Arc"@,
        GeometryElement::Circle(_) => "Circle"@,
        GeometryElement::Ellipse(_) => "Ellipse"@,
        GeometryElement::BSpline(_) => "B-spline"@,
    }
}

/// The element's kind as a word.
pub fn element_kind(element: &GeometryElement) -> (s: &'static str)
    ensures
        s@ == spec_element_kind(*element),
{
    match element {
        GeometryElement::Point(_) => "Point",
        GeometryElement::Line(_) => "Line",
        GeometryElement::Arc(_) => "Arc",
        GeometryElement::Circle(_) => "Circle",
        GeometryElement::Ellipse(_) => "Ellipse",
        GeometryElement::BSpline(_) => "B-spline",
    }
}

/// Which variant an element is, as a number.
pub open spec fn kind_tag(e: GeometryElement) -> int {
    match e {
        GeometryElement::Point(_) => 0,
        GeometryElement::Line(_) => 1,
        GeometryElement::Arc(_) => 2,
        GeometryElement::Circle(_) => 3,
        GeometryElement::Ellipse(_) => 4,
        GeometryElement::BSpline(_) => 5,
    }
}

fn same_kind(a: &GeometryElement, b: &GeometryElement) -> (r: bool)
    ensures
        r == (kind_tag(*a) == kind_tag(*b)),
{
    match (a, b) {
        (GeometryElement::Point(_), GeometryElement::Point(_)) => true,
        (GeometryElement::Line(_), GeometryElement::Line(_)) => true,
        (GeometryElement::Arc(_), GeometryElement::Arc(_)) => true,
        (GeometryElement::Circle(_), GeometryElement::Circle(_)) => true,
        (GeometryElement::Ellipse(_), GeometryElement::Ellipse(_)) => true,
        (GeometryElement::BSpline(_), GeometryElement::BSpline(_)) => true,
        _ => false,
    }
}

/// How many elements of `s` are of the variant numbered `tag`.
pub open spec fn count_kind(s: Seq<GeometryElement>, tag: int) -> nat
    decreases s.len(),
{
    if s.len() == 0 {
        0
    } else {
        count_kind(s.drop_last(), tag) + if kind_tag(s.last()) == tag { 1nat } else { 0nat }
    }
}

/// `count_kind` never exceeds the length.
proof fn lemma_count_kind_bound(s: Seq<GeometryElement>, tag: int)
    ensures
        count_kind(s, tag) <= s.len(),
    decreases s.len(),
{
    if s.len() > 0 {
        lemma_count_kind_bound(s.drop_last(), tag);
    }
}

/// "Line 3": an element's kind and its 1-based ordinal among elements of
/// that kind, in sketch order; the label of the origin or an axis; or
/// "Element" and the first eight digits of an id the sketch does not have.
pub open spec fn spec_element_name(sketch: Sketch, id: u128) -> Seq<char> {
    let g = sketch.geometry@;
    match Reference::spec_of(id) {
        Some(r) => r.spec_label(),
        None => if has_id(g, id) {
            let i = choose|i: int| is_first_with_id(g, id, i);
            spec_element_kind(g[i]) + " "@ + decimal_text(count_kind(g.take(i + 1), kind_tag(g[i])))
        } else {
            "Element "@ + hyphenated(id).take(8)
        },
    }
}

/// "Line 3": the element's kind and its 1-based ordinal among elements of
/// that kind, in sketch order.
pub fn element_name(sketch: &Sketch, id: u128) -> (s: String)
    ensures
        s@ == spec_element_name(*sketch, id),
{
    if let Some(reference) = Reference::of(id) {
        return reference.label().to_owned();
    }
    let ghost g = sketch.geometry@;
    let target = sketch.get_geometry(id);
    let mut ordinal: u64 = 0;
    let mut i: usize = 0;
    while i < sketch.geometry.len()
        invariant
            i <= g.len(),
            g == sketch.geometry@,
            g.len() == sketch.geometry@.len(),
            Reference::spec_of(id) is None,
            forall|j: int| 0 <= j < i ==> (#[trigger] g[j]).spec_id() != id,
            match target {
                Some(t) => lookup(g, id) == Some(*t) && ordinal == count_kind(g.take(i as int), kind_tag(*t)),
                None => lookup(g, id) is None,
            },
            ordinal <= i,
        decreases g.len() - i,
    {
        let e = &sketch.geometry[i];
        proof {
            assert(g.take(i + 1).drop_last() =~= g.take(i as int));
        }
        let same = match target {
            Some(t) => same_kind(t, e),
            None => false,
        };
        if same {
            ordinal = ordinal + 1;
        }
        if e.id() == id {
            proof {
                lemma_lookup_at(g, id, i as int);
                assert(is_first_with_id(g, id, i as int));
                let k = choose|k: int| is_first_with_id(g, id, k);
                if k < i {
                    assert(g[k].spec_id() != id);
                }
                if i < k {
                    assert(g[i as int].spec_id() != id);
                }
                assert(k == i);
                assert(target matches Some(t) && *t == g[i as int]);
                assert(ordinal == count_kind(g.take(i + 1), kind_tag(g[i as int])));
            }
            let mut name = String::new();
            append_str(&mut name, element_kind(e));
            append_str(&mut name, " ");
            let digits = decimal(ordinal);
            append_str(&mut name, digits.as_str());
            assert(name@ =~= spec_element_kind(g[i as int]) + " "@ + decimal_text(
                count_kind(g.take(i + 1), kind_tag(g[i as int])),
            ));
            return name;
        }
        i = i + 1;
    }
    assert(!has_id(g, id));
    let text = id_text(id);
    let chars = chars_of(text.as_str());
    let mut name = String::new();
    append_str(&mut name, "Element ");
    let mut k: usize = 0;
    while k < 8
        invariant
            k <= 8,
            chars@ == hyphenated(id),
            name@ == "Element "@ + hyphenated(id).take(k as int),
        decreases 8 - k,
    {
        push_char(&mut name, chars[k]);
        k = k + 1;
        assert(name@ =~= "Element "@ + hyphenated(id).take(k as int));
    }
    name
}


/// Which elements the elements panel lists.
#[derive(Debug, Clone, Copy, PartialEq, Eq)]
pub enum ElementFilter {
    All,
    Normal,
    Construction,
}

impl ElementFilter {
    pub open spec fn spec_accepts(self, sketch: Sketch, id: u128) -> bool {
        match self {
            ElementFilter::All => true,
            ElementFilter::Normal => !sketch.construction@.contains(id),
            ElementFilter::Construction => sketch.construction@.contains(id),
        }
    }

    /// Whether the panel lists element `id` under this filter.
    pub fn accepts(self, sketch: &Sketch, id: u128) -> (b: bool)
        ensures
            b == self.spec_accepts(*sketch, id),
    {
        match self {
            ElementFilter::All => true,
            ElementFilter::Normal => !sketch.is_construction(id),
            ElementFilter::Construction => sketch.is_construction(id),
        }
    }
}

impl Default for ElementFilter {
    fn default() -> (f: Self)
        ensures
            f == ElementFilter::All,
    {
        ElementFilter::All
    }
}
} // verus!
