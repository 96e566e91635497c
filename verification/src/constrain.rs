//! Constraint tools: which constraints a toolbar button creates for the
//! current selection. The buttons are enabled by the shape of the
//! selection; dimensional kinds are created at the measured value so the
//! geometry never jumps.

use std::collections::HashSet;
use vstd::prelude::*;
use vstd::std_specs::hash::*;

use crate::sketch::{
    id_of, spec_with_stored_value, with_stored_value, AxisDirection, ConstraintKind, GeometryElement,
    Sketch, Vec2D, F32_ZERO, ORIGIN_ID, X_AXIS_ID, Y_AXIS_ID,
};
use crate::text::str_eq;

verus! {

broadcast use {vstd::std_specs::hash::group_hash_axioms, vstd::seq_lib::group_seq_properties};

/// The selection sorted by element kind, in sketch order; the origin and
/// the axes, when selected, come last in that order.
#[derive(Debug, Clone, PartialEq, Eq)]
pub struct SelectionShape {
    pub all: Vec<u128>,
    pub points: Vec<u128>,
    pub lines: Vec<u128>,
    /// Circles and arcs.
    pub circles: Vec<u128>,
    pub ellipses: Vec<u128>,
}

/// Which elements a list of the shape gathers: every one, points, lines,
/// circles and arcs, or ellipses.
#[derive(Debug, Clone, Copy, PartialEq, Eq)]
pub enum ShapeClass {
    All,
    Points,
    Lines,
    Circles,
    Ellipses,
}

/// Whether `g` belongs to class `class`.
pub open spec fn in_class(g: GeometryElement, class: ShapeClass) -> bool {
    match class {
        ShapeClass::All => true,
        ShapeClass::Points => g is Point,
        ShapeClass::Lines => g is Line,
        ShapeClass::Circles => g is Circle || g is Arc,
        ShapeClass::Ellipses => g is Ellipse,
    }
}

/// Keeps the selected elements of a class.
pub open spec fn picked(selected: Set<u128>, class: ShapeClass) -> spec_fn(GeometryElement) -> bool {
    |g: GeometryElement| selected.contains(g.spec_id()) && in_class(g, class)
}

/// The reference ids a class gathers from the selection, in the order
/// origin, X axis, Y axis.
pub open spec fn picked_references(selected: Set<u128>, class: ShapeClass) -> Seq<u128> {
    let o = if selected.contains(ORIGIN_ID) && (class == ShapeClass::All || class == ShapeClass::Points) {
        seq![ORIGIN_ID]
    } else {
        Seq::empty()
    };
    let x = if selected.contains(X_AXIS_ID) && (class == ShapeClass::All || class == ShapeClass::Lines) {
        seq![X_AXIS_ID]
    } else {
        Seq::empty()
    };
    let y = if selected.contains(Y_AXIS_ID) && (class == ShapeClass::All || class == ShapeClass::Lines) {
        seq![Y_AXIS_ID]
    } else {
        Seq::empty()
    };
    o + x + y
}

/// The ids of one list of the shape of `selected` in `geometry`.
pub open spec fn shape_list(
    geometry: Seq<GeometryElement>,
    selected: Set<u128>,
    class: ShapeClass,
) -> Seq<u128> {
    geometry.filter(picked(selected, class)).map_values(id_of()) + picked_references(selected, class)
}

impl SelectionShape {
    /// The shape `of` gives for `selected` in `geometry`.
    pub open spec fn spec_of(self, geometry: Seq<GeometryElement>, selected: Set<u128>) -> bool {
        &&& self.all@ == shape_list(geometry, selected, ShapeClass::All)
        &&& self.points@ == shape_list(geometry, selected, ShapeClass::Points)
        &&& self.lines@ == shape_list(geometry, selected, ShapeClass::Lines)
        &&& self.circles@ == shape_list(geometry, selected, ShapeClass::Circles)
        &&& self.ellipses@ == shape_list(geometry, selected, ShapeClass::Ellipses)
    }

    /// Exactly `points` points, `lines` lines, `circles` circles and
    /// `ellipses` ellipses, and nothing else.
    pub open spec fn spec_only(self, points: int, lines: int, circles: int, ellipses: int) -> bool {
        &&& self.points@.len() == points
        &&& self.lines@.len() == lines
        &&& self.circles@.len() == circles
        &&& self.ellipses@.len() == ellipses
        &&& self.all@.len() == points + lines + circles + ellipses
    }

    /// An empty selection.
    pub fn new() -> (s: Self)
        ensures
            s.all@.len() == 0,
            s.points@.len() == 0,
            s.lines@.len() == 0,
            s.circles@.len() == 0,
            s.ellipses@.len() == 0,
    {
        SelectionShape {
            all: Vec::new(),
            points: Vec::new(),
            lines: Vec::new(),
            circles: Vec::new(),
            ellipses: Vec::new(),
        }
    }

    /// The selection sorted by element kind, in sketch order.
    pub fn of(sketch: &Sketch, selected: &HashSet<u128>) -> (shape: Self)
        ensures
            shape.spec_of(sketch.geometry@, selected@),
    {
        let ghost geometry = sketch.geometry@;
        let ghost sel = selected@;
        let mut shape = Self::new();
        let mut i: usize = 0;
        while i < sketch.geometry.len()
            invariant
                i <= geometry.len(),
                geometry == sketch.geometry@,
                sel == selected@,
                shape.all@ == geometry.take(i as int).filter(picked(sel, ShapeClass::All)).map_values(id_of()),
                shape.points@ == geometry.take(i as int).filter(picked(sel, ShapeClass::Points)).map_values(id_of()),
                shape.lines@ == geometry.take(i as int).filter(picked(sel, ShapeClass::Lines)).map_values(id_of()),
                shape.circles@ == geometry.take(i as int).filter(picked(sel, ShapeClass::Circles)).map_values(id_of()),
                shape.ellipses@ == geometry.take(i as int).filter(picked(sel, ShapeClass::Ellipses)).map_values(
                    id_of(),
                ),
            decreases geometry.len() - i,
        {
            let g = &sketch.geometry[i];
            let id = g.id();
            proof {
                let pre = geometry.take(i as int);
                assert(geometry.take(i + 1) =~= pre.push(geometry[i as int]));
                pre.lemma_filter_push(geometry[i as int], picked(sel, ShapeClass::All));
                pre.lemma_filter_push(geometry[i as int], picked(sel, ShapeClass::Points));
                pre.lemma_filter_push(geometry[i as int], picked(sel, ShapeClass::Lines));
                pre.lemma_filter_push(geometry[i as int], picked(sel, ShapeClass::Circles));
                pre.lemma_filter_push(geometry[i as int], picked(sel, ShapeClass::Ellipses));
            }
            if selected.contains(&id) {
                shape.all.push(id);
                match g {
                    GeometryElement::Point(_) => shape.points.push(id),
                    GeometryElement::Line(_) => shape.lines.push(id),
                    GeometryElement::Circle(_) | GeometryElement::Arc(_) => shape.circles.push(id),
                    GeometryElement::Ellipse(_) => shape.ellipses.push(id),
                    GeometryElement::BSpline(_) => {},
                }
            }
            i = i + 1;
            proof {
                let now = geometry.take(i as int);
                assert(shape.all@ =~= now.filter(picked(sel, ShapeClass::All)).map_values(id_of()));
                assert(shape.points@ =~= now.filter(picked(sel, ShapeClass::Points)).map_values(id_of()));
                assert(shape.lines@ =~= now.filter(picked(sel, ShapeClass::Lines)).map_values(id_of()));
                assert(shape.circles@ =~= now.filter(picked(sel, ShapeClass::Circles)).map_values(id_of()));
                assert(shape.ellipses@ =~= now.filter(picked(sel, ShapeClass::Ellipses)).map_values(id_of()));
            }
        }
        assert(geometry.take(geometry.len() as int) =~= geometry);
        // The origin and the axes hold no entry in `geometry`, but they take
        // constraints like the geometry that does. They come last and in a
        // fixed order, so a selection reads the same every time.
        let ghost before = shape;
        if selected.contains(&ORIGIN_ID) {
            shape.all.push(ORIGIN_ID);
            shape.points.push(ORIGIN_ID);
        }
        if selected.contains(&X_AXIS_ID) {
            shape.all.push(X_AXIS_ID);
            shape.lines.push(X_AXIS_ID);
        }
        if selected.contains(&Y_AXIS_ID) {
            shape.all.push(Y_AXIS_ID);
            shape.lines.push(Y_AXIS_ID);
        }
        assert(shape.all@ =~= before.all@ + picked_references(sel, ShapeClass::All));
        assert(shape.points@ =~= before.points@ + picked_references(sel, ShapeClass::Points));
        assert(shape.lines@ =~= before.lines@ + picked_references(sel, ShapeClass::Lines));
        assert(shape.circles@ =~= before.circles@ + picked_references(sel, ShapeClass::Circles));
        assert(shape.ellipses@ =~= before.ellipses@ + picked_references(sel, ShapeClass::Ellipses));
        shape
    }

    fn total(&self) -> (n: usize)
        ensures
            n == self.all@.len(),
    {
        self.all.len()
    }

    fn only(&self, points: usize, lines: usize, circles: usize, ellipses: usize) -> (b: bool)
        ensures
            b == self.spec_only(points as int, lines as int, circles as int, ellipses as int),
    {
        self.points.len() == points && self.lines.len() == lines && self.circles.len() == circles
            && self.ellipses.len() == ellipses && self.all.len() as u128 == points as u128
            + lines as u128 + circles as u128 + ellipses as u128
    }
}


/// A horizontal or vertical distance from `a` to `b` (or to the origin).
pub open spec fn spec_axis_distance(horizontal: bool, a: u128, b: Option<u128>, value: u32) -> ConstraintKind {
    if horizontal {
        ConstraintKind::DistanceX { a, b, value }
    } else {
        ConstraintKind::DistanceY { a, b, value }
    }
}

fn axis_distance(horizontal: bool, a: u128, b: Option<u128>, value: u32) -> (k: ConstraintKind)
    ensures
        k == spec_axis_distance(horizontal, a, b, value),
{
    if horizontal {
        ConstraintKind::DistanceX { a, b, value }
    } else {
        ConstraintKind::DistanceY { a, b, value }
    }
}

/// The second selected point, if any.
pub open spec fn second(p: Seq<u128>) -> Option<u128> {
    if p.len() > 1 {
        Some(p[1])
    } else {
        None
    }
}

/// The constraints `tool` creates for `shape`, dimensional ones with a
/// zero value that the measured one replaces; `None` when the selection
/// does not fit the tool.
pub open spec fn spec_kinds_for(tool: Seq<char>, shape: SelectionShape, sketch: Sketch) -> Option<
    Seq<ConstraintKind>,
> {
    let p = shape.points@;
    let l = shape.lines@;
    let c = shape.circles@;
    let e = shape.ellipses@;
    if tool == "coincident"@ && shape.spec_only(2, 0, 0, 0) {
        Some(seq![ConstraintKind::Coincident { point1: p[0], point2: p[1] }])
    } else if tool == "point_on_object"@ && shape.spec_only(1, 1, 0, 0) {
        Some(seq![ConstraintKind::PointOnLine { point: p[0], line: l[0] }])
    } else if tool == "point_on_object"@ && shape.spec_only(1, 0, 1, 0) {
        Some(seq![ConstraintKind::PointOnCircle { point: p[0], circle: c[0] }])
    } else if tool == "point_on_object"@ && shape.spec_only(1, 0, 0, 1) {
        Some(seq![ConstraintKind::PointOnEllipse { point: p[0], ellipse: e[0] }])
    } else if tool == "midpoint"@ && shape.spec_only(1, 1, 0, 0) {
        Some(seq![ConstraintKind::Midpoint { point: p[0], line: l[0] }])
    } else if tool == "horizontal"@ && l.len() > 0 && shape.spec_only(0, l.len() as int, 0, 0) {
        Some(Seq::new(l.len(), |i: int| ConstraintKind::Horizontal { element: l[i] }))
    } else if tool == "vertical"@ && l.len() > 0 && shape.spec_only(0, l.len() as int, 0, 0) {
        Some(Seq::new(l.len(), |i: int| ConstraintKind::Vertical { element: l[i] }))
    } else if tool == "parallel"@ && shape.spec_only(0, 2, 0, 0) {
        Some(seq![ConstraintKind::Parallel { line1: l[0], line2: l[1] }])
    } else if tool == "perpendicular"@ && shape.spec_only(0, 2, 0, 0) {
        Some(seq![ConstraintKind::Perpendicular { line1: l[0], line2: l[1] }])
    } else if tool == "tangent"@ && shape.spec_only(0, 0, 2, 0) {
        Some(seq![ConstraintKind::Tangent { line_or_circle1: c[0], item2: c[1] }])
    } else if tool == "tangent"@ && shape.spec_only(0, 1, 1, 0) {
        Some(seq![ConstraintKind::Tangent { line_or_circle1: l[0], item2: c[0] }])
    } else if tool == "equal"@ && shape.spec_only(0, 2, 0, 0) {
        Some(seq![ConstraintKind::EqualLength { line1: l[0], line2: l[1] }])
    } else if tool == "equal"@ && shape.spec_only(0, 0, 2, 0) {
        Some(seq![ConstraintKind::EqualRadius { circle1: c[0], circle2: c[1] }])
    } else if tool == "symmetric"@ && shape.spec_only(2, 1, 0, 0) {
        Some(seq![ConstraintKind::Symmetric { point1: p[0], point2: p[1], line: l[0] }])
    } else if tool == "symmetric"@ && shape.spec_only(3, 0, 0, 0) {
        Some(seq![ConstraintKind::SymmetricAboutPoint { point1: p[0], point2: p[1], center: p[2] }])
    } else if tool == "block"@ && shape.all@.len() >= 1 {
        Some(Seq::new(shape.all@.len(), |i: int| ConstraintKind::Block { element: shape.all@[i] }))
    } else if tool == "lock"@ && shape.spec_only(1, 0, 0, 0) {
        Some(
            seq![ConstraintKind::FixedPoint {
                point: p[0],
                position: match sketch.position_of(p[0]) {
                    Some(v) => v,
                    None => Vec2D { x: F32_ZERO, y: F32_ZERO },
                },
            }],
        )
    } else if (tool == "distance_x"@ || tool == "distance_y"@) && (shape.spec_only(1, 0, 0, 0)
        || shape.spec_only(2, 0, 0, 0)) {
        Some(seq![spec_axis_distance(tool == "distance_x"@, p[0], second(p), F32_ZERO)])
    } else if tool == "distance"@ && shape.spec_only(2, 0, 0, 0) {
        Some(seq![ConstraintKind::Distance { point1: p[0], point2: p[1], distance: F32_ZERO }])
    } else if tool == "distance"@ && shape.spec_only(0, 1, 0, 0) {
        Some(seq![ConstraintKind::Length { line: l[0], length: F32_ZERO }])
    } else if tool == "radius"@ && shape.spec_only(0, 0, 1, 0) {
        Some(seq![ConstraintKind::Radius { circle: c[0], radius: F32_ZERO }])
    } else if tool == "diameter"@ && shape.spec_only(0, 0, 1, 0) {
        Some(seq![ConstraintKind::Diameter { circle: c[0], diameter: F32_ZERO }])
    } else if tool == "angle"@ && shape.spec_only(0, 2, 0, 0) {
        Some(seq![ConstraintKind::Angle { line1: l[0], line2: l[1], angle_rad: F32_ZERO }])
    } else if (tool == "angle_x"@ || tool == "angle_y"@) && shape.spec_only(0, 1, 0, 0) {
        Some(
            seq![ConstraintKind::AngleToAxis {
                line: l[0],
                axis: if tool == "angle_x"@ {
                    AxisDirection::Horizontal
                } else {
                    AxisDirection::Vertical
                },
                angle_rad: F32_ZERO,
            }],
        )
    } else {
        None
    }
}

/// `made` is `templates` with each dimensional kind's value one that
/// `measure` gives for it.
pub open spec fn measured_from<F: Fn(ConstraintKind) -> u32>(
    templates: Seq<ConstraintKind>,
    made: Seq<ConstraintKind>,
    measure: F,
) -> bool {
    &&& made.len() == templates.len()
    &&& forall|i: int|
        0 <= i < made.len() ==> if (#[trigger] templates[i]).spec_is_dimensional() {
            exists|m: u32| measure.ensures((templates[i],), m) && made[i] == spec_with_stored_value(templates[i], m)
        } else {
            made[i] == templates[i]
        }
}

/// One measured kind: the template with the value `measure` gives for it.
fn measured<F: Fn(ConstraintKind) -> u32>(template: ConstraintKind, measure: &F) -> (k: Vec<ConstraintKind>)
    requires
        forall|t: ConstraintKind| measure.requires((t,)),
        template.spec_is_dimensional(),
    ensures
        measured_from(seq![template], k@, *measure),
{
    let m = measure(template);
    let k = vec![with_stored_value(&template, m)];
    assert(measure.ensures((seq![template][0],), m));
    k
}

/// The constraints `tool` creates for `shape` in `sketch`, or `None` when
/// the selection does not fit the tool. A dimensional kind carries the
/// value `measure` gives for it: the value measured on the sketch, in the
/// units the kind stores.
pub fn kinds_for<F: Fn(ConstraintKind) -> u32>(
    tool: &str,
    shape: &SelectionShape,
    sketch: &Sketch,
    measure: F,
) -> (r: Option<Vec<ConstraintKind>>)
    requires
        forall|t: ConstraintKind| measure.requires((t,)),
    ensures
        match (r, spec_kinds_for(tool@, *shape, *sketch)) {
            (Some(made), Some(templates)) => measured_from(templates, made@, measure),
            (None, None) => true,
            _ => false,
        },
{
    let p = &shape.points;
    let l = &shape.lines;
    let c = &shape.circles;
    let e = &shape.ellipses;
    let ghost t = spec_kinds_for(tool@, *shape, *sketch);
    let made: Vec<ConstraintKind> = if str_eq(tool, "coincident") && shape.only(2, 0, 0, 0) {
        vec![ConstraintKind::Coincident { point1: p[0], point2: p[1] }]
    } else if str_eq(tool, "point_on_object") && shape.only(1, 1, 0, 0) {
        vec![ConstraintKind::PointOnLine { point: p[0], line: l[0] }]
    } else if str_eq(tool, "point_on_object") && shape.only(1, 0, 1, 0) {
        vec![ConstraintKind::PointOnCircle { point: p[0], circle: c[0] }]
    } else if str_eq(tool, "point_on_object") && shape.only(1, 0, 0, 1) {
        vec![ConstraintKind::PointOnEllipse { point: p[0], ellipse: e[0] }]
    } else if str_eq(tool, "midpoint") && shape.only(1, 1, 0, 0) {
        vec![ConstraintKind::Midpoint { point: p[0], line: l[0] }]
    } else if str_eq(tool, "horizontal") && l.len() > 0 && shape.only(0, l.len(), 0, 0) {
        let mut v: Vec<ConstraintKind> = Vec::new();
        let mut i: usize = 0;
        while i < l.len()
            invariant
                i <= l@.len(),
                v@ =~= Seq::new(i as nat, |j: int| ConstraintKind::Horizontal { element: l@[j] }),
            decreases l@.len() - i,
        {
            v.push(ConstraintKind::Horizontal { element: l[i] });
            i = i + 1;
        }
        v
    } else if str_eq(tool, "vertical") && l.len() > 0 && shape.only(0, l.len(), 0, 0) {
        let mut v: Vec<ConstraintKind> = Vec::new();
        let mut i: usize = 0;
        while i < l.len()
            invariant
                i <= l@.len(),
                v@ =~= Seq::new(i as nat, |j: int| ConstraintKind::Vertical { element: l@[j] }),
            decreases l@.len() - i,
        {
            v.push(ConstraintKind::Vertical { element: l[i] });
            i = i + 1;
        }
        v
    } else if str_eq(tool, "parallel") && shape.only(0, 2, 0, 0) {
        vec![ConstraintKind::Parallel { line1: l[0], line2: l[1] }]
    } else if str_eq(tool, "perpendicular") && shape.only(0, 2, 0, 0) {
        vec![ConstraintKind::Perpendicular { line1: l[0], line2: l[1] }]
    } else if str_eq(tool, "tangent") && shape.only(0, 0, 2, 0) {
        vec![ConstraintKind::Tangent { line_or_circle1: c[0], item2: c[1] }]
    } else if str_eq(tool, "tangent") && shape.only(0, 1, 1, 0) {
        vec![ConstraintKind::Tangent { line_or_circle1: l[0], item2: c[0] }]
    } else if str_eq(tool, "equal") && shape.only(0, 2, 0, 0) {
        vec![ConstraintKind::EqualLength { line1: l[0], line2: l[1] }]
    } else if str_eq(tool, "equal") && shape.only(0, 0, 2, 0) {
        vec![ConstraintKind::EqualRadius { circle1: c[0], circle2: c[1] }]
    } else if str_eq(tool, "symmetric") && shape.only(2, 1, 0, 0) {
        vec![ConstraintKind::Symmetric { point1: p[0], point2: p[1], line: l[0] }]
    } else if str_eq(tool, "symmetric") && shape.only(3, 0, 0, 0) {
        vec![ConstraintKind::SymmetricAboutPoint { point1: p[0], point2: p[1], center: p[2] }]
    } else if str_eq(tool, "block") && shape.total() >= 1 {
        let all = &shape.all;
        let mut v: Vec<ConstraintKind> = Vec::new();
        let mut i: usize = 0;
        while i < all.len()
            invariant
                i <= all@.len(),
                v@ =~= Seq::new(i as nat, |j: int| ConstraintKind::Block { element: all@[j] }),
            decreases all@.len() - i,
        {
            v.push(ConstraintKind::Block { element: all[i] });
            i = i + 1;
        }
        v
    } else if str_eq(tool, "lock") && shape.only(1, 0, 0, 0) {
        let position = match sketch.point_position(p[0]) {
            Some(v) => v,
            None => Vec2D::new(F32_ZERO, F32_ZERO),
        };
        vec![ConstraintKind::FixedPoint { point: p[0], position }]
    } else if (str_eq(tool, "distance_x") || str_eq(tool, "distance_y")) && (shape.only(1, 0, 0, 0)
        || shape.only(2, 0, 0, 0)) {
        let horizontal = str_eq(tool, "distance_x");
        let b = if p.len() > 1 {
            Some(p[1])
        } else {
            None
        };
        measured(axis_distance(horizontal, p[0], b, F32_ZERO), &measure)
    } else if str_eq(tool, "distance") && shape.only(2, 0, 0, 0) {
        measured(ConstraintKind::Distance { point1: p[0], point2: p[1], distance: F32_ZERO }, &measure)
    } else if str_eq(tool, "distance") && shape.only(0, 1, 0, 0) {
        measured(ConstraintKind::Length { line: l[0], length: F32_ZERO }, &measure)
    } else if str_eq(tool, "radius") && shape.only(0, 0, 1, 0) {
        measured(ConstraintKind::Radius { circle: c[0], radius: F32_ZERO }, &measure)
    } else if str_eq(tool, "diameter") && shape.only(0, 0, 1, 0) {
        measured(ConstraintKind::Diameter { circle: c[0], diameter: F32_ZERO }, &measure)
    } else if str_eq(tool, "angle") && shape.only(0, 2, 0, 0) {
        measured(ConstraintKind::Angle { line1: l[0], line2: l[1], angle_rad: F32_ZERO }, &measure)
    } else if (str_eq(tool, "angle_x") || str_eq(tool, "angle_y")) && shape.only(0, 1, 0, 0) {
        let axis = if str_eq(tool, "angle_x") {
            AxisDirection::Horizontal
        } else {
            AxisDirection::Vertical
        };
        measured(ConstraintKind::AngleToAxis { line: l[0], axis, angle_rad: F32_ZERO }, &measure)
    } else {
        return None;
    };
    Some(made)
}


/// Whether `tool` applies to `shape` at all: it makes constraints for
/// `shape` in any sketch (which sketch never matters).
pub open spec fn spec_fits(tool: Seq<char>, shape: SelectionShape) -> bool {
    forall|s: Sketch| #[trigger] spec_kinds_for(tool, shape, s) is Some
}

/// Law: whether a tool fits a selection depends on the selection alone,
/// never on the sketch its values are measured on.
pub proof fn law_fit_ignores_sketch(tool: Seq<char>, shape: SelectionShape, s1: Sketch, s2: Sketch)
    ensures
        spec_kinds_for(tool, shape, s1) is Some <==> spec_kinds_for(tool, shape, s2) is Some,
        spec_kinds_for(tool, shape, s1) is Some <==> spec_fits(tool, shape),
{
    assert forall|s: Sketch| #[trigger] spec_kinds_for(tool, shape, s) is Some <==> spec_kinds_for(tool, shape, s1) is Some by {
    }
}

/// Whether `tool` applies to `shape` at all.
pub fn fits(tool: &str, shape: &SelectionShape) -> (b: bool)
    ensures
        b == spec_fits(tool@, *shape),
{
    let empty = Sketch::new("");
    let zero = |_k: ConstraintKind| -> (v: u32) { F32_ZERO };
    let b = kinds_for(tool, shape, &empty, zero).is_some();
    proof {
        law_fit_ignores_sketch(tool@, *shape, empty, empty);
    }
    b
}

/// The dimensional tool a selection takes, if any: a radius for one circle
/// or arc, an angle for two lines, a distance otherwise.
pub open spec fn spec_dimension_for(shape: SelectionShape) -> Option<Seq<char>> {
    if spec_fits("radius"@, shape) {
        Some("radius"@)
    } else if spec_fits("angle"@, shape) {
        Some("angle"@)
    } else if spec_fits("distance"@, shape) {
        Some("distance"@)
    } else if spec_fits("distance_x"@, shape) {
        Some("distance_x"@)
    } else if spec_fits("distance_y"@, shape) {
        Some("distance_y"@)
    } else {
        None
    }
}

/// The dimensional constraint tool a selection takes, if any: the first
/// of radius, angle, distance, distance_x and distance_y that fits.
pub fn dimension_for(shape: &SelectionShape) -> (r: Option<&'static str>)
    ensures
        match r {
            Some(t) => spec_dimension_for(*shape) == Some(t@),
            None => spec_dimension_for(*shape) is None,
        },
{
    if fits("radius", shape) {
        Some("radius")
    } else if fits("angle", shape) {
        Some("angle")
    } else if fits("distance", shape) {
        Some("distance")
    } else if fits("distance_x", shape) {
        Some("distance_x")
    } else if fits("distance_y", shape) {
        Some("distance_y")
    } else {
        None
    }
}

/// An empty shape: nothing selected.
pub open spec fn is_empty_shape(shape: SelectionShape) -> bool {
    &&& shape.all@.len() == 0
    &&& shape.points@.len() == 0
    &&& shape.lines@.len() == 0
    &&& shape.circles@.len() == 0
    &&& shape.ellipses@.len() == 0
}

/// Law: no tool takes an empty selection.
pub proof fn law_nothing_takes_an_empty_selection(tool: Seq<char>, shape: SelectionShape, sketch: Sketch)
    requires
        is_empty_shape(shape),
    ensures
        spec_kinds_for(tool, shape, sketch) is None,
        !spec_fits(tool, shape),
{
}

/// Law: block takes any selection, one block per selected element, in
/// the shape's order.
pub proof fn law_block_takes_any_selection(shape: SelectionShape, sketch: Sketch)
    requires
        shape.all@.len() >= 1,
    ensures
        spec_kinds_for("block"@, shape, sketch) == Some(
            Seq::new(shape.all@.len(), |i: int| ConstraintKind::Block { element: shape.all@[i] }),
        ),
{
    reveal_strlit("block");
    reveal_strlit("coincident");
    reveal_strlit("point_on_object");
    reveal_strlit("midpoint");
    reveal_strlit("horizontal");
    reveal_strlit("vertical");
    reveal_strlit("parallel");
    reveal_strlit("perpendicular");
    reveal_strlit("tangent");
    reveal_strlit("equal");
    reveal_strlit("symmetric");
    assert("block"@[0] != "coincident"@[0]);
    assert("block"@ != "coincident"@);
    assert("block"@[0] != "point_on_object"@[0]);
    assert("block"@ != "point_on_object"@);
    assert("block"@ != "midpoint"@);
    assert("block"@ != "horizontal"@);
    assert("block"@ != "vertical"@);
    assert("block"@ != "parallel"@);
    assert("block"@ != "perpendicular"@);
    assert("block"@ != "tangent"@);
    assert("block"@ != "equal"@);
    assert("block"@ != "symmetric"@);
}

/// Every id of a list of the shape of `selected` is selected.
proof fn lemma_shape_list_selected(geometry: Seq<GeometryElement>, selected: Set<u128>, class: ShapeClass)
    ensures
        forall|i: int| 0 <= i < shape_list(geometry, selected, class).len() ==> selected.contains(
            #[trigger] shape_list(geometry, selected, class)[i],
        ),
{
    let picked_ids = geometry.filter(picked(selected, class)).map_values(id_of());
    let refs = picked_references(selected, class);
    let list = shape_list(geometry, selected, class);
    assert forall|i: int| 0 <= i < list.len() implies selected.contains(#[trigger] list[i]) by {
        if i < picked_ids.len() {
            let g = geometry.filter(picked(selected, class))[i];
            geometry.lemma_filter_pred(picked(selected, class), i);
            assert(list[i] == g.spec_id());
        } else {
            assert(list[i] == refs[i - picked_ids.len()]);
        }
    }
}

/// Law: a tool that fits a selection makes at least one constraint, and
/// every constraint it makes refers to selected items only.
pub proof fn law_fitting_tool_uses_the_selection(
    tool: Seq<char>,
    shape: SelectionShape,
    sketch: Sketch,
    geometry: Seq<GeometryElement>,
    selected: Set<u128>,
)
    requires
        shape.spec_of(geometry, selected),
    ensures
        spec_kinds_for(tool, shape, sketch) matches Some(ks) ==> ks.len() > 0 && forall|i: int, j: int|
            0 <= i < ks.len() && 0 <= j < crate::sketch::spec_constraint_refs(ks[i]).len() ==> selected.contains(
                #[trigger] crate::sketch::spec_constraint_refs(ks[i])[j],
            ),
{
    lemma_shape_list_selected(geometry, selected, ShapeClass::All);
    lemma_shape_list_selected(geometry, selected, ShapeClass::Points);
    lemma_shape_list_selected(geometry, selected, ShapeClass::Lines);
    lemma_shape_list_selected(geometry, selected, ShapeClass::Circles);
    lemma_shape_list_selected(geometry, selected, ShapeClass::Ellipses);
    if let Some(ks) = spec_kinds_for(tool, shape, sketch) {
        assert forall|i: int, j: int| 0 <= i < ks.len() && 0 <= j < crate::sketch::spec_constraint_refs(ks[i]).len() implies selected.contains(
            #[trigger] crate::sketch::spec_constraint_refs(ks[i])[j],
        ) by {
            let p = shape.points@;
            let l = shape.lines@;
            let c = shape.circles@;
            let e = shape.ellipses@;
            let a = shape.all@;
            assert(forall|k: int| 0 <= k < p.len() ==> selected.contains(#[trigger] p[k]));
            assert(forall|k: int| 0 <= k < l.len() ==> selected.contains(#[trigger] l[k]));
            assert(forall|k: int| 0 <= k < c.len() ==> selected.contains(#[trigger] c[k]));
            assert(forall|k: int| 0 <= k < e.len() ==> selected.contains(#[trigger] e[k]));
            assert(forall|k: int| 0 <= k < a.len() ==> selected.contains(#[trigger] a[k]));
        }
    }
}

/// Law: the dimension tool a selection is given always fits it.
pub proof fn law_dimension_tool_fits(shape: SelectionShape)
    ensures
        spec_dimension_for(shape) matches Some(t) ==> spec_fits(t, shape),
{
}

/// Law: on two points, the coincident tool makes them coincide, first with second.
pub proof fn law_coincident_tool(shape: SelectionShape, sketch: Sketch)
    requires
        shape.spec_only(2, 0, 0, 0),
    ensures
        spec_kinds_for("coincident"@, shape, sketch) == Some(seq![ConstraintKind::Coincident { point1: shape.points@[0], point2: shape.points@[1] }]),
{
    reveal_strlit("coincident");
}

/// Law: on a point and one curve, the point-on-object tool puts the point on
/// that line, circle or ellipse.
pub proof fn law_point_on_object_tool(shape: SelectionShape, sketch: Sketch)
    requires
        shape.spec_only(1, 1, 0, 0) || shape.spec_only(1, 0, 1, 0) || shape.spec_only(1, 0, 0, 1),
    ensures
        shape.spec_only(1, 1, 0, 0) ==> spec_kinds_for("point_on_object"@, shape, sketch) == Some(seq![ConstraintKind::PointOnLine { point: shape.points@[0], line: shape.lines@[0] }]),
        shape.spec_only(1, 0, 1, 0) ==> spec_kinds_for("point_on_object"@, shape, sketch) == Some(seq![ConstraintKind::PointOnCircle { point: shape.points@[0], circle: shape.circles@[0] }]),
        shape.spec_only(1, 0, 0, 1) ==> spec_kinds_for("point_on_object"@, shape, sketch) == Some(seq![ConstraintKind::PointOnEllipse { point: shape.points@[0], ellipse: shape.ellipses@[0] }]),
{
    reveal_strlit("coincident");
    reveal_strlit("point_on_object");
    assert("point_on_object"@.len() != "coincident"@.len());
}

/// Law: on a point and a line, the midpoint tool puts the point at the
/// line's midpoint.
pub proof fn law_midpoint_tool(shape: SelectionShape, sketch: Sketch)
    requires
        shape.spec_only(1, 1, 0, 0),
    ensures
        spec_kinds_for("midpoint"@, shape, sketch) == Some(seq![ConstraintKind::Midpoint { point: shape.points@[0], line: shape.lines@[0] }]),
{
    reveal_strlit("coincident");
    reveal_strlit("midpoint");
    reveal_strlit("point_on_object");
    assert("midpoint"@.len() != "coincident"@.len());
    assert("midpoint"@.len() != "point_on_object"@.len());
}

/// Law: on lines only, the horizontal tool makes each line horizontal and the
/// vertical tool each vertical, one constraint per line in order.
pub proof fn law_horizontal_and_vertical_tools(shape: SelectionShape, sketch: Sketch)
    requires
        shape.lines@.len() > 0,
        shape.spec_only(0, shape.lines@.len() as int, 0, 0),
    ensures
        spec_kinds_for("horizontal"@, shape, sketch) matches Some(ks) && ks.len() == shape.lines@.len() && forall|i: int| 0 <= i < ks.len() ==> #[trigger] ks[i] == (ConstraintKind::Horizontal { element: shape.lines@[i] }),
        spec_kinds_for("vertical"@, shape, sketch) matches Some(ks) && ks.len() == shape.lines@.len() && forall|i: int| 0 <= i < ks.len() ==> #[trigger] ks[i] == (ConstraintKind::Vertical { element: shape.lines@[i] }),
{
    reveal_strlit("coincident");
    reveal_strlit("horizontal");
    reveal_strlit("midpoint");
    reveal_strlit("point_on_object");
    reveal_strlit("vertical");
    assert("horizontal"@[0] != "coincident"@[0]);
    assert("horizontal"@.len() != "point_on_object"@.len());
    assert("horizontal"@.len() != "midpoint"@.len());
    assert("vertical"@.len() != "coincident"@.len());
    assert("vertical"@.len() != "point_on_object"@.len());
    assert("vertical"@[0] != "midpoint"@[0]);
    assert("vertical"@.len() != "horizontal"@.len());
}

/// Law: on exactly two lines, the parallel tool makes one Parallel
/// constraint between the first and the second.
pub proof fn law_parallel_tool(shape: SelectionShape, sketch: Sketch)
    requires
        shape.spec_only(0, 2, 0, 0),
    ensures
        spec_kinds_for("parallel"@, shape, sketch) == Some(seq![ConstraintKind::Parallel { line1: shape.lines@[0], line2: shape.lines@[1] }]),
{
    reveal_strlit("coincident");
    reveal_strlit("horizontal");
    reveal_strlit("midpoint");
    reveal_strlit("parallel");
    reveal_strlit("point_on_object");
    reveal_strlit("vertical");
    assert("parallel"@.len() != "coincident"@.len());
    assert("parallel"@.len() != "point_on_object"@.len());
    assert("parallel"@[0] != "midpoint"@[0]);
    assert("parallel"@.len() != "horizontal"@.len());
    assert("parallel"@[0] != "vertical"@[0]);
}

/// Law: on exactly two lines, the perpendicular tool makes one
/// Perpendicular constraint between the first and the second.
pub proof fn law_perpendicular_tool(shape: SelectionShape, sketch: Sketch)
    requires
        shape.spec_only(0, 2, 0, 0),
    ensures
        spec_kinds_for("perpendicular"@, shape, sketch) == Some(seq![ConstraintKind::Perpendicular { line1: shape.lines@[0], line2: shape.lines@[1] }]),
{
    reveal_strlit("coincident");
    reveal_strlit("horizontal");
    reveal_strlit("midpoint");
    reveal_strlit("parallel");
    reveal_strlit("perpendicular");
    reveal_strlit("point_on_object");
    reveal_strlit("vertical");
    assert("perpendicular"@.len() != "coincident"@.len());
    assert("perpendicular"@.len() != "point_on_object"@.len());
    assert("perpendicular"@.len() != "midpoint"@.len());
    assert("perpendicular"@.len() != "horizontal"@.len());
    assert("perpendicular"@.len() != "vertical"@.len());
    assert("perpendicular"@.len() != "parallel"@.len());
}

/// Law: the tangent tool makes two circles, or a line and a circle, tangent.
pub proof fn law_tangent_tool(shape: SelectionShape, sketch: Sketch)
    requires
        shape.spec_only(0, 0, 2, 0) || shape.spec_only(0, 1, 1, 0),
    ensures
        shape.spec_only(0, 0, 2, 0) ==> spec_kinds_for("tangent"@, shape, sketch) == Some(seq![ConstraintKind::Tangent { line_or_circle1: shape.circles@[0], item2: shape.circles@[1] }]),
        shape.spec_only(0, 1, 1, 0) ==> spec_kinds_for("tangent"@, shape, sketch) == Some(seq![ConstraintKind::Tangent { line_or_circle1: shape.lines@[0], item2: shape.circles@[0] }]),
{
    reveal_strlit("coincident");
    reveal_strlit("horizontal");
    reveal_strlit("midpoint");
    reveal_strlit("parallel");
    reveal_strlit("perpendicular");
    reveal_strlit("point_on_object");
    reveal_strlit("tangent");
    reveal_strlit("vertical");
    assert("tangent"@.len() != "coincident"@.len());
    assert("tangent"@.len() != "point_on_object"@.len());
    assert("tangent"@.len() != "midpoint"@.len());
    assert("tangent"@.len() != "horizontal"@.len());
    assert("tangent"@.len() != "vertical"@.len());
    assert("tangent"@.len() != "parallel"@.len());
    assert("tangent"@.len() != "perpendicular"@.len());
}

/// Law: the equal tool gives two lines equal lengths and two circles equal
/// radii.
pub proof fn law_equal_tool(shape: SelectionShape, sketch: Sketch)
    requires
        shape.spec_only(0, 2, 0, 0) || shape.spec_only(0, 0, 2, 0),
    ensures
        shape.spec_only(0, 2, 0, 0) ==> spec_kinds_for("equal"@, shape, sketch) == Some(seq![ConstraintKind::EqualLength { line1: shape.lines@[0], line2: shape.lines@[1] }]),
        shape.spec_only(0, 0, 2, 0) ==> spec_kinds_for("equal"@, shape, sketch) == Some(seq![ConstraintKind::EqualRadius { circle1: shape.circles@[0], circle2: shape.circles@[1] }]),
{
    reveal_strlit("coincident");
    reveal_strlit("equal");
    reveal_strlit("horizontal");
    reveal_strlit("midpoint");
    reveal_strlit("parallel");
    reveal_strlit("perpendicular");
    reveal_strlit("point_on_object");
    reveal_strlit("tangent");
    reveal_strlit("vertical");
    assert("equal"@.len() != "coincident"@.len());
    assert("equal"@.len() != "point_on_object"@.len());
    assert("equal"@.len() != "midpoint"@.len());
    assert("equal"@.len() != "horizontal"@.len());
    assert("equal"@.len() != "vertical"@.len());
    assert("equal"@.len() != "parallel"@.len());
    assert("equal"@.len() != "perpendicular"@.len());
    assert("equal"@.len() != "tangent"@.len());
}

/// Law: the symmetric tool makes two points symmetric about a line, or
/// about a third point.
pub proof fn law_symmetric_tool(shape: SelectionShape, sketch: Sketch)
    requires
        shape.spec_only(2, 1, 0, 0) || shape.spec_only(3, 0, 0, 0),
    ensures
        shape.spec_only(2, 1, 0, 0) ==> spec_kinds_for("symmetric"@, shape, sketch) == Some(seq![ConstraintKind::Symmetric { point1: shape.points@[0], point2: shape.points@[1], line: shape.lines@[0] }]),
        shape.spec_only(3, 0, 0, 0) ==> spec_kinds_for("symmetric"@, shape, sketch) == Some(seq![ConstraintKind::SymmetricAboutPoint { point1: shape.points@[0], point2: shape.points@[1], center: shape.points@[2] }]),
{
    reveal_strlit("coincident");
    reveal_strlit("equal");
    reveal_strlit("horizontal");
    reveal_strlit("midpoint");
    reveal_strlit("parallel");
    reveal_strlit("perpendicular");
    reveal_strlit("point_on_object");
    reveal_strlit("symmetric");
    reveal_strlit("tangent");
    reveal_strlit("vertical");
    assert("symmetric"@.len() != "coincident"@.len());
    assert("symmetric"@.len() != "point_on_object"@.len());
    assert("symmetric"@.len() != "midpoint"@.len());
    assert("symmetric"@.len() != "horizontal"@.len());
    assert("symmetric"@.len() != "vertical"@.len());
    assert("symmetric"@.len() != "parallel"@.len());
    assert("symmetric"@.len() != "perpendicular"@.len());
    assert("symmetric"@.len() != "tangent"@.len());
    assert("symmetric"@.len() != "equal"@.len());
}

/// Law: on one point, the lock tool fixes it where the sketch has it.
pub proof fn law_lock_tool(shape: SelectionShape, sketch: Sketch)
    requires
        shape.spec_only(1, 0, 0, 0),
        sketch.position_of(shape.points@[0]) is Some,
    ensures
        spec_kinds_for("lock"@, shape, sketch) == Some(seq![ConstraintKind::FixedPoint { point: shape.points@[0], position: sketch.position_of(shape.points@[0])->0 }]),
{
    reveal_strlit("block");
    reveal_strlit("coincident");
    reveal_strlit("equal");
    reveal_strlit("horizontal");
    reveal_strlit("lock");
    reveal_strlit("midpoint");
    reveal_strlit("parallel");
    reveal_strlit("perpendicular");
    reveal_strlit("point_on_object");
    reveal_strlit("symmetric");
    reveal_strlit("tangent");
    reveal_strlit("vertical");
    assert("lock"@.len() != "coincident"@.len());
    assert("lock"@.len() != "point_on_object"@.len());
    assert("lock"@.len() != "midpoint"@.len());
    assert("lock"@.len() != "horizontal"@.len());
    assert("lock"@.len() != "vertical"@.len());
    assert("lock"@.len() != "parallel"@.len());
    assert("lock"@.len() != "perpendicular"@.len());
    assert("lock"@.len() != "tangent"@.len());
    assert("lock"@.len() != "equal"@.len());
    assert("lock"@.len() != "symmetric"@.len());
    assert("lock"@.len() != "block"@.len());
}

/// Law: on one or two points, distance_x and distance_y make a horizontal
/// and a vertical distance from the first point (to the second, where there
/// is one), its value measured later.
pub proof fn law_axis_distance_tools(shape: SelectionShape, sketch: Sketch)
    requires
        shape.spec_only(1, 0, 0, 0) || shape.spec_only(2, 0, 0, 0),
    ensures
        spec_kinds_for("distance_x"@, shape, sketch) == Some(seq![ConstraintKind::DistanceX { a: shape.points@[0], b: if shape.points@.len() == 2 { Some(shape.points@[1]) } else { None }, value: F32_ZERO }]),
        spec_kinds_for("distance_y"@, shape, sketch) == Some(seq![ConstraintKind::DistanceY { a: shape.points@[0], b: if shape.points@.len() == 2 { Some(shape.points@[1]) } else { None }, value: F32_ZERO }]),
{
    reveal_strlit("block");
    reveal_strlit("coincident");
    reveal_strlit("distance_x");
    reveal_strlit("distance_y");
    reveal_strlit("equal");
    reveal_strlit("horizontal");
    reveal_strlit("lock");
    reveal_strlit("midpoint");
    reveal_strlit("parallel");
    reveal_strlit("perpendicular");
    reveal_strlit("point_on_object");
    reveal_strlit("symmetric");
    reveal_strlit("tangent");
    reveal_strlit("vertical");
    assert("distance_x"@[0] != "coincident"@[0]);
    assert("distance_x"@.len() != "point_on_object"@.len());
    assert("distance_x"@.len() != "midpoint"@.len());
    assert("distance_x"@[0] != "horizontal"@[0]);
    assert("distance_x"@.len() != "vertical"@.len());
    assert("distance_x"@.len() != "parallel"@.len());
    assert("distance_x"@.len() != "perpendicular"@.len());
    assert("distance_x"@.len() != "tangent"@.len());
    assert("distance_x"@.len() != "equal"@.len());
    assert("distance_x"@.len() != "symmetric"@.len());
    assert("distance_x"@.len() != "block"@.len());
    assert("distance_x"@.len() != "lock"@.len());
    assert("distance_y"@[0] != "coincident"@[0]);
    assert("distance_y"@.len() != "point_on_object"@.len());
    assert("distance_y"@.len() != "midpoint"@.len());
    assert("distance_y"@[0] != "horizontal"@[0]);
    assert("distance_y"@.len() != "vertical"@.len());
    assert("distance_y"@.len() != "parallel"@.len());
    assert("distance_y"@.len() != "perpendicular"@.len());
    assert("distance_y"@.len() != "tangent"@.len());
    assert("distance_y"@.len() != "equal"@.len());
    assert("distance_y"@.len() != "symmetric"@.len());
    assert("distance_y"@.len() != "block"@.len());
    assert("distance_y"@.len() != "lock"@.len());
    assert("distance_y"@[9] != "distance_x"@[9]);
}

/// Law: the distance tool measures the distance between two points, or a
/// line's length.
pub proof fn law_distance_tool(shape: SelectionShape, sketch: Sketch)
    requires
        shape.spec_only(2, 0, 0, 0) || shape.spec_only(0, 1, 0, 0),
    ensures
        shape.spec_only(2, 0, 0, 0) ==> spec_kinds_for("distance"@, shape, sketch) == Some(seq![ConstraintKind::Distance { point1: shape.points@[0], point2: shape.points@[1], distance: F32_ZERO }]),
        shape.spec_only(0, 1, 0, 0) ==> spec_kinds_for("distance"@, shape, sketch) == Some(seq![ConstraintKind::Length { line: shape.lines@[0], length: F32_ZERO }]),
{
    reveal_strlit("block");
    reveal_strlit("coincident");
    reveal_strlit("distance");
    reveal_strlit("distance_x");
    reveal_strlit("distance_y");
    reveal_strlit("equal");
    reveal_strlit("horizontal");
    reveal_strlit("lock");
    reveal_strlit("midpoint");
    reveal_strlit("parallel");
    reveal_strlit("perpendicular");
    reveal_strlit("point_on_object");
    reveal_strlit("symmetric");
    reveal_strlit("tangent");
    reveal_strlit("vertical");
    assert("distance"@.len() != "coincident"@.len());
    assert("distance"@.len() != "point_on_object"@.len());
    assert("distance"@[0] != "midpoint"@[0]);
    assert("distance"@.len() != "horizontal"@.len());
    assert("distance"@[0] != "vertical"@[0]);
    assert("distance"@[0] != "parallel"@[0]);
    assert("distance"@.len() != "perpendicular"@.len());
    assert("distance"@.len() != "tangent"@.len());
    assert("distance"@.len() != "equal"@.len());
    assert("distance"@.len() != "symmetric"@.len());
    assert("distance"@.len() != "block"@.len());
    assert("distance"@.len() != "lock"@.len());
    assert("distance"@.len() != "distance_x"@.len());
    assert("distance"@.len() != "distance_y"@.len());
}

/// Law: on one circle, the radius tool dimensions its radius and the
/// diameter tool its diameter.
pub proof fn law_radius_and_diameter_tools(shape: SelectionShape, sketch: Sketch)
    requires
        shape.spec_only(0, 0, 1, 0),
    ensures
        spec_kinds_for("radius"@, shape, sketch) == Some(seq![ConstraintKind::Radius { circle: shape.circles@[0], radius: F32_ZERO }]),
        spec_kinds_for("diameter"@, shape, sketch) == Some(seq![ConstraintKind::Diameter { circle: shape.circles@[0], diameter: F32_ZERO }]),
{
    reveal_strlit("block");
    reveal_strlit("coincident");
    reveal_strlit("diameter");
    reveal_strlit("distance");
    reveal_strlit("distance_x");
    reveal_strlit("distance_y");
    reveal_strlit("equal");
    reveal_strlit("horizontal");
    reveal_strlit("lock");
    reveal_strlit("midpoint");
    reveal_strlit("parallel");
    reveal_strlit("perpendicular");
    reveal_strlit("point_on_object");
    reveal_strlit("radius");
    reveal_strlit("symmetric");
    reveal_strlit("tangent");
    reveal_strlit("vertical");
    assert("radius"@.len() != "coincident"@.len());
    assert("radius"@.len() != "point_on_object"@.len());
    assert("radius"@.len() != "midpoint"@.len());
    assert("radius"@.len() != "horizontal"@.len());
    assert("radius"@.len() != "vertical"@.len());
    assert("radius"@.len() != "parallel"@.len());
    assert("radius"@.len() != "perpendicular"@.len());
    assert("radius"@.len() != "tangent"@.len());
    assert("radius"@.len() != "equal"@.len());
    assert("radius"@.len() != "symmetric"@.len());
    assert("radius"@.len() != "block"@.len());
    assert("radius"@.len() != "lock"@.len());
    assert("radius"@.len() != "distance_x"@.len());
    assert("radius"@.len() != "distance_y"@.len());
    assert("radius"@.len() != "distance"@.len());
    assert("diameter"@.len() != "coincident"@.len());
    assert("diameter"@.len() != "point_on_object"@.len());
    assert("diameter"@[0] != "midpoint"@[0]);
    assert("diameter"@.len() != "horizontal"@.len());
    assert("diameter"@[0] != "vertical"@[0]);
    assert("diameter"@[0] != "parallel"@[0]);
    assert("diameter"@.len() != "perpendicular"@.len());
    assert("diameter"@.len() != "tangent"@.len());
    assert("diameter"@.len() != "equal"@.len());
    assert("diameter"@.len() != "symmetric"@.len());
    assert("diameter"@.len() != "block"@.len());
    assert("diameter"@.len() != "lock"@.len());
    assert("diameter"@.len() != "distance_x"@.len());
    assert("diameter"@.len() != "distance_y"@.len());
    assert("diameter"@[2] != "distance"@[2]);
    assert("diameter"@.len() != "radius"@.len());
}

/// Law: on two lines, the angle tool dimensions the angle from the first to
/// the second.
pub proof fn law_angle_tool(shape: SelectionShape, sketch: Sketch)
    requires
        shape.spec_only(0, 2, 0, 0),
    ensures
        spec_kinds_for("angle"@, shape, sketch) == Some(seq![ConstraintKind::Angle { line1: shape.lines@[0], line2: shape.lines@[1], angle_rad: F32_ZERO }]),
{
    reveal_strlit("angle");
    reveal_strlit("block");
    reveal_strlit("coincident");
    reveal_strlit("diameter");
    reveal_strlit("distance");
    reveal_strlit("distance_x");
    reveal_strlit("distance_y");
    reveal_strlit("equal");
    reveal_strlit("horizontal");
    reveal_strlit("lock");
    reveal_strlit("midpoint");
    reveal_strlit("parallel");
    reveal_strlit("perpendicular");
    reveal_strlit("point_on_object");
    reveal_strlit("radius");
    reveal_strlit("symmetric");
    reveal_strlit("tangent");
    reveal_strlit("vertical");
    assert("angle"@.len() != "coincident"@.len());
    assert("angle"@.len() != "point_on_object"@.len());
    assert("angle"@.len() != "midpoint"@.len());
    assert("angle"@.len() != "horizontal"@.len());
    assert("angle"@.len() != "vertical"@.len());
    assert("angle"@.len() != "parallel"@.len());
    assert("angle"@.len() != "perpendicular"@.len());
    assert("angle"@.len() != "tangent"@.len());
    assert("angle"@[0] != "equal"@[0]);
    assert("angle"@.len() != "symmetric"@.len());
    assert("angle"@[0] != "block"@[0]);
    assert("angle"@.len() != "lock"@.len());
    assert("angle"@.len() != "distance_x"@.len());
    assert("angle"@.len() != "distance_y"@.len());
    assert("angle"@.len() != "distance"@.len());
    assert("angle"@.len() != "radius"@.len());
    assert("angle"@.len() != "diameter"@.len());
}

/// Law: on one line, angle_x dimensions its angle to the horizontal axis
/// and angle_y to the vertical one.
pub proof fn law_axis_angle_tools(shape: SelectionShape, sketch: Sketch)
    requires
        shape.spec_only(0, 1, 0, 0),
    ensures
        spec_kinds_for("angle_x"@, shape, sketch) == Some(seq![ConstraintKind::AngleToAxis { line: shape.lines@[0], axis: AxisDirection::Horizontal, angle_rad: F32_ZERO }]),
        spec_kinds_for("angle_y"@, shape, sketch) == Some(seq![ConstraintKind::AngleToAxis { line: shape.lines@[0], axis: AxisDirection::Vertical, angle_rad: F32_ZERO }]),
{
    reveal_strlit("angle");
    reveal_strlit("angle_x");
    reveal_strlit("angle_y");
    reveal_strlit("block");
    reveal_strlit("coincident");
    reveal_strlit("diameter");
    reveal_strlit("distance");
    reveal_strlit("distance_x");
    reveal_strlit("distance_y");
    reveal_strlit("equal");
    reveal_strlit("horizontal");
    reveal_strlit("lock");
    reveal_strlit("midpoint");
    reveal_strlit("parallel");
    reveal_strlit("perpendicular");
    reveal_strlit("point_on_object");
    reveal_strlit("radius");
    reveal_strlit("symmetric");
    reveal_strlit("tangent");
    reveal_strlit("vertical");
    assert("angle_x"@.len() != "coincident"@.len());
    assert("angle_x"@.len() != "point_on_object"@.len());
    assert("angle_x"@.len() != "midpoint"@.len());
    assert("angle_x"@.len() != "horizontal"@.len());
    assert("angle_x"@.len() != "vertical"@.len());
    assert("angle_x"@.len() != "parallel"@.len());
    assert("angle_x"@.len() != "perpendicular"@.len());
    assert("angle_x"@[0] != "tangent"@[0]);
    assert("angle_x"@.len() != "equal"@.len());
    assert("angle_x"@.len() != "symmetric"@.len());
    assert("angle_x"@.len() != "block"@.len());
    assert("angle_x"@.len() != "lock"@.len());
    assert("angle_x"@.len() != "distance_x"@.len());
    assert("angle_x"@.len() != "distance_y"@.len());
    assert("angle_x"@.len() != "distance"@.len());
    assert("angle_x"@.len() != "radius"@.len());
    assert("angle_x"@.len() != "diameter"@.len());
    assert("angle_x"@.len() != "angle"@.len());
    assert("angle_y"@.len() != "coincident"@.len());
    assert("angle_y"@.len() != "point_on_object"@.len());
    assert("angle_y"@.len() != "midpoint"@.len());
    assert("angle_y"@.len() != "horizontal"@.len());
    assert("angle_y"@.len() != "vertical"@.len());
    assert("angle_y"@.len() != "parallel"@.len());
    assert("angle_y"@.len() != "perpendicular"@.len());
    assert("angle_y"@[0] != "tangent"@[0]);
    assert("angle_y"@.len() != "equal"@.len());
    assert("angle_y"@.len() != "symmetric"@.len());
    assert("angle_y"@.len() != "block"@.len());
    assert("angle_y"@.len() != "lock"@.len());
    assert("angle_y"@.len() != "distance_x"@.len());
    assert("angle_y"@.len() != "distance_y"@.len());
    assert("angle_y"@.len() != "distance"@.len());
    assert("angle_y"@.len() != "radius"@.len());
    assert("angle_y"@.len() != "diameter"@.len());
    assert("angle_y"@.len() != "angle"@.len());
    assert("angle_y"@[6] != "angle_x"@[6]);
}

} // verus!
