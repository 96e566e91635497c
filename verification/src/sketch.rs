//! The sketch data model: 2D geometry elements tied together by the ids of
//! the points they run through, and the constraints laid on them.

use std::collections::{HashMap, HashSet};
use vstd::prelude::*;
use vstd::std_specs::hash::*;
use vstd::std_specs::iter::IteratorSpec;

use crate::ident::{is_random_id, new_id};

verus! {

broadcast use {vstd::std_specs::hash::group_hash_axioms, vstd::seq_lib::group_seq_properties};

/// The bit pattern of `0.0f32`.
pub const F32_ZERO: u32 = 0;

/// The bit pattern of `1.0f32`.
pub const F32_ONE: u32 = 0x3f80_0000;

/// The bit pattern of `-1.0f32`.
pub const F32_MINUS_ONE: u32 = 0xbf80_0000;

/// A 2D vector in sketch coordinates: the bit patterns of its two `f32`
/// components.
#[derive(Debug, Clone, Copy, PartialEq, Eq)]
pub struct Vec2D {
    pub x: u32,
    pub y: u32,
}

impl Vec2D {
    pub fn new(x: u32, y: u32) -> (v: Self)
        ensures
            v.x == x,
            v.y == y,
    {
        Vec2D { x, y }
    }
}

/// The point `(0, 0)`.
pub open spec fn zero_vec() -> Vec2D {
    Vec2D { x: F32_ZERO, y: F32_ZERO }
}

/// The reference geometry every sketch carries: the origin and the two
/// axes through it. They hold no entry in `geometry`, but answer to these
/// fixed ids so constraints can pin real geometry against them.
pub const ORIGIN_ID: u128 = 0x5c_e701_0000_0000_0000_0000_0000_0001;

/// The sketch's X axis.
pub const X_AXIS_ID: u128 = 0x5c_e701_0000_0000_0000_0000_0000_0002;

/// The sketch's Y axis.
pub const Y_AXIS_ID: u128 = 0x5c_e701_0000_0000_0000_0000_0000_0003;

/// Whether `id` names the origin or an axis.
pub open spec fn is_reference_id(id: u128) -> bool {
    id == ORIGIN_ID || id == X_AXIS_ID || id == Y_AXIS_ID
}

/// Law: a fresh random id is never one of the reference ids (those have
/// a zero version nibble, a random one has 4), so no element made is ever
/// taken for the origin or an axis.
pub proof fn law_random_ids_are_not_references(id: u128)
    requires
        is_random_id(id),
    ensures
        !is_reference_id(id),
{
    assert(id & 0x0000_0000_0000_f000_c000_0000_0000_0000u128 == 0x0000_0000_0000_4000_8000_0000_0000_0000u128
        ==> id != 0x5c_e701_0000_0000_0000_0000_0000_0001u128
            && id != 0x5c_e701_0000_0000_0000_0000_0000_0002u128
            && id != 0x5c_e701_0000_0000_0000_0000_0000_0003u128) by (bit_vector);
}

/// Which piece of reference geometry an id names.
#[derive(Debug, Clone, Copy, PartialEq, Eq)]
pub enum Reference {
    Origin,
    XAxis,
    YAxis,
}

impl Reference {
    /// The reference an id names, if any.
    pub open spec fn spec_of(id: u128) -> Option<Reference> {
        if id == ORIGIN_ID {
            Some(Reference::Origin)
        } else if id == X_AXIS_ID {
            Some(Reference::XAxis)
        } else if id == Y_AXIS_ID {
            Some(Reference::YAxis)
        } else {
            None
        }
    }

    /// The fixed id of a reference.
    pub open spec fn spec_id(self) -> u128 {
        match self {
            Reference::Origin => ORIGIN_ID,
            Reference::XAxis => X_AXIS_ID,
            Reference::YAxis => Y_AXIS_ID,
        }
    }

    pub fn of(id: u128) -> (r: Option<Reference>)
        ensures
            r == Self::spec_of(id),
    {
        if id == ORIGIN_ID {
            Some(Reference::Origin)
        } else if id == X_AXIS_ID {
            Some(Reference::XAxis)
        } else if id == Y_AXIS_ID {
            Some(Reference::YAxis)
        } else {
            None
        }
    }

    pub open spec fn spec_label(self) -> Seq<char> {
        match self {
            Reference::Origin => "Origin"@,
            Reference::XAxis => "X axis"@,
            Reference::YAxis => "Y axis"@,
        }
    }

    /// Its name in lists and messages.
    pub fn label(self) -> (s: &'static str)
        ensures
            s@ == self.spec_label(),
    {
        match self {
            Reference::Origin => "Origin",
            Reference::XAxis => "X axis",
            Reference::YAxis => "Y axis",
        }
    }

    /// Whether the reference behaves as a point (the origin) or a line.
    pub fn is_point(self) -> (b: bool)
        ensures
            b == (self == Reference::Origin),
    {
        match self {
            Reference::Origin => true,
            _ => false,
        }
    }

    /// Direction of an axis in sketch coordinates; `None` for the origin.
    pub fn direction(self) -> (d: Option<Vec2D>)
        ensures
            d == match self {
                Reference::Origin => None,
                Reference::XAxis => Some(Vec2D { x: F32_ONE, y: F32_ZERO }),
                Reference::YAxis => Some(Vec2D { x: F32_ZERO, y: F32_ONE }),
            },
    {
        match self {
            Reference::Origin => None,
            Reference::XAxis => Some(Vec2D::new(F32_ONE, F32_ZERO)),
            Reference::YAxis => Some(Vec2D::new(F32_ZERO, F32_ONE)),
        }
    }
}

/// Law: a reference's id reads back as that reference.
pub proof fn law_reference_ids_round_trip(r: Reference)
    ensures
        Reference::spec_of(r.spec_id()) == Some(r),
        Reference::spec_of(r.spec_id()) is Some,
{
}

/// Reference plane for a sketch: origin, normal and in-plane axes in world
/// space, each component an `f32` bit pattern.
#[derive(Debug, Clone, Copy, PartialEq, Eq)]
pub struct SketchPlane {
    pub origin: [u32; 3],
    pub normal: [u32; 3],
    pub x_axis: [u32; 3],
    pub y_axis: [u32; 3],
}

impl SketchPlane {
    pub open spec fn spec_xy() -> SketchPlane {
        SketchPlane {
            origin: [F32_ZERO, F32_ZERO, F32_ZERO],
            normal: [F32_ZERO, F32_ZERO, F32_ONE],
            x_axis: [F32_ONE, F32_ZERO, F32_ZERO],
            y_axis: [F32_ZERO, F32_ONE, F32_ZERO],
        }
    }

    pub open spec fn spec_xz() -> SketchPlane {
        SketchPlane {
            origin: [F32_ZERO, F32_ZERO, F32_ZERO],
            normal: [F32_ZERO, F32_MINUS_ONE, F32_ZERO],
            x_axis: [F32_ONE, F32_ZERO, F32_ZERO],
            y_axis: [F32_ZERO, F32_ZERO, F32_ONE],
        }
    }

    pub open spec fn spec_yz() -> SketchPlane {
        SketchPlane {
            origin: [F32_ZERO, F32_ZERO, F32_ZERO],
            normal: [F32_ONE, F32_ZERO, F32_ZERO],
            x_axis: [F32_ZERO, F32_ONE, F32_ZERO],
            y_axis: [F32_ZERO, F32_ZERO, F32_ONE],
        }
    }

    /// Top plane: sketch on XY, normal +Z.
    pub fn xy() -> (p: Self)
        ensures
            p == Self::spec_xy(),
    {
        SketchPlane {
            origin: [F32_ZERO, F32_ZERO, F32_ZERO],
            normal: [F32_ZERO, F32_ZERO, F32_ONE],
            x_axis: [F32_ONE, F32_ZERO, F32_ZERO],
            y_axis: [F32_ZERO, F32_ONE, F32_ZERO],
        }
    }

    /// Front plane: sketch on XZ, normal -Y (x right, z up; x × y = normal).
    pub fn xz() -> (p: Self)
        ensures
            p == Self::spec_xz(),
    {
        SketchPlane {
            origin: [F32_ZERO, F32_ZERO, F32_ZERO],
            normal: [F32_ZERO, F32_MINUS_ONE, F32_ZERO],
            x_axis: [F32_ONE, F32_ZERO, F32_ZERO],
            y_axis: [F32_ZERO, F32_ZERO, F32_ONE],
        }
    }

    /// Side plane: sketch on YZ, normal +X.
    pub fn yz() -> (p: Self)
        ensures
            p == Self::spec_yz(),
    {
        SketchPlane {
            origin: [F32_ZERO, F32_ZERO, F32_ZERO],
            normal: [F32_ONE, F32_ZERO, F32_ZERO],
            x_axis: [F32_ZERO, F32_ONE, F32_ZERO],
            y_axis: [F32_ZERO, F32_ZERO, F32_ONE],
        }
    }
}

impl Default for SketchPlane {
    fn default() -> (p: Self)
        ensures
            p == Self::spec_xy(),
    {
        Self::xy()
    }
}


/// A point in 2D sketch space.
#[derive(Debug, Clone, Copy, PartialEq, Eq)]
pub struct Point {
    pub id: u128,
    /// Position in sketch coordinates.
    pub position: Vec2D,
}

impl Point {
    /// A point at `position`, under a fresh id.
    pub fn new(position: Vec2D) -> (p: Self)
        ensures
            p.position == position,
            is_random_id(p.id),
    {
        Point { id: new_id(), position }
    }
}

/// A line segment between two points.
#[derive(Debug, Clone, Copy, PartialEq, Eq)]
pub struct Line {
    pub id: u128,
    /// Start point id.
    pub start: u128,
    /// End point id.
    pub end: u128,
}

impl Line {
    pub fn new(start: u128, end: u128) -> (l: Self)
        ensures
            l.start == start,
            l.end == end,
            is_random_id(l.id),
    {
        Line { id: new_id(), start, end }
    }
}

/// A circular arc, counter-clockwise from `start` to `end` around `center`.
#[derive(Debug, Clone, Copy, PartialEq, Eq)]
pub struct Arc {
    pub id: u128,
    pub center: u128,
    pub start: u128,
    pub end: u128,
    /// Radius (stored for constraints).
    pub radius: u32,
}

impl Arc {
    pub fn new(center: u128, start: u128, end: u128, radius: u32) -> (a: Self)
        ensures
            a.center == center,
            a.start == start,
            a.end == end,
            a.radius == radius,
            is_random_id(a.id),
    {
        Arc { id: new_id(), center, start, end, radius }
    }
}

/// A circle.
#[derive(Debug, Clone, Copy, PartialEq, Eq)]
pub struct Circle {
    pub id: u128,
    pub center: u128,
    pub radius: u32,
}

impl Circle {
    pub fn new(center: u128, radius: u32) -> (c: Self)
        ensures
            c.center == center,
            c.radius == radius,
            is_random_id(c.id),
    {
        Circle { id: new_id(), center, radius }
    }
}

/// The endpoints of an arc of an ellipse.
#[derive(Debug, Clone, Copy, PartialEq, Eq)]
pub struct EllipseArcEnds {
    pub start: u128,
    pub end: u128,
}

/// An ellipse: `major` runs from the center to one major-axis vertex, and
/// the minor radius is `|major| * ratio`. With `arc` set only the arc from
/// `start` to `end`, counter-clockwise in the ellipse's frame, is drawn.
#[derive(Debug, Clone, Copy, PartialEq, Eq)]
pub struct Ellipse {
    pub id: u128,
    pub center: u128,
    pub major: Vec2D,
    pub ratio: u32,
    pub arc: Option<EllipseArcEnds>,
}

impl Ellipse {
    pub fn new(center: u128, major: Vec2D, ratio: u32) -> (e: Self)
        ensures
            e.center == center,
            e.major == major,
            e.ratio == ratio,
            e.arc is None,
            is_random_id(e.id),
    {
        Ellipse { id: new_id(), center, major, ratio, arc: None }
    }

    /// An arc of an ellipse, from `start` to `end` counter-clockwise.
    pub fn new_arc(center: u128, major: Vec2D, ratio: u32, start: u128, end: u128) -> (e: Self)
        ensures
            e.center == center,
            e.major == major,
            e.ratio == ratio,
            e.arc == Some(EllipseArcEnds { start, end }),
            is_random_id(e.id),
    {
        Ellipse { id: new_id(), center, major, ratio, arc: Some(EllipseArcEnds { start, end }) }
    }
}

/// A cubic B-spline over point-element control points: open, first to last
/// control point, or periodic, closing on itself.
#[derive(Debug, Clone, PartialEq, Eq)]
pub struct BSpline {
    pub id: u128,
    pub control_points: Vec<u128>,
    pub periodic: bool,
}

impl BSpline {
    pub fn new(control_points: Vec<u128>, periodic: bool) -> (b: Self)
        ensures
            b.control_points@ == control_points@,
            b.periodic == periodic,
            is_random_id(b.id),
    {
        BSpline { id: new_id(), control_points, periodic }
    }
}

/// A geometry element in a sketch.
#[derive(Debug, Clone, PartialEq, Eq)]
pub enum GeometryElement {
    Point(Point),
    Line(Line),
    Arc(Arc),
    Circle(Circle),
    Ellipse(Ellipse),
    BSpline(BSpline),
}

impl GeometryElement {
    pub open spec fn spec_id(self) -> u128 {
        match self {
            GeometryElement::Point(p) => p.id,
            GeometryElement::Line(l) => l.id,
            GeometryElement::Arc(a) => a.id,
            GeometryElement::Circle(c) => c.id,
            GeometryElement::Ellipse(e) => e.id,
            GeometryElement::BSpline(b) => b.id,
        }
    }

    pub fn id(&self) -> (r: u128)
        ensures
            r == self.spec_id(),
    {
        match self {
            GeometryElement::Point(p) => p.id,
            GeometryElement::Line(l) => l.id,
            GeometryElement::Arc(a) => a.id,
            GeometryElement::Circle(c) => c.id,
            GeometryElement::Ellipse(e) => e.id,
            GeometryElement::BSpline(b) => b.id,
        }
    }
}

/// Every point id a curve runs through (empty for a point).
pub open spec fn curve_points(e: GeometryElement) -> Seq<u128> {
    match e {
        GeometryElement::Point(_) => Seq::empty(),
        GeometryElement::Line(l) => seq![l.start, l.end],
        GeometryElement::Arc(a) => seq![a.center, a.start, a.end],
        GeometryElement::Circle(c) => seq![c.center],
        GeometryElement::Ellipse(e) => match e.arc {
            Some(arc) => seq![e.center, arc.start, arc.end],
            None => seq![e.center],
        },
        GeometryElement::BSpline(b) => b.control_points@,
    }
}

/// A sketch axis direction, for constraints against the coordinate system.
#[derive(Debug, Clone, Copy, PartialEq, Eq)]
pub enum AxisDirection {
    Horizontal,
    Vertical,
}

/// A geometric relation applied to sketch geometry. Values are `f32` bit
/// patterns: millimetres, or radians for the angles.
#[derive(Debug, Clone, Copy, PartialEq, Eq)]
pub enum ConstraintKind {
    /// Point is fixed at a specific position.
    FixedPoint { point: u128, position: Vec2D },
    /// Two points are coincident.
    Coincident { point1: u128, point2: u128 },
    /// Two lines are parallel.
    Parallel { line1: u128, line2: u128 },
    /// Two lines are perpendicular.
    Perpendicular { line1: u128, line2: u128 },
    /// Two lines are equal in length.
    EqualLength { line1: u128, line2: u128 },
    /// Line has a specific length.
    Length { line: u128, length: u32 },
    /// Two circles/arcs have equal radius.
    EqualRadius { circle1: u128, circle2: u128 },
    /// Circle/arc has a specific radius.
    Radius { circle: u128, radius: u32 },
    /// Circle/arc has a specific diameter.
    Diameter { circle: u128, diameter: u32 },
    /// Point lies on a line.
    PointOnLine { point: u128, line: u128 },
    /// Point lies on a circle/arc.
    PointOnCircle { point: u128, circle: u128 },
    /// Point lies on an ellipse.
    PointOnEllipse { point: u128, ellipse: u128 },
    /// A line is horizontal.
    Horizontal { element: u128 },
    /// A line is vertical.
    Vertical { element: u128 },
    /// Every point (and the radius) of one element frozen where it is.
    Block { element: u128 },
    /// Distance between two points.
    Distance { point1: u128, point2: u128, distance: u32 },
    /// Horizontal distance between two points (`b = None` measures `a` from
    /// the origin).
    DistanceX { a: u128, b: Option<u128>, value: u32 },
    /// Vertical distance between two points (`b = None` measures `a` from
    /// the origin).
    DistanceY { a: u128, b: Option<u128>, value: u32 },
    /// Angle between two lines.
    Angle { line1: u128, line2: u128, angle_rad: u32 },
    /// Angle between a line and a sketch axis.
    AngleToAxis { line: u128, axis: AxisDirection, angle_rad: u32 },
    /// A line tangent to a circle/arc, or two circles/arcs tangent.
    Tangent { line_or_circle1: u128, item2: u128 },
    /// Two points mirror-symmetric about a line.
    Symmetric { point1: u128, point2: u128, line: u128 },
    /// Two points symmetric about a center point.
    SymmetricAboutPoint { point1: u128, point2: u128, center: u128 },
    /// Point sits at the midpoint of a line's endpoints.
    Midpoint { point: u128, line: u128 },
}

impl ConstraintKind {
    pub open spec fn spec_is_dimensional(self) -> bool {
        match self {
            ConstraintKind::Length { .. }
            | ConstraintKind::Radius { .. }
            | ConstraintKind::Diameter { .. }
            | ConstraintKind::Distance { .. }
            | ConstraintKind::DistanceX { .. }
            | ConstraintKind::DistanceY { .. }
            | ConstraintKind::Angle { .. }
            | ConstraintKind::AngleToAxis { .. } => true,
            _ => false,
        }
    }

    /// Dimensional constraints carry a numeric value that can be edited or
    /// demoted to a reference (driven) dimension.
    pub fn is_dimensional(&self) -> (b: bool)
        ensures
            b == self.spec_is_dimensional(),
    {
        match self {
            ConstraintKind::Length { .. }
            | ConstraintKind::Radius { .. }
            | ConstraintKind::Diameter { .. }
            | ConstraintKind::Distance { .. }
            | ConstraintKind::DistanceX { .. }
            | ConstraintKind::DistanceY { .. }
            | ConstraintKind::Angle { .. }
            | ConstraintKind::AngleToAxis { .. } => true,
            _ => false,
        }
    }
}

/// A constraint record: the relation plus solver metadata.
#[derive(Debug, Clone, PartialEq, Eq)]
pub struct Constraint {
    pub id: u128,
    pub kind: ConstraintKind,
    /// Dimensional constraints only: `false` makes it a reference
    /// dimension, measured and shown, never enforced.
    pub driving: bool,
    /// `false` keeps the constraint but leaves it out of the solve.
    pub active: bool,
    /// Optional user-facing name.
    pub name: Option<String>,
    /// Where the glyph sits from its anchor, in sketch units.
    pub label_offset: Option<Vec2D>,
}

impl Constraint {
    pub open spec fn spec_is_solved(self) -> bool {
        self.active && (self.driving || !self.kind.spec_is_dimensional())
    }

    /// A driving, active, unnamed constraint under a fresh id.
    pub fn new(kind: ConstraintKind) -> (c: Self)
        ensures
            c.kind == kind,
            c.driving,
            c.active,
            c.name is None,
            c.label_offset is None,
            is_random_id(c.id),
    {
        Constraint { id: new_id(), kind, driving: true, active: true, name: None, label_offset: None }
    }

    /// Whether it contributes to the solve: active, and driving whenever
    /// the kind is dimensional.
    pub fn is_solved(&self) -> (b: bool)
        ensures
            b == self.spec_is_solved(),
    {
        self.active && (self.driving || !self.kind.is_dimensional())
    }
}

/// The solid edge an external element was projected from: its body, and a
/// point on it with its direction there, in that body's own frame.
#[derive(Debug, Clone, Copy, PartialEq, Eq)]
pub struct ExternalSource {
    pub body: u128,
    pub point: [u32; 3],
    pub direction: [u32; 3],
}

/// A 2D sketch: geometry, constraints, and which elements are construction
/// guides or projections of a solid's edges.
#[derive(Debug)]
pub struct Sketch {
    pub id: u128,
    pub name: String,
    pub plane: SketchPlane,
    pub geometry: Vec<GeometryElement>,
    pub constraints: Vec<Constraint>,
    pub is_fully_constrained: bool,
    /// Construction geometry: snaps and constrains like the rest, never
    /// part of a profile.
    pub construction: HashSet<u128>,
    /// External geometry by element id, each with the edge it came from.
    pub external: HashMap<u128, ExternalSource>,
}


/// Whether `v` holds `x`.
pub fn contains_id(v: &[u128], x: u128) -> (b: bool)
    ensures
        b == v@.contains(x),
{
    let mut i: usize = 0;
    while i < v.len()
        invariant
            i <= v.len(),
            forall|j: int| 0 <= j < i ==> v@[j] != x,
        decreases v.len() - i,
    {
        if v[i] == x {
            return true;
        }
        i = i + 1;
    }
    false
}

/// Whether some element of `geometry` has id `id`.
pub open spec fn has_id(geometry: Seq<GeometryElement>, id: u128) -> bool {
    exists|i: int| 0 <= i < geometry.len() && (#[trigger] geometry[i]).spec_id() == id
}

/// `i` is the first index of an element with id `id`.
pub open spec fn is_first_with_id(geometry: Seq<GeometryElement>, id: u128, i: int) -> bool {
    &&& 0 <= i < geometry.len()
    &&& geometry[i].spec_id() == id
    &&& forall|j: int| 0 <= j < i ==> (#[trigger] geometry[j]).spec_id() != id
}

/// The first element with id `id`, as `Sketch::get_geometry` finds it.
pub open spec fn lookup(geometry: Seq<GeometryElement>, id: u128) -> Option<GeometryElement> {
    if has_id(geometry, id) {
        Some(geometry[choose|i: int| is_first_with_id(geometry, id, i)])
    } else {
        None
    }
}

/// Some index is the first with a given id whenever any has it.
pub proof fn lemma_first_with_id_exists(geometry: Seq<GeometryElement>, id: u128)
    requires
        has_id(geometry, id),
    ensures
        exists|i: int| is_first_with_id(geometry, id, i),
    decreases geometry.len(),
{
    let init = geometry.drop_last();
    if has_id(init, id) {
        lemma_first_with_id_exists(init, id);
        let i = choose|i: int| is_first_with_id(init, id, i);
        assert(init[i] == geometry[i]);
        assert forall|j: int| 0 <= j < i implies (#[trigger] geometry[j]).spec_id() != id by {
            assert(init[j] == geometry[j]);
        }
        assert(is_first_with_id(geometry, id, i));
    } else {
        let k = choose|k: int| 0 <= k < geometry.len() && (#[trigger] geometry[k]).spec_id() == id;
        if k < geometry.len() - 1 {
            assert(init[k] == geometry[k]);
            assert(false);
        }
        assert forall|j: int| 0 <= j < geometry.len() - 1 implies (#[trigger] geometry[j]).spec_id() != id by {
            assert(init[j] == geometry[j]);
        }
        assert(is_first_with_id(geometry, id, geometry.len() - 1));
    }
}

/// The element at a first index is what `lookup` finds.
pub proof fn lemma_lookup_at(geometry: Seq<GeometryElement>, id: u128, i: int)
    requires
        is_first_with_id(geometry, id, i),
    ensures
        lookup(geometry, id) == Some(geometry[i]),
{
    assert(has_id(geometry, id));
    let k = choose|k: int| is_first_with_id(geometry, id, k);
    assert(is_first_with_id(geometry, id, k));
    if k < i {
        assert(geometry[k].spec_id() != id);
    }
    if i < k {
        assert(geometry[i].spec_id() != id);
    }
}

/// What `lookup` finds has the id asked for, and sits in the geometry.
pub proof fn lemma_lookup_found(geometry: Seq<GeometryElement>, id: u128)
    requires
        has_id(geometry, id),
    ensures
        lookup(geometry, id) matches Some(g) && g.spec_id() == id && geometry.contains(g),
{
    lemma_first_with_id_exists(geometry, id);
    let i = choose|i: int| is_first_with_id(geometry, id, i);
    lemma_lookup_at(geometry, id, i);
    assert(geometry[i] == geometry[i]);
}

/// Every id a constraint references.
pub open spec fn spec_constraint_refs(kind: ConstraintKind) -> Seq<u128> {
    match kind {
        ConstraintKind::FixedPoint { point, .. } => seq![point],
        ConstraintKind::Coincident { point1, point2 } => seq![point1, point2],
        ConstraintKind::Parallel { line1, line2 }
        | ConstraintKind::Perpendicular { line1, line2 }
        | ConstraintKind::EqualLength { line1, line2 } => seq![line1, line2],
        ConstraintKind::Length { line, .. } => seq![line],
        ConstraintKind::EqualRadius { circle1, circle2 } => seq![circle1, circle2],
        ConstraintKind::Radius { circle, .. } | ConstraintKind::Diameter { circle, .. } => seq![circle],
        ConstraintKind::PointOnLine { point, line } => seq![point, line],
        ConstraintKind::PointOnCircle { point, circle } => seq![point, circle],
        ConstraintKind::PointOnEllipse { point, ellipse } => seq![point, ellipse],
        ConstraintKind::Horizontal { element }
        | ConstraintKind::Vertical { element }
        | ConstraintKind::Block { element } => seq![element],
        ConstraintKind::Distance { point1, point2, .. } => seq![point1, point2],
        ConstraintKind::DistanceX { a, b, .. } | ConstraintKind::DistanceY { a, b, .. } => match b {
            Some(b) => seq![a, b],
            None => seq![a],
        },
        ConstraintKind::Angle { line1, line2, .. } => seq![line1, line2],
        ConstraintKind::AngleToAxis { line, .. } => seq![line],
        ConstraintKind::Tangent { line_or_circle1, item2 } => seq![line_or_circle1, item2],
        ConstraintKind::Symmetric { point1, point2, line } => seq![point1, point2, line],
        ConstraintKind::SymmetricAboutPoint { point1, point2, center } => seq![point1, point2, center],
        ConstraintKind::Midpoint { point, line } => seq![point, line],
    }
}

/// Every geometry id a constraint references.
pub fn constraint_refs(kind: &ConstraintKind) -> (v: Vec<u128>)
    ensures
        v@ == spec_constraint_refs(*kind),
{
    let v = match *kind {
        ConstraintKind::FixedPoint { point, .. } => vec![point],
        ConstraintKind::Coincident { point1, point2 } => vec![point1, point2],
        ConstraintKind::Parallel { line1, line2 }
        | ConstraintKind::Perpendicular { line1, line2 }
        | ConstraintKind::EqualLength { line1, line2 } => vec![line1, line2],
        ConstraintKind::Length { line, .. } => vec![line],
        ConstraintKind::EqualRadius { circle1, circle2 } => vec![circle1, circle2],
        ConstraintKind::Radius { circle, .. } | ConstraintKind::Diameter { circle, .. } => vec![circle],
        ConstraintKind::PointOnLine { point, line } => vec![point, line],
        ConstraintKind::PointOnCircle { point, circle } => vec![point, circle],
        ConstraintKind::PointOnEllipse { point, ellipse } => vec![point, ellipse],
        ConstraintKind::Horizontal { element }
        | ConstraintKind::Vertical { element }
        | ConstraintKind::Block { element } => vec![element],
        ConstraintKind::Distance { point1, point2, .. } => vec![point1, point2],
        ConstraintKind::DistanceX { a, b, .. } | ConstraintKind::DistanceY { a, b, .. } => match b {
            Some(b) => vec![a, b],
            None => vec![a],
        },
        ConstraintKind::Angle { line1, line2, .. } => vec![line1, line2],
        ConstraintKind::AngleToAxis { line, .. } => vec![line],
        ConstraintKind::Tangent { line_or_circle1, item2 } => vec![line_or_circle1, item2],
        ConstraintKind::Symmetric { point1, point2, line } => vec![point1, point2, line],
        ConstraintKind::SymmetricAboutPoint { point1, point2, center } => vec![point1, point2, center],
        ConstraintKind::Midpoint { point, line } => vec![point, line],
    };
    assert(v@ =~= spec_constraint_refs(*kind));
    v
}

impl Sketch {
    /// Position of `id`: the origin at `(0, 0)`, else the point element
    /// `get_geometry` finds; `None` for anything else.
    pub open spec fn position_of(self, id: u128) -> Option<Vec2D> {
        if id == ORIGIN_ID {
            Some(zero_vec())
        } else {
            match lookup(self.geometry@, id) {
                Some(GeometryElement::Point(p)) => Some(p.position),
                _ => None,
            }
        }
    }

    /// An empty sketch named `name`, on the XY plane, under a fresh id.
    pub fn new(name: &str) -> (s: Self)
        ensures
            s.name@ == name@,
            s.plane == SketchPlane::spec_xy(),
            s.geometry@.len() == 0,
            s.constraints@.len() == 0,
            !s.is_fully_constrained,
            s.construction@ == Set::<u128>::empty(),
            s.external@ == Map::<u128, ExternalSource>::empty(),
            is_random_id(s.id),
    {
        Sketch {
            id: new_id(),
            name: name.to_owned(),
            plane: SketchPlane::xy(),
            geometry: Vec::new(),
            constraints: Vec::new(),
            is_fully_constrained: false,
            construction: HashSet::new(),
            external: HashMap::new(),
        }
    }

    /// Whether `id` is flagged as construction geometry.
    pub fn is_construction(&self, id: u128) -> (b: bool)
        ensures
            b == self.construction@.contains(id),
    {
        self.construction.contains(&id)
    }

    /// Set or clear the construction flag on `id`.
    pub fn set_construction(&mut self, id: u128, construction: bool)
        ensures
            final(self).construction@ == if construction {
                old(self).construction@.insert(id)
            } else {
                old(self).construction@.remove(id)
            },
            final(self).geometry@ == old(self).geometry@,
            final(self).constraints@ == old(self).constraints@,
            final(self).external@ == old(self).external@,
            final(self).id == old(self).id,
            final(self).name@ == old(self).name@,
            final(self).plane == old(self).plane,
            final(self).is_fully_constrained == old(self).is_fully_constrained,
    {
        if construction {
            self.construction.insert(id);
        } else {
            self.construction.remove(&id);
        }
    }

    /// Add a geometry element; its id comes back.
    pub fn add_geometry(&mut self, element: GeometryElement) -> (id: u128)
        ensures
            id == element.spec_id(),
            final(self).geometry@ == old(self).geometry@.push(element),
            final(self).constraints@ == old(self).constraints@,
            final(self).construction@ == old(self).construction@,
            final(self).external@ == old(self).external@,
            final(self).id == old(self).id,
            final(self).name@ == old(self).name@,
            final(self).plane == old(self).plane,
            final(self).is_fully_constrained == old(self).is_fully_constrained,
    {
        let id = element.id();
        self.geometry.push(element);
        id
    }

    /// Add a constraint (driving, active, unnamed) and return its id.
    pub fn add_constraint(&mut self, kind: ConstraintKind) -> (id: u128)
        ensures
            final(self).constraints@.len() == old(self).constraints@.len() + 1,
            final(self).constraints@.drop_last() == old(self).constraints@,
            ({
                let c = final(self).constraints@.last();
                &&& c.id == id
                &&& c.kind == kind
                &&& c.driving
                &&& c.active
                &&& c.name is None
                &&& c.label_offset is None
            }),
            is_random_id(id),
            final(self).geometry@ == old(self).geometry@,
            final(self).construction@ == old(self).construction@,
            final(self).external@ == old(self).external@,
            final(self).id == old(self).id,
            final(self).name@ == old(self).name@,
            final(self).plane == old(self).plane,
            final(self).is_fully_constrained == old(self).is_fully_constrained,
    {
        let constraint = Constraint::new(kind);
        let id = constraint.id;
        self.constraints.push(constraint);
        assert(self.constraints@.drop_last() =~= old(self).constraints@);
        id
    }

    /// The first geometry element with id `id`, to change in place: what
    /// is written through it replaces that element, and nothing else of
    /// the sketch changes.
    pub fn get_geometry_mut(&mut self, id: u128) -> (r: Option<&mut GeometryElement>)
        ensures
            match r {
                Some(g) => {
                    &&& lookup(old(self).geometry@, id) == Some(*g)
                    &&& exists|i: int|
                        is_first_with_id(old(self).geometry@, id, i) && final(self).geometry@
                            == old(self).geometry@.update(i, *final(g))
                },
                None => {
                    &&& lookup(old(self).geometry@, id) is None
                    &&& final(self).geometry@ == old(self).geometry@
                },
            },
            final(self).constraints@ == old(self).constraints@,
            final(self).construction@ == old(self).construction@,
            final(self).external@ == old(self).external@,
            final(self).id == old(self).id,
            final(self).name@ == old(self).name@,
            final(self).plane == old(self).plane,
            final(self).is_fully_constrained == old(self).is_fully_constrained,
    {
        let mut i: usize = 0;
        while i < self.geometry.len()
            invariant
                i <= self.geometry@.len(),
                *self == *old(self),
                forall|j: int| 0 <= j < i ==> (#[trigger] self.geometry@[j]).spec_id() != id,
            decreases self.geometry@.len() - i,
        {
            if self.geometry[i].id() == id {
                proof {
                    lemma_lookup_at(self.geometry@, id, i as int);
                    assert(is_first_with_id(old(self).geometry@, id, i as int));
                }
                return Some(&mut self.geometry[i]);
            }
            i = i + 1;
        }
        assert(!has_id(self.geometry@, id));
        None
    }

    /// The first geometry element with id `id`.
    pub fn get_geometry(&self, id: u128) -> (r: Option<&GeometryElement>)
        ensures
            match r {
                Some(g) => lookup(self.geometry@, id) == Some(*g),
                None => lookup(self.geometry@, id) is None,
            },
    {
        let mut i: usize = 0;
        while i < self.geometry.len()
            invariant
                i <= self.geometry@.len(),
                forall|j: int| 0 <= j < i ==> (#[trigger] self.geometry@[j]).spec_id() != id,
            decreases self.geometry@.len() - i,
        {
            if self.geometry[i].id() == id {
                proof {
                    lemma_lookup_at(self.geometry@, id, i as int);
                }
                return Some(&self.geometry[i]);
            }
            i = i + 1;
        }
        assert(!has_id(self.geometry@, id));
        None
    }

    /// Position of `id`, the origin included.
    pub fn point_position(&self, id: u128) -> (r: Option<Vec2D>)
        ensures
            r == self.position_of(id),
    {
        if id == ORIGIN_ID {
            return Some(Vec2D::new(F32_ZERO, F32_ZERO));
        }
        match self.get_geometry(id) {
            Some(GeometryElement::Point(p)) => Some(p.position),
            _ => None,
        }
    }

    /// Every point id a curve references (empty for points).
    pub fn curve_point_ids(element: &GeometryElement) -> (v: Vec<u128>)
        ensures
            v@ == curve_points(*element),
    {
        let v = match element {
            GeometryElement::Point(_) => Vec::new(),
            GeometryElement::Line(l) => vec![l.start, l.end],
            GeometryElement::Arc(a) => vec![a.center, a.start, a.end],
            GeometryElement::Circle(c) => vec![c.center],
            GeometryElement::Ellipse(e) => match e.arc {
                Some(arc) => vec![e.center, arc.start, arc.end],
                None => vec![e.center],
            },
            GeometryElement::BSpline(b) => copy_ids(&b.control_points),
        };
        assert(v@ =~= curve_points(*element));
        v
    }
}

/// A copy of a list of ids.
pub fn copy_ids(v: &Vec<u128>) -> (r: Vec<u128>)
    ensures
        r@ == v@,
{
    let mut r: Vec<u128> = Vec::new();
    let mut i: usize = 0;
    while i < v.len()
        invariant
            i <= v@.len(),
            r@ == v@.take(i as int),
        decreases v@.len() - i,
    {
        r.push(v[i]);
        i = i + 1;
        assert(r@ =~= v@.take(i as int));
    }
    assert(v@.take(v@.len() as int) =~= v@);
    r
}


/// Whether some id of `points` is in `d`.
pub open spec fn touches(points: Seq<u128>, d: Set<u128>) -> bool {
    exists|k: int| 0 <= k < points.len() && d.contains(#[trigger] points[k])
}

/// First pass of a cascade: from `doomed`, each element of `geometry` in
/// turn is doomed when it is not yet and runs through a doomed id.
pub open spec fn cascade_curves(geometry: Seq<GeometryElement>, doomed: Set<u128>) -> Set<u128>
    decreases geometry.len(),
{
    if geometry.len() == 0 {
        doomed
    } else {
        let d = cascade_curves(geometry.drop_last(), doomed);
        let g = geometry.last();
        if !d.contains(g.spec_id()) && touches(curve_points(g), d) {
            d.insert(g.spec_id())
        } else {
            d
        }
    }
}

/// The points run through by elements whose id `chosen` says is in (or,
/// with `inside` false, out).
pub open spec fn points_of(geometry: Seq<GeometryElement>, d: Set<u128>, inside: bool) -> Set<u128> {
    Set::new(
        |p: u128|
            exists|i: int|
                0 <= i < geometry.len() && d.contains(geometry[i].spec_id()) == inside
                    && (#[trigger] curve_points(geometry[i])).contains(p),
    )
}

/// Every id a cascade removes for `ids`: the ids themselves, every curve
/// running through a doomed point, and the points only doomed curves ran
/// through.
pub open spec fn cascade_doomed(geometry: Seq<GeometryElement>, ids: Seq<u128>) -> Set<u128> {
    let d = cascade_curves(geometry, ids.to_set());
    d + (points_of(geometry, d, true) - points_of(geometry, d, false))
}

/// Whether `c` references anything in `d`.
pub open spec fn constraint_touches(c: Constraint, d: Set<u128>) -> bool {
    touches(spec_constraint_refs(c.kind), d)
}

/// Whether some id of `points` is in `set`.
fn touches_any(points: &Vec<u128>, set: &Vec<u128>) -> (b: bool)
    ensures
        b == touches(points@, set@.to_set()),
{
    let mut k: usize = 0;
    while k < points.len()
        invariant
            k <= points@.len(),
            forall|j: int| 0 <= j < k ==> !set@.to_set().contains(#[trigger] points@[j]),
        decreases points@.len() - k,
    {
        if contains_id(set, points[k]) {
            assert(set@.to_set().contains(points@[k as int]));
            return true;
        }
        k = k + 1;
    }
    false
}

/// Append `src` to `dst`.
fn append_ids(dst: &mut Vec<u128>, src: &Vec<u128>)
    ensures
        final(dst)@ == old(dst)@ + src@,
{
    let mut k: usize = 0;
    while k < src.len()
        invariant
            k <= src@.len(),
            dst@ == old(dst)@ + src@.take(k as int),
        decreases src@.len() - k,
    {
        dst.push(src[k]);
        k = k + 1;
        assert(dst@ =~= old(dst)@ + src@.take(k as int));
    }
    assert(src@.take(src@.len() as int) =~= src@);
}

/// Keeps an element whose id is not in `doomed`.
pub open spec fn survives(doomed: Set<u128>) -> spec_fn(GeometryElement) -> bool {
    |g: GeometryElement| !doomed.contains(g.spec_id())
}

/// Keeps an element whose id is in `doomed`.
pub open spec fn falls(doomed: Set<u128>) -> spec_fn(GeometryElement) -> bool {
    |g: GeometryElement| doomed.contains(g.spec_id())
}

/// Keeps a constraint that references nothing in `doomed`.
pub open spec fn constraint_survives(doomed: Set<u128>) -> spec_fn(Constraint) -> bool {
    |c: Constraint| !constraint_touches(c, doomed)
}

/// An element's id.
pub open spec fn id_of() -> spec_fn(GeometryElement) -> u128 {
    |g: GeometryElement| g.spec_id()
}

impl Sketch {
    /// Remove elements by id with cascade semantics: removing a point also
    /// removes every curve that runs through it; removing a curve takes the
    /// points it ran through unless a remaining curve shares them; and the
    /// constraints, construction flags and external sources of everything
    /// removed go too. Returns the ids of the elements removed, in sketch
    /// order.
    pub fn remove_geometry_cascade(&mut self, ids: &[u128]) -> (removed: Vec<u128>)
        ensures
            ({
                let doomed = cascade_doomed(old(self).geometry@, ids@);
                &&& removed@ == old(self).geometry@.filter(falls(doomed)).map_values(id_of())
                &&& final(self).geometry@ == old(self).geometry@.filter(survives(doomed))
                &&& final(self).constraints@ == old(self).constraints@.filter(
                    constraint_survives(doomed),
                )
                &&& final(self).construction@ == old(self).construction@ - doomed
                &&& final(self).external@ == old(self).external@.remove_keys(doomed)
            }),
            final(self).id == old(self).id,
            final(self).name@ == old(self).name@,
            final(self).plane == old(self).plane,
            final(self).is_fully_constrained == old(self).is_fully_constrained,
    {
        let ghost geometry = self.geometry@;
        let ghost idset = ids@.to_set();
        let n = self.geometry.len();

        // Curves that run through a doomed id are doomed too.
        let mut doomed: Vec<u128> = Vec::new();
        let mut k: usize = 0;
        while k < ids.len()
            invariant
                self.id == old(self).id,
                self.name@ == old(self).name@,
                self.plane == old(self).plane,
                self.is_fully_constrained == old(self).is_fully_constrained,
                k <= ids@.len(),
                doomed@ == ids@.take(k as int),
            decreases ids@.len() - k,
        {
            doomed.push(ids[k]);
            k = k + 1;
            assert(doomed@ =~= ids@.take(k as int));
        }
        assert(ids@.take(ids@.len() as int) =~= ids@);
        let mut i: usize = 0;
        while i < n
            invariant
                self.id == old(self).id,
                self.name@ == old(self).name@,
                self.plane == old(self).plane,
                self.is_fully_constrained == old(self).is_fully_constrained,
                n == self.geometry@.len(),
                self.geometry@ == geometry,
                i <= n,
                idset == ids@.to_set(),
                doomed@.to_set() == cascade_curves(geometry.take(i as int), idset),
            decreases n - i,
        {
            proof {
                assert(geometry.take(i + 1).drop_last() =~= geometry.take(i as int));
                assert(geometry.take(i + 1).last() == geometry[i as int]);
            }
            let id = self.geometry[i].id();
            if !contains_id(&doomed, id) {
                let points = Self::curve_point_ids(&self.geometry[i]);
                if touches_any(&points, &doomed) {
                    doomed.push(id);
                    assert(doomed@.to_set() =~= cascade_curves(geometry.take(i + 1), idset));
                }
            }
            i = i + 1;
        }
        assert(geometry.take(n as int) =~= geometry);
        let ghost d1 = doomed@.to_set();

        // Points only the doomed curves held on to go with them.
        let mut released: Vec<u128> = Vec::new();
        let mut held: Vec<u128> = Vec::new();
        let mut i: usize = 0;
        while i < n
            invariant
                self.id == old(self).id,
                self.name@ == old(self).name@,
                self.plane == old(self).plane,
                self.is_fully_constrained == old(self).is_fully_constrained,
                n == self.geometry@.len(),
                self.geometry@ == geometry,
                i <= n,
                d1 == doomed@.to_set(),
                forall|p: u128|
                    #![trigger released@.contains(p)]
                    released@.contains(p) <==> exists|j: int|
                        0 <= j < i && d1.contains(geometry[j].spec_id())
                            && (#[trigger] curve_points(geometry[j])).contains(p),
                forall|p: u128|
                    #![trigger held@.contains(p)]
                    held@.contains(p) <==> exists|j: int|
                        0 <= j < i && !d1.contains(geometry[j].spec_id())
                            && (#[trigger] curve_points(geometry[j])).contains(p),
            decreases n - i,
        {
            let points = Self::curve_point_ids(&self.geometry[i]);
            let id = self.geometry[i].id();
            let ghost old_released = released@;
            let ghost old_held = held@;
            if contains_id(&doomed, id) {
                append_ids(&mut released, &points);
            } else {
                append_ids(&mut held, &points);
            }
            proof {
                assert forall|p: u128| #![trigger released@.contains(p)]
                    released@.contains(p) <==> exists|j: int|
                        0 <= j < i + 1 && d1.contains(geometry[j].spec_id())
                            && (#[trigger] curve_points(geometry[j])).contains(p) by {
                    if released@.contains(p) && !old_released.contains(p) {
                        let k = choose|k: int| 0 <= k < released@.len() && released@[k] == p;
                        assert(points@.contains(p)) by {
                            assert(released@[k] == points@[k - old_released.len()]);
                        }
                    }
                    if exists|j: int|
                        0 <= j < i + 1 && d1.contains(geometry[j].spec_id())
                            && (#[trigger] curve_points(geometry[j])).contains(p) {
                        let j = choose|j: int|
                            0 <= j < i + 1 && d1.contains(geometry[j].spec_id())
                                && (#[trigger] curve_points(geometry[j])).contains(p);
                        if j == i {
                            let k = choose|k: int| 0 <= k < points@.len() && points@[k] == p;
                            assert(released@[old_released.len() + k] == p);
                        } else {
                            assert(old_released.contains(p));
                            let k = choose|k: int| 0 <= k < old_released.len() && old_released[k] == p;
                            assert(released@[k] == p);
                        }
                    }
                }
                assert forall|p: u128| #![trigger held@.contains(p)]
                    held@.contains(p) <==> exists|j: int|
                        0 <= j < i + 1 && !d1.contains(geometry[j].spec_id())
                            && (#[trigger] curve_points(geometry[j])).contains(p) by {
                    if held@.contains(p) && !old_held.contains(p) {
                        let k = choose|k: int| 0 <= k < held@.len() && held@[k] == p;
                        assert(points@.contains(p)) by {
                            assert(held@[k] == points@[k - old_held.len()]);
                        }
                    }
                    if exists|j: int|
                        0 <= j < i + 1 && !d1.contains(geometry[j].spec_id())
                            && (#[trigger] curve_points(geometry[j])).contains(p) {
                        let j = choose|j: int|
                            0 <= j < i + 1 && !d1.contains(geometry[j].spec_id())
                                && (#[trigger] curve_points(geometry[j])).contains(p);
                        if j == i {
                            let k = choose|k: int| 0 <= k < points@.len() && points@[k] == p;
                            assert(held@[old_held.len() + k] == p);
                        } else {
                            assert(old_held.contains(p));
                            let k = choose|k: int| 0 <= k < old_held.len() && old_held[k] == p;
                            assert(held@[k] == p);
                        }
                    }
                }
            }
            i = i + 1;
        }
        let ghost all = cascade_doomed(geometry, ids@);
        assert forall|x: u128| #![trigger all.contains(x)]
            all.contains(x) <==> (doomed@.contains(x) || (released@.contains(x)
                && !held@.contains(x))) by {
            assert(doomed@.to_set().contains(x) == doomed@.contains(x));
            assert(released@.contains(x) == points_of(geometry, d1, true).contains(x));
            assert(held@.contains(x) == points_of(geometry, d1, false).contains(x));
        }

        // Split the geometry into what stays and what goes.
        let mut old_geometry: Vec<GeometryElement> = Vec::new();
        std::mem::swap(&mut old_geometry, &mut self.geometry);
        let mut kept: Vec<GeometryElement> = Vec::new();
        let mut removed: Vec<u128> = Vec::new();
        for g in it: old_geometry.into_iter()
            invariant
                self.id == old(self).id,
                self.name@ == old(self).name@,
                self.plane == old(self).plane,
                self.is_fully_constrained == old(self).is_fully_constrained,
                it.seq() == geometry,
                kept@ == geometry.take(it.index() as int).filter(survives(all)),
                removed@ == geometry.take(it.index() as int).filter(falls(all)).map_values(id_of()),
                forall|x: u128| #![trigger all.contains(x)]
                    all.contains(x) <==> (doomed@.contains(x) || (released@.contains(x)
                        && !held@.contains(x))),
        {
            let ghost j = it.index() as int;
            proof {
                assert(geometry.take(j + 1) =~= geometry.take(j).push(geometry[j]));
                geometry.take(j).lemma_filter_push(geometry[j], survives(all));
                geometry.take(j).lemma_filter_push(geometry[j], falls(all));
            }
            let id = g.id();
            if contains_id(&doomed, id) || (contains_id(&released, id) && !contains_id(&held, id)) {
                removed.push(id);
                assert(removed@ =~= geometry.take(j + 1).filter(falls(all)).map_values(id_of()));
            } else {
                kept.push(g);
                assert(removed@ =~= geometry.take(j + 1).filter(falls(all)).map_values(id_of()));
            }
        }
        assert(geometry.take(geometry.len() as int) =~= geometry);
        self.geometry = kept;

        // Constraints on anything removed go with it.
        let ghost constraints = self.constraints@;
        let mut old_constraints: Vec<Constraint> = Vec::new();
        std::mem::swap(&mut old_constraints, &mut self.constraints);
        let mut kept_constraints: Vec<Constraint> = Vec::new();
        for c in it: old_constraints.into_iter()
            invariant
                self.id == old(self).id,
                self.name@ == old(self).name@,
                self.plane == old(self).plane,
                self.is_fully_constrained == old(self).is_fully_constrained,
                it.seq() == constraints,
                kept_constraints@ == constraints.take(it.index() as int).filter(
                    constraint_survives(all),
                ),
                forall|x: u128| #![trigger all.contains(x)]
                    all.contains(x) <==> (doomed@.contains(x) || (released@.contains(x)
                        && !held@.contains(x))),
        {
            let ghost j = it.index() as int;
            proof {
                assert(constraints.take(j + 1) =~= constraints.take(j).push(constraints[j]));
                constraints.take(j).lemma_filter_push(constraints[j], constraint_survives(all));
            }
            let refs = constraint_refs(&c.kind);
            let mut hit = false;
            let mut k: usize = 0;
            while k < refs.len()
                invariant
                self.id == old(self).id,
                self.name@ == old(self).name@,
                self.plane == old(self).plane,
                self.is_fully_constrained == old(self).is_fully_constrained,
                    k <= refs@.len(),
                    refs@ == spec_constraint_refs(c.kind),
                    hit == exists|m: int| 0 <= m < k && all.contains(#[trigger] refs@[m]),
                    forall|x: u128| #![trigger all.contains(x)]
                        all.contains(x) <==> (doomed@.contains(x) || (released@.contains(x)
                            && !held@.contains(x))),
                decreases refs@.len() - k,
            {
                let r = refs[k];
                if contains_id(&doomed, r) || (contains_id(&released, r) && !contains_id(&held, r)) {
                    hit = true;
                }
                k = k + 1;
            }
            if !hit {
                kept_constraints.push(c);
            }
        }
        assert(constraints.take(constraints.len() as int) =~= constraints);
        self.constraints = kept_constraints;

        // Flags and sources of what went.
        let ghost construction = self.construction@;
        let ghost external = self.external@;
        let mut k: usize = 0;
        while k < doomed.len()
            invariant
                self.id == old(self).id,
                self.name@ == old(self).name@,
                self.plane == old(self).plane,
                self.is_fully_constrained == old(self).is_fully_constrained,
                k <= doomed@.len(),
                self.geometry@ == geometry.filter(survives(all)),
                self.constraints@ == constraints.filter(constraint_survives(all)),
                self.construction@ == construction - doomed@.take(k as int).to_set(),
                self.external@ == external.remove_keys(doomed@.take(k as int).to_set()),
            decreases doomed@.len() - k,
        {
            let x = doomed[k];
            self.construction.remove(&x);
            self.external.remove(&x);
            proof {
                assert(doomed@.take(k + 1) =~= doomed@.take(k as int).push(x));
                assert(doomed@.take(k + 1).to_set() =~= doomed@.take(k as int).to_set().insert(x));
            }
            k = k + 1;
            assert(self.construction@ =~= construction - doomed@.take(k as int).to_set());
            assert(self.external@ =~= external.remove_keys(doomed@.take(k as int).to_set()));
        }
        assert(doomed@.take(doomed@.len() as int) =~= doomed@);
        let ghost after_doomed_c = self.construction@;
        let ghost after_doomed_e = self.external@;
        let ghost loose = Set::new(|x: u128| released@.contains(x) && !held@.contains(x));
        let mut k: usize = 0;
        while k < released.len()
            invariant
                self.id == old(self).id,
                self.name@ == old(self).name@,
                self.plane == old(self).plane,
                self.is_fully_constrained == old(self).is_fully_constrained,
                k <= released@.len(),
                self.geometry@ == geometry.filter(survives(all)),
                self.constraints@ == constraints.filter(constraint_survives(all)),
                loose == Set::new(|x: u128| released@.contains(x) && !held@.contains(x)),
                self.construction@ == after_doomed_c - released@.take(k as int).to_set().intersect(loose),
                self.external@ == after_doomed_e.remove_keys(
                    released@.take(k as int).to_set().intersect(loose),
                ),
            decreases released@.len() - k,
        {
            let x = released[k];
            proof {
                assert(released@.take(k + 1) =~= released@.take(k as int).push(x));
                assert(released@.contains(x));
            }
            if !contains_id(&held, x) {
                self.construction.remove(&x);
                self.external.remove(&x);
                assert(released@.take(k + 1).to_set().intersect(loose) =~= released@.take(
                    k as int,
                ).to_set().intersect(loose).insert(x));
            } else {
                assert(released@.take(k + 1).to_set().intersect(loose) =~= released@.take(
                    k as int,
                ).to_set().intersect(loose));
            }
            k = k + 1;
            assert(self.construction@ =~= after_doomed_c - released@.take(k as int).to_set().intersect(
                loose,
            ));
            assert(self.external@ =~= after_doomed_e.remove_keys(
                released@.take(k as int).to_set().intersect(loose),
            ));
        }
        assert(released@.take(released@.len() as int) =~= released@);
        assert(geometry == old(self).geometry@);
        assert(self.construction@ =~= construction - all);
        assert(self.external@ =~= external.remove_keys(all));
        removed
    }
}


/// Whether the element `get_geometry` finds under `k` runs through `x`.
pub open spec fn runs_through(geometry: Seq<GeometryElement>, k: u128, x: u128) -> bool {
    match lookup(geometry, k) {
        Some(g) => curve_points(g).contains(x),
        None => false,
    }
}

/// The external elements' ids, and the points of the elements under them.
pub open spec fn spec_external_ids(s: Sketch) -> Set<u128> {
    Set::new(
        |x: u128|
            s.external@.contains_key(x) || exists|k: u128|
                s.external@.contains_key(k) && #[trigger] runs_through(s.geometry@, k, x),
    )
}

impl Sketch {
    /// Every external element and every point one is drawn through: what
    /// the solver holds still and a drag leaves alone.
    pub fn external_ids(&self) -> (r: HashSet<u128>)
        ensures
            r@ == spec_external_ids(*self),
    {
        let mut ids: HashSet<u128> = HashSet::new();
        let ghost keys = spec_keys_iter(&self.external).remaining();
        for id in it: self.external.keys()
            invariant
                it.seq() == keys,
                keys.unref().to_set() == self.external@.dom(),
                forall|x: u128| #![trigger ids@.contains(x)]
                    ids@.contains(x) <==> exists|j: int|
                        0 <= j < it.index() && (x == *keys[j] || runs_through(self.geometry@, *keys[j], x)),
        {
            let ghost j0 = it.index();
            let ghost before = ids@;
            let key = *id;
            ids.insert(key);
            let ghost mid = ids@;
            if let Some(element) = self.get_geometry(key) {
                let points = Self::curve_point_ids(element);
                let mut k: usize = 0;
                while k < points.len()
                    invariant
                        k <= points@.len(),
                        forall|x: u128| #![trigger ids@.contains(x)]
                            ids@.contains(x) <==> (mid.contains(x) || exists|m: int|
                                0 <= m < k && points@[m] == x),
                    decreases points@.len() - k,
                {
                    ids.insert(points[k]);
                    k = k + 1;
                }
                assert forall|x: u128| #![trigger ids@.contains(x)]
                    ids@.contains(x) <==> (before.contains(x) || x == key || runs_through(
                        self.geometry@,
                        key,
                        x,
                    )) by {
                    if runs_through(self.geometry@, key, x) {
                        let m = choose|m: int| 0 <= m < points@.len() && points@[m] == x;
                    }
                }
            }
            assert forall|x: u128| #![trigger ids@.contains(x)]
                ids@.contains(x) <==> exists|j: int|
                    0 <= j < j0 + 1 && (x == *keys[j] || runs_through(self.geometry@, *keys[j], x)) by {
                if ids@.contains(x) && !before.contains(x) {
                    assert(0 <= j0 < j0 + 1 && (x == *keys[j0] || runs_through(self.geometry@, *keys[j0], x)));
                }
            }
        }
        assert forall|x: u128| #![trigger ids@.contains(x)]
            ids@.contains(x) <==> spec_external_ids(*self).contains(x) by {
            if ids@.contains(x) {
                let j = choose|j: int|
                    0 <= j < keys.len() && (x == *keys[j] || runs_through(self.geometry@, *keys[j], x));
                assert(keys.unref().to_set().contains(*keys[j])) by {
                    assert(keys.unref()[j] == *keys[j]);
                }
            }
            if spec_external_ids(*self).contains(x) {
                if self.external@.contains_key(x) {
                    assert(keys.unref().to_set().contains(x));
                    let j = choose|j: int| 0 <= j < keys.unref().len() && keys.unref()[j] == x;
                    assert(*keys[j] == x);
                } else {
                    let k = choose|k: u128| self.external@.contains_key(k) && #[trigger] runs_through(self.geometry@, k, x);
                    assert(keys.unref().to_set().contains(k));
                    let j = choose|j: int| 0 <= j < keys.unref().len() && keys.unref()[j] == k;
                    assert(*keys[j] == k);
                }
            }
        }
        assert(ids@ =~= spec_external_ids(*self));
        ids
    }
}


impl Sketch {
    /// Whether `id` is external geometry, or a point of some.
    pub fn is_external(&self, id: u128) -> (b: bool)
        ensures
            b == spec_external_ids(*self).contains(id),
    {
        self.external_ids().contains(&id)
    }

    /// Ids of every point that no curve runs through, in sketch order.
    /// They are offered for cleanup, never removed on their own: a
    /// standalone point is legitimate geometry.
    pub fn orphan_point_ids(&self) -> (r: Vec<u128>)
        ensures
            r@ == self.geometry@.filter(orphan(self.geometry@)).map_values(id_of()),
    {
        let ghost geometry = self.geometry@;
        let mut referenced: Vec<u128> = Vec::new();
        let mut i: usize = 0;
        while i < self.geometry.len()
            invariant
                i <= geometry.len(),
                geometry == self.geometry@,
                forall|p: u128| #![trigger referenced@.contains(p)]
                    referenced@.contains(p) <==> exists|j: int|
                        0 <= j < i && (#[trigger] curve_points(geometry[j])).contains(p),
            decreases geometry.len() - i,
        {
            let points = Self::curve_point_ids(&self.geometry[i]);
            let ghost before = referenced@;
            append_ids(&mut referenced, &points);
            assert forall|p: u128| #![trigger referenced@.contains(p)]
                referenced@.contains(p) <==> exists|j: int|
                    0 <= j < i + 1 && (#[trigger] curve_points(geometry[j])).contains(p) by {
                if referenced@.contains(p) && !before.contains(p) {
                    let k = choose|k: int| 0 <= k < referenced@.len() && referenced@[k] == p;
                    assert(referenced@[k] == points@[k - before.len()]);
                }
                if exists|j: int| 0 <= j < i + 1 && (#[trigger] curve_points(geometry[j])).contains(p) {
                    let j = choose|j: int|
                        0 <= j < i + 1 && (#[trigger] curve_points(geometry[j])).contains(p);
                    if j == i {
                        let k = choose|k: int| 0 <= k < points@.len() && points@[k] == p;
                        assert(referenced@[before.len() + k] == p);
                    } else {
                        let k = choose|k: int| 0 <= k < before.len() && before[k] == p;
                        assert(referenced@[k] == p);
                    }
                }
            }
            i = i + 1;
        }
        let mut out: Vec<u128> = Vec::new();
        let mut i: usize = 0;
        while i < self.geometry.len()
            invariant
                i <= geometry.len(),
                geometry == self.geometry@,
                forall|p: u128| #![trigger referenced@.contains(p)]
                    referenced@.contains(p) <==> exists|j: int|
                        0 <= j < geometry.len() && (#[trigger] curve_points(geometry[j])).contains(p),
                out@ == geometry.take(i as int).filter(orphan(geometry)).map_values(id_of()),
            decreases geometry.len() - i,
        {
            proof {
                assert(geometry.take(i + 1) =~= geometry.take(i as int).push(geometry[i as int]));
                geometry.take(i as int).lemma_filter_push(geometry[i as int], orphan(geometry));
                assert(referenced@.contains(geometry[i as int].spec_id()) == all_referenced(geometry).contains(geometry[i as int].spec_id()));
            }
            match &self.geometry[i] {
                GeometryElement::Point(p) => {
                    if !contains_id(&referenced, p.id) {
                        out.push(p.id);
                    }
                },
                _ => {},
            }
            i = i + 1;
            assert(out@ =~= geometry.take(i as int).filter(orphan(geometry)).map_values(id_of()));
        }
        assert(geometry.take(geometry.len() as int) =~= geometry);
        out
    }
}

/// Every id some element of `geometry` runs through.
pub open spec fn all_referenced(geometry: Seq<GeometryElement>) -> Set<u128> {
    Set::new(
        |p: u128| exists|j: int| 0 <= j < geometry.len() && (#[trigger] curve_points(geometry[j])).contains(p),
    )
}

/// Keeps the points no element of `geometry` runs through.
pub open spec fn orphan(geometry: Seq<GeometryElement>) -> spec_fn(GeometryElement) -> bool {
    |g: GeometryElement| g is Point && !all_referenced(geometry).contains(g.spec_id())
}

/// Short human label of a constraint kind.
pub open spec fn spec_constraint_label(kind: ConstraintKind) -> Seq<char> {
    match kind {
        ConstraintKind::FixedPoint { .. } => "Fixed point"@,
        ConstraintKind::Coincident { .. } => "Coincident"@,
        ConstraintKind::Parallel { .. } => "Parallel"@,
        ConstraintKind::Perpendicular { .. } => "Perpendicular"@,
        ConstraintKind::EqualLength { .. } => "Equal length"@,
        ConstraintKind::Length { .. } => "Length"@,
        ConstraintKind::EqualRadius { .. } => "Equal radius"@,
        ConstraintKind::Radius { .. } => "Radius"@,
        ConstraintKind::Diameter { .. } => "Diameter"@,
        ConstraintKind::PointOnLine { .. } => "Point on line"@,
        ConstraintKind::PointOnCircle { .. } => "Point on circle"@,
        ConstraintKind::PointOnEllipse { .. } => "Point on ellipse"@,
        ConstraintKind::Horizontal { .. } => "Horizontal"@,
        ConstraintKind::Vertical { .. } => "Vertical"@,
        ConstraintKind::Block { .. } => "Block"@,
        ConstraintKind::Distance { .. } => "Distance"@,
        ConstraintKind::DistanceX { .. } => "Distance X"@,
        ConstraintKind::DistanceY { .. } => "Distance Y"@,
        ConstraintKind::Angle { .. } => "Angle"@,
        ConstraintKind::AngleToAxis { axis: AxisDirection::Horizontal, .. } => "Angle to X axis"@,
        ConstraintKind::AngleToAxis { axis: AxisDirection::Vertical, .. } => "Angle to Y axis"@,
        ConstraintKind::Tangent { .. } => "Tangent"@,
        ConstraintKind::Symmetric { .. } => "Symmetric"@,
        ConstraintKind::SymmetricAboutPoint { .. } => "Symmetric (point)"@,
        ConstraintKind::Midpoint { .. } => "Midpoint"@,
    }
}

/// Short human label for a constraint kind (left-panel list).
pub fn constraint_label(kind: &ConstraintKind) -> (s: String)
    ensures
        s@ == spec_constraint_label(*kind),
{
    let text: &str = match kind {
        ConstraintKind::FixedPoint { .. } => "Fixed point",
        ConstraintKind::Coincident { .. } => "Coincident",
        ConstraintKind::Parallel { .. } => "Parallel",
        ConstraintKind::Perpendicular { .. } => "Perpendicular",
        ConstraintKind::EqualLength { .. } => "Equal length",
        ConstraintKind::Length { .. } => "Length",
        ConstraintKind::EqualRadius { .. } => "Equal radius",
        ConstraintKind::Radius { .. } => "Radius",
        ConstraintKind::Diameter { .. } => "Diameter",
        ConstraintKind::PointOnLine { .. } => "Point on line",
        ConstraintKind::PointOnCircle { .. } => "Point on circle",
        ConstraintKind::PointOnEllipse { .. } => "Point on ellipse",
        ConstraintKind::Horizontal { .. } => "Horizontal",
        ConstraintKind::Vertical { .. } => "Vertical",
        ConstraintKind::Block { .. } => "Block",
        ConstraintKind::Distance { .. } => "Distance",
        ConstraintKind::DistanceX { .. } => "Distance X",
        ConstraintKind::DistanceY { .. } => "Distance Y",
        ConstraintKind::Angle { .. } => "Angle",
        ConstraintKind::AngleToAxis { axis: AxisDirection::Horizontal, .. } => "Angle to X axis",
        ConstraintKind::AngleToAxis { axis: AxisDirection::Vertical, .. } => "Angle to Y axis",
        ConstraintKind::Tangent { .. } => "Tangent",
        ConstraintKind::Symmetric { .. } => "Symmetric",
        ConstraintKind::SymmetricAboutPoint { .. } => "Symmetric (point)",
        ConstraintKind::Midpoint { .. } => "Midpoint",
    };
    text.to_owned()
}

pub open spec fn spec_is_angular(kind: ConstraintKind) -> bool {
    kind is Angle || kind is AngleToAxis
}

/// Whether a dimensional kind is angular (shown in degrees).
pub fn is_angular(kind: &ConstraintKind) -> (b: bool)
    ensures
        b == spec_is_angular(*kind),
{
    match kind {
        ConstraintKind::Angle { .. } | ConstraintKind::AngleToAxis { .. } => true,
        _ => false,
    }
}


/// What a filter keeps meets its predicate and was in the sequence.
pub proof fn lemma_filter_member<A>(s: Seq<A>, pred: spec_fn(A) -> bool, x: A)
    requires
        s.filter(pred).contains(x),
    ensures
        pred(x),
        s.contains(x),
{
    let i = choose|i: int| 0 <= i < s.filter(pred).len() && s.filter(pred)[i] == x;
    s.lemma_filter_pred(pred, i);
    s.lemma_filter_contains_rev(pred, x);
}

/// Filtering with a predicate that holds of every element keeps them all.
pub proof fn lemma_filter_all<A>(s: Seq<A>, pred: spec_fn(A) -> bool)
    requires
        forall|i: int| 0 <= i < s.len() ==> pred(s[i]),
    ensures
        s.filter(pred) == s,
    decreases s.len(),
{
    reveal(Seq::filter);
    if s.len() > 0 {
        lemma_filter_all(s.drop_last(), pred);
        assert(s.drop_last().push(s.last()) =~= s);
    }
}

/// Geometry whose links mean what they say: no two elements share an id,
/// and every id a curve runs through that names an element names a point.
pub open spec fn well_formed(geometry: Seq<GeometryElement>) -> bool {
    &&& forall|i: int, j: int|
        0 <= i < geometry.len() && 0 <= j < geometry.len() && i != j ==> (#[trigger] geometry[i]).spec_id()
            != (#[trigger] geometry[j]).spec_id()
    &&& forall|i: int, j: int|
        0 <= i < geometry.len() && 0 <= j < geometry.len() && (#[trigger] curve_points(
            geometry[i],
        )).contains((#[trigger] geometry[j]).spec_id()) ==> geometry[j] is Point
}

/// The first pass never drops an id it started from, and only adds the
/// ids of elements that run through something.
proof fn lemma_cascade_curves_bounds(geometry: Seq<GeometryElement>, d0: Set<u128>, x: u128)
    ensures
        d0.contains(x) ==> cascade_curves(geometry, d0).contains(x),
        cascade_curves(geometry, d0).contains(x) && !d0.contains(x) ==> exists|i: int|
            0 <= i < geometry.len() && (#[trigger] geometry[i]).spec_id() == x && curve_points(
                geometry[i],
            ).len() > 0,
    decreases geometry.len(),
{
    if geometry.len() > 0 {
        let init = geometry.drop_last();
        lemma_cascade_curves_bounds(init, d0, x);
        let d = cascade_curves(init, d0);
        if cascade_curves(geometry, d0).contains(x) && !d0.contains(x) {
            if d.contains(x) {
                let i = choose|i: int|
                    0 <= i < init.len() && (#[trigger] init[i]).spec_id() == x && curve_points(
                        init[i],
                    ).len() > 0;
                assert(geometry[i] == init[i]);
            } else {
                let g = geometry.last();
                assert(g.spec_id() == x);
                assert(touches(curve_points(g), d));
                assert(geometry[geometry.len() - 1] == g);
            }
        }
    }
}

/// The first pass is only ever growing: what it had after a prefix it has
/// after the whole.
proof fn lemma_cascade_curves_grows(geometry: Seq<GeometryElement>, d0: Set<u128>, i: int, x: u128)
    requires
        0 <= i <= geometry.len(),
        cascade_curves(geometry.take(i), d0).contains(x),
    ensures
        cascade_curves(geometry, d0).contains(x),
    decreases geometry.len() - i,
{
    if i < geometry.len() {
        let next = geometry.take(i + 1);
        assert(next.drop_last() =~= geometry.take(i));
        assert(cascade_curves(next, d0).contains(x));
        lemma_cascade_curves_grows(geometry, d0, i + 1, x);
    } else {
        assert(geometry.take(i) =~= geometry);
    }
}

/// An element the first pass leaves alone ran through nothing doomed
/// before it, the ids asked for included.
proof fn lemma_cascade_survivor_points(geometry: Seq<GeometryElement>, d0: Set<u128>, i: int)
    requires
        0 <= i < geometry.len(),
        !cascade_curves(geometry, d0).contains(geometry[i].spec_id()),
    ensures
        !touches(curve_points(geometry[i]), d0),
        !touches(curve_points(geometry[i]), cascade_curves(geometry.take(i), d0)),
{
    let pre = geometry.take(i);
    let next = geometry.take(i + 1);
    assert(next.drop_last() =~= pre);
    assert(next.last() == geometry[i]);
    if cascade_curves(pre, d0).contains(geometry[i].spec_id()) {
        lemma_cascade_curves_grows(geometry, d0, i, geometry[i].spec_id());
    }
    if touches(curve_points(geometry[i]), cascade_curves(pre, d0)) {
        assert(cascade_curves(next, d0).contains(geometry[i].spec_id()));
        lemma_cascade_curves_grows(geometry, d0, i + 1, geometry[i].spec_id());
    }
    if touches(curve_points(geometry[i]), d0) {
        let k = choose|k: int| 0 <= k < curve_points(geometry[i]).len() && d0.contains(
            #[trigger] curve_points(geometry[i])[k],
        );
        lemma_cascade_curves_bounds(pre, d0, curve_points(geometry[i])[k]);
    }
}

/// Law: a cascade takes every element it was asked for.
pub proof fn law_cascade_removes_what_was_asked(geometry: Seq<GeometryElement>, ids: Seq<u128>)
    ensures
        forall|g: GeometryElement|
            #[trigger] geometry.filter(survives(cascade_doomed(geometry, ids))).contains(g)
                ==> !ids.contains(g.spec_id()),
{
    assert forall|g: GeometryElement|
        #[trigger] geometry.filter(survives(cascade_doomed(geometry, ids))).contains(g) implies !ids.contains(
            g.spec_id(),
        ) by {
        lemma_filter_member(geometry, survives(cascade_doomed(geometry, ids)), g);
        if ids.contains(g.spec_id()) {
            assert(ids.to_set().contains(g.spec_id()));
            lemma_cascade_curves_bounds(geometry, ids.to_set(), g.spec_id());
        }
    }
}

/// Law: after a cascade no remaining curve runs through anything removed,
/// and no remaining constraint references anything removed.
pub proof fn law_cascade_leaves_nothing_dangling(
    geometry: Seq<GeometryElement>,
    constraints: Seq<Constraint>,
    ids: Seq<u128>,
)
    requires
        well_formed(geometry),
    ensures
        forall|g: GeometryElement, p: u128|
            #[trigger] geometry.filter(survives(cascade_doomed(geometry, ids))).contains(g)
                && #[trigger] curve_points(g).contains(p) ==> !cascade_doomed(geometry, ids).contains(p),
        forall|c: Constraint|
            #[trigger] constraints.filter(constraint_survives(cascade_doomed(geometry, ids))).contains(c)
                ==> !constraint_touches(c, cascade_doomed(geometry, ids)),
{
    let doomed = cascade_doomed(geometry, ids);
    let d0 = ids.to_set();
    let d1 = cascade_curves(geometry, d0);
    assert forall|g: GeometryElement, p: u128|
        #[trigger] geometry.filter(survives(doomed)).contains(g) && #[trigger] curve_points(g).contains(p)
            implies !doomed.contains(p) by {
        lemma_filter_member(geometry, survives(doomed), g);
        let i = choose|i: int| 0 <= i < geometry.len() && geometry[i] == g;
        assert(!d1.contains(g.spec_id()));
        lemma_cascade_survivor_points(geometry, d0, i);
        let k = choose|k: int| 0 <= k < curve_points(g).len() && curve_points(g)[k] == p;
        if d1.contains(p) {
            if !d0.contains(p) {
                lemma_cascade_curves_bounds(geometry, d0, p);
                let j = choose|j: int|
                    0 <= j < geometry.len() && (#[trigger] geometry[j]).spec_id() == p && curve_points(
                        geometry[j],
                    ).len() > 0;
                assert(curve_points(geometry[i]).contains(geometry[j].spec_id()));
            } else {
                assert(d0.contains(curve_points(geometry[i])[k]));
            }
        }
        assert(points_of(geometry, d1, false).contains(p)) by {
            assert(0 <= i < geometry.len() && d1.contains(geometry[i].spec_id()) == false
                && curve_points(geometry[i]).contains(p));
        }
    }
    assert forall|c: Constraint|
        #[trigger] constraints.filter(constraint_survives(doomed)).contains(c) implies !constraint_touches(
            c,
            doomed,
        ) by {
        lemma_filter_member(constraints, constraint_survives(doomed), c);
    }
}

/// Whether `e` stores the id `p` in a field that names a point: a line's
/// ends, an arc's centre and ends, a circle's centre, an ellipse's centre
/// and arc ends, a spline's control points.
pub open spec fn names_point(e: GeometryElement, p: u128) -> bool {
    match e {
        GeometryElement::Point(_) => false,
        GeometryElement::Line(l) => l.start == p || l.end == p,
        GeometryElement::Arc(a) => a.center == p || a.start == p || a.end == p,
        GeometryElement::Circle(c) => c.center == p,
        GeometryElement::Ellipse(el) => el.center == p || (el.arc matches Some(ends) && (ends.start == p
            || ends.end == p)),
        GeometryElement::BSpline(b) => b.control_points@.contains(p),
    }
}

/// Law: the points a curve runs through are exactly the point ids its
/// fields store.
pub proof fn law_curve_points_are_the_stored_points(e: GeometryElement, p: u128)
    ensures
        curve_points(e).contains(p) <==> names_point(e, p),
{
    match e {
        GeometryElement::Line(l) => {
            assert(seq![l.start, l.end][0] == l.start);
            assert(seq![l.start, l.end][1] == l.end);
        },
        GeometryElement::Arc(a) => {
            assert(seq![a.center, a.start, a.end][0] == a.center);
            assert(seq![a.center, a.start, a.end][1] == a.start);
            assert(seq![a.center, a.start, a.end][2] == a.end);
        },
        GeometryElement::Circle(c) => {
            assert(seq![c.center][0] == c.center);
        },
        GeometryElement::Ellipse(el) => {
            match el.arc {
                Some(ends) => {
                    assert(seq![el.center, ends.start, ends.end][0] == el.center);
                    assert(seq![el.center, ends.start, ends.end][1] == ends.start);
                    assert(seq![el.center, ends.start, ends.end][2] == ends.end);
                },
                None => {
                    assert(seq![el.center][0] == el.center);
                },
            }
        },
        _ => {},
    }
}

/// Law: after a cascade no element left stores the id of anything removed
/// in a field that names a point: an arc whose centre goes, goes too.
pub proof fn law_cascade_leaves_no_stored_point_dangling(
    geometry: Seq<GeometryElement>,
    constraints: Seq<Constraint>,
    ids: Seq<u128>,
    g: GeometryElement,
    p: u128,
)
    requires
        well_formed(geometry),
        geometry.filter(survives(cascade_doomed(geometry, ids))).contains(g),
        names_point(g, p),
    ensures
        !cascade_doomed(geometry, ids).contains(p),
{
    law_curve_points_are_the_stored_points(g, p);
    law_cascade_leaves_nothing_dangling(geometry, constraints, ids);
}

/// Law: a standalone point that was not asked for is never removed.
pub proof fn law_cascade_spares_standalone_points(
    geometry: Seq<GeometryElement>,
    ids: Seq<u128>,
    x: GeometryElement,
)
    requires
        well_formed(geometry),
        geometry.contains(x),
        x is Point,
        !ids.contains(x.spec_id()),
        !all_referenced(geometry).contains(x.spec_id()),
    ensures
        geometry.filter(survives(cascade_doomed(geometry, ids))).contains(x),
{
    let d0 = ids.to_set();
    let d1 = cascade_curves(geometry, d0);
    let i = choose|i: int| 0 <= i < geometry.len() && geometry[i] == x;
    if d1.contains(x.spec_id()) {
        lemma_cascade_curves_bounds(geometry, d0, x.spec_id());
        let j = choose|j: int|
            0 <= j < geometry.len() && (#[trigger] geometry[j]).spec_id() == x.spec_id() && curve_points(
                geometry[j],
            ).len() > 0;
        if i == j {
            assert(curve_points(geometry[i]).len() == 0);
        }
    }
    if points_of(geometry, d1, true).contains(x.spec_id()) {
        let j = choose|j: int|
            0 <= j < geometry.len() && d1.contains(geometry[j].spec_id()) == true
                && (#[trigger] curve_points(geometry[j])).contains(x.spec_id());
    }
    geometry.lemma_filter_contains(survives(cascade_doomed(geometry, ids)), i);
}

/// The first pass from nothing dooms nothing.
proof fn lemma_cascade_of_empty(geometry: Seq<GeometryElement>)
    ensures
        cascade_curves(geometry, Set::empty()) == Set::<u128>::empty(),
    decreases geometry.len(),
{
    if geometry.len() > 0 {
        lemma_cascade_of_empty(geometry.drop_last());
    }
}

/// Law: a cascade asked for nothing removes nothing.
pub proof fn law_cascade_of_nothing(geometry: Seq<GeometryElement>, constraints: Seq<Constraint>)
    ensures
        cascade_doomed(geometry, Seq::empty()) == Set::<u128>::empty(),
        geometry.filter(survives(cascade_doomed(geometry, Seq::empty()))) == geometry,
        constraints.filter(constraint_survives(cascade_doomed(geometry, Seq::empty()))) == constraints,
{
    let empty = Seq::<u128>::empty();
    assert(empty.to_set() =~= Set::empty());
    lemma_cascade_of_empty(geometry);
    assert(cascade_curves(geometry, empty.to_set()) =~= Set::empty());
    assert(points_of(geometry, Set::empty(), true) =~= Set::empty());
    assert(cascade_doomed(geometry, empty) =~= Set::empty());
    lemma_filter_all(geometry, survives(Set::empty()));
    lemma_filter_all(constraints, constraint_survives(Set::empty()));
}


pub proof fn lemma_filter_none<A>(s: Seq<A>, pred: spec_fn(A) -> bool)
    requires
        forall|i: int| 0 <= i < s.len() ==> !pred(#[trigger] s[i]),
    ensures
        s.filter(pred).len() == 0,
    decreases s.len(),
{
    reveal(Seq::filter);
    if s.len() > 0 {
        assert forall|i: int| 0 <= i < s.drop_last().len() implies !pred(#[trigger] s.drop_last()[i]) by {
            assert(s.drop_last()[i] == s[i]);
        }
        lemma_filter_none(s.drop_last(), pred);
        assert(!pred(s[s.len() - 1]));
    }
}

/// A first pass of a cascade keeps what it started from, and dooms every
/// element that runs through it.
proof fn lemma_cascade_curves_covers(g: Seq<GeometryElement>, s: Set<u128>)
    ensures
        s.subset_of(cascade_curves(g, s)),
        forall|i: int|
            0 <= i < g.len() && touches(curve_points(#[trigger] g[i]), s) ==> cascade_curves(g, s).contains(g[i].spec_id()),
    decreases g.len(),
{
    if g.len() > 0 {
        let init = g.drop_last();
        lemma_cascade_curves_covers(init, s);
        let d = cascade_curves(init, s);
        assert forall|i: int|
            0 <= i < g.len() && touches(curve_points(#[trigger] g[i]), s) implies cascade_curves(g, s).contains(g[i].spec_id()) by {
            if i < g.len() - 1 {
                assert(init[i] == g[i]);
            } else {
                let pts = curve_points(g[i]);
                let k = choose|k: int| 0 <= k < pts.len() && s.contains(#[trigger] pts[k]);
                assert(d.contains(pts[k]));
                assert(touches(pts, d));
            }
        }
    }
}

/// A first pass that finds nothing running through what it started from
/// dooms nothing more.
proof fn lemma_cascade_curves_untouched(g: Seq<GeometryElement>, s: Set<u128>)
    requires
        forall|i: int| 0 <= i < g.len() ==> !touches(curve_points(#[trigger] g[i]), s),
    ensures
        cascade_curves(g, s) == s,
    decreases g.len(),
{
    if g.len() > 0 {
        let init = g.drop_last();
        assert forall|i: int| 0 <= i < init.len() implies !touches(curve_points(#[trigger] init[i]), s) by {
            assert(init[i] == g[i]);
        }
        lemma_cascade_curves_untouched(init, s);
        assert(!touches(curve_points(g[g.len() - 1]), s));
    }
}

/// Law: a cascade run again with the same ids removes nothing and changes
/// nothing: no element, no constraint, and nothing it did not already
/// remove the first time.
pub proof fn law_second_cascade_changes_nothing(geometry: Seq<GeometryElement>, constraints: Seq<Constraint>, ids: Seq<u128>)
    ensures
        ({
            let doomed = cascade_doomed(geometry, ids);
            let g1 = geometry.filter(survives(doomed));
            let c1 = constraints.filter(constraint_survives(doomed));
            let again = cascade_doomed(g1, ids);
            &&& again.subset_of(doomed)
            &&& g1.filter(falls(again)).len() == 0
            &&& g1.filter(survives(again)) == g1
            &&& c1.filter(constraint_survives(again)) == c1
        }),
{
    let s = ids.to_set();
    let doomed = cascade_doomed(geometry, ids);
    let g1 = geometry.filter(survives(doomed));
    let c1 = constraints.filter(constraint_survives(doomed));
    lemma_cascade_curves_covers(geometry, s);
    assert(s.subset_of(doomed));
    assert forall|i: int| 0 <= i < g1.len() implies !doomed.contains((#[trigger] g1[i]).spec_id()) && !touches(
        curve_points(g1[i]),
        s,
    ) by {
        assert(g1.contains(g1[i]));
        lemma_filter_member(geometry, survives(doomed), g1[i]);
        let j = choose|j: int| 0 <= j < geometry.len() && geometry[j] == g1[i];
        if touches(curve_points(geometry[j]), s) {
            assert(cascade_curves(geometry, s).contains(geometry[j].spec_id()));
        }
    }
    lemma_cascade_curves_untouched(g1, s);
    assert(points_of(g1, s, true) =~= Set::<u128>::empty()) by {
        assert forall|p: u128| !points_of(g1, s, true).contains(p) by {
            if points_of(g1, s, true).contains(p) {
                let i = choose|i: int|
                    0 <= i < g1.len() && s.contains(g1[i].spec_id()) == true && (#[trigger] curve_points(g1[i])).contains(p);
                assert(!doomed.contains(g1[i].spec_id()));
            }
        }
    }
    let again = cascade_doomed(g1, ids);
    assert(again =~= s);
    lemma_filter_none(g1, falls(again));
    lemma_filter_all(g1, survives(again));
    assert forall|i: int| 0 <= i < c1.len() implies (#[trigger] constraint_survives(again)(c1[i])) by {
        assert(c1.contains(c1[i]));
        lemma_filter_member(constraints, constraint_survives(doomed), c1[i]);
        let refs = spec_constraint_refs(c1[i].kind);
        if touches(refs, again) {
            let k = choose|k: int| 0 <= k < refs.len() && again.contains(#[trigger] refs[k]);
            assert(doomed.contains(refs[k]));
        }
    }
    lemma_filter_all(c1, constraint_survives(again));
}

/// The value a dimensional kind stores (millimetres, or radians for an
/// angle, as an `f32` bit pattern); `None` for the others.
pub open spec fn spec_stored_value(kind: ConstraintKind) -> Option<u32> {
    match kind {
        ConstraintKind::Length { length, .. } => Some(length),
        ConstraintKind::Radius { radius, .. } => Some(radius),
        ConstraintKind::Diameter { diameter, .. } => Some(diameter),
        ConstraintKind::Distance { distance, .. } => Some(distance),
        ConstraintKind::DistanceX { value, .. } | ConstraintKind::DistanceY { value, .. } => Some(value),
        ConstraintKind::Angle { angle_rad, .. } | ConstraintKind::AngleToAxis { angle_rad, .. } => Some(
            angle_rad,
        ),
        _ => None,
    }
}

/// The kind with its stored value replaced by `v`; other kinds unchanged.
pub open spec fn spec_with_stored_value(kind: ConstraintKind, v: u32) -> ConstraintKind {
    match kind {
        ConstraintKind::Length { line, .. } => ConstraintKind::Length { line, length: v },
        ConstraintKind::Radius { circle, .. } => ConstraintKind::Radius { circle, radius: v },
        ConstraintKind::Diameter { circle, .. } => ConstraintKind::Diameter { circle, diameter: v },
        ConstraintKind::Distance { point1, point2, .. } => ConstraintKind::Distance { point1, point2, distance: v },
        ConstraintKind::DistanceX { a, b, .. } => ConstraintKind::DistanceX { a, b, value: v },
        ConstraintKind::DistanceY { a, b, .. } => ConstraintKind::DistanceY { a, b, value: v },
        ConstraintKind::Angle { line1, line2, .. } => ConstraintKind::Angle { line1, line2, angle_rad: v },
        ConstraintKind::AngleToAxis { line, axis, .. } => ConstraintKind::AngleToAxis { line, axis, angle_rad: v },
        _ => kind,
    }
}

/// The value a dimensional kind stores.
pub fn stored_value(kind: &ConstraintKind) -> (r: Option<u32>)
    ensures
        r == spec_stored_value(*kind),
{
    match *kind {
        ConstraintKind::Length { length, .. } => Some(length),
        ConstraintKind::Radius { radius, .. } => Some(radius),
        ConstraintKind::Diameter { diameter, .. } => Some(diameter),
        ConstraintKind::Distance { distance, .. } => Some(distance),
        ConstraintKind::DistanceX { value, .. } | ConstraintKind::DistanceY { value, .. } => Some(value),
        ConstraintKind::Angle { angle_rad, .. } | ConstraintKind::AngleToAxis { angle_rad, .. } => Some(
            angle_rad,
        ),
        _ => None,
    }
}

/// The kind with its stored value replaced.
pub fn with_stored_value(kind: &ConstraintKind, v: u32) -> (r: ConstraintKind)
    ensures
        r == spec_with_stored_value(*kind, v),
{
    match *kind {
        ConstraintKind::Length { line, .. } => ConstraintKind::Length { line, length: v },
        ConstraintKind::Radius { circle, .. } => ConstraintKind::Radius { circle, radius: v },
        ConstraintKind::Diameter { circle, .. } => ConstraintKind::Diameter { circle, diameter: v },
        ConstraintKind::Distance { point1, point2, .. } => ConstraintKind::Distance { point1, point2, distance: v },
        ConstraintKind::DistanceX { a, b, .. } => ConstraintKind::DistanceX { a, b, value: v },
        ConstraintKind::DistanceY { a, b, .. } => ConstraintKind::DistanceY { a, b, value: v },
        ConstraintKind::Angle { line1, line2, .. } => ConstraintKind::Angle { line1, line2, angle_rad: v },
        ConstraintKind::AngleToAxis { line, axis, .. } => ConstraintKind::AngleToAxis { line, axis, angle_rad: v },
        _ => *kind,
    }
}

/// Law: a kind stores a value exactly when it is dimensional; writing a
/// value and reading it back gives that value, and leaves the ids the
/// kind references as they were.
pub proof fn law_stored_value_round_trip(kind: ConstraintKind, v: u32)
    ensures
        spec_stored_value(kind) is Some <==> kind.spec_is_dimensional(),
        kind.spec_is_dimensional() ==> spec_stored_value(spec_with_stored_value(kind, v)) == Some(v),
        spec_constraint_refs(spec_with_stored_value(kind, v)) == spec_constraint_refs(kind),
        spec_with_stored_value(kind, v).spec_is_dimensional() == kind.spec_is_dimensional(),
{
}


/// Law: an element added under an id the sketch does not have yet is
/// what a lookup of that id gives back, and what was there is found as
/// before.
pub proof fn law_added_element_is_found(geometry: Seq<GeometryElement>, e: GeometryElement, other: u128)
    requires
        !has_id(geometry, e.spec_id()),
        other != e.spec_id(),
    ensures
        lookup(geometry.push(e), e.spec_id()) == Some(e),
        lookup(geometry.push(e), other) == lookup(geometry, other),
{
    let g2 = geometry.push(e);
    let n = geometry.len() as int;
    assert(g2[n] == e);
    assert forall|j: int| 0 <= j < n implies (#[trigger] g2[j]).spec_id() != e.spec_id() by {
        assert(g2[j] == geometry[j]);
    }
    assert(is_first_with_id(g2, e.spec_id(), n));
    lemma_lookup_at(g2, e.spec_id(), n);
    if has_id(geometry, other) {
        lemma_first_with_id_exists(geometry, other);
        let i = choose|i: int| is_first_with_id(geometry, other, i);
        assert forall|j: int| 0 <= j < i implies (#[trigger] g2[j]).spec_id() != other by {
            assert(g2[j] == geometry[j]);
        }
        assert(g2[i] == geometry[i]);
        assert(is_first_with_id(g2, other, i));
        lemma_lookup_at(g2, other, i);
        lemma_lookup_at(geometry, other, i);
    } else {
        assert forall|j: int| 0 <= j < g2.len() implies (#[trigger] g2[j]).spec_id() != other by {
            if j < n {
                assert(g2[j] == geometry[j]);
            }
        }
        assert(!has_id(g2, other));
    }
}
} // verus!
