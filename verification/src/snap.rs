//! Cursor snapping: what a click resolves to, and the order in which the
//! candidates win.
//!
//! Snapping to an existing point reuses that point id instead of making a
//! coincident twin, so shared endpoints give connected profiles. The
//! distances that pick the candidates are measured in floating point by
//! the caller; here are the decisions made on them.

use vstd::prelude::*;

use crate::sketch::{zero_vec, GeometryElement, Sketch, Vec2D, ORIGIN_ID, X_AXIS_ID, Y_AXIS_ID};

verus! {

/// What the cursor resolved to after snapping.
#[derive(Debug, Clone, Copy, PartialEq, Eq)]
pub enum SnapTarget {
    /// Reuse an existing point element.
    Existing(u128),
    /// Create a new point at this position.
    New(Vec2D),
}

impl SnapTarget {
    pub open spec fn spec_position(self, sketch: Sketch) -> Option<Vec2D> {
        match self {
            SnapTarget::Existing(id) => sketch.position_of(id),
            SnapTarget::New(pos) => Some(pos),
        }
    }

    /// Where the target sits: the existing point's position, or the new
    /// point's.
    pub fn position(&self, sketch: &Sketch) -> (r: Option<Vec2D>)
        ensures
            r == self.spec_position(*sketch),
    {
        match self {
            SnapTarget::Existing(id) => sketch.point_position(*id),
            SnapTarget::New(pos) => Some(*pos),
        }
    }
}

/// What a snap landed on: each draws its own marker, and each leaves the
/// new point held there by its own constraint.
#[derive(Debug, Clone, Copy, PartialEq, Eq)]
pub enum SnapKind {
    /// An existing point: a line's end, a vertex. Reused, never doubled.
    Endpoint,
    /// An existing point that is a circle's, an arc's or an ellipse's
    /// centre. Reused.
    Center,
    /// The sketch's origin.
    Origin,
    /// Where two curves (or a curve and an axis) cross.
    Intersection,
    /// The middle of a line.
    Midpoint,
    /// Somewhere on a curve.
    OnCurve,
    /// Somewhere on one of the sketch's axes.
    OnAxis,
    /// Level with the point being drawn from.
    Horizontal,
    /// Plumb with the point being drawn from.
    Vertical,
}

impl SnapKind {
    pub open spec fn spec_label(self) -> Seq<char> {
        match self {
            SnapKind::Endpoint => "Endpoint"@,
            SnapKind::Center => "Center"@,
            SnapKind::Origin => "Origin"@,
            SnapKind::Intersection => "Intersection"@,
            SnapKind::Midpoint => "Midpoint"@,
            SnapKind::OnCurve => "On curve"@,
            SnapKind::OnAxis => "On axis"@,
            SnapKind::Horizontal => "Horizontal"@,
            SnapKind::Vertical => "Vertical"@,
        }
    }

    /// Its name, beside the marker.
    pub fn label(self) -> (s: &'static str)
        ensures
            s@ == self.spec_label(),
    {
        match self {
            SnapKind::Endpoint => "Endpoint",
            SnapKind::Center => "Center",
            SnapKind::Origin => "Origin",
            SnapKind::Intersection => "Intersection",
            SnapKind::Midpoint => "Midpoint",
            SnapKind::OnCurve => "On curve",
            SnapKind::OnAxis => "On axis",
            SnapKind::Horizontal => "Horizontal",
            SnapKind::Vertical => "Vertical",
        }
    }
}

/// Where a click lands: the point to use and what it landed on (`None` for
/// the bare cursor).
#[derive(Debug, Clone, Copy, PartialEq, Eq)]
pub struct Snap {
    pub target: SnapTarget,
    pub pos: Vec2D,
    pub kind: Option<SnapKind>,
}

/// What a snap knows of the drawing in progress: the point a segment is
/// drawn from (for horizontal and vertical alignment) and points it must
/// not land on (that same point).
#[derive(Debug, Clone)]
pub struct SnapContext {
    pub from: Option<Vec2D>,
    pub exclude: Vec<u128>,
}

impl SnapContext {
    /// Nothing drawn from, nothing excluded.
    pub fn new() -> (cx: Self)
        ensures
            cx.from is None,
            cx.exclude@.len() == 0,
    {
        SnapContext { from: None, exclude: Vec::new() }
    }
}

/// Axis alignment detected while drawing a line segment.
#[derive(Debug, Clone, Copy, PartialEq, Eq)]
pub enum AxisSnap {
    Horizontal,
    Vertical,
}

/// Whether some circle, arc or ellipse is centred on `id`.
pub open spec fn is_center_of_some(geometry: Seq<GeometryElement>, id: u128) -> bool {
    exists|i: int|
        0 <= i < geometry.len() && match #[trigger] geometry[i] {
            GeometryElement::Circle(c) => c.center == id,
            GeometryElement::Arc(a) => a.center == id,
            GeometryElement::Ellipse(e) => e.center == id,
            _ => false,
        }
}

/// Whether a circle, an arc or an ellipse of the sketch is centred on
/// `id`: a snap there is a centre, not an endpoint.
pub fn is_center_point(sketch: &Sketch, id: u128) -> (b: bool)
    ensures
        b == is_center_of_some(sketch.geometry@, id),
{
    let mut i: usize = 0;
    while i < sketch.geometry.len()
        invariant
            i <= sketch.geometry@.len(),
            forall|j: int|
                0 <= j < i ==> !match #[trigger] sketch.geometry@[j] {
                    GeometryElement::Circle(c) => c.center == id,
                    GeometryElement::Arc(a) => a.center == id,
                    GeometryElement::Ellipse(e) => e.center == id,
                    _ => false,
                },
        decreases sketch.geometry@.len() - i,
    {
        let centred = match &sketch.geometry[i] {
            GeometryElement::Circle(c) => c.center == id,
            GeometryElement::Arc(a) => a.center == id,
            GeometryElement::Ellipse(e) => e.center == id,
            _ => false,
        };
        if centred {
            return true;
        }
        i = i + 1;
    }
    false
}

/// The kind of a snap onto curve `id`: the axes are axes, the origin is
/// the origin, anything else is a curve.
pub open spec fn spec_curve_snap_kind(id: u128) -> SnapKind {
    if id == X_AXIS_ID || id == Y_AXIS_ID {
        SnapKind::OnAxis
    } else if id == ORIGIN_ID {
        SnapKind::Origin
    } else {
        SnapKind::OnCurve
    }
}

/// What the candidates a snap measured come to. Each is what its finder
/// gave for the cursor within the tolerance:
/// - `point`: the nearest sketch point, if any, with its position;
/// - `origin_near`: the origin is in reach and not excluded;
/// - `crossing`: the nearest crossing of two curves;
/// - `middle`: the nearest line middle;
/// - `on_curve`: the nearest curve and the cursor's projection on it;
/// - `aligned`: the alignment with the point drawn from, if any.
#[derive(Debug, Clone, Copy, PartialEq, Eq)]
pub struct SnapCandidates {
    pub point: Option<(u128, Vec2D)>,
    pub origin_near: bool,
    pub crossing: Option<Vec2D>,
    pub middle: Option<Vec2D>,
    pub on_curve: Option<(u128, Vec2D)>,
    pub aligned: Option<(Vec2D, AxisSnap)>,
}

/// The snap the candidates give, in the order they win: an existing point
/// (reused: a centre or an endpoint), the origin, a crossing, a line's
/// middle, a curve or an axis, then alignment; else the bare cursor.
pub open spec fn spec_pick_snap(geometry: Seq<GeometryElement>, cursor: Vec2D, c: SnapCandidates) -> Snap {
    match c.point {
        Some((id, pos)) => Snap {
            target: SnapTarget::Existing(id),
            pos,
            kind: Some(if is_center_of_some(geometry, id) { SnapKind::Center } else { SnapKind::Endpoint }),
        },
        None => if c.origin_near {
            Snap { target: SnapTarget::New(zero_vec()), pos: zero_vec(), kind: Some(SnapKind::Origin) }
        } else {
            match (c.crossing, c.middle, c.on_curve, c.aligned) {
                (Some(p), _, _, _) => Snap { target: SnapTarget::New(p), pos: p, kind: Some(SnapKind::Intersection) },
                (None, Some(p), _, _) => Snap { target: SnapTarget::New(p), pos: p, kind: Some(SnapKind::Midpoint) },
                (None, None, Some((id, p)), _) => Snap {
                    target: SnapTarget::New(p),
                    pos: p,
                    kind: Some(spec_curve_snap_kind(id)),
                },
                (None, None, None, Some((p, AxisSnap::Horizontal))) => Snap {
                    target: SnapTarget::New(p),
                    pos: p,
                    kind: Some(SnapKind::Horizontal),
                },
                (None, None, None, Some((p, AxisSnap::Vertical))) => Snap {
                    target: SnapTarget::New(p),
                    pos: p,
                    kind: Some(SnapKind::Vertical),
                },
                (None, None, None, None) => Snap { target: SnapTarget::New(cursor), pos: cursor, kind: None },
            }
        },
    }
}

/// Where `cursor` snaps, given what was found near it: the one decision
/// every drawing click and the cue before it go through, so what is shown
/// is where the click lands.
pub fn pick_snap(sketch: &Sketch, cursor: Vec2D, c: &SnapCandidates) -> (s: Snap)
    ensures
        s == spec_pick_snap(sketch.geometry@, cursor, *c),
{
    if let Some((id, pos)) = c.point {
        let kind = if is_center_point(sketch, id) {
            SnapKind::Center
        } else {
            SnapKind::Endpoint
        };
        return Snap { target: SnapTarget::Existing(id), pos, kind: Some(kind) };
    }
    if c.origin_near {
        let origin = Vec2D::new(0, 0);
        return Snap { target: SnapTarget::New(origin), pos: origin, kind: Some(SnapKind::Origin) };
    }
    if let Some(p) = c.crossing {
        return Snap { target: SnapTarget::New(p), pos: p, kind: Some(SnapKind::Intersection) };
    }
    if let Some(p) = c.middle {
        return Snap { target: SnapTarget::New(p), pos: p, kind: Some(SnapKind::Midpoint) };
    }
    if let Some((id, p)) = c.on_curve {
        let kind = if id == X_AXIS_ID || id == Y_AXIS_ID {
            SnapKind::OnAxis
        } else if id == ORIGIN_ID {
            SnapKind::Origin
        } else {
            SnapKind::OnCurve
        };
        return Snap { target: SnapTarget::New(p), pos: p, kind: Some(kind) };
    }
    if let Some((p, axis)) = c.aligned {
        let kind = match axis {
            AxisSnap::Horizontal => SnapKind::Horizontal,
            AxisSnap::Vertical => SnapKind::Vertical,
        };
        return Snap { target: SnapTarget::New(p), pos: p, kind: Some(kind) };
    }
    Snap { target: SnapTarget::New(cursor), pos: cursor, kind: None }
}

/// Law: a snap reuses a point only where a point was found, and then it
/// lands exactly on that point; every other snap makes a new point where
/// it lands.
pub proof fn law_snap_reuses_only_found_points(geometry: Seq<GeometryElement>, cursor: Vec2D, c: SnapCandidates)
    ensures
        ({
            let s = spec_pick_snap(geometry, cursor, c);
            &&& s.target is Existing <==> c.point is Some
            &&& (c.point matches Some((id, pos)) ==> s.target == SnapTarget::Existing(id) && s.pos == pos)
            &&& (s.target matches SnapTarget::New(p) ==> p == s.pos)
            &&& (s.kind is None ==> s.pos == cursor)
        }),
{
}

} // verus!
