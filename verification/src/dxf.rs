//! A 2D drawing brought into a sketch: lines, arcs, circles and ellipses
//! as the sketch's own, a spline as lines through points on it, visible
//! curves as geometry and hidden ones as construction, and the tally of
//! what was added. Where the points sit, and which ends meet (ends close
//! enough are one point, across curves as much as within one), is
//! measured by the caller, which hands each curve over on its points.

use vstd::prelude::*;

use crate::ident::is_random_id;
use crate::sketch::{
    Arc, Circle, ConstraintKind, Ellipse, EllipseArcEnds, GeometryElement, Line, Sketch, Vec2D,
};

verus! {

broadcast use vstd::seq_lib::group_seq_properties;

/// What a drawing added to a sketch.
#[derive(Debug, Default, Clone, Copy, PartialEq, Eq)]
pub struct Added {
    pub lines: usize,
    pub arcs: usize,
    pub circles: usize,
    pub ellipses: usize,
    /// Splines brought in as lines through points on them.
    pub splines: usize,
    /// Of all those, the ones made construction.
    pub construction: usize,
}

impl Added {
    /// Every sketch curve made.
    pub fn curves(&self) -> (n: usize)
        requires
            self.lines + self.arcs + self.circles + self.ellipses <= usize::MAX,
        ensures
            n == self.lines + self.arcs + self.circles + self.ellipses,
    {
        self.lines + self.arcs + self.circles + self.ellipses
    }
}

/// The point ids a spline's lines run through: the points on it, and back
/// to the first where it is closed (with more than two points).
pub open spec fn spline_stops(ids: Seq<u128>, closed: bool) -> Seq<u128> {
    if closed && ids.len() > 2 {
        ids.push(ids[0])
    } else {
        ids
    }
}

/// The lines through consecutive stops, leaving out a pair that is one
/// point.
pub open spec fn spline_spans(stops: Seq<u128>) -> Seq<(u128, u128)>
    decreases stops.len(),
{
    if stops.len() < 2 {
        Seq::empty()
    } else {
        let rest = spline_spans(stops.drop_last());
        let (a, b) = (stops[stops.len() - 2], stops.last());
        if a != b {
            rest.push((a, b))
        } else {
            rest
        }
    }
}

/// `g` is a line from `span.0` to `span.1` under the fresh id `id`.
pub open spec fn is_fresh_line(g: GeometryElement, span: (u128, u128), id: u128) -> bool {
    &&& g matches GeometryElement::Line(l)
    &&& l.start == span.0
    &&& l.end == span.1
    &&& l.id == id
    &&& is_random_id(id)
}

/// Lay a spline into the sketch as lines through the points `ids` on it,
/// closing the loop where it is closed; two equal consecutive points make
/// no line. The ids of the lines, in order.
pub fn spline_lines(sketch: &mut Sketch, ids: &Vec<u128>, closed: bool) -> (made: Vec<u128>)
    ensures
        ({
            let spans = spline_spans(spline_stops(ids@, closed));
            let g = old(sketch).geometry@;
            &&& final(sketch).geometry@.len() == g.len() + spans.len()
            &&& final(sketch).geometry@.take(g.len() as int) == g
            &&& made@.len() == spans.len()
            &&& forall|i: int|
                0 <= i < spans.len() ==> is_fresh_line(#[trigger] final(sketch).geometry@[g.len() + i], spans[i], made@[i])
        }),
        final(sketch).constraints@ == old(sketch).constraints@,
        final(sketch).construction@ == old(sketch).construction@,
        final(sketch).external@ == old(sketch).external@,
        final(sketch).id == old(sketch).id,
        final(sketch).name@ == old(sketch).name@,
        final(sketch).plane == old(sketch).plane,
        final(sketch).is_fully_constrained == old(sketch).is_fully_constrained,
{
    let ghost g = old(sketch).geometry@;
    let mut stops = crate::sketch::copy_ids(ids);
    if closed && ids.len() > 2 {
        stops.push(ids[0]);
    }
    let ghost all = stops@;
    assert(all == spline_stops(ids@, closed));
    let mut made: Vec<u128> = Vec::new();
    if stops.len() < 2 {
        assert(g.take(g.len() as int) =~= g);
        return made;
    }
    let mut k: usize = 1;
    assert(all.take(1).len() == 1);
    assert(spline_spans(all.take(1)) == Seq::<(u128, u128)>::empty());
    assert(g.take(g.len() as int) =~= g);
    while k < stops.len()
        invariant
            1 <= k <= stops@.len(),
            stops@ == all,
            ({
                let spans = spline_spans(all.take(k as int));
                &&& sketch.geometry@.len() == g.len() + spans.len()
                &&& sketch.geometry@.take(g.len() as int) == g
                &&& made@.len() == spans.len()
                &&& forall|i: int|
                    0 <= i < spans.len() ==> is_fresh_line(#[trigger] sketch.geometry@[g.len() + i], spans[i], made@[i])
            }),
            sketch.constraints@ == old(sketch).constraints@,
            sketch.construction@ == old(sketch).construction@,
            sketch.external@ == old(sketch).external@,
            sketch.id == old(sketch).id,
            sketch.name@ == old(sketch).name@,
            sketch.plane == old(sketch).plane,
            sketch.is_fully_constrained == old(sketch).is_fully_constrained,
        decreases stops@.len() - k,
    {
        let (a, b) = (stops[k - 1], stops[k]);
        let ghost before = sketch.geometry@;
        proof {
            assert(all.take(k + 1).drop_last() =~= all.take(k as int));
            assert(all.take(k + 1)[k - 1] == a);
        }
        if a != b {
            let line = Line::new(a, b);
            let id = sketch.add_geometry(GeometryElement::Line(line));
            made.push(id);
            proof {
                assert(sketch.geometry@.take(g.len() as int) =~= before.take(g.len() as int));
            }
        }
        k = k + 1;
    }
    assert(all.take(all.len() as int) =~= all);
    made
}

/// A polyline segment over its two end points: a line, or, where it
/// bulges, an arc about `arc`'s centre, counter-clockwise from start to end
/// or the other way round.
#[derive(Debug, Clone, Copy, PartialEq, Eq)]
pub struct DrawnSegment {
    pub start: u128,
    pub end: u128,
    pub arc: Option<SegmentArc>,
}

/// The arc a bulging segment describes: its centre point and radius, and
/// whether it turns counter-clockwise from the segment's start.
#[derive(Debug, Clone, Copy, PartialEq, Eq)]
pub struct SegmentArc {
    pub centre: u128,
    pub radius: u32,
    pub counterclockwise: bool,
}

/// A curve of a drawing over the sketch points it runs through (a
/// polyline one segment at a time, as each is made in turn). An arc's
/// centre is there only where its ends are two points (an arc with one end
/// point has no centre made for it).
#[derive(Debug, Clone)]
pub enum DrawnShape {
    Segment(DrawnSegment),
    Spline { points: Vec<u128>, closed: bool },
    Arc { start: u128, end: u128, centre: Option<u128>, radius: u32 },
    Circle { centre: u128, radius: u32 },
    Ellipse { centre: u128, major: Vec2D, ratio: u32, ends: Option<(u128, u128)> },
}

/// What a segment makes, its id left open: nothing where its ends are one
/// point, else its line or arc (a clockwise arc runs from its end, as
/// sketch arcs run counter-clockwise).
pub open spec fn segment_template(s: DrawnSegment) -> Seq<GeometryElement> {
    if s.start == s.end {
        Seq::empty()
    } else {
        match s.arc {
            None => seq![GeometryElement::Line(Line { id: 0, start: s.start, end: s.end })],
            Some(a) => seq![
                GeometryElement::Arc(
                    Arc {
                        id: 0,
                        center: a.centre,
                        start: if a.counterclockwise { s.start } else { s.end },
                        end: if a.counterclockwise { s.end } else { s.start },
                        radius: a.radius,
                    },
                ),
            ],
        }
    }
}

/// A line over a span.
pub open spec fn span_line(span: (u128, u128)) -> GeometryElement {
    GeometryElement::Line(Line { id: 0, start: span.0, end: span.1 })
}

/// The curves a drawn shape makes, in order, their ids left open.
pub open spec fn drawn_template(shape: DrawnShape) -> Seq<GeometryElement> {
    match shape {
        DrawnShape::Segment(seg) => segment_template(seg),
        DrawnShape::Spline { points, closed } => spline_spans(spline_stops(points@, closed)).map_values(
            |sp: (u128, u128)| span_line(sp),
        ),
        DrawnShape::Arc { start, end, centre, radius } => match centre {
            Some(c) if start != end => seq![
                GeometryElement::Arc(Arc { id: 0, center: c, start, end, radius }),
            ],
            _ => Seq::empty(),
        },
        DrawnShape::Circle { centre, radius } => seq![
            GeometryElement::Circle(Circle { id: 0, center: centre, radius }),
        ],
        DrawnShape::Ellipse { centre, major, ratio, ends } => seq![
            GeometryElement::Ellipse(
                Ellipse {
                    id: 0,
                    center: centre,
                    major,
                    ratio,
                    arc: match ends {
                        Some(e) => Some(EllipseArcEnds { start: e.0, end: e.1 }),
                        None => None,
                    },
                },
            ),
        ],
    }
}

/// `g` with its id set to `id`.
pub open spec fn with_id(g: GeometryElement, id: u128) -> GeometryElement {
    match g {
        GeometryElement::Point(p) => GeometryElement::Point(crate::sketch::Point { id, position: p.position }),
        GeometryElement::Line(l) => GeometryElement::Line(Line { id, start: l.start, end: l.end }),
        GeometryElement::Arc(a) => GeometryElement::Arc(
            Arc { id, center: a.center, start: a.start, end: a.end, radius: a.radius },
        ),
        GeometryElement::Circle(c) => GeometryElement::Circle(Circle { id, center: c.center, radius: c.radius }),
        GeometryElement::Ellipse(e) => GeometryElement::Ellipse(
            Ellipse { id, center: e.center, major: e.major, ratio: e.ratio, arc: e.arc },
        ),
        GeometryElement::BSpline(b) => GeometryElement::BSpline(
            crate::sketch::BSpline { id, control_points: b.control_points, periodic: b.periodic },
        ),
    }
}

/// `tail` is `templates`, each under a fresh id of its own.
pub open spec fn fresh_as(tail: Seq<GeometryElement>, templates: Seq<GeometryElement>) -> bool {
    &&& tail.len() == templates.len()
    &&& forall|i: int|
        0 <= i < tail.len() ==> is_random_id((#[trigger] tail[i]).spec_id()) && tail[i] == with_id(
            templates[i],
            tail[i].spec_id(),
        )
}

/// How many of `t` are of the kind `kind` picks.
pub open spec fn count_of(t: Seq<GeometryElement>, kind: spec_fn(GeometryElement) -> bool) -> int
    decreases t.len(),
{
    if t.len() == 0 {
        0
    } else {
        count_of(t.drop_last(), kind) + if kind(t.last()) { 1int } else { 0int }
    }
}

pub open spec fn is_line() -> spec_fn(GeometryElement) -> bool {
    |g: GeometryElement| g is Line
}

pub open spec fn is_arc() -> spec_fn(GeometryElement) -> bool {
    |g: GeometryElement| g is Arc
}

pub open spec fn is_circle() -> spec_fn(GeometryElement) -> bool {
    |g: GeometryElement| g is Circle
}

pub open spec fn is_ellipse() -> spec_fn(GeometryElement) -> bool {
    |g: GeometryElement| g is Ellipse
}

/// The tally after a drawn shape is added: each curve it makes counted by
/// kind, a spline counted as one, and with `hidden` every curve it makes
/// counted as construction.
pub open spec fn tallied(a: Added, shape: DrawnShape, hidden: bool) -> Added {
    let t = drawn_template(shape);
    Added {
        lines: (a.lines + count_of(t, is_line())) as usize,
        arcs: (a.arcs + count_of(t, is_arc())) as usize,
        circles: (a.circles + count_of(t, is_circle())) as usize,
        ellipses: (a.ellipses + count_of(t, is_ellipse())) as usize,
        splines: (a.splines + if shape is Spline { 1int } else { 0int }) as usize,
        construction: (a.construction + if hidden { t.len() as int } else { 0int }) as usize,
    }
}

/// The tally has room for a drawn shape.
pub open spec fn room_for(a: Added, shape: DrawnShape) -> bool {
    let n = drawn_template(shape).len();
    &&& a.lines + n <= usize::MAX
    &&& a.arcs + n <= usize::MAX
    &&& a.circles + n <= usize::MAX
    &&& a.ellipses + n <= usize::MAX
    &&& a.splines < usize::MAX
    &&& a.construction + n <= usize::MAX
}

proof fn lemma_count_le_len(t: Seq<GeometryElement>, kind: spec_fn(GeometryElement) -> bool)
    ensures
        0 <= count_of(t, kind) <= t.len(),
    decreases t.len(),
{
    if t.len() > 0 {
        lemma_count_le_len(t.drop_last(), kind);
    }
}

proof fn lemma_count_all(t: Seq<GeometryElement>, kind: spec_fn(GeometryElement) -> bool)
    requires
        forall|i: int| 0 <= i < t.len() ==> kind(#[trigger] t[i]),
    ensures
        count_of(t, kind) == t.len(),
    decreases t.len(),
{
    if t.len() > 0 {
        assert forall|i: int| 0 <= i < t.drop_last().len() implies kind(#[trigger] t.drop_last()[i]) by {
            assert(t.drop_last()[i] == t[i]);
        }
        lemma_count_all(t.drop_last(), kind);
        assert(kind(t[t.len() - 1]));
    }
}

proof fn lemma_count_none(t: Seq<GeometryElement>, kind: spec_fn(GeometryElement) -> bool)
    requires
        forall|i: int| 0 <= i < t.len() ==> !kind(#[trigger] t[i]),
    ensures
        count_of(t, kind) == 0,
    decreases t.len(),
{
    if t.len() > 0 {
        assert forall|i: int| 0 <= i < t.drop_last().len() implies !kind(#[trigger] t.drop_last()[i]) by {
            assert(t.drop_last()[i] == t[i]);
        }
        lemma_count_none(t.drop_last(), kind);
        assert(!kind(t[t.len() - 1]));
    }
}

/// The counts of a template of one element.
proof fn lemma_count_one(g: GeometryElement)
    ensures
        count_of(seq![g], is_line()) == if g is Line { 1int } else { 0int },
        count_of(seq![g], is_arc()) == if g is Arc { 1int } else { 0int },
        count_of(seq![g], is_circle()) == if g is Circle { 1int } else { 0int },
        count_of(seq![g], is_ellipse()) == if g is Ellipse { 1int } else { 0int },
{
    reveal_with_fuel(count_of, 2);
    assert(seq![g].drop_last() =~= Seq::<GeometryElement>::empty());
    assert(seq![g].last() == g);
}

/// Everything of a sketch but its geometry, constraints and construction
/// flags is the same in `a` and `b`.
pub open spec fn same_frame(a: Sketch, b: Sketch) -> bool {
    &&& a.external@ == b.external@
    &&& a.id == b.id
    &&& a.name@ == b.name@
    &&& a.plane == b.plane
    &&& a.is_fully_constrained == b.is_fully_constrained
}

/// Add one curve of a drawing, over points already in the sketch: its
/// elements appended in order under fresh ids (`drawn_template`), an
/// ellipse arc's ends held on it by two point-on-ellipse constraints, the
/// curves flagged construction where the drawing hides it, and the tally
/// brought up to date (`tallied`). The ids of the curves made, in order.
pub fn add_drawn(sketch: &mut Sketch, shape: &DrawnShape, hidden: bool, added: &mut Added) -> (made: Vec<u128>)
    requires
        room_for(*old(added), *shape),
    ensures
        ({
            let g0 = old(sketch).geometry@;
            let tail = final(sketch).geometry@.skip(g0.len() as int);
            &&& final(sketch).geometry@.len() >= g0.len()
            &&& final(sketch).geometry@.take(g0.len() as int) == g0
            &&& fresh_as(tail, drawn_template(*shape))
            &&& made@ == tail.map_values(|g: GeometryElement| g.spec_id())
            &&& final(sketch).construction@ == if hidden {
                old(sketch).construction@ + made@.to_set()
            } else {
                old(sketch).construction@
            }
        }),
        match *shape {
            DrawnShape::Ellipse { ends: Some(e), .. } => {
                let c = final(sketch).constraints@;
                let c0 = old(sketch).constraints@;
                &&& c.len() == c0.len() + 2
                &&& c.take(c0.len() as int) == c0
                &&& c[c0.len() as int].kind == ConstraintKind::PointOnEllipse { point: e.0, ellipse: made@[0] }
                &&& c[c0.len() + 1int].kind == ConstraintKind::PointOnEllipse { point: e.1, ellipse: made@[0] }
                &&& forall|k: int|
                    c0.len() <= k < c.len() ==> (#[trigger] c[k]).driving && c[k].active && c[k].name is None
                        && c[k].label_offset is None && is_random_id(c[k].id)
            },
            _ => final(sketch).constraints@ == old(sketch).constraints@,
        },
        *final(added) == tallied(*old(added), *shape, hidden),
        same_frame(*final(sketch), *old(sketch)),
{
    let ghost g0 = sketch.geometry@;
    let ghost s0 = *sketch;
    let ghost tpl = drawn_template(*shape);
    let mut made: Vec<u128> = Vec::new();
    match shape {
        DrawnShape::Segment(seg) => {
            if seg.start != seg.end {
                let g = match seg.arc {
                    None => GeometryElement::Line(Line::new(seg.start, seg.end)),
                    Some(a) => {
                        let (from, to) = if a.counterclockwise {
                            (seg.start, seg.end)
                        } else {
                            (seg.end, seg.start)
                        };
                        GeometryElement::Arc(Arc::new(a.centre, from, to, a.radius))
                    },
                };
                let id = sketch.add_geometry(g);
                made.push(id);
                match seg.arc {
                    None => {
                        added.lines = added.lines + 1;
                    },
                    Some(_) => {
                        added.arcs = added.arcs + 1;
                    },
                }
            }
            proof {
                let tail = sketch.geometry@.skip(g0.len() as int);
                if tpl.len() == 1 {
                    lemma_count_one(tpl[0]);
                    assert(tpl =~= seq![tpl[0]]);
                    assert(tail[0] == sketch.geometry@[g0.len() as int]);
                } else {
                    assert(tpl =~= Seq::<GeometryElement>::empty());
                }
                assert(made@ =~= tail.map_values(|g: GeometryElement| g.spec_id()));
            }
        },
        DrawnShape::Spline { points, closed } => {
            made = spline_lines(sketch, points, *closed);
            proof {
                let spans = spline_spans(spline_stops(points@, *closed));
                let tail = sketch.geometry@.skip(g0.len() as int);
                assert forall|i: int| 0 <= i < tail.len() implies is_random_id((#[trigger] tail[i]).spec_id()) && tail[i]
                    == with_id(tpl[i], tail[i].spec_id()) by {
                    assert(tail[i] == sketch.geometry@[g0.len() + i]);
                }
                assert forall|i: int| 0 <= i < made@.len() implies made@[i] == (#[trigger] tail[i]).spec_id() by {
                    assert(tail[i] == sketch.geometry@[g0.len() + i]);
                }
                assert(made@ =~= tail.map_values(|g: GeometryElement| g.spec_id()));
                assert forall|i: int| 0 <= i < tpl.len() implies is_line()(#[trigger] tpl[i]) by {}
                lemma_count_all(tpl, is_line());
                assert forall|i: int| 0 <= i < tpl.len() implies !is_arc()(#[trigger] tpl[i]) by {}
                lemma_count_none(tpl, is_arc());
                assert forall|i: int| 0 <= i < tpl.len() implies !is_circle()(#[trigger] tpl[i]) by {}
                lemma_count_none(tpl, is_circle());
                assert forall|i: int| 0 <= i < tpl.len() implies !is_ellipse()(#[trigger] tpl[i]) by {}
                lemma_count_none(tpl, is_ellipse());
            }
            added.lines = added.lines + made.len();
            added.splines = added.splines + 1;
        },
        DrawnShape::Arc { start, end, centre, radius } => {
            if *start != *end {
                if let Some(c) = centre {
                    let g = GeometryElement::Arc(Arc::new(*c, *start, *end, *radius));
                    let id = sketch.add_geometry(g);
                    made.push(id);
                    added.arcs = added.arcs + 1;
                }
            }
            proof {
                let tail = sketch.geometry@.skip(g0.len() as int);
                if tpl.len() == 1 {
                    lemma_count_one(tpl[0]);
                    assert(tpl =~= seq![tpl[0]]);
                    assert(tail[0] == sketch.geometry@[g0.len() as int]);
                } else {
                    assert(tpl =~= Seq::<GeometryElement>::empty());
                    reveal_with_fuel(count_of, 1);
                }
                assert(made@ =~= tail.map_values(|g: GeometryElement| g.spec_id()));
            }
        },
        DrawnShape::Circle { centre, radius } => {
            let g = GeometryElement::Circle(Circle::new(*centre, *radius));
            let id = sketch.add_geometry(g);
            made.push(id);
            added.circles = added.circles + 1;
            proof {
                let tail = sketch.geometry@.skip(g0.len() as int);
                lemma_count_one(tpl[0]);
                assert(tpl =~= seq![tpl[0]]);
                assert(tail[0] == sketch.geometry@[g0.len() as int]);
                assert(made@ =~= tail.map_values(|g: GeometryElement| g.spec_id()));
            }
        },
        DrawnShape::Ellipse { centre, major, ratio, ends } => {
            match ends {
                None => {
                    let g = GeometryElement::Ellipse(Ellipse::new(*centre, *major, *ratio));
                    let id = sketch.add_geometry(g);
                    made.push(id);
                },
                Some((s, e)) => {
                    let g = GeometryElement::Ellipse(Ellipse::new_arc(*centre, *major, *ratio, *s, *e));
                    let id = sketch.add_geometry(g);
                    made.push(id);
                    let ghost c0 = sketch.constraints@;
                    sketch.add_constraint(ConstraintKind::PointOnEllipse { point: *s, ellipse: id });
                    let ghost c1 = sketch.constraints@;
                    sketch.add_constraint(ConstraintKind::PointOnEllipse { point: *e, ellipse: id });
                    proof {
                        assert(c1[c0.len() as int] == sketch.constraints@[c0.len() as int]);
                        assert(sketch.constraints@.take(c0.len() as int) =~= c0);
                    }
                },
            }
            added.ellipses = added.ellipses + 1;
            proof {
                let tail = sketch.geometry@.skip(g0.len() as int);
                lemma_count_one(tpl[0]);
                assert(tpl =~= seq![tpl[0]]);
                assert(tail[0] == sketch.geometry@[g0.len() as int]);
                assert(made@ =~= tail.map_values(|g: GeometryElement| g.spec_id()));
            }
        },
    }
    proof {
        let tail = sketch.geometry@.skip(g0.len() as int);
        assert(sketch.geometry@.take(g0.len() as int) =~= g0);
        lemma_count_le_len(tpl, is_line());
    }
    if hidden {
        let ghost c = sketch.construction@;
        let ghost s1 = *sketch;
        let mut k: usize = 0;
        while k < made.len()
            invariant
                k <= made@.len(),
                sketch.construction@ == c + made@.take(k as int).to_set(),
                sketch.geometry@ == s1.geometry@,
                sketch.constraints@ == s1.constraints@,
                same_frame(*sketch, s1),
            decreases made@.len() - k,
        {
            sketch.set_construction(made[k], true);
            proof {
                assert(made@.take(k + 1).to_set() =~= made@.take(k as int).to_set().insert(made@[k as int]));
                assert(sketch.construction@ =~= c + made@.take(k + 1).to_set());
            }
            k = k + 1;
        }
        assert(made@.take(made@.len() as int) =~= made@);
        added.construction = added.construction + made.len();
    }
    made
}

/// Law: an imported arc keeps its direction. The one curve made for a
/// drawing arc about a centre, between two different points, is a sketch
/// arc about that centre from the drawing's start to its end, with its
/// radius.
pub proof fn law_drawn_arc_keeps_its_direction(
    start: u128,
    end: u128,
    c: u128,
    radius: u32,
    tail: Seq<GeometryElement>,
)
    requires
        start != end,
        fresh_as(tail, drawn_template(DrawnShape::Arc { start, end, centre: Some(c), radius })),
    ensures
        tail.len() == 1,
        tail[0] matches GeometryElement::Arc(a) && a.center == c && a.start == start && a.end == end
            && a.radius == radius,
{
    assert(tail[0] == with_id(drawn_template(DrawnShape::Arc { start, end, centre: Some(c), radius })[0], tail[0].spec_id()));
}

/// Law: an imported polyline segment keeps its direction: a straight one
/// is a line from its start to its end, a bulge turning counter-clockwise
/// is an arc from its start to its end, and one turning clockwise is the
/// same arc, which sketch arcs draw counter-clockwise from its end to its
/// start; either arc is about the bulge's centre with its radius.
pub proof fn law_drawn_segment_keeps_its_direction(seg: DrawnSegment, tail: Seq<GeometryElement>)
    requires
        seg.start != seg.end,
        fresh_as(tail, drawn_template(DrawnShape::Segment(seg))),
    ensures
        tail.len() == 1,
        seg.arc is None ==> (tail[0] matches GeometryElement::Line(l) && l.start == seg.start && l.end == seg.end),
        seg.arc matches Some(b) ==> (tail[0] matches GeometryElement::Arc(a) && a.center == b.centre && a.radius
            == b.radius && (b.counterclockwise ==> a.start == seg.start && a.end == seg.end) && (!b.counterclockwise
            ==> a.start == seg.end && a.end == seg.start)),
{
    assert(tail[0] == with_id(drawn_template(DrawnShape::Segment(seg))[0], tail[0].spec_id()));
}

/// Law: an imported circle is about the drawing's centre with its radius,
/// and an imported ellipse keeps its centre, axes and arc ends in order.
pub proof fn law_drawn_round_curves_keep_their_shape(shape: DrawnShape, tail: Seq<GeometryElement>)
    requires
        shape is Circle || shape is Ellipse,
        fresh_as(tail, drawn_template(shape)),
    ensures
        tail.len() == 1,
        shape matches DrawnShape::Circle { centre, radius } ==> (tail[0] matches GeometryElement::Circle(c)
            && c.center == centre && c.radius == radius),
        shape matches DrawnShape::Ellipse { centre, major, ratio, ends } ==> (tail[0] matches GeometryElement::Ellipse(
            e,
        ) && e.center == centre && e.major == major && e.ratio == ratio && (ends matches Some(p) ==> (e.arc matches Some(
            a,
        ) && a.start == p.0 && a.end == p.1)) && (ends is None ==> e.arc is None)),
{
    assert(tail[0] == with_id(drawn_template(shape)[0], tail[0].spec_id()));
}

/// With no two neighbouring stops the same point, there is a span from
/// each stop to the next.
proof fn lemma_spans_of_distinct_stops(stops: Seq<u128>)
    requires
        stops.len() >= 1,
        forall|i: int| 0 <= i < stops.len() - 1 ==> #[trigger] stops[i] != stops[i + 1],
    ensures
        spline_spans(stops).len() == stops.len() - 1,
        forall|i: int| 0 <= i < stops.len() - 1 ==> #[trigger] spline_spans(stops)[i] == (stops[i], stops[i + 1]),
    decreases stops.len(),
{
    if stops.len() >= 2 {
        let init = stops.drop_last();
        assert forall|i: int| 0 <= i < init.len() - 1 implies #[trigger] init[i] != init[i + 1] by {
            assert(init[i] == stops[i] && init[i + 1] == stops[i + 1]);
        }
        lemma_spans_of_distinct_stops(init);
        assert(stops[stops.len() - 2] != stops[stops.len() - 1]);
    }
}

/// Law: an imported spline is drawn as lines through its points in order,
/// line `i` from point `i` to point `i + 1`, and, where it is closed with
/// more than two points, one more line from the last point back to the
/// first (no two neighbouring points the same).
pub proof fn law_drawn_spline_runs_through_its_points(shape: DrawnShape, tail: Seq<GeometryElement>)
    requires
        shape is Spline,
        shape->points@.len() >= 1,
        forall|i: int| 0 <= i < shape->points@.len() - 1 ==> #[trigger] shape->points@[i] != shape->points@[i + 1],
        shape->closed && shape->points@.len() > 2 ==> shape->points@.last() != shape->points@[0],
        fresh_as(tail, drawn_template(shape)),
    ensures
        tail.len() == shape->points@.len() - 1 + if shape->closed && shape->points@.len() > 2 { 1int } else { 0int },
        forall|i: int|
            0 <= i < shape->points@.len() - 1 ==> (#[trigger] tail[i] matches GeometryElement::Line(l) && l.start
                == shape->points@[i] && l.end == shape->points@[i + 1]),
        shape->closed && shape->points@.len() > 2 ==> (tail.last() matches GeometryElement::Line(l) && l.start
            == shape->points@.last() && l.end == shape->points@[0]),
{
    let pts = shape->points@;
    let stops = spline_stops(pts, shape->closed);
    assert forall|i: int| 0 <= i < stops.len() - 1 implies #[trigger] stops[i] != stops[i + 1] by {
        if i < pts.len() - 1 {
            assert(stops[i] == pts[i] && stops[i + 1] == pts[i + 1]);
        }
    }
    lemma_spans_of_distinct_stops(stops);
    let t = drawn_template(shape);
    assert forall|i: int| 0 <= i < pts.len() - 1 implies (#[trigger] tail[i] matches GeometryElement::Line(l) && l.start
        == pts[i] && l.end == pts[i + 1]) by {
        assert(spline_spans(stops)[i] == (stops[i], stops[i + 1]));
        assert(tail[i] == with_id(t[i], tail[i].spec_id()));
    }
    if shape->closed && pts.len() > 2 {
        let k = tail.len() - 1;
        assert(spline_spans(stops)[k] == (stops[k], stops[k + 1]));
        assert(tail[k] == with_id(t[k], tail[k].spec_id()));
    }
}

} // verus!
