//! External geometry: a solid's edges projected into the sketch. Each
//! element remembers its edge (`ExternalSource`); the elements of one edge
//! are brought up to date together, so they are gathered by the edge they
//! came from.

use vstd::prelude::*;

use crate::ident::is_random_id;
use crate::sketch::{
    lemma_first_with_id_exists, cascade_doomed, constraint_survives, has_id, is_first_with_id, lemma_lookup_at, lookup, survives, Arc,
    Circle, Ellipse, ExternalSource, GeometryElement, Line, Point, Sketch, Vec2D,
};

verus! {

broadcast use vstd::seq_lib::group_seq_properties;

/// A solid's edge as the kernel projected it onto the sketch plane, in
/// sketch coordinates: the exact curve it is there, or, for a curve with
/// no closed form, points along it. A closed circle or ellipse and an arc
/// of one are told apart, and an arc comes with its two ends.
#[derive(Debug, Clone)]
pub enum Projection {
    Point(Vec2D),
    Line { start: Vec2D, end: Vec2D },
    Circle { centre: Vec2D, radius: u32 },
    Arc { centre: Vec2D, radius: u32, start: Vec2D, end: Vec2D },
    Ellipse { centre: Vec2D, major: Vec2D, ratio: u32 },
    EllipseArc { centre: Vec2D, major: Vec2D, ratio: u32, start: Vec2D, end: Vec2D },
    Polyline(Vec<Vec2D>),
}

/// `e` is a point at `p` under a fresh id.
pub open spec fn fresh_point_at(e: GeometryElement, p: Vec2D) -> bool {
    match e {
        GeometryElement::Point(q) => q.position == p && is_random_id(q.id),
        _ => false,
    }
}

/// How many lines a chain of `n` points makes.
pub open spec fn chain_lines(n: int) -> int {
    if n <= 0 { 0 } else { n - 1 }
}

/// `tail` is what adding `p` appends to a sketch: its points first, in
/// order, then the curve over them (for a chain of points, one line per
/// neighbouring pair), each under a fresh id.
pub open spec fn made_as(p: Projection, tail: Seq<GeometryElement>) -> bool {
    match p {
        Projection::Point(q) => tail.len() == 1 && fresh_point_at(tail[0], q),
        Projection::Line { start, end } => {
            &&& tail.len() == 3
            &&& fresh_point_at(tail[0], start)
            &&& fresh_point_at(tail[1], end)
            &&& is_random_id(tail[2].spec_id())
            &&& tail[2] == GeometryElement::Line(
                Line { id: tail[2].spec_id(), start: tail[0].spec_id(), end: tail[1].spec_id() },
            )
        },
        Projection::Circle { centre, radius } => {
            &&& tail.len() == 2
            &&& fresh_point_at(tail[0], centre)
            &&& is_random_id(tail[1].spec_id())
            &&& tail[1] == GeometryElement::Circle(
                Circle { id: tail[1].spec_id(), center: tail[0].spec_id(), radius },
            )
        },
        Projection::Arc { centre, radius, start, end } => {
            &&& tail.len() == 4
            &&& fresh_point_at(tail[0], centre)
            &&& fresh_point_at(tail[1], start)
            &&& fresh_point_at(tail[2], end)
            &&& is_random_id(tail[3].spec_id())
            &&& tail[3] == GeometryElement::Arc(
                Arc {
                    id: tail[3].spec_id(),
                    center: tail[0].spec_id(),
                    start: tail[1].spec_id(),
                    end: tail[2].spec_id(),
                    radius,
                },
            )
        },
        Projection::Ellipse { centre, major, ratio } => {
            &&& tail.len() == 2
            &&& fresh_point_at(tail[0], centre)
            &&& is_random_id(tail[1].spec_id())
            &&& tail[1] == GeometryElement::Ellipse(
                Ellipse { id: tail[1].spec_id(), center: tail[0].spec_id(), major, ratio, arc: None },
            )
        },
        Projection::EllipseArc { centre, major, ratio, start, end } => {
            &&& tail.len() == 4
            &&& fresh_point_at(tail[0], centre)
            &&& fresh_point_at(tail[1], start)
            &&& fresh_point_at(tail[2], end)
            &&& is_random_id(tail[3].spec_id())
            &&& tail[3] == GeometryElement::Ellipse(
                Ellipse {
                    id: tail[3].spec_id(),
                    center: tail[0].spec_id(),
                    major,
                    ratio,
                    arc: Some(crate::sketch::EllipseArcEnds { start: tail[1].spec_id(), end: tail[2].spec_id() }),
                },
            )
        },
        Projection::Polyline(points) => {
            let n = points@.len() as int;
            &&& tail.len() == n + chain_lines(n)
            &&& forall|i: int| 0 <= i < n ==> fresh_point_at(#[trigger] tail[i], points@[i])
            &&& forall|j: int|
                0 <= j < chain_lines(n) ==> is_random_id((#[trigger] tail[n + j]).spec_id()) && tail[n + j]
                    == GeometryElement::Line(
                    Line { id: tail[n + j].spec_id(), start: tail[j].spec_id(), end: tail[j + 1].spec_id() },
                )
        },
    }
}

/// The ids of the elements that stand for the edge: the curve (or the
/// point, or a chain's lines), not the points a curve runs through.
pub open spec fn made_ids(p: Projection, tail: Seq<GeometryElement>) -> Seq<u128> {
    match p {
        Projection::Point(_) => seq![tail[0].spec_id()],
        Projection::Line { .. } => seq![tail[2].spec_id()],
        Projection::Circle { .. } => seq![tail[1].spec_id()],
        Projection::Arc { .. } => seq![tail[3].spec_id()],
        Projection::Ellipse { .. } => seq![tail[1].spec_id()],
        Projection::EllipseArc { .. } => seq![tail[3].spec_id()],
        Projection::Polyline(points) => tail.skip(points@.len() as int).map_values(
            |e: GeometryElement| e.spec_id(),
        ),
    }
}

/// Each of `ids` remembered as coming from `source`.
pub open spec fn sourced(ids: Seq<u128>, source: ExternalSource) -> Map<u128, ExternalSource> {
    Map::new(|k: u128| ids.contains(k), |k: u128| source)
}

/// Everything of a sketch but its geometry and external sources is the
/// same in `a` and `b`.
pub open spec fn same_but_geometry(a: Sketch, b: Sketch) -> bool {
    &&& a.constraints@ == b.constraints@
    &&& a.construction@ == b.construction@
    &&& a.id == b.id
    &&& a.name@ == b.name@
    &&& a.plane == b.plane
    &&& a.is_fully_constrained == b.is_fully_constrained
}

/// Add a point at `p`.
fn add_point(sketch: &mut Sketch, p: Vec2D) -> (id: u128)
    ensures
        final(sketch).geometry@.len() == old(sketch).geometry@.len() + 1,
        final(sketch).geometry@.drop_last() == old(sketch).geometry@,
        fresh_point_at(final(sketch).geometry@.last(), p),
        id == final(sketch).geometry@.last().spec_id(),
        final(sketch).external@ == old(sketch).external@,
        same_but_geometry(*final(sketch), *old(sketch)),
{
    let id = sketch.add_geometry(GeometryElement::Point(Point::new(p)));
    assert(sketch.geometry@.drop_last() =~= old(sketch).geometry@);
    id
}

/// How many elements stand for an edge once added: one, or a chain's
/// lines.
pub open spec fn made_count(p: Projection) -> int {
    match p {
        Projection::Polyline(points) => chain_lines(points@.len() as int),
        _ => 1,
    }
}

/// `b` is `a` with the edge `p` added from `source`: `a`'s geometry with
/// the edge's points and curve after it (`made_as`), and the elements that
/// stand for the edge remembering `source`.
pub open spec fn added(a: Sketch, b: Sketch, p: Projection, source: ExternalSource) -> bool {
    let n = a.geometry@.len() as int;
    let tail = b.geometry@.skip(n);
    &&& b.geometry@.len() >= n
    &&& b.geometry@.take(n) == a.geometry@
    &&& made_as(p, tail)
    &&& b.external@ == a.external@.union_prefer_right(sourced(made_ids(p, tail), source))
    &&& same_but_geometry(b, a)
}

/// Add a projected edge to the sketch as external geometry from `source`
/// (`added`). Returns how many elements stand for the edge.
pub fn add(sketch: &mut Sketch, projected: &Projection, source: ExternalSource) -> (count: usize)
    ensures
        added(*old(sketch), *final(sketch), *projected, source),
        count == made_count(*projected),
{
    let ghost g0 = sketch.geometry@;
    let ghost n0 = g0.len() as int;
    let mut made: Vec<u128> = Vec::new();
    match projected {
        Projection::Point(p) => {
            let id = add_point(sketch, *p);
            made.push(id);
            proof {
                let tail = sketch.geometry@.skip(n0);
                assert(tail[0] == sketch.geometry@[n0]);
                assert(sketch.geometry@.take(n0) =~= g0);
                assert(made@ =~= made_ids(*projected, tail));
            }
        },
        Projection::Line { start, end } => {
            let a = add_point(sketch, *start);
            let ghost g1 = sketch.geometry@;
            let b = add_point(sketch, *end);
            let ghost g2 = sketch.geometry@;
            let id = sketch.add_geometry(GeometryElement::Line(Line::new(a, b)));
            made.push(id);
            proof {
                let tail = sketch.geometry@.skip(n0);
                assert(tail[0] == g1[n0]);
                assert(tail[1] == g2[n0 + 1]);
                assert(sketch.geometry@.take(n0) =~= g0);
                assert(made@ =~= made_ids(*projected, tail));
            }
        },
        Projection::Circle { centre, radius } => {
            let c = add_point(sketch, *centre);
            let ghost g1 = sketch.geometry@;
            let id = sketch.add_geometry(GeometryElement::Circle(Circle::new(c, *radius)));
            made.push(id);
            proof {
                let tail = sketch.geometry@.skip(n0);
                assert(tail[0] == g1[n0]);
                assert(sketch.geometry@.take(n0) =~= g0);
                assert(made@ =~= made_ids(*projected, tail));
            }
        },
        Projection::Arc { centre, radius, start, end } => {
            let c = add_point(sketch, *centre);
            let ghost g1 = sketch.geometry@;
            let s = add_point(sketch, *start);
            let ghost g2 = sketch.geometry@;
            let e = add_point(sketch, *end);
            let ghost g3 = sketch.geometry@;
            let id = sketch.add_geometry(GeometryElement::Arc(Arc::new(c, s, e, *radius)));
            made.push(id);
            proof {
                let tail = sketch.geometry@.skip(n0);
                assert(tail[0] == g1[n0]);
                assert(tail[1] == g2[n0 + 1]);
                assert(tail[2] == g3[n0 + 2]);
                assert(sketch.geometry@.take(n0) =~= g0);
                assert(made@ =~= made_ids(*projected, tail));
            }
        },
        Projection::Ellipse { centre, major, ratio } => {
            let c = add_point(sketch, *centre);
            let ghost g1 = sketch.geometry@;
            let id = sketch.add_geometry(GeometryElement::Ellipse(Ellipse::new(c, *major, *ratio)));
            made.push(id);
            proof {
                let tail = sketch.geometry@.skip(n0);
                assert(tail[0] == g1[n0]);
                assert(sketch.geometry@.take(n0) =~= g0);
                assert(made@ =~= made_ids(*projected, tail));
            }
        },
        Projection::EllipseArc { centre, major, ratio, start, end } => {
            let c = add_point(sketch, *centre);
            let ghost g1 = sketch.geometry@;
            let s = add_point(sketch, *start);
            let ghost g2 = sketch.geometry@;
            let e = add_point(sketch, *end);
            let ghost g3 = sketch.geometry@;
            let id = sketch.add_geometry(
                GeometryElement::Ellipse(Ellipse::new_arc(c, *major, *ratio, s, e)),
            );
            made.push(id);
            proof {
                let tail = sketch.geometry@.skip(n0);
                assert(tail[0] == g1[n0]);
                assert(tail[1] == g2[n0 + 1]);
                assert(tail[2] == g3[n0 + 2]);
                assert(sketch.geometry@.take(n0) =~= g0);
                assert(made@ =~= made_ids(*projected, tail));
            }
        },
        Projection::Polyline(points) => {
            let ghost s0 = *sketch;
            let ghost mut t: Seq<GeometryElement> = Seq::empty();
            let mut ids: Vec<u128> = Vec::new();
            let mut i: usize = 0;
            assert(sketch.geometry@ =~= g0 + t);
            while i < points.len()
                invariant
                    i <= points@.len(),
                    sketch.geometry@ == g0 + t,
                    t.len() == i,
                    ids@.len() == i,
                    forall|k: int| 0 <= k < i ==> fresh_point_at(#[trigger] t[k], points@[k]),
                    forall|k: int| 0 <= k < i ==> ids@[k] == (#[trigger] t[k]).spec_id(),
                    sketch.external@ == s0.external@,
                    same_but_geometry(*sketch, s0),
                decreases points@.len() - i,
            {
                let id = add_point(sketch, points[i]);
                ids.push(id);
                proof {
                    assert(sketch.geometry@ =~= sketch.geometry@.drop_last().push(sketch.geometry@.last()));
                    t = t.push(sketch.geometry@.last());
                    assert(sketch.geometry@ =~= g0 + t);
                }
                i = i + 1;
            }
            let n = points.len();
            let mut j: usize = 0;
            while j + 1 < n
                invariant
                    n == points@.len(),
                    ids@.len() == n,
                    j <= chain_lines(n as int),
                    sketch.geometry@ == g0 + t,
                    t.len() == n + j,
                    made@.len() == j,
                    forall|k: int| 0 <= k < n ==> fresh_point_at(#[trigger] t[k], points@[k]),
                    forall|k: int| 0 <= k < n ==> ids@[k] == (#[trigger] t[k]).spec_id(),
                    forall|k: int|
                        0 <= k < j ==> is_random_id((#[trigger] t[n + k]).spec_id()) && t[n + k]
                            == GeometryElement::Line(
                            Line { id: t[n + k].spec_id(), start: t[k].spec_id(), end: t[k + 1].spec_id() },
                        ),
                    forall|k: int| 0 <= k < j ==> made@[k] == (#[trigger] t[n + k]).spec_id(),
                    sketch.external@ == s0.external@,
                    same_but_geometry(*sketch, s0),
                decreases n - j,
            {
                let id = sketch.add_geometry(GeometryElement::Line(Line::new(ids[j], ids[j + 1])));
                made.push(id);
                proof {
                    t = t.push(sketch.geometry@.last());
                    assert(sketch.geometry@ =~= g0 + t);
                }
                j = j + 1;
            }
            proof {
                assert(sketch.geometry@.take(n0) =~= g0);
                assert(sketch.geometry@.skip(n0) =~= t);
                assert forall|k: int| 0 <= k < made@.len() implies made@[k] == #[trigger] made_ids(*projected, t)[k] by {
                    assert(t.skip(n as int)[k] == t[n + k]);
                }
                assert(made@ =~= made_ids(*projected, t));
            }
        },
    }
    let ghost e0 = sketch.external@;
    let ghost s1 = *sketch;
    let count = made.len();
    let mut k: usize = 0;
    while k < made.len()
        invariant
            k <= made@.len(),
            sketch.external@ == e0.union_prefer_right(sourced(made@.take(k as int), source)),
            sketch.geometry@ == s1.geometry@,
            same_but_geometry(*sketch, s1),
        decreases made@.len() - k,
    {
        sketch.external.insert(made[k], source);
        proof {
            assert(made@.take(k + 1) =~= made@.take(k as int).push(made@[k as int]));
            assert(sketch.external@ =~= e0.union_prefer_right(sourced(made@.take(k + 1), source)));
        }
        k = k + 1;
    }
    assert(made@.take(made@.len() as int) =~= made@);
    count
}

/// `b` holds the elements of `a`, in place, each under its id and of its
/// kind (only what they hold may differ).
pub open spec fn same_elements(a: Seq<GeometryElement>, b: Seq<GeometryElement>) -> bool {
    &&& a.len() == b.len()
    &&& forall|i: int|
        0 <= i < a.len() ==> (#[trigger] a[i]).spec_id() == b[i].spec_id() && (a[i] is BSpline <==> b[i] is BSpline)
            && (a[i] is Point <==> b[i] is Point) && (a[i] is Line <==> b[i] is Line) && (a[i] is Arc
            <==> b[i] is Arc) && (a[i] is Circle <==> b[i] is Circle) && (a[i] is Ellipse <==> b[i] is Ellipse)
}

/// Where `lookup` finds `id`, it finds it at `first_index`.
proof fn lemma_first_index_found(g: Seq<GeometryElement>, id: u128)
    requires
        lookup(g, id) is Some,
    ensures
        is_first_with_id(g, id, first_index(g, id)),
        lookup(g, id) == Some(g[first_index(g, id)]),
{
    lemma_first_with_id_exists(g, id);
    lemma_first_index_at(g, id, choose|i: int| is_first_with_id(g, id, i));
}

/// Replacing the element `lookup` finds by one of its id and kind keeps
/// the elements.
proof fn lemma_replace_keeps_elements(g: Seq<GeometryElement>, id: u128, e: GeometryElement)
    requires
        lookup(g, id) is Some,
        e.spec_id() == id,
        same_elements(seq![lookup(g, id)->0], seq![e]),
    ensures
        same_elements(g, g.update(first_index(g, id), e)),
{
    lemma_first_index_found(g, id);
    let k = first_index(g, id);
    assert(seq![lookup(g, id)->0][0] == g[k]);
    assert(seq![e][0] == e);
}

proof fn lemma_same_elements_trans(a: Seq<GeometryElement>, b: Seq<GeometryElement>, c: Seq<GeometryElement>)
    requires
        same_elements(a, b),
        same_elements(b, c),
    ensures
        same_elements(a, c),
{
    assert forall|i: int| 0 <= i < a.len() implies (#[trigger] a[i]).spec_id() == c[i].spec_id() && (a[i] is BSpline <==> c[i] is BSpline)
        && (a[i] is Point <==> c[i] is Point) && (a[i] is Line <==> c[i] is Line) && (a[i] is Arc
        <==> c[i] is Arc) && (a[i] is Circle <==> c[i] is Circle) && (a[i] is Ellipse <==> c[i] is Ellipse) by {
        assert(b[i].spec_id() == c[i].spec_id());
    }
}

proof fn lemma_placed_keeps_elements(g: Seq<GeometryElement>, id: u128, p: Vec2D)
    ensures
        same_elements(g, placed(g, id, p)),
{
    match lookup(g, id) {
        Some(GeometryElement::Point(q)) => {
            lemma_first_index_found(g, id);
            lemma_replace_keeps_elements(g, id, GeometryElement::Point(Point { id: q.id, position: p }));
        },
        _ => {},
    }
}

proof fn lemma_radius_keeps_elements(g: Seq<GeometryElement>, id: u128, r: u32)
    ensures
        same_elements(g, with_circle_radius(g, id, r)),
        same_elements(g, with_arc_radius(g, id, r)),
{
    match lookup(g, id) {
        Some(GeometryElement::Circle(c)) => {
            lemma_first_index_found(g, id);
            lemma_replace_keeps_elements(g, id, GeometryElement::Circle(Circle { id: c.id, center: c.center, radius: r }));
        },
        Some(GeometryElement::Arc(a)) => {
            lemma_first_index_found(g, id);
            lemma_replace_keeps_elements(
                g,
                id,
                GeometryElement::Arc(Arc { id: a.id, center: a.center, start: a.start, end: a.end, radius: r }),
            );
        },
        _ => {},
    }
}

proof fn lemma_axes_keep_elements(g: Seq<GeometryElement>, id: u128, major: Vec2D, ratio: u32)
    ensures
        same_elements(g, with_ellipse_axes(g, id, major, ratio)),
{
    match lookup(g, id) {
        Some(GeometryElement::Ellipse(e)) => {
            lemma_first_index_found(g, id);
            lemma_replace_keeps_elements(
                g,
                id,
                GeometryElement::Ellipse(Ellipse { id: e.id, center: e.center, major, ratio, arc: e.arc }),
            );
        },
        _ => {},
    }
}

proof fn lemma_chain_keeps_elements(g: Seq<GeometryElement>, lines: Seq<Shape>, pts: Seq<Vec2D>, n: int)
    ensures
        same_elements(g, placed_chain(g, lines, pts, n)),
    decreases n,
{
    if n > 0 {
        lemma_chain_keeps_elements(g, lines, pts, n - 1);
        let before = placed_chain(g, lines, pts, n - 1);
        match lines[n - 1] {
            Shape::Line(l) => {
                lemma_placed_keeps_elements(before, l.start, pts[n - 1]);
                let mid = placed(before, l.start, pts[n - 1]);
                lemma_placed_keeps_elements(mid, l.end, pts[n]);
                lemma_same_elements_trans(g, before, mid);
                lemma_same_elements_trans(g, mid, placed(mid, l.end, pts[n]));
            },
            _ => {},
        }
    } else {
        assert(same_elements(g, g));
    }
}

/// Law: bringing an edge's elements up to date in place keeps every
/// element of the sketch where it was, under its id and of its kind, so
/// the constraints that refer to them still do.
pub proof fn law_refresh_in_place_keeps_elements(g: Seq<GeometryElement>, group: Seq<u128>, p: Projection)
    requires
        updated(g, found_shapes(g, group), p) is Some,
    ensures
        same_elements(g, updated(g, found_shapes(g, group), p)->0),
{
    let shapes = found_shapes(g, group);
    match p {
        Projection::Point(q) => {
            if let Shape::Point(pt) = shapes[0] {
                lemma_placed_keeps_elements(g, pt.id, q);
            }
        },
        Projection::Line { start, end } => {
            if let Shape::Line(l) = shapes[0] {
                let a = placed(g, l.start, start);
                lemma_placed_keeps_elements(g, l.start, start);
                lemma_placed_keeps_elements(a, l.end, end);
                lemma_same_elements_trans(g, a, placed(a, l.end, end));
            }
        },
        Projection::Circle { centre, radius } => {
            if let Shape::Circle(c) = shapes[0] {
                let a = placed(g, c.center, centre);
                lemma_placed_keeps_elements(g, c.center, centre);
                lemma_radius_keeps_elements(a, c.id, radius);
                lemma_same_elements_trans(g, a, with_circle_radius(a, c.id, radius));
            }
        },
        Projection::Arc { centre, radius, start, end } => {
            if let Shape::Arc(arc) = shapes[0] {
                let a = placed(g, arc.center, centre);
                let b = placed(a, arc.start, start);
                let c = placed(b, arc.end, end);
                lemma_placed_keeps_elements(g, arc.center, centre);
                lemma_placed_keeps_elements(a, arc.start, start);
                lemma_placed_keeps_elements(b, arc.end, end);
                lemma_radius_keeps_elements(c, arc.id, radius);
                lemma_same_elements_trans(g, a, b);
                lemma_same_elements_trans(g, b, c);
                lemma_same_elements_trans(g, c, with_arc_radius(c, arc.id, radius));
            }
        },
        Projection::Ellipse { centre, major, ratio } => {
            if let Shape::Ellipse(e) = shapes[0] {
                let a = placed(g, e.center, centre);
                lemma_placed_keeps_elements(g, e.center, centre);
                lemma_axes_keep_elements(a, e.id, major, ratio);
                lemma_same_elements_trans(g, a, with_ellipse_axes(a, e.id, major, ratio));
            }
        },
        Projection::EllipseArc { centre, major, ratio, start, end } => {
            if let Shape::Ellipse(e) = shapes[0] {
                let ends = e.arc->0;
                let a = placed(g, e.center, centre);
                let b = placed(a, ends.start, start);
                let c = placed(b, ends.end, end);
                lemma_placed_keeps_elements(g, e.center, centre);
                lemma_placed_keeps_elements(a, ends.start, start);
                lemma_placed_keeps_elements(b, ends.end, end);
                lemma_axes_keep_elements(c, e.id, major, ratio);
                lemma_same_elements_trans(g, a, b);
                lemma_same_elements_trans(g, b, c);
                lemma_same_elements_trans(g, c, with_ellipse_axes(c, e.id, major, ratio));
            }
        },
        Projection::Polyline(points) => {
            lemma_chain_keeps_elements(g, shapes, points@, shapes.len() as int);
        },
    }
}

/// Two sketches hold the same.
pub open spec fn same_sketch(a: Sketch, b: Sketch) -> bool {
    &&& a.geometry@ == b.geometry@
    &&& a.external@ == b.external@
    &&& same_but_geometry(a, b)
}

/// `b` is `a` with each edge of `items`, in order, added from its source
/// (`added`, one after another).
pub open spec fn added_all(a: Sketch, b: Sketch, items: Seq<(ExternalSource, Projection)>) -> bool
    decreases items.len(),
{
    if items.len() == 0 {
        same_sketch(a, b)
    } else {
        exists|mid: Sketch|
            added_all(a, mid, items.drop_last()) && #[trigger] added(mid, b, items.last().1, items.last().0)
    }
}

/// The edges that projected, with their sources, in order.
pub open spec fn projected_ok(edges: Seq<(ExternalSource, Result<Projection, String>)>) -> Seq<(ExternalSource, Projection)>
    decreases edges.len(),
{
    if edges.len() == 0 {
        Seq::empty()
    } else {
        let before = projected_ok(edges.drop_last());
        match edges.last().1 {
            Ok(p) => before.push((edges.last().0, p)),
            Err(_) => before,
        }
    }
}

/// Why the last edge that did not project failed.
pub open spec fn last_failure(edges: Seq<(ExternalSource, Result<Projection, String>)>) -> Option<String>
    decreases edges.len(),
{
    if edges.len() == 0 {
        None
    } else {
        match edges.last().1 {
            Err(why) => Some(why),
            Ok(_) => last_failure(edges.drop_last()),
        }
    }
}

/// How many elements stand for all of `items` once added.
pub open spec fn total_made(items: Seq<(ExternalSource, Projection)>) -> int
    decreases items.len(),
{
    if items.len() == 0 {
        0
    } else {
        total_made(items.drop_last()) + made_count(items.last().1)
    }
}

/// Add the projections of edges to the sketch as external geometry, each
/// from its edge's source; an edge that could not be projected is passed
/// over. How many elements came; but where none came and an edge failed,
/// why the last one that failed did.
pub fn add_external(sketch: &mut Sketch, edges: &[(ExternalSource, Result<Projection, String>)]) -> (r: Result<usize, String>)
    ensures
        added_all(*old(sketch), *final(sketch), projected_ok(edges@)),
        match r {
            Ok(n) => n == total_made(projected_ok(edges@)) && (n == 0 ==> last_failure(edges@) is None),
            Err(why) => total_made(projected_ok(edges@)) == 0 && last_failure(edges@) == Some(why),
        },
{
    let ghost s0 = *sketch;
    let ghost n0 = sketch.geometry@.len();
    let mut count: usize = 0;
    let mut last_error: Option<String> = None;
    let mut k: usize = 0;
    while k < edges.len()
        invariant
            k <= edges@.len(),
            n0 == s0.geometry@.len(),
            sketch.geometry@.len() >= n0,
            count == total_made(projected_ok(edges@.take(k as int))),
            count <= sketch.geometry@.len() - n0,
            last_error == last_failure(edges@.take(k as int)),
            added_all(s0, *sketch, projected_ok(edges@.take(k as int))),
        decreases edges@.len() - k,
    {
        assert(edges@.take(k + 1).drop_last() =~= edges@.take(k as int));
        let ghost before = *sketch;
        let ghost done = projected_ok(edges@.take(k as int));
        match &edges[k].1 {
            Ok(projected) => {
                let made = self::add(sketch, projected, edges[k].0);
                proof {
                    let next = projected_ok(edges@.take(k + 1));
                    assert(next == done.push((edges@[k as int].0, *projected)));
                    assert(next.drop_last() =~= done);
                    assert(made_count(*projected) <= sketch.geometry@.len() - before.geometry@.len());
                    assert(added_all(s0, *sketch, next)) by {
                        assert(added_all(s0, before, next.drop_last()));
                        assert(added(before, *sketch, next.last().1, next.last().0));
                    }
                }
                let _ = sketch.geometry.len();
                count = count + made;
            },
            Err(why) => {
                last_error = Some(why.clone());
                assert(projected_ok(edges@.take(k + 1)) == done);
            },
        }
        k = k + 1;
    }
    assert(edges@.take(edges@.len() as int) =~= edges@);
    match last_error {
        Some(why) if count == 0 => Err(why),
        _ => Ok(count),
    }
}

/// The groups whose edges projected, each with its projection, in order.
pub open spec fn refreshed_ok(items: Seq<(ExternalSource, Vec<u128>, Result<Projection, String>)>) -> Seq<(ExternalSource, Seq<u128>, Projection)>
    decreases items.len(),
{
    if items.len() == 0 {
        Seq::empty()
    } else {
        let before = refreshed_ok(items.drop_last());
        match items.last().2 {
            Ok(p) => before.push((items.last().0, items.last().1@, p)),
            Err(_) => before,
        }
    }
}

/// How many groups' edges could not be projected.
pub open spec fn failures(items: Seq<(ExternalSource, Vec<u128>, Result<Projection, String>)>) -> int
    decreases items.len(),
{
    if items.len() == 0 {
        0
    } else {
        failures(items.drop_last()) + if items.last().2 is Err { 1int } else { 0int }
    }
}

/// `b` is `a` with each group of `items`, in order, brought up to its
/// projection (`refreshed`, one after another).
pub open spec fn refreshed_all(a: Sketch, b: Sketch, items: Seq<(ExternalSource, Seq<u128>, Projection)>) -> bool
    decreases items.len(),
{
    if items.len() == 0 {
        same_sketch(a, b)
    } else {
        exists|mid: Sketch|
            refreshed_all(a, mid, items.drop_last()) && #[trigger] refreshed(
                mid,
                b,
                items.last().0,
                items.last().1,
                items.last().2,
            )
    }
}

/// Bring each group of external elements (as `groups` gives them) up to its
/// edge's new projection; a group whose edge could not be projected stays
/// where it is. Returns how many stayed so.
pub fn refresh_external(sketch: &mut Sketch, items: &[(ExternalSource, Vec<u128>, Result<Projection, String>)]) -> (lost: usize)
    ensures
        refreshed_all(*old(sketch), *final(sketch), refreshed_ok(items@)),
        lost == failures(items@),
{
    let ghost s0 = *sketch;
    let mut lost: usize = 0;
    let mut k: usize = 0;
    while k < items.len()
        invariant
            k <= items@.len(),
            lost == failures(items@.take(k as int)),
            lost <= k,
            refreshed_all(s0, *sketch, refreshed_ok(items@.take(k as int))),
        decreases items@.len() - k,
    {
        assert(items@.take(k + 1).drop_last() =~= items@.take(k as int));
        let ghost before = *sketch;
        let ghost done = refreshed_ok(items@.take(k as int));
        match &items[k].2 {
            Ok(projected) => {
                refresh_group(sketch, items[k].0, items[k].1.as_slice(), projected);
                proof {
                    let next = refreshed_ok(items@.take(k + 1));
                    assert(next == done.push((items@[k as int].0, items@[k as int].1@, *projected)));
                    assert(next.drop_last() =~= done);
                    assert(refreshed_all(s0, *sketch, next)) by {
                        assert(refreshed_all(s0, before, next.drop_last()));
                        assert(refreshed(before, *sketch, next.last().0, next.last().1, next.last().2));
                    }
                }
            },
            Err(_) => {
                lost = lost + 1;
                assert(refreshed_ok(items@.take(k + 1)) == done);
            },
        }
        k = k + 1;
    }
    assert(items@.take(items@.len() as int) =~= items@);
    lost
}

/// What bringing an edge's elements up to date reads of each: the element
/// itself, but for a spline, which no projection is kept as.
#[derive(Debug, Clone, Copy, PartialEq, Eq)]
pub enum Shape {
    Point(Point),
    Line(Line),
    Arc(Arc),
    Circle(Circle),
    Ellipse(Ellipse),
    Spline,
}

/// The shape of an element.
pub open spec fn spec_shape(e: GeometryElement) -> Shape {
    match e {
        GeometryElement::Point(p) => Shape::Point(p),
        GeometryElement::Line(l) => Shape::Line(l),
        GeometryElement::Arc(a) => Shape::Arc(a),
        GeometryElement::Circle(c) => Shape::Circle(c),
        GeometryElement::Ellipse(e) => Shape::Ellipse(e),
        GeometryElement::BSpline(_) => Shape::Spline,
    }
}

fn shape_of(e: &GeometryElement) -> (s: Shape)
    ensures
        s == spec_shape(*e),
{
    match e {
        GeometryElement::Point(p) => Shape::Point(*p),
        GeometryElement::Line(l) => Shape::Line(*l),
        GeometryElement::Arc(a) => Shape::Arc(*a),
        GeometryElement::Circle(c) => Shape::Circle(*c),
        GeometryElement::Ellipse(e) => Shape::Ellipse(*e),
        GeometryElement::BSpline(_) => Shape::Spline,
    }
}

/// The shapes of the elements of `group` that the sketch holds, in the
/// group's order (ids it does not hold are passed over).
pub open spec fn found_shapes(g: Seq<GeometryElement>, group: Seq<u128>) -> Seq<Shape>
    decreases group.len(),
{
    if group.len() == 0 {
        Seq::empty()
    } else {
        let before = found_shapes(g, group.drop_last());
        match lookup(g, group.last()) {
            Some(e) => before.push(spec_shape(e)),
            None => before,
        }
    }
}

/// The index of the first element with id `id`.
pub open spec fn first_index(g: Seq<GeometryElement>, id: u128) -> int {
    choose|i: int| is_first_with_id(g, id, i)
}

/// `g` with the point `id` (the element `lookup` finds) moved to `p`;
/// unchanged where that is no point.
pub open spec fn placed(g: Seq<GeometryElement>, id: u128, p: Vec2D) -> Seq<GeometryElement> {
    match lookup(g, id) {
        Some(GeometryElement::Point(q)) => g.update(
            first_index(g, id),
            GeometryElement::Point(Point { id: q.id, position: p }),
        ),
        _ => g,
    }
}

/// `g` with the circle `id` given radius `r`; unchanged where that is no
/// circle.
pub open spec fn with_circle_radius(g: Seq<GeometryElement>, id: u128, r: u32) -> Seq<GeometryElement> {
    match lookup(g, id) {
        Some(GeometryElement::Circle(c)) => g.update(
            first_index(g, id),
            GeometryElement::Circle(Circle { id: c.id, center: c.center, radius: r }),
        ),
        _ => g,
    }
}

/// `g` with the arc `id` given radius `r`; unchanged where that is no arc.
pub open spec fn with_arc_radius(g: Seq<GeometryElement>, id: u128, r: u32) -> Seq<GeometryElement> {
    match lookup(g, id) {
        Some(GeometryElement::Arc(a)) => g.update(
            first_index(g, id),
            GeometryElement::Arc(Arc { id: a.id, center: a.center, start: a.start, end: a.end, radius: r }),
        ),
        _ => g,
    }
}

/// `g` with the ellipse `id` given a major axis and ratio; unchanged where
/// that is no ellipse.
pub open spec fn with_ellipse_axes(g: Seq<GeometryElement>, id: u128, major: Vec2D, ratio: u32) -> Seq<GeometryElement> {
    match lookup(g, id) {
        Some(GeometryElement::Ellipse(e)) => g.update(
            first_index(g, id),
            GeometryElement::Ellipse(Ellipse { id: e.id, center: e.center, major, ratio, arc: e.arc }),
        ),
        _ => g,
    }
}

/// Whether every shape is a line.
pub open spec fn all_lines(shapes: Seq<Shape>) -> bool {
    forall|i: int| 0 <= i < shapes.len() ==> (#[trigger] shapes[i]) is Line
}

/// `g` with the ends of the first `n` lines moved to neighbouring points of
/// `pts`, line `i` from `pts[i]` to `pts[i + 1]`.
pub open spec fn placed_chain(g: Seq<GeometryElement>, lines: Seq<Shape>, pts: Seq<Vec2D>, n: int) -> Seq<GeometryElement>
    decreases n,
{
    if n <= 0 {
        g
    } else {
        let before = placed_chain(g, lines, pts, n - 1);
        match lines[n - 1] {
            Shape::Line(l) => placed(placed(before, l.start, pts[n - 1]), l.end, pts[n]),
            _ => before,
        }
    }
}

/// What bringing elements of `shapes` up to `p` makes of the geometry `g`,
/// where they are the same kind of shape as `p`: the points they run
/// through moved where `p` says, and a circle's or arc's radius, an
/// ellipse's axes, taken from it. `None` where the kinds differ.
pub open spec fn updated(g: Seq<GeometryElement>, shapes: Seq<Shape>, p: Projection) -> Option<Seq<GeometryElement>> {
    let single = shapes.len() == 1;
    match p {
        Projection::Point(q) => match shapes[0] {
            Shape::Point(pt) if single => Some(placed(g, pt.id, q)),
            _ => None,
        },
        Projection::Line { start, end } => match shapes[0] {
            Shape::Line(l) if single => Some(placed(placed(g, l.start, start), l.end, end)),
            _ => None,
        },
        Projection::Circle { centre, radius } => match shapes[0] {
            Shape::Circle(c) if single => Some(with_circle_radius(placed(g, c.center, centre), c.id, radius)),
            _ => None,
        },
        Projection::Arc { centre, radius, start, end } => match shapes[0] {
            Shape::Arc(a) if single => Some(
                with_arc_radius(placed(placed(placed(g, a.center, centre), a.start, start), a.end, end), a.id, radius),
            ),
            _ => None,
        },
        Projection::Ellipse { centre, major, ratio } => match shapes[0] {
            Shape::Ellipse(e) if single && e.arc is None => Some(
                with_ellipse_axes(placed(g, e.center, centre), e.id, major, ratio),
            ),
            _ => None,
        },
        Projection::EllipseArc { centre, major, ratio, start, end } => match shapes[0] {
            Shape::Ellipse(e) if single && e.arc is Some => Some(
                with_ellipse_axes(
                    placed(placed(placed(g, e.center, centre), e.arc->0.start, start), e.arc->0.end, end),
                    e.id,
                    major,
                    ratio,
                ),
            ),
            _ => None,
        },
        Projection::Polyline(points) => if shapes.len() + 1 == points@.len() && all_lines(shapes) {
            Some(placed_chain(g, shapes, points@, shapes.len() as int))
        } else {
            None
        },
    }
}

/// At the first index with an id, `first_index` and `lookup` agree.
proof fn lemma_first_index_at(g: Seq<GeometryElement>, id: u128, i: int)
    requires
        is_first_with_id(g, id, i),
    ensures
        first_index(g, id) == i,
        lookup(g, id) == Some(g[i]),
{
    lemma_lookup_at(g, id, i);
    let k = first_index(g, id);
    assert(is_first_with_id(g, id, k));
    if k < i {
        assert(g[k].spec_id() != id);
    }
    if i < k {
        assert(g[i].spec_id() != id);
    }
}

/// The first index of an element with id `id`.
fn find_index(g: &Vec<GeometryElement>, id: u128) -> (r: Option<usize>)
    ensures
        match r {
            Some(i) => is_first_with_id(g@, id, i as int),
            None => lookup(g@, id) is None,
        },
{
    let mut i: usize = 0;
    while i < g.len()
        invariant
            i <= g@.len(),
            forall|j: int| 0 <= j < i ==> (#[trigger] g@[j]).spec_id() != id,
        decreases g@.len() - i,
    {
        if g[i].id() == id {
            return Some(i);
        }
        i = i + 1;
    }
    assert(!has_id(g@, id));
    None
}

/// Move the point `id` to `p` (`placed`).
fn place(sketch: &mut Sketch, id: u128, p: Vec2D)
    ensures
        final(sketch).geometry@ == placed(old(sketch).geometry@, id, p),
        final(sketch).external@ == old(sketch).external@,
        same_but_geometry(*final(sketch), *old(sketch)),
{
    if let Some(i) = find_index(&sketch.geometry, id) {
        proof {
            lemma_first_index_at(sketch.geometry@, id, i as int);
        }
        if let GeometryElement::Point(q) = &sketch.geometry[i] {
            let moved = GeometryElement::Point(Point { id: q.id, position: p });
            sketch.geometry[i] = moved;
        }
    }
}

/// Give the circle `id` radius `r` (`with_circle_radius`).
fn set_circle_radius(sketch: &mut Sketch, id: u128, r: u32)
    ensures
        final(sketch).geometry@ == with_circle_radius(old(sketch).geometry@, id, r),
        final(sketch).external@ == old(sketch).external@,
        same_but_geometry(*final(sketch), *old(sketch)),
{
    if let Some(i) = find_index(&sketch.geometry, id) {
        proof {
            lemma_first_index_at(sketch.geometry@, id, i as int);
        }
        if let GeometryElement::Circle(c) = &sketch.geometry[i] {
            let resized = GeometryElement::Circle(Circle { id: c.id, center: c.center, radius: r });
            sketch.geometry[i] = resized;
        }
    }
}

/// Give the arc `id` radius `r` (`with_arc_radius`).
fn set_arc_radius(sketch: &mut Sketch, id: u128, r: u32)
    ensures
        final(sketch).geometry@ == with_arc_radius(old(sketch).geometry@, id, r),
        final(sketch).external@ == old(sketch).external@,
        same_but_geometry(*final(sketch), *old(sketch)),
{
    if let Some(i) = find_index(&sketch.geometry, id) {
        proof {
            lemma_first_index_at(sketch.geometry@, id, i as int);
        }
        if let GeometryElement::Arc(a) = &sketch.geometry[i] {
            let resized = GeometryElement::Arc(
                Arc { id: a.id, center: a.center, start: a.start, end: a.end, radius: r },
            );
            sketch.geometry[i] = resized;
        }
    }
}

/// Give the ellipse `id` a major axis and ratio (`with_ellipse_axes`).
fn set_ellipse_axes(sketch: &mut Sketch, id: u128, major: Vec2D, ratio: u32)
    ensures
        final(sketch).geometry@ == with_ellipse_axes(old(sketch).geometry@, id, major, ratio),
        final(sketch).external@ == old(sketch).external@,
        same_but_geometry(*final(sketch), *old(sketch)),
{
    if let Some(i) = find_index(&sketch.geometry, id) {
        proof {
            lemma_first_index_at(sketch.geometry@, id, i as int);
        }
        if let GeometryElement::Ellipse(e) = &sketch.geometry[i] {
            let reshaped = GeometryElement::Ellipse(
                Ellipse { id: e.id, center: e.center, major, ratio, arc: e.arc },
            );
            sketch.geometry[i] = reshaped;
        }
    }
}

/// The shapes of the group's elements.
fn shapes_of(sketch: &Sketch, group: &[u128]) -> (r: Vec<Shape>)
    ensures
        r@ == found_shapes(sketch.geometry@, group@),
{
    let mut r: Vec<Shape> = Vec::new();
    let mut k: usize = 0;
    while k < group.len()
        invariant
            k <= group@.len(),
            r@ == found_shapes(sketch.geometry@, group@.take(k as int)),
        decreases group@.len() - k,
    {
        assert(group@.take(k + 1).drop_last() =~= group@.take(k as int));
        if let Some(e) = sketch.get_geometry(group[k]) {
            r.push(shape_of(e));
        }
        k = k + 1;
    }
    assert(group@.take(group@.len() as int) =~= group@);
    r
}

/// Move the points of `group` (one edge's elements, in the order they were
/// made) to `projected`, where it is the same kind of shape (`updated`).
/// Returns whether it was; where not, nothing changes.
fn update(sketch: &mut Sketch, group: &[u128], projected: &Projection) -> (r: bool)
    ensures
        match updated(old(sketch).geometry@, found_shapes(old(sketch).geometry@, group@), *projected) {
            Some(g) => r && final(sketch).geometry@ == g,
            None => !r && final(sketch).geometry@ == old(sketch).geometry@,
        },
        final(sketch).external@ == old(sketch).external@,
        same_but_geometry(*final(sketch), *old(sketch)),
{
    let shapes = shapes_of(sketch, group);
    let single = shapes.len() == 1;
    match projected {
        Projection::Point(q) => {
            if single {
                if let Shape::Point(pt) = shapes[0] {
                    place(sketch, pt.id, *q);
                    return true;
                }
            }
            false
        },
        Projection::Line { start, end } => {
            if single {
                if let Shape::Line(l) = shapes[0] {
                    place(sketch, l.start, *start);
                    place(sketch, l.end, *end);
                    return true;
                }
            }
            false
        },
        Projection::Circle { centre, radius } => {
            if single {
                if let Shape::Circle(c) = shapes[0] {
                    place(sketch, c.center, *centre);
                    set_circle_radius(sketch, c.id, *radius);
                    return true;
                }
            }
            false
        },
        Projection::Arc { centre, radius, start, end } => {
            if single {
                if let Shape::Arc(a) = shapes[0] {
                    place(sketch, a.center, *centre);
                    place(sketch, a.start, *start);
                    place(sketch, a.end, *end);
                    set_arc_radius(sketch, a.id, *radius);
                    return true;
                }
            }
            false
        },
        Projection::Ellipse { centre, major, ratio } => {
            if single {
                if let Shape::Ellipse(e) = shapes[0] {
                    if e.arc.is_none() {
                        place(sketch, e.center, *centre);
                        set_ellipse_axes(sketch, e.id, *major, *ratio);
                        return true;
                    }
                }
            }
            false
        },
        Projection::EllipseArc { centre, major, ratio, start, end } => {
            if single {
                if let Shape::Ellipse(e) = shapes[0] {
                    if let Some(ends) = e.arc {
                        place(sketch, e.center, *centre);
                        place(sketch, ends.start, *start);
                        place(sketch, ends.end, *end);
                        set_ellipse_axes(sketch, e.id, *major, *ratio);
                        return true;
                    }
                }
            }
            false
        },
        Projection::Polyline(points) => {
            if points.len() == 0 || shapes.len() != points.len() - 1 {
                return false;
            }
            let mut i: usize = 0;
            while i < shapes.len()
                invariant
                    i <= shapes@.len(),
                    shapes@.len() + 1 == points@.len(),
                    *projected == Projection::Polyline(*points),
                    shapes@ == found_shapes(old(sketch).geometry@, group@),
                    *sketch == *old(sketch),
                    forall|j: int| 0 <= j < i ==> (#[trigger] shapes@[j]) is Line,
                decreases shapes@.len() - i,
            {
                let is_line = match shapes[i] {
                    Shape::Line(_) => true,
                    _ => false,
                };
                if !is_line {
                    assert(!all_lines(shapes@));
                    return false;
                }
                i = i + 1;
            }
            let ghost g0 = sketch.geometry@;
            let ghost s0 = *sketch;
            let mut k: usize = 0;
            while k < shapes.len()
                invariant
                    k <= shapes@.len(),
                    shapes@.len() + 1 == points@.len(),
                    all_lines(shapes@),
                    sketch.geometry@ == placed_chain(g0, shapes@, points@, k as int),
                    sketch.external@ == s0.external@,
                    same_but_geometry(*sketch, s0),
                decreases shapes@.len() - k,
            {
                assert(shapes@[k as int] is Line);
                if let Shape::Line(l) = shapes[k] {
                    place(sketch, l.start, points[k]);
                    place(sketch, l.end, points[k + 1]);
                }
                k = k + 1;
            }
            true
        },
    }
}

/// `b` is `a` with one edge's elements (`group`, from `source`) brought up
/// to `p`: moved in place where they are the same kind of shape
/// (`updated`); else removed with cascade, their constraints going with
/// them, and the edge added afresh.
pub open spec fn refreshed(a: Sketch, b: Sketch, source: ExternalSource, group: Seq<u128>, p: Projection) -> bool {
    &&& match updated(a.geometry@, found_shapes(a.geometry@, group), p) {
        Some(g) => {
            &&& b.geometry@ == g
            &&& b.external@ == a.external@
            &&& same_but_geometry(b, a)
        },
        None => {
            let doomed = cascade_doomed(a.geometry@, group);
            let kept = a.geometry@.filter(survives(doomed));
            let tail = b.geometry@.skip(kept.len() as int);
            &&& b.geometry@.len() >= kept.len()
            &&& b.geometry@.take(kept.len() as int) == kept
            &&& made_as(p, tail)
            &&& b.constraints@ == a.constraints@.filter(constraint_survives(doomed))
            &&& b.construction@ == a.construction@ - doomed
            &&& b.external@ == a.external@.remove_keys(doomed).union_prefer_right(
                sourced(made_ids(p, tail), source),
            )
        },
    }
    &&& b.id == a.id
    &&& b.name@ == a.name@
    &&& b.plane == a.plane
    &&& b.is_fully_constrained == a.is_fully_constrained
}

/// Bring one edge's elements up to `projected` (`refreshed`).
pub fn refresh_group(sketch: &mut Sketch, source: ExternalSource, group: &[u128], projected: &Projection)
    ensures
        refreshed(*old(sketch), *final(sketch), source, group@, *projected),
{
    if !update(sketch, group, projected) {
        sketch.remove_geometry_cascade(group);
        self::add(sketch, projected, source);
    }
}

/// Byte `i` (from the least significant) of `x`.
pub open spec fn byte_of_u128(x: u128, i: u32) -> u8 {
    ((x >> (8 * i)) & 0xff) as u8
}

/// Byte `i` (from the least significant) of `x`.
pub open spec fn byte_of_u32(x: u32, i: u32) -> u8 {
    ((x >> (8 * i)) & 0xff) as u8
}

/// The little-endian bytes of `x`.
pub open spec fn le_bytes_u128(x: u128) -> Seq<u8> {
    Seq::new(16, |i: int| byte_of_u128(x, i as u32))
}

/// The little-endian bytes of `x`.
pub open spec fn le_bytes_u32(x: u32) -> Seq<u8> {
    Seq::new(4, |i: int| byte_of_u32(x, i as u32))
}

/// The key the groups of a sketch are ordered by: the source's body id,
/// then the bit patterns of its point and its direction, each in
/// little-endian bytes.
pub open spec fn source_key(s: ExternalSource) -> Seq<u8> {
    le_bytes_u128(s.body) + le_bytes_u32(s.point[0]) + le_bytes_u32(s.point[1]) + le_bytes_u32(s.point[2])
        + le_bytes_u32(s.direction[0]) + le_bytes_u32(s.direction[1]) + le_bytes_u32(s.direction[2])
}

/// Whether `a` comes before `b`, byte by byte.
pub open spec fn lex_less(a: Seq<u8>, b: Seq<u8>) -> bool
    decreases a.len(),
{
    if a.len() == 0 || b.len() == 0 {
        false
    } else if a[0] < b[0] {
        true
    } else if a[0] > b[0] {
        false
    } else {
        lex_less(a.drop_first(), b.drop_first())
    }
}

/// Of two keys of one length, exactly one comes first or they are the
/// same.
proof fn lemma_lex_trichotomy(a: Seq<u8>, b: Seq<u8>)
    requires
        a.len() == b.len(),
    ensures
        lex_less(a, b) || a == b || lex_less(b, a),
        !(lex_less(a, b) && lex_less(b, a)),
        !(lex_less(a, b) && a == b),
    decreases a.len(),
{
    if a.len() > 0 {
        lemma_lex_trichotomy(a.drop_first(), b.drop_first());
        if a[0] == b[0] && a.drop_first() == b.drop_first() {
            assert(a =~= seq![a[0]] + a.drop_first());
            assert(b =~= seq![b[0]] + b.drop_first());
        }
    } else {
        assert(a =~= b);
    }
}

/// Coming first is transitive.
proof fn lemma_lex_transitive(a: Seq<u8>, b: Seq<u8>, c: Seq<u8>)
    requires
        a.len() == b.len(),
        b.len() == c.len(),
        lex_less(a, b),
        lex_less(b, c),
    ensures
        lex_less(a, c),
    decreases a.len(),
{
    if a[0] == b[0] && b[0] == c[0] {
        lemma_lex_transitive(a.drop_first(), b.drop_first(), c.drop_first());
    }
}

/// The external elements of the sketch among its first `n` elements, in
/// sketch order, each with its source.
pub open spec fn external_items(sketch: Sketch, n: int) -> Seq<(u128, ExternalSource)>
    decreases n,
{
    if n <= 0 {
        Seq::empty()
    } else {
        let before = external_items(sketch, n - 1);
        let id = sketch.geometry@[n - 1].spec_id();
        if sketch.external@.contains_key(id) {
            before.push((id, sketch.external@[id]))
        } else {
            before
        }
    }
}

/// The ids of the items whose source has key `key`, in order.
pub open spec fn ids_with_key(items: Seq<(u128, ExternalSource)>, key: Seq<u8>) -> Seq<u128>
    decreases items.len(),
{
    if items.len() == 0 {
        Seq::empty()
    } else {
        let before = ids_with_key(items.drop_last(), key);
        if source_key(items.last().1) == key {
            before.push(items.last().0)
        } else {
            before
        }
    }
}

/// The source of the first item whose source has key `key`.
pub open spec fn first_with_key(items: Seq<(u128, ExternalSource)>, key: Seq<u8>) -> Option<ExternalSource>
    decreases items.len(),
{
    if items.len() == 0 {
        None
    } else {
        match first_with_key(items.drop_last(), key) {
            Some(s) => Some(s),
            None => if source_key(items.last().1) == key {
                Some(items.last().1)
            } else {
                None
            },
        }
    }
}

/// `groups` gathers `items` by source: one group per source key, in key
/// order, each under the first source with that key and listing, in
/// order, the ids of every item with it.
pub open spec fn grouped(items: Seq<(u128, ExternalSource)>, groups: Seq<(ExternalSource, Seq<u128>)>) -> bool {
    &&& forall|i: int, j: int|
        0 <= i < j < groups.len() ==> lex_less(source_key(#[trigger] groups[i].0), source_key(#[trigger] groups[j].0))
    &&& forall|i: int| 0 <= i < groups.len() ==> first_with_key(items, source_key(#[trigger] groups[i].0)) == Some(groups[i].0)
    &&& forall|i: int| 0 <= i < groups.len() ==> (#[trigger] groups[i]).1 == ids_with_key(items, source_key(groups[i].0))
    &&& forall|k: int|
        #![trigger items[k]]
        0 <= k < items.len() ==> exists|i: int| 0 <= i < groups.len() && source_key(#[trigger] groups[i].0) == source_key(items[k].1)
}

/// The ids of a run of groups.
pub open spec fn group_views(groups: Seq<(ExternalSource, Vec<u128>)>) -> Seq<(ExternalSource, Seq<u128>)> {
    groups.map_values(|g: (ExternalSource, Vec<u128>)| (g.0, g.1@))
}

proof fn lemma_no_key_no_items(items: Seq<(u128, ExternalSource)>, key: Seq<u8>)
    requires
        forall|k: int| 0 <= k < items.len() ==> source_key(#[trigger] items[k].1) != key,
    ensures
        first_with_key(items, key) is None,
        ids_with_key(items, key) == Seq::<u128>::empty(),
    decreases items.len(),
{
    if items.len() > 0 {
        assert forall|k: int| 0 <= k < items.drop_last().len() implies source_key(#[trigger] items.drop_last()[k].1) != key by {
            assert(items.drop_last()[k] == items[k]);
        }
        lemma_no_key_no_items(items.drop_last(), key);
        assert(source_key(items[items.len() - 1].1) != key);
    }
}

fn byte128(x: u128, i: u32) -> (b: u8)
    requires
        i < 16,
    ensures
        b == byte_of_u128(x, i),
{
    ((x >> (8 * i)) & 0xff) as u8
}

fn byte32(x: u32, i: u32) -> (b: u8)
    requires
        i < 4,
    ensures
        b == byte_of_u32(x, i),
{
    ((x >> (8 * i)) & 0xff) as u8
}

fn push_le_u32(k: &mut Vec<u8>, x: u32)
    ensures
        final(k)@ == old(k)@ + le_bytes_u32(x),
{
    let mut i: u32 = 0;
    while i < 4
        invariant
            i <= 4,
            k@ == old(k)@ + le_bytes_u32(x).take(i as int),
        decreases 4 - i,
    {
        k.push(byte32(x, i));
        i = i + 1;
        assert(k@ =~= old(k)@ + le_bytes_u32(x).take(i as int));
    }
    assert(le_bytes_u32(x).take(4) =~= le_bytes_u32(x));
}

/// The key of a source.
fn key_of(s: &ExternalSource) -> (k: Vec<u8>)
    ensures
        k@ == source_key(*s),
{
    let mut k: Vec<u8> = Vec::new();
    let mut i: u32 = 0;
    while i < 16
        invariant
            i <= 16,
            k@ == le_bytes_u128(s.body).take(i as int),
        decreases 16 - i,
    {
        k.push(byte128(s.body, i));
        i = i + 1;
        assert(k@ =~= le_bytes_u128(s.body).take(i as int));
    }
    assert(le_bytes_u128(s.body).take(16) =~= le_bytes_u128(s.body));
    push_le_u32(&mut k, s.point[0]);
    push_le_u32(&mut k, s.point[1]);
    push_le_u32(&mut k, s.point[2]);
    push_le_u32(&mut k, s.direction[0]);
    push_le_u32(&mut k, s.direction[1]);
    push_le_u32(&mut k, s.direction[2]);
    k
}

/// Whether `a` comes before `b`, byte by byte.
fn key_before(a: &Vec<u8>, b: &Vec<u8>) -> (r: bool)
    ensures
        r == lex_less(a@, b@),
{
    let mut i: usize = 0;
    while i < a.len() && i < b.len()
        invariant
            i <= a@.len(),
            i <= b@.len(),
            lex_less(a@, b@) == lex_less(a@.skip(i as int), b@.skip(i as int)),
        decreases a@.len() - i,
    {
        assert(a@.skip(i as int)[0] == a@[i as int]);
        assert(b@.skip(i as int)[0] == b@[i as int]);
        if a[i] < b[i] {
            return true;
        }
        if a[i] > b[i] {
            return false;
        }
        assert(a@.skip(i as int).drop_first() =~= a@.skip(i + 1));
        assert(b@.skip(i as int).drop_first() =~= b@.skip(i + 1));
        i = i + 1;
    }
    false
}

/// Whether two keys are the same.
fn key_eq(a: &Vec<u8>, b: &Vec<u8>) -> (r: bool)
    ensures
        r == (a@ == b@),
{
    if a.len() != b.len() {
        return false;
    }
    let mut i: usize = 0;
    while i < a.len()
        invariant
            i <= a@.len(),
            a@.len() == b@.len(),
            forall|j: int| 0 <= j < i ==> a@[j] == b@[j],
        decreases a@.len() - i,
    {
        if a[i] != b[i] {
            return false;
        }
        i = i + 1;
    }
    assert(a@ =~= b@);
    true
}

/// Adding an item whose key has a group already: its id joins that group.
proof fn lemma_grouped_join(
    items: Seq<(u128, ExternalSource)>,
    before: Seq<(ExternalSource, Seq<u128>)>,
    found: int,
    id: u128,
    source: ExternalSource,
)
    requires
        grouped(items, before),
        0 <= found < before.len(),
        source_key(before[found].0) == source_key(source),
    ensures
        grouped(items.push((id, source)), before.update(found, (before[found].0, before[found].1.push(id)))),
{
    let k = source_key(source);
    let next = items.push((id, source));
    let after = before.update(found, (before[found].0, before[found].1.push(id)));
    assert(next.drop_last() =~= items);
    assert forall|j: int| 0 <= j < after.len() implies (#[trigger] after[j]).1 == ids_with_key(next, source_key(after[j].0)) by {
        if j != found {
            assert(source_key(before[j].0) != k) by {
                if source_key(before[j].0) == k {
                    if j < found {
                        assert(lex_less(source_key(before[j].0), source_key(before[found].0)));
                    } else {
                        assert(lex_less(source_key(before[found].0), source_key(before[j].0)));
                    }
                    lemma_lex_trichotomy(source_key(before[j].0), k);
                }
            }
        }
    }
    assert forall|j: int| 0 <= j < after.len() implies first_with_key(next, source_key(#[trigger] after[j].0)) == Some(after[j].0) by {}
    assert forall|m: int| #![trigger next[m]] 0 <= m < next.len() implies exists|j: int|
        0 <= j < after.len() && source_key(#[trigger] after[j].0) == source_key(next[m].1) by {
        if m < items.len() {
            assert(next[m] == items[m]);
            let j = choose|j: int| 0 <= j < before.len() && source_key(#[trigger] before[j].0) == source_key(items[m].1);
            assert(after[j].0 == before[j].0);
        } else {
            assert(after[found].0 == before[found].0);
        }
    }
    assert forall|a: int, b: int| 0 <= a < b < after.len() implies lex_less(source_key(#[trigger] after[a].0), source_key(#[trigger] after[b].0)) by {
        assert(after[a].0 == before[a].0);
        assert(after[b].0 == before[b].0);
    }
}

/// Adding an item whose key has no group: a group of its own, where its
/// key falls in the order.
#[verifier::spinoff_prover]
#[verifier::rlimit(40)]
proof fn lemma_grouped_insert(
    items: Seq<(u128, ExternalSource)>,
    before: Seq<(ExternalSource, Seq<u128>)>,
    p: int,
    id: u128,
    source: ExternalSource,
)
    requires
        grouped(items, before),
        0 <= p <= before.len(),
        forall|j: int| 0 <= j < before.len() ==> source_key(#[trigger] before[j].0) != source_key(source),
        forall|j: int| 0 <= j < p ==> !lex_less(source_key(source), source_key(#[trigger] before[j].0)),
        p < before.len() ==> lex_less(source_key(source), source_key(before[p].0)),
    ensures
        grouped(items.push((id, source)), before.insert(p, (source, seq![id]))),
{
    let k = source_key(source);
    let next = items.push((id, source));
    let after = before.insert(p, (source, seq![id]));
    assert forall|j: int| 0 <= j < items.len() implies source_key(#[trigger] items[j].1) != k by {
        let g = choose|g: int| 0 <= g < before.len() && source_key(#[trigger] before[g].0) == source_key(items[j].1);
    }
    lemma_no_key_no_items(items, k);
    assert(next.drop_last() =~= items);
    assert(after[p] == (source, seq![id]));
    assert forall|j: int| 0 <= j < before.len() implies (j < p ==> lex_less(source_key(#[trigger] before[j].0), k)) && (j >= p
        ==> lex_less(k, source_key(before[j].0))) by {
        lemma_lex_trichotomy(source_key(before[j].0), k);
        if j > p {
            lemma_lex_transitive(k, source_key(before[p].0), source_key(before[j].0));
        }
    }
    assert forall|a: int, b: int| 0 <= a < b < after.len() implies lex_less(source_key(#[trigger] after[a].0), source_key(#[trigger] after[b].0)) by {
        if a != p && b != p {
            let a0 = if a < p { a } else { a - 1 };
            let b0 = if b < p { b } else { b - 1 };
            assert(after[a] == before[a0]);
            assert(after[b] == before[b0]);
            assert(lex_less(source_key(before[a0].0), source_key(before[b0].0)));
        } else if a == p {
            assert(after[b] == before[b - 1]);
        } else {
            assert(after[a] == before[a]);
        }
    }
    assert forall|j: int| 0 <= j < after.len() implies (#[trigger] after[j]).1 == ids_with_key(next, source_key(after[j].0)) by {
        if j != p {
            let j0 = if j < p { j } else { j - 1 };
            assert(after[j] == before[j0]);
            assert(source_key(before[j0].0) != k);
        }
    }
    assert forall|j: int| 0 <= j < after.len() implies first_with_key(next, source_key(#[trigger] after[j].0)) == Some(after[j].0) by {
        if j != p {
            let j0 = if j < p { j } else { j - 1 };
            assert(after[j] == before[j0]);
            assert(source_key(before[j0].0) != k);
        }
    }
    assert forall|m: int| #![trigger next[m]] 0 <= m < next.len() implies exists|j: int|
        0 <= j < after.len() && source_key(#[trigger] after[j].0) == source_key(next[m].1) by {
        if m < items.len() {
            assert(next[m] == items[m]);
            let j = choose|j: int| 0 <= j < before.len() && source_key(#[trigger] before[j].0) == source_key(items[m].1);
            let j1 = if j < p { j } else { j + 1 };
            assert(after[j1] == before[j]);
        } else {
            assert(after[p].0 == source);
        }
    }
}

/// The keys kept beside the groups are theirs.
pub open spec fn keys_match(keys: Seq<Vec<u8>>, out: Seq<(ExternalSource, Vec<u128>)>) -> bool {
    &&& keys.len() == out.len()
    &&& forall|i: int| 0 <= i < keys.len() ==> (#[trigger] keys[i])@ == source_key(out[i].0)
}

/// File one external item into the groups.
fn file_item(
    out: &mut Vec<(ExternalSource, Vec<u128>)>,
    keys: &mut Vec<Vec<u8>>,
    id: u128,
    source: ExternalSource,
    Ghost(items): Ghost<Seq<(u128, ExternalSource)>>,
)
    requires
        keys_match(old(keys)@, old(out)@),
        grouped(items, group_views(old(out)@)),
    ensures
        keys_match(final(keys)@, final(out)@),
        grouped(items.push((id, source)), group_views(final(out)@)),
{
    let ghost before = group_views(out@);
    let key = key_of(&source);
    let ghost k = key@;
    let mut found: usize = out.len();
    let mut i: usize = 0;
    while i < out.len()
        invariant
            i <= out@.len(),
            found <= out@.len(),
            k == key@,
            before == group_views(out@),
            keys_match(keys@, out@),
            found == out@.len() ==> forall|j: int| 0 <= j < i ==> source_key(#[trigger] out@[j].0) != k,
            found < out@.len() ==> source_key(out@[found as int].0) == k,
        decreases out@.len() - i,
    {
        if found == out.len() && key_eq(&keys[i], &key) {
            found = i;
        }
        i = i + 1;
    }
    if found < out.len() {
        let ghost old_out = out@;
        out[found].1.push(id);
        proof {
            lemma_grouped_join(items, before, found as int, id, source);
            assert(group_views(out@) =~= before.update(found as int, (before[found as int].0, before[found as int].1.push(id))));
        }
    } else {
        let mut p: usize = 0;
        while p < out.len() && !key_before(&key, &keys[p])
            invariant
                p <= out@.len(),
                k == key@,
                before == group_views(out@),
                keys_match(keys@, out@),
                forall|j: int| 0 <= j < out@.len() ==> source_key(#[trigger] out@[j].0) != k,
                forall|j: int| 0 <= j < p ==> !lex_less(k, source_key(#[trigger] out@[j].0)),
            decreases out@.len() - p,
        {
            p = p + 1;
        }
        let ghost old_out = out@;
        let ghost old_keys = keys@;
        let mut ids: Vec<u128> = Vec::new();
        ids.push(id);
        out.insert(p, (source, ids));
        keys.insert(p, key);
        proof {
            assert forall|j: int| 0 <= j < before.len() implies source_key(#[trigger] before[j].0) != k by {
                assert(before[j].0 == old_out[j].0);
            }
            assert forall|j: int| 0 <= j < p implies !lex_less(k, source_key(#[trigger] before[j].0)) by {
                assert(before[j].0 == old_out[j].0);
            }
            if p < before.len() {
                assert(before[p as int].0 == old_out[p as int].0);
            }
            lemma_grouped_insert(items, before, p as int, id, source);
            assert(ids@ =~= seq![id]);
            assert(group_views(out@) =~= before.insert(p as int, (source, seq![id])));
            assert forall|j: int| 0 <= j < keys@.len() implies (#[trigger] keys@[j])@ == source_key(out@[j].0) by {
                if j < p {
                    assert(keys@[j] == old_keys[j]);
                } else if j > p {
                    assert(keys@[j] == old_keys[j - 1]);
                }
            }
        }
    }
}

/// The external elements gathered by the edge they came from: one group
/// per source, ordered by the source's key (`source_key`), each under the
/// first source with that key and listing its elements in sketch order.
pub fn groups(sketch: &Sketch) -> (r: Vec<(ExternalSource, Vec<u128>)>)
    ensures
        grouped(external_items(*sketch, sketch.geometry@.len() as int), group_views(r@)),
{
    let ghost geometry = sketch.geometry@;
    let mut out: Vec<(ExternalSource, Vec<u128>)> = Vec::new();
    let mut keys: Vec<Vec<u8>> = Vec::new();
    assert(group_views(out@) =~= Seq::<(ExternalSource, Seq<u128>)>::empty());
    let mut n: usize = 0;
    while n < sketch.geometry.len()
        invariant
            n <= geometry.len(),
            geometry == sketch.geometry@,
            keys_match(keys@, out@),
            grouped(external_items(*sketch, n as int), group_views(out@)),
        decreases geometry.len() - n,
    {
        let id = sketch.geometry[n].id();
        match sketch.external.get(&id) {
            None => {},
            Some(source) => {
                file_item(&mut out, &mut keys, id, *source, Ghost(external_items(*sketch, n as int)));
            },
        }
        n = n + 1;
    }
    out
}

/// Replacing the element `lookup` finds by one under the same id changes
/// what `lookup` finds for that id only.
proof fn lemma_update_lookup(g: Seq<GeometryElement>, id: u128, e: GeometryElement, other: u128)
    requires
        lookup(g, id) is Some,
        e.spec_id() == id,
    ensures
        lookup(g.update(first_index(g, id), e), other) == if other == id {
            Some(e)
        } else {
            lookup(g, other)
        },
{
    lemma_first_index_found(g, id);
    let k = first_index(g, id);
    let h = g.update(k, e);
    assert forall|i: int| 0 <= i < g.len() implies (#[trigger] h[i]).spec_id() == g[i].spec_id() by {}
    if has_id(g, other) {
        lemma_first_with_id_exists(g, other);
        let j = choose|j: int| is_first_with_id(g, other, j);
        assert(is_first_with_id(h, other, j));
        lemma_lookup_at(h, other, j);
        lemma_lookup_at(g, other, j);
        if other == id {
            assert(j == k) by {
                if j < k {
                    assert(g[j].spec_id() == id);
                }
                if k < j {
                    assert(g[k].spec_id() == other);
                }
            }
        }
    } else {
        assert(!has_id(h, other)) by {
            if has_id(h, other) {
                let i = choose|i: int| 0 <= i < h.len() && (#[trigger] h[i]).spec_id() == other;
                assert(g[i].spec_id() == other);
            }
        }
    }
}

/// What `lookup` finds after a point is moved.
proof fn lemma_placed_lookup(g: Seq<GeometryElement>, id: u128, p: Vec2D, other: u128)
    ensures
        lookup(placed(g, id, p), other) == if other == id && lookup(g, id) matches Some(GeometryElement::Point(_)) {
            Some(GeometryElement::Point(Point { id, position: p }))
        } else {
            lookup(g, other)
        },
{
    if let Some(GeometryElement::Point(q)) = lookup(g, id) {
        lemma_first_index_found(g, id);
        lemma_update_lookup(g, id, GeometryElement::Point(Point { id: q.id, position: p }), other);
    }
}

/// What `lookup` finds after a circle's or an arc's radius is set.
proof fn lemma_radius_lookup(g: Seq<GeometryElement>, id: u128, r: u32, other: u128)
    ensures
        lookup(with_circle_radius(g, id, r), other) == match lookup(g, id) {
            Some(GeometryElement::Circle(c)) if other == id => Some(
                GeometryElement::Circle(Circle { id, center: c.center, radius: r }),
            ),
            _ => lookup(g, other),
        },
        lookup(with_arc_radius(g, id, r), other) == match lookup(g, id) {
            Some(GeometryElement::Arc(a)) if other == id => Some(
                GeometryElement::Arc(Arc { id, center: a.center, start: a.start, end: a.end, radius: r }),
            ),
            _ => lookup(g, other),
        },
{
    match lookup(g, id) {
        Some(GeometryElement::Circle(c)) => {
            lemma_first_index_found(g, id);
            lemma_update_lookup(g, id, GeometryElement::Circle(Circle { id: c.id, center: c.center, radius: r }), other);
        },
        Some(GeometryElement::Arc(a)) => {
            lemma_first_index_found(g, id);
            lemma_update_lookup(
                g,
                id,
                GeometryElement::Arc(Arc { id: a.id, center: a.center, start: a.start, end: a.end, radius: r }),
                other,
            );
        },
        _ => {},
    }
}

/// What `lookup` finds after an ellipse's axes are set.
proof fn lemma_axes_lookup(g: Seq<GeometryElement>, id: u128, major: Vec2D, ratio: u32, other: u128)
    ensures
        lookup(with_ellipse_axes(g, id, major, ratio), other) == match lookup(g, id) {
            Some(GeometryElement::Ellipse(e)) if other == id => Some(
                GeometryElement::Ellipse(Ellipse { id, center: e.center, major, ratio, arc: e.arc }),
            ),
            _ => lookup(g, other),
        },
{
    if let Some(GeometryElement::Ellipse(e)) = lookup(g, id) {
        lemma_first_index_found(g, id);
        lemma_update_lookup(
            g,
            id,
            GeometryElement::Ellipse(Ellipse { id: e.id, center: e.center, major, ratio, arc: e.arc }),
            other,
        );
    }
}

/// Each shape found for a group is the shape of an element `lookup` finds
/// under its own id.
proof fn lemma_found_is_looked_up(g: Seq<GeometryElement>, group: Seq<u128>, i: int)
    requires
        0 <= i < found_shapes(g, group).len(),
    ensures
        exists|e: GeometryElement|
            lookup(g, e.spec_id()) == Some(e) && #[trigger] spec_shape(e) == found_shapes(g, group)[i],
    decreases group.len(),
{
    let before = found_shapes(g, group.drop_last());
    if i < before.len() {
        lemma_found_is_looked_up(g, group.drop_last(), i);
        let e = choose|e: GeometryElement|
            lookup(g, e.spec_id()) == Some(e) && #[trigger] spec_shape(e) == before[i];
        assert(spec_shape(e) == found_shapes(g, group)[i]);
    } else {
        let x = group.last();
        lemma_first_index_found(g, x);
        let e = lookup(g, x)->0;
        assert(e.spec_id() == x);
        assert(spec_shape(e) == found_shapes(g, group)[i]);
    }
}

/// The one element found for a group, where it is a circle, is that circle.
proof fn lemma_single_found(g: Seq<GeometryElement>, group: Seq<u128>, e: GeometryElement)
    requires
        found_shapes(g, group) == seq![spec_shape(e)],
        !(e is BSpline),
    ensures
        lookup(g, e.spec_id()) == Some(e),
{
    lemma_found_is_looked_up(g, group, 0);
    let f = choose|f: GeometryElement| lookup(g, f.spec_id()) == Some(f) && #[trigger] spec_shape(f) == found_shapes(g, group)[0];
    assert(spec_shape(f) == spec_shape(e));
    assert(f == e);
}

/// Law: a circle refreshed in place to a projected circle has the projected
/// radius, about its centre point moved to the projected centre.
pub proof fn law_refreshed_circle_matches_its_projection(
    g: Seq<GeometryElement>,
    group: Seq<u128>,
    c: Circle,
    centre: Vec2D,
    radius: u32,
)
    requires
        found_shapes(g, group) == seq![Shape::Circle(c)],
    ensures
        updated(g, found_shapes(g, group), Projection::Circle { centre, radius }) matches Some(h) && lookup(h, c.id)
            == Some(GeometryElement::Circle(Circle { id: c.id, center: c.center, radius })) && (lookup(
            g,
            c.center,
        ) matches Some(GeometryElement::Point(_)) ==> lookup(h, c.center) == Some(
            GeometryElement::Point(Point { id: c.center, position: centre }),
        )),
{
    lemma_single_found(g, group, GeometryElement::Circle(c));
    let a = placed(g, c.center, centre);
    lemma_placed_lookup(g, c.center, centre, c.id);
    lemma_placed_lookup(g, c.center, centre, c.center);
    lemma_radius_lookup(a, c.id, radius, c.id);
    lemma_radius_lookup(a, c.id, radius, c.center);
}

/// Law: a point refreshed in place to a projected point is at the projected
/// position.
pub proof fn law_refreshed_point_matches_its_projection(g: Seq<GeometryElement>, group: Seq<u128>, pt: Point, q: Vec2D)
    requires
        found_shapes(g, group) == seq![Shape::Point(pt)],
    ensures
        updated(g, found_shapes(g, group), Projection::Point(q)) matches Some(h) && lookup(h, pt.id) == Some(
            GeometryElement::Point(Point { id: pt.id, position: q }),
        ),
{
    lemma_single_found(g, group, GeometryElement::Point(pt));
    lemma_placed_lookup(g, pt.id, q, pt.id);
}

/// Law: a line refreshed in place to a projected line keeps its ends, and
/// they are moved to the projected start and end.
pub proof fn law_refreshed_line_matches_its_projection(
    g: Seq<GeometryElement>,
    group: Seq<u128>,
    l: Line,
    start: Vec2D,
    end: Vec2D,
)
    requires
        found_shapes(g, group) == seq![Shape::Line(l)],
    ensures
        updated(g, found_shapes(g, group), Projection::Line { start, end }) matches Some(h) && lookup(h, l.id) == Some(
            GeometryElement::Line(l),
        ) && (lookup(g, l.end) matches Some(GeometryElement::Point(_)) ==> lookup(h, l.end) == Some(
            GeometryElement::Point(Point { id: l.end, position: end }),
        )) && (l.start != l.end && (lookup(g, l.start) matches Some(GeometryElement::Point(_))) ==> lookup(h, l.start)
            == Some(GeometryElement::Point(Point { id: l.start, position: start }))),
{
    lemma_single_found(g, group, GeometryElement::Line(l));
    let a = placed(g, l.start, start);
    lemma_placed_lookup(g, l.start, start, l.id);
    lemma_placed_lookup(g, l.start, start, l.start);
    lemma_placed_lookup(g, l.start, start, l.end);
    lemma_placed_lookup(a, l.end, end, l.id);
    lemma_placed_lookup(a, l.end, end, l.start);
    lemma_placed_lookup(a, l.end, end, l.end);
}

/// Law: an arc refreshed in place to a projected arc has the projected
/// radius, and its centre, start and end points are moved to the projected
/// centre, start and end (where two of them are one point, the later one
/// in that order wins).
pub proof fn law_refreshed_arc_matches_its_projection(
    g: Seq<GeometryElement>,
    group: Seq<u128>,
    arc: Arc,
    centre: Vec2D,
    radius: u32,
    start: Vec2D,
    end: Vec2D,
)
    requires
        found_shapes(g, group) == seq![Shape::Arc(arc)],
    ensures
        updated(g, found_shapes(g, group), Projection::Arc { centre, radius, start, end }) matches Some(h) && lookup(
            h,
            arc.id,
        ) == Some(
            GeometryElement::Arc(Arc { id: arc.id, center: arc.center, start: arc.start, end: arc.end, radius }),
        ) && (lookup(g, arc.end) matches Some(GeometryElement::Point(_)) ==> lookup(h, arc.end) == Some(
            GeometryElement::Point(Point { id: arc.end, position: end }),
        )) && (arc.start != arc.end && (lookup(g, arc.start) matches Some(GeometryElement::Point(_))) ==> lookup(
            h,
            arc.start,
        ) == Some(GeometryElement::Point(Point { id: arc.start, position: start }))) && (arc.center != arc.start
            && arc.center != arc.end && (lookup(g, arc.center) matches Some(GeometryElement::Point(_))) ==> lookup(
            h,
            arc.center,
        ) == Some(GeometryElement::Point(Point { id: arc.center, position: centre }))),
{
    lemma_single_found(g, group, GeometryElement::Arc(arc));
    let a = placed(g, arc.center, centre);
    let b = placed(a, arc.start, start);
    let c = placed(b, arc.end, end);
    lemma_placed_lookup(g, arc.center, centre, arc.id);
    lemma_placed_lookup(a, arc.start, start, arc.id);
    lemma_placed_lookup(b, arc.end, end, arc.id);
    lemma_radius_lookup(c, arc.id, radius, arc.id);
    lemma_placed_lookup(g, arc.center, centre, arc.center);
    lemma_placed_lookup(a, arc.start, start, arc.center);
    lemma_placed_lookup(b, arc.end, end, arc.center);
    lemma_radius_lookup(c, arc.id, radius, arc.center);
    lemma_placed_lookup(g, arc.center, centre, arc.start);
    lemma_placed_lookup(a, arc.start, start, arc.start);
    lemma_placed_lookup(b, arc.end, end, arc.start);
    lemma_radius_lookup(c, arc.id, radius, arc.start);
    lemma_placed_lookup(g, arc.center, centre, arc.end);
    lemma_placed_lookup(a, arc.start, start, arc.end);
    lemma_placed_lookup(b, arc.end, end, arc.end);
    lemma_radius_lookup(c, arc.id, radius, arc.end);
}

/// Law: an ellipse refreshed in place to a projected whole ellipse has the
/// projected axes, about its centre point moved to the projected centre.
pub proof fn law_refreshed_ellipse_matches_its_projection(
    g: Seq<GeometryElement>,
    group: Seq<u128>,
    e: Ellipse,
    centre: Vec2D,
    major: Vec2D,
    ratio: u32,
)
    requires
        found_shapes(g, group) == seq![Shape::Ellipse(e)],
        e.arc is None,
    ensures
        updated(g, found_shapes(g, group), Projection::Ellipse { centre, major, ratio }) matches Some(h) && lookup(
            h,
            e.id,
        ) == Some(GeometryElement::Ellipse(Ellipse { id: e.id, center: e.center, major, ratio, arc: None })) && (
        lookup(g, e.center) matches Some(GeometryElement::Point(_)) ==> lookup(h, e.center) == Some(
            GeometryElement::Point(Point { id: e.center, position: centre }),
        )),
{
    lemma_single_found(g, group, GeometryElement::Ellipse(e));
    let a = placed(g, e.center, centre);
    lemma_placed_lookup(g, e.center, centre, e.id);
    lemma_placed_lookup(g, e.center, centre, e.center);
    lemma_axes_lookup(a, e.id, major, ratio, e.id);
    lemma_axes_lookup(a, e.id, major, ratio, e.center);
}

/// Law: an ellipse arc refreshed in place to a projected ellipse arc has
/// the projected axes, and its centre, start and end points are moved to
/// the projected centre, start and end (where two of them are one point,
/// the later one in that order wins).
pub proof fn law_refreshed_ellipse_arc_matches_its_projection(
    g: Seq<GeometryElement>,
    group: Seq<u128>,
    e: Ellipse,
    centre: Vec2D,
    major: Vec2D,
    ratio: u32,
    start: Vec2D,
    end: Vec2D,
)
    requires
        found_shapes(g, group) == seq![Shape::Ellipse(e)],
        e.arc is Some,
    ensures
        updated(g, found_shapes(g, group), Projection::EllipseArc { centre, major, ratio, start, end }) matches Some(
            h,
        ) && lookup(h, e.id) == Some(
            GeometryElement::Ellipse(Ellipse { id: e.id, center: e.center, major, ratio, arc: e.arc }),
        ) && ((lookup(g, e.arc->0.end) matches Some(GeometryElement::Point(_))) ==> lookup(h, e.arc->0.end) == Some(
            GeometryElement::Point(Point { id: e.arc->0.end, position: end }),
        )) && (e.arc->0.start != e.arc->0.end && (lookup(g, e.arc->0.start) matches Some(
            GeometryElement::Point(_),
        )) ==> lookup(h, e.arc->0.start) == Some(
            GeometryElement::Point(Point { id: e.arc->0.start, position: start }),
        )) && (e.center != e.arc->0.start && e.center != e.arc->0.end && (lookup(g, e.center) matches Some(
            GeometryElement::Point(_),
        )) ==> lookup(h, e.center) == Some(GeometryElement::Point(Point { id: e.center, position: centre }))),
{
    lemma_single_found(g, group, GeometryElement::Ellipse(e));
    let ends = e.arc->0;
    let a = placed(g, e.center, centre);
    let b = placed(a, ends.start, start);
    let c = placed(b, ends.end, end);
    lemma_placed_lookup(g, e.center, centre, e.id);
    lemma_placed_lookup(a, ends.start, start, e.id);
    lemma_placed_lookup(b, ends.end, end, e.id);
    lemma_axes_lookup(c, e.id, major, ratio, e.id);
    lemma_placed_lookup(g, e.center, centre, e.center);
    lemma_placed_lookup(a, ends.start, start, e.center);
    lemma_placed_lookup(b, ends.end, end, e.center);
    lemma_axes_lookup(c, e.id, major, ratio, e.center);
    lemma_placed_lookup(g, e.center, centre, ends.start);
    lemma_placed_lookup(a, ends.start, start, ends.start);
    lemma_placed_lookup(b, ends.end, end, ends.start);
    lemma_axes_lookup(c, e.id, major, ratio, ends.start);
    lemma_placed_lookup(g, e.center, centre, ends.end);
    lemma_placed_lookup(a, ends.start, start, ends.end);
    lemma_placed_lookup(b, ends.end, end, ends.end);
    lemma_axes_lookup(c, e.id, major, ratio, ends.end);
}

} // verus!
