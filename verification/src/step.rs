//! One step of a sketch tool, and one drag: the parts of a click and of a
//! drag that the viewport and the `sketch.draw` / `sketch.drag` commands
//! share, so a click and a script do the same thing.

use std::collections::HashSet;
use vstd::prelude::*;
use vstd::std_specs::hash::*;

use crate::ovp::FieldKind;
use crate::sketch::{curve_points, lookup, spec_external_ids, Constraint, ConstraintKind, GeometryElement, Sketch, Vec2D};
use crate::text::str_eq;

verus! {

broadcast use {vstd::std_specs::hash::group_hash_axioms, vstd::seq_lib::group_seq_properties};

pub open spec fn spec_field_name(kind: FieldKind) -> Seq<char> {
    match kind {
        FieldKind::Length => "length"@,
        FieldKind::Angle => "angle"@,
        FieldKind::Width => "width"@,
        FieldKind::Height => "height"@,
        FieldKind::Diameter => "diameter"@,
        FieldKind::Radius => "radius"@,
        FieldKind::MajorRadius => "major_radius"@,
        FieldKind::MinorRadius => "minor_radius"@,
    }
}

/// A typed field's name, as `sketch.draw` takes it.
pub fn field_name(kind: FieldKind) -> (s: &'static str)
    ensures
        s@ == spec_field_name(kind),
{
    match kind {
        FieldKind::Length => "length",
        FieldKind::Angle => "angle",
        FieldKind::Width => "width",
        FieldKind::Height => "height",
        FieldKind::Diameter => "diameter",
        FieldKind::Radius => "radius",
        FieldKind::MajorRadius => "major_radius",
        FieldKind::MinorRadius => "minor_radius",
    }
}

pub open spec fn spec_field_of(name: Seq<char>) -> Option<FieldKind> {
    if name == "length"@ {
        Some(FieldKind::Length)
    } else if name == "angle"@ {
        Some(FieldKind::Angle)
    } else if name == "width"@ {
        Some(FieldKind::Width)
    } else if name == "height"@ {
        Some(FieldKind::Height)
    } else if name == "diameter"@ {
        Some(FieldKind::Diameter)
    } else if name == "radius"@ {
        Some(FieldKind::Radius)
    } else if name == "major_radius"@ {
        Some(FieldKind::MajorRadius)
    } else if name == "minor_radius"@ {
        Some(FieldKind::MinorRadius)
    } else {
        None
    }
}

/// The field a name given to `sketch.draw` stands for.
pub fn field_of(name: &str) -> (r: Option<FieldKind>)
    ensures
        r == spec_field_of(name@),
{
    if str_eq(name, "length") {
        Some(FieldKind::Length)
    } else if str_eq(name, "angle") {
        Some(FieldKind::Angle)
    } else if str_eq(name, "width") {
        Some(FieldKind::Width)
    } else if str_eq(name, "height") {
        Some(FieldKind::Height)
    } else if str_eq(name, "diameter") {
        Some(FieldKind::Diameter)
    } else if str_eq(name, "radius") {
        Some(FieldKind::Radius)
    } else if str_eq(name, "major_radius") {
        Some(FieldKind::MajorRadius)
    } else if str_eq(name, "minor_radius") {
        Some(FieldKind::MinorRadius)
    } else {
        None
    }
}

/// Law: a field's name reads back as that field, and a name stands for a
/// field only when it is that field's name.
pub proof fn law_field_names_round_trip(kind: FieldKind, name: Seq<char>)
    ensures
        spec_field_of(spec_field_name(kind)) == Some(kind),
        spec_field_of(name) matches Some(k) ==> spec_field_name(k) == name,
{
    reveal_strlit("length");
    reveal_strlit("angle");
    reveal_strlit("width");
    reveal_strlit("height");
    reveal_strlit("diameter");
    reveal_strlit("radius");
    reveal_strlit("major_radius");
    reveal_strlit("minor_radius");
    assert("angle"@[0] != "length"@[0]);
    assert("width"@[0] != "length"@[0]);
    assert("width"@[0] != "angle"@[0]);
    assert("height"@[0] != "length"@[0]);
    assert("height"@[0] != "angle"@[0]);
    assert("height"@[0] != "width"@[0]);
    assert("diameter"@[0] != "length"@[0]);
    assert("diameter"@[0] != "angle"@[0]);
    assert("diameter"@[0] != "width"@[0]);
    assert("diameter"@[0] != "height"@[0]);
    assert("radius"@[0] != "length"@[0]);
    assert("radius"@[0] != "angle"@[0]);
    assert("radius"@[0] != "width"@[0]);
    assert("radius"@[0] != "height"@[0]);
    assert("radius"@[0] != "diameter"@[0]);
    assert("major_radius"@[0] != "length"@[0]);
    assert("major_radius"@[0] != "angle"@[0]);
    assert("major_radius"@[0] != "width"@[0]);
    assert("major_radius"@[0] != "height"@[0]);
    assert("major_radius"@[0] != "diameter"@[0]);
    assert("major_radius"@[0] != "radius"@[0]);
    assert("minor_radius"@[0] != "length"@[0]);
    assert("minor_radius"@[0] != "angle"@[0]);
    assert("minor_radius"@[0] != "width"@[0]);
    assert("minor_radius"@[0] != "height"@[0]);
    assert("minor_radius"@[0] != "diameter"@[0]);
    assert("minor_radius"@[0] != "radius"@[0]);
    assert("minor_radius"@[1] != "major_radius"@[1]);
}

/// The points a drag of element `id` moves: the point itself, or every
/// point the curve is pinned to.
pub open spec fn spec_drag_point_ids(geometry: Seq<GeometryElement>, id: u128) -> Seq<u128> {
    match lookup(geometry, id) {
        Some(GeometryElement::Point(p)) => seq![p.id],
        Some(other) => curve_points(other),
        None => Seq::empty(),
    }
}

/// The points a drag of element `id` moves: the point itself, or every
/// point the curve is pinned to. Moving them all translates the element,
/// and anything sharing those points comes with it.
pub fn drag_point_ids(sketch: &Sketch, id: u128) -> (v: Vec<u128>)
    ensures
        v@ == spec_drag_point_ids(sketch.geometry@, id),
{
    match sketch.get_geometry(id) {
        Some(GeometryElement::Point(p)) => {
            let v = vec![p.id];
            assert(v@ =~= seq![p.id]);
            v
        },
        Some(other) => Sketch::curve_point_ids(other),
        None => Vec::new(),
    }
}

/// Every point a drag of `elements` names, element after element.
pub open spec fn drag_candidates(geometry: Seq<GeometryElement>, elements: Seq<u128>) -> Seq<u128>
    decreases elements.len(),
{
    if elements.len() == 0 {
        Seq::empty()
    } else {
        drag_candidates(geometry, elements.drop_last()) + spec_drag_point_ids(geometry, elements.last())
    }
}

/// Whether `points` already holds `id`.
pub open spec fn holds_point(points: Seq<(u128, Vec2D)>, id: u128) -> bool {
    exists|i: int| 0 <= i < points.len() && (#[trigger] points[i]).0 == id
}

/// The points of `candidates` a drag carries, each once, with where they
/// are now: external geometry stays where its edge is, and an id with no
/// position is passed over.
pub open spec fn carried(sketch: Sketch, candidates: Seq<u128>) -> Seq<(u128, Vec2D)>
    decreases candidates.len(),
{
    if candidates.len() == 0 {
        Seq::empty()
    } else {
        let before = carried(sketch, candidates.drop_last());
        let pid = candidates.last();
        if spec_external_ids(sketch).contains(pid) || holds_point(before, pid) {
            before
        } else {
            match sketch.position_of(pid) {
                Some(pos) => before.push((pid, pos)),
                None => before,
            }
        }
    }
}

/// The points a drag of `elements` carries, where they are now: each
/// element's own points, once each, external geometry left where its edge
/// is.
pub fn drag_targets(sketch: &Sketch, elements: &[u128]) -> (points: Vec<(u128, Vec2D)>)
    ensures
        points@ == carried(*sketch, drag_candidates(sketch.geometry@, elements@)),
{
    let external = sketch.external_ids();
    let ghost geometry = sketch.geometry@;
    let mut points: Vec<(u128, Vec2D)> = Vec::new();
    let mut i: usize = 0;
    while i < elements.len()
        invariant
            i <= elements@.len(),
            geometry == sketch.geometry@,
            external@ == spec_external_ids(*sketch),
            points@ == carried(*sketch, drag_candidates(geometry, elements@.take(i as int))),
        decreases elements@.len() - i,
    {
        let ghost prefix = drag_candidates(geometry, elements@.take(i as int));
        let pids = drag_point_ids(sketch, elements[i]);
        carry(sketch, &external, &mut points, &pids, Ghost(prefix));
        proof {
            assert(elements@.take(i + 1).drop_last() =~= elements@.take(i as int));
            assert(elements@.take(i + 1).last() == elements@[i as int]);
            assert(drag_candidates(geometry, elements@.take(i + 1)) == prefix + pids@);
        }
        i = i + 1;
    }
    assert(elements@.take(elements@.len() as int) =~= elements@);
    points
}

/// Carry the points `pids` names on from `prefix`.
fn carry(
    sketch: &Sketch,
    external: &HashSet<u128>,
    points: &mut Vec<(u128, Vec2D)>,
    pids: &Vec<u128>,
    Ghost(prefix): Ghost<Seq<u128>>,
)
    requires
        external@ == spec_external_ids(*sketch),
        old(points)@ == carried(*sketch, prefix),
    ensures
        final(points)@ == carried(*sketch, prefix + pids@),
{
    let mut k: usize = 0;
    while k < pids.len()
        invariant
            k <= pids@.len(),
            external@ == spec_external_ids(*sketch),
            points@ == carried(*sketch, prefix + pids@.take(k as int)),
        decreases pids@.len() - k,
    {
        let pid = pids[k];
        proof {
            assert((prefix + pids@.take(k + 1)).drop_last() =~= prefix + pids@.take(k as int));
            assert((prefix + pids@.take(k + 1)).last() == pid);
        }
        let mut seen = false;
        let mut j: usize = 0;
        while j < points.len()
            invariant
                j <= points@.len(),
                seen == exists|m: int| 0 <= m < j && (#[trigger] points@[m]).0 == pid,
            decreases points@.len() - j,
        {
            if points[j].0 == pid {
                seen = true;
            }
            j = j + 1;
        }
        if !external.contains(&pid) && !seen {
            if let Some(pos) = sketch.point_position(pid) {
                points.push((pid, pos));
            }
        }
        k = k + 1;
    }
    assert(pids@.take(pids@.len() as int) =~= pids@);
}

/// Flag as construction every element made since `before` (the ids the
/// sketch had): construction mode makes everything a drawing tool drew a
/// guide.
pub fn flag_made_as_construction(sketch: &mut Sketch, before: &HashSet<u128>)
    ensures
        final(sketch).construction@ == old(sketch).construction@ + Set::new(
            |id: u128| exists|i: int| 0 <= i < old(sketch).geometry@.len() && (#[trigger] old(sketch).geometry@[i]).spec_id() == id && !before@.contains(id),
        ),
        final(sketch).geometry@ == old(sketch).geometry@,
        final(sketch).constraints@ == old(sketch).constraints@,
        final(sketch).external@ == old(sketch).external@,
        final(sketch).id == old(sketch).id,
        final(sketch).plane == old(sketch).plane,
{
    let ghost geometry = sketch.geometry@;
    let ghost start = sketch.construction@;
    let mut i: usize = 0;
    while i < sketch.geometry.len()
        invariant
            i <= geometry.len(),
            geometry == sketch.geometry@,
            sketch.construction@ == start + Set::new(
                |id: u128| exists|j: int| 0 <= j < i && (#[trigger] geometry[j]).spec_id() == id && !before@.contains(id),
            ),
            sketch.constraints@ == old(sketch).constraints@,
            sketch.external@ == old(sketch).external@,
            sketch.id == old(sketch).id,
            sketch.plane == old(sketch).plane,
        decreases geometry.len() - i,
    {
        let id = sketch.geometry[i].id();
        let ghost was = sketch.construction@;
        if !before.contains(&id) {
            sketch.set_construction(id, true);
        }
        i = i + 1;
        assert(sketch.construction@ =~= start + Set::new(
            |id: u128| exists|j: int| 0 <= j < i && (#[trigger] geometry[j]).spec_id() == id && !before@.contains(id),
        ));
    }
}

/// Keeps a constraint that was there before, or that is no horizontal or
/// vertical.
pub open spec fn not_new_axis_constraint(before: Set<u128>) -> spec_fn(Constraint) -> bool {
    |c: Constraint| before.contains(c.id) || !(c.kind is Horizontal || c.kind is Vertical)
}

/// Drop the horizontal and vertical constraints made since `before` (the
/// constraint ids the sketch had): a typed angle says what a segment's
/// slant is, and an automatic one from the same click would only repeat
/// it.
pub fn drop_new_axis_constraints(sketch: &mut Sketch, before: &HashSet<u128>)
    ensures
        final(sketch).constraints@ == old(sketch).constraints@.filter(not_new_axis_constraint(before@)),
        final(sketch).geometry@ == old(sketch).geometry@,
        final(sketch).construction@ == old(sketch).construction@,
        final(sketch).external@ == old(sketch).external@,
        final(sketch).id == old(sketch).id,
        final(sketch).plane == old(sketch).plane,
{
    let ghost cs = sketch.constraints@;
    let mut old_constraints: Vec<Constraint> = Vec::new();
    std::mem::swap(&mut old_constraints, &mut sketch.constraints);
    let mut kept: Vec<Constraint> = Vec::new();
    for c in it: old_constraints.into_iter()
        invariant
            it.seq() == cs,
            kept@ == cs.take(it.index() as int).filter(not_new_axis_constraint(before@)),
    {
        let ghost j = it.index() as int;
        proof {
            assert(cs.take(j + 1) =~= cs.take(j).push(cs[j]));
            cs.take(j).lemma_filter_push(cs[j], not_new_axis_constraint(before@));
        }
        let axis = match c.kind {
            ConstraintKind::Horizontal { .. } | ConstraintKind::Vertical { .. } => true,
            _ => false,
        };
        if before.contains(&c.id) || !axis {
            kept.push(c);
        }
    }
    assert(cs.take(cs.len() as int) =~= cs);
    sketch.constraints = kept;
}

} // verus!
