//! What the sketcher's commands do to a sketch, for scripts and other
//! callers that are not a click: delete, flag and set constraints, name
//! items by id, and report what a command made. Reading the arguments and
//! writing the answers is the caller's.

use std::collections::HashSet;
use vstd::prelude::*;
use vstd::std_specs::hash::*;

use crate::ident::{parse_id, parsed_id};
use crate::sketch::{
    cascade_doomed, constraint_survives, falls, is_angular, lemma_filter_none, is_reference_id, lookup, spec_is_angular,
    spec_stored_value, spec_with_stored_value, stored_value, survives, with_stored_value, Constraint,
    ConstraintKind, GeometryElement, Reference, Sketch, ORIGIN_ID, X_AXIS_ID, Y_AXIS_ID,
};
use crate::text::str_eq;

verus! {

broadcast use {vstd::std_specs::hash::group_hash_axioms, vstd::seq_lib::group_seq_properties};

/// Whether a constraint of `constraints` has id `id`.
pub open spec fn names_constraint(constraints: Seq<Constraint>, id: u128) -> bool {
    exists|i: int| 0 <= i < constraints.len() && (#[trigger] constraints[i]).id == id
}

fn has_constraint(sketch: &Sketch, id: u128) -> (b: bool)
    ensures
        b == names_constraint(sketch.constraints@, id),
{
    let mut i: usize = 0;
    while i < sketch.constraints.len()
        invariant
            i <= sketch.constraints@.len(),
            forall|j: int| 0 <= j < i ==> (#[trigger] sketch.constraints@[j]).id != id,
        decreases sketch.constraints@.len() - i,
    {
        if sketch.constraints[i].id == id {
            return true;
        }
        i = i + 1;
    }
    false
}

/// Keeps a constraint whose id is not listed.
pub open spec fn not_listed(items: Seq<u128>) -> spec_fn(Constraint) -> bool {
    |c: Constraint| !items.contains(c.id)
}

/// The elements a delete of `items` names: the items that are no
/// constraint of the sketch, without the origin and the axes.
pub open spec fn deleted_elements(constraints: Seq<Constraint>, items: Seq<u128>) -> Seq<u128> {
    items.filter(deletable(constraints))
}

/// Keeps an id that is no constraint's and no reference's.
pub open spec fn deletable(constraints: Seq<Constraint>) -> spec_fn(u128) -> bool {
    |id: u128| !names_constraint(constraints, id) && !is_reference_id(id)
}

/// Delete elements and constraints, and what hangs on them: the listed
/// constraints go; the listed elements go with cascade semantics (see
/// `remove_geometry_cascade`). The origin and the axes are not the
/// sketch's to delete. How many listed constraints and removed elements
/// went.
pub fn delete_items(sketch: &mut Sketch, items: &[u128]) -> (count: usize)
    requires
        old(sketch).constraints@.len() + old(sketch).geometry@.len() <= usize::MAX,
    ensures
        ({
            let kept = old(sketch).constraints@.filter(not_listed(items@));
            let doomed = cascade_doomed(
                old(sketch).geometry@,
                deleted_elements(old(sketch).constraints@, items@),
            );
            &&& final(sketch).constraints@ == kept.filter(constraint_survives(doomed))
            &&& final(sketch).geometry@ == old(sketch).geometry@.filter(survives(doomed))
            &&& final(sketch).construction@ == old(sketch).construction@ - doomed
            &&& final(sketch).external@ == old(sketch).external@.remove_keys(doomed)
            &&& count == old(sketch).constraints@.len() - kept.len() + old(sketch).geometry@.filter(
                falls(doomed),
            ).len()
        }),
        final(sketch).id == old(sketch).id,
        final(sketch).name@ == old(sketch).name@,
        final(sketch).is_fully_constrained == old(sketch).is_fully_constrained,
        final(sketch).plane == old(sketch).plane,
{
    let ghost items_s = items@;
    let ghost cs = old(sketch).constraints@;
    // The listed elements, in order, without the reference geometry.
    let mut elements: Vec<u128> = Vec::new();
    let mut i: usize = 0;
    while i < items.len()
        invariant
            i <= items@.len(),
            cs == sketch.constraints@,
            sketch == old(sketch),
            elements@ == deleted_elements(cs, items@.take(i as int)),
        decreases items@.len() - i,
    {
        let id = items[i];
        proof {
            assert(items@.take(i + 1) =~= items@.take(i as int).push(id));
            items@.take(i as int).lemma_filter_push(id, deletable(cs));
        }
        if !has_constraint(sketch, id) && Reference::of(id).is_none() {
            elements.push(id);
        }
        i = i + 1;
        assert(elements@ =~= deleted_elements(cs, items@.take(i as int)));
    }
    assert(items@.take(items@.len() as int) =~= items@);
    // The listed constraints.
    let before = sketch.constraints.len();
    let mut old_constraints: Vec<Constraint> = Vec::new();
    std::mem::swap(&mut old_constraints, &mut sketch.constraints);
    let mut kept: Vec<Constraint> = Vec::new();
    for c in it: old_constraints.into_iter()
        invariant
            it.seq() == cs,
            kept@ == cs.take(it.index() as int).filter(not_listed(items_s)),
            items@ == items_s,
    {
        let ghost j = it.index() as int;
        proof {
            assert(cs.take(j + 1) =~= cs.take(j).push(cs[j]));
            cs.take(j).lemma_filter_push(cs[j], not_listed(items_s));
        }
        if !crate::sketch::contains_id(items, c.id) {
            kept.push(c);
        }
    }
    assert(cs.take(cs.len() as int) =~= cs);
    sketch.constraints = kept;
    let after = sketch.constraints.len();
    let removed = sketch.remove_geometry_cascade(elements.as_slice());
    proof {
        lemma_filter_len_le(cs, not_listed(items_s));
        lemma_filter_len_le(old(sketch).geometry@, falls(cascade_doomed(old(sketch).geometry@, elements@)));
        assert(removed@.len() == old(sketch).geometry@.filter(
            falls(cascade_doomed(old(sketch).geometry@, elements@)),
        ).len());
    }
    (before - after) + removed.len()
}

proof fn lemma_filter_len_le<A>(s: Seq<A>, pred: spec_fn(A) -> bool)
    ensures
        s.filter(pred).len() <= s.len(),
    decreases s.len(),
{
    reveal(Seq::filter);
    if s.len() > 0 {
        lemma_filter_len_le(s.drop_last(), pred);
    }
}


/// The constraint with its flags set where given.
pub open spec fn flagged(c: Constraint, driving: Option<bool>, active: Option<bool>) -> Constraint {
    Constraint {
        driving: match driving {
            Some(d) => d,
            None => c.driving,
        },
        active: match active {
            Some(a) => a,
            None => c.active,
        },
        ..c
    }
}

/// Set the driving and active flags of the listed constraints, where
/// given; the rest stay as they are.
pub fn set_constraints(sketch: &mut Sketch, items: &[u128], driving: Option<bool>, active: Option<bool>)
    ensures
        final(sketch).constraints@.len() == old(sketch).constraints@.len(),
        forall|i: int|
            0 <= i < old(sketch).constraints@.len() ==> #[trigger] final(sketch).constraints@[i] == if items@.contains(
                old(sketch).constraints@[i].id,
            ) {
                flagged(old(sketch).constraints@[i], driving, active)
            } else {
                old(sketch).constraints@[i]
            },
        final(sketch).geometry@ == old(sketch).geometry@,
        final(sketch).construction@ == old(sketch).construction@,
        final(sketch).external@ == old(sketch).external@,
        final(sketch).id == old(sketch).id,
        final(sketch).name@ == old(sketch).name@,
        final(sketch).is_fully_constrained == old(sketch).is_fully_constrained,
        final(sketch).plane == old(sketch).plane,
{
    let mut i: usize = 0;
    while i < sketch.constraints.len()
        invariant
            i <= sketch.constraints@.len(),
            sketch.constraints@.len() == old(sketch).constraints@.len(),
            forall|j: int|
                0 <= j < old(sketch).constraints@.len() ==> #[trigger] sketch.constraints@[j] == if j < i
                    && items@.contains(old(sketch).constraints@[j].id) {
                    flagged(old(sketch).constraints@[j], driving, active)
                } else {
                    old(sketch).constraints@[j]
                },
            sketch.geometry@ == old(sketch).geometry@,
            sketch.construction@ == old(sketch).construction@,
            sketch.external@ == old(sketch).external@,
            sketch.id == old(sketch).id,
            sketch.name@ == old(sketch).name@,
            sketch.is_fully_constrained == old(sketch).is_fully_constrained,
            sketch.plane == old(sketch).plane,
        decreases sketch.constraints@.len() - i,
    {
        if crate::sketch::contains_id(items, sketch.constraints[i].id) {
            if let Some(d) = driving {
                sketch.constraints[i].driving = d;
            }
            if let Some(a) = active {
                sketch.constraints[i].active = a;
            }
        }
        i = i + 1;
    }
}

/// The ids of a sketch's elements and of its constraints, to tell later
/// what a command made.
pub fn ids_of(sketch: &Sketch) -> (r: (HashSet<u128>, HashSet<u128>))
    ensures
        forall|x: u128| #[trigger] r.0@.contains(x) <==> exists|i: int|
            0 <= i < sketch.geometry@.len() && (#[trigger] sketch.geometry@[i]).spec_id() == x,
        forall|x: u128| #[trigger] r.1@.contains(x) <==> names_constraint(sketch.constraints@, x),
{
    let mut elements: HashSet<u128> = HashSet::new();
    let mut i: usize = 0;
    while i < sketch.geometry.len()
        invariant
            i <= sketch.geometry@.len(),
            forall|x: u128| #[trigger] elements@.contains(x) <==> exists|j: int|
                0 <= j < i && (#[trigger] sketch.geometry@[j]).spec_id() == x,
        decreases sketch.geometry@.len() - i,
    {
        elements.insert(sketch.geometry[i].id());
        i = i + 1;
    }
    let mut constraints: HashSet<u128> = HashSet::new();
    let mut k: usize = 0;
    while k < sketch.constraints.len()
        invariant
            k <= sketch.constraints@.len(),
            forall|x: u128| #[trigger] constraints@.contains(x) <==> exists|j: int|
                0 <= j < k && (#[trigger] sketch.constraints@[j]).id == x,
        decreases sketch.constraints@.len() - k,
    {
        constraints.insert(sketch.constraints[k].id);
        k = k + 1;
    }
    (elements, constraints)
}

/// Keeps an element whose id is not in `before`.
pub open spec fn new_element(before: Set<u128>) -> spec_fn(GeometryElement) -> bool {
    |g: GeometryElement| !before.contains(g.spec_id())
}

/// Keeps a constraint whose id is not in `before`.
pub open spec fn new_constraint(before: Set<u128>) -> spec_fn(Constraint) -> bool {
    |c: Constraint| !before.contains(c.id)
}

/// What the sketch gained since `before` (from `ids_of`): the ids of the
/// new elements and of the new constraints, in sketch order.
pub fn made_since(sketch: &Sketch, before: &(HashSet<u128>, HashSet<u128>)) -> (r: (Vec<u128>, Vec<u128>))
    ensures
        r.0@ == sketch.geometry@.filter(new_element(before.0@)).map_values(|g: GeometryElement| g.spec_id()),
        r.1@ == sketch.constraints@.filter(new_constraint(before.1@)).map_values(|c: Constraint| c.id),
{
    let ghost geometry = sketch.geometry@;
    let ghost constraints = sketch.constraints@;
    let mut elements: Vec<u128> = Vec::new();
    let mut i: usize = 0;
    while i < sketch.geometry.len()
        invariant
            i <= geometry.len(),
            geometry == sketch.geometry@,
            elements@ == geometry.take(i as int).filter(new_element(before.0@)).map_values(
                |g: GeometryElement| g.spec_id(),
            ),
        decreases geometry.len() - i,
    {
        let id = sketch.geometry[i].id();
        proof {
            assert(geometry.take(i + 1) =~= geometry.take(i as int).push(geometry[i as int]));
            geometry.take(i as int).lemma_filter_push(geometry[i as int], new_element(before.0@));
        }
        if !before.0.contains(&id) {
            elements.push(id);
        }
        i = i + 1;
        assert(elements@ =~= geometry.take(i as int).filter(new_element(before.0@)).map_values(
            |g: GeometryElement| g.spec_id(),
        ));
    }
    assert(geometry.take(geometry.len() as int) =~= geometry);
    let mut made: Vec<u128> = Vec::new();
    let mut k: usize = 0;
    while k < sketch.constraints.len()
        invariant
            k <= constraints.len(),
            constraints == sketch.constraints@,
            made@ == constraints.take(k as int).filter(new_constraint(before.1@)).map_values(|c: Constraint| c.id),
        decreases constraints.len() - k,
    {
        let id = sketch.constraints[k].id;
        proof {
            assert(constraints.take(k + 1) =~= constraints.take(k as int).push(constraints[k as int]));
            constraints.take(k as int).lemma_filter_push(constraints[k as int], new_constraint(before.1@));
        }
        if !before.1.contains(&id) {
            made.push(id);
        }
        k = k + 1;
        assert(made@ =~= constraints.take(k as int).filter(new_constraint(before.1@)).map_values(
            |c: Constraint| c.id,
        ));
    }
    assert(constraints.take(constraints.len() as int) =~= constraints);
    (elements, made)
}

/// Why a listed item was refused.
#[derive(Debug, Clone, PartialEq, Eq)]
pub enum ItemError {
    /// The text is no id.
    NotAnId(String),
    /// The id is nothing of this sketch.
    NotInSketch(u128),
}

/// The id a text names, given what reading it as a UUID gives: the origin
/// and the axes by name, anything else that reading.
pub open spec fn item_id_given(text: Seq<char>, parsed: Option<u128>) -> Option<u128> {
    if text == "origin"@ {
        Some(ORIGIN_ID)
    } else if text == "x_axis"@ {
        Some(X_AXIS_ID)
    } else if text == "y_axis"@ {
        Some(Y_AXIS_ID)
    } else {
        parsed
    }
}

/// The id a text names: the origin and the axes by name, anything else
/// read as a UUID.
pub open spec fn item_id(text: Seq<char>) -> Option<u128> {
    item_id_given(text, parsed_id(text))
}

/// Whether `id` is something of the sketch: an element, a constraint, the
/// origin or an axis.
pub open spec fn known_item(sketch: Sketch, id: u128) -> bool {
    lookup(sketch.geometry@, id) is Some || names_constraint(sketch.constraints@, id) || is_reference_id(id)
}

/// Whether `id` is something of the sketch: an element, a constraint, the
/// origin or an axis (what an id read from an item's text must be).
pub fn is_known_item(sketch: &Sketch, id: u128) -> (b: bool)
    ensures
        b == known_item(*sketch, id),
{
    sketch.get_geometry(id).is_some() || has_constraint(sketch, id) || Reference::of(id).is_some()
}

/// The id one item's text names, given what reading it as a UUID gives
/// (`parsed`): `origin`, `x_axis`, `y_axis`, else that reading; refused
/// where it is no id, or an id of nothing in the sketch.
pub fn resolve_item(sketch: &Sketch, text: &String, parsed: Option<u128>) -> (r: Result<u128, ItemError>)
    ensures
        match item_id_given(text@, parsed) {
            None => r matches Err(ItemError::NotAnId(t)) && t@ == text@,
            Some(id) => if known_item(*sketch, id) {
                r == Ok::<u128, ItemError>(id)
            } else {
                r == Err::<u128, ItemError>(ItemError::NotInSketch(id))
            },
        },
{
    let t = text.as_str();
    let id = if str_eq(t, "origin") {
        ORIGIN_ID
    } else if str_eq(t, "x_axis") {
        X_AXIS_ID
    } else if str_eq(t, "y_axis") {
        Y_AXIS_ID
    } else {
        match parsed {
            Some(id) => id,
            None => {
                return Err(ItemError::NotAnId(text.clone()));
            },
        }
    };
    if !is_known_item(sketch, id) {
        return Err(ItemError::NotInSketch(id));
    }
    Ok(id)
}

/// The ids a list of texts names, or the first refusal: a text that is no
/// id, or an id that is nothing of the sketch.
pub open spec fn spec_resolve_items(sketch: Sketch, texts: Seq<Seq<char>>) -> Result<Seq<u128>, (bool, Seq<char>, u128)>
    decreases texts.len(),
{
    if texts.len() == 0 {
        Ok(Seq::empty())
    } else {
        match spec_resolve_items(sketch, texts.drop_last()) {
            Err(e) => Err(e),
            Ok(ids) => match item_id(texts.last()) {
                None => Err((true, texts.last(), 0)),
                Some(id) => if known_item(sketch, id) {
                    Ok(ids.push(id))
                } else {
                    Err((false, Seq::empty(), id))
                },
            },
        }
    }
}

/// The texts of a list of strings.
pub open spec fn texts_of(v: Seq<String>) -> Seq<Seq<char>> {
    v.map_values(|s: String| s@)
}

/// The ids a list of texts names, as `sketch.delete` and the other
/// commands read their `items`: `origin`, `x_axis`, `y_axis` or a UUID,
/// each of something in the sketch.
pub fn resolve_items(sketch: &Sketch, texts: &Vec<String>) -> (r: Result<Vec<u128>, ItemError>)
    ensures
        match (r, spec_resolve_items(*sketch, texts_of(texts@))) {
            (Ok(ids), Ok(s)) => ids@ == s,
            (Err(ItemError::NotAnId(t)), Err((true, s, _))) => t@ == s,
            (Err(ItemError::NotInSketch(id)), Err((false, _, i))) => id == i,
            _ => false,
        },
{
    let ghost all = texts_of(texts@);
    let mut ids: Vec<u128> = Vec::new();
    let mut i: usize = 0;
    while i < texts.len()
        invariant
            i <= texts@.len(),
            all == texts_of(texts@),
            spec_resolve_items(*sketch, all.take(i as int)) == Ok::<Seq<u128>, (bool, Seq<char>, u128)>(ids@),
        decreases texts@.len() - i,
    {
        let text = texts[i].as_str();
        proof {
            assert(all.take(i + 1).drop_last() =~= all.take(i as int));
            assert(all.take(i + 1).last() == texts@[i as int]@);
            reveal_strlit("origin");
            reveal_strlit("x_axis");
            reveal_strlit("y_axis");
        }
        let named = str_eq(text, "origin") || str_eq(text, "x_axis") || str_eq(text, "y_axis");
        let parsed = if named {
            None
        } else {
            parse_id(text)
        };
        assert(item_id_given(text@, parsed) == item_id(text@));
        let id = match resolve_item(sketch, &texts[i], parsed) {
            Ok(id) => id,
            Err(e) => {
                proof {
                    lemma_resolve_error_persists(*sketch, all, i + 1);
                }
                return Err(e);
            },
        };
        ids.push(id);
        i = i + 1;
    }
    assert(all.take(all.len() as int) =~= all);
    Ok(ids)
}

/// Once an item is refused, the whole list is refused for it.
proof fn lemma_resolve_error_persists(sketch: Sketch, texts: Seq<Seq<char>>, k: int)
    requires
        0 <= k <= texts.len(),
        spec_resolve_items(sketch, texts.take(k)) is Err,
    ensures
        spec_resolve_items(sketch, texts) == spec_resolve_items(sketch, texts.take(k)),
    decreases texts.len() - k,
{
    if k < texts.len() {
        assert(texts.take(k + 1).drop_last() =~= texts.take(k));
        lemma_resolve_error_persists(sketch, texts, k + 1);
    } else {
        assert(texts.take(k) =~= texts);
    }
}

/// A dimension's kind with a value given in display units: degrees for an
/// angle (stored as the radians `radians` gives), millimetres otherwise.
pub open spec fn with_display_value<F: Fn(u32) -> u32>(kind: ConstraintKind, v: u32, made: ConstraintKind, radians: F) -> bool {
    if spec_is_angular(kind) {
        exists|r: u32| radians.ensures((v,), r) && made == spec_with_stored_value(kind, r)
    } else {
        made == spec_with_stored_value(kind, v)
    }
}

fn display_valued<F: Fn(u32) -> u32>(kind: &ConstraintKind, v: u32, radians: &F) -> (made: ConstraintKind)
    requires
        forall|d: u32| radians.requires((d,)),
    ensures
        with_display_value(*kind, v, made, *radians),
{
    if is_angular(kind) {
        let r = radians(v);
        with_stored_value(kind, r)
    } else {
        with_stored_value(kind, v)
    }
}

/// Why a value could not be set.
#[derive(Debug, Clone, Copy, PartialEq, Eq)]
pub enum SetValueError {
    /// No constraint of the sketch has the id.
    NotInSketch,
    /// The constraint holds no value.
    NotADimension,
}

/// The first constraint with id `id`, if any.
pub open spec fn first_with_id(constraints: Seq<Constraint>, id: u128) -> Option<int> {
    if names_constraint(constraints, id) {
        Some(choose|i: int| 0 <= i < constraints.len() && constraints[i].id == id && forall|j: int| 0 <= j < i ==> #[trigger] constraints[j].id != id)
    } else {
        None
    }
}

/// Set the value of dimension `id` (display units, see
/// `with_display_value`), and its driving flag where given.
pub fn set_dimension_value<F: Fn(u32) -> u32>(
    sketch: &mut Sketch,
    id: u128,
    value: u32,
    driving: Option<bool>,
    radians: F,
) -> (r: Result<(), SetValueError>)
    requires
        forall|d: u32| radians.requires((d,)),
    ensures
        match first_with_id(old(sketch).constraints@, id) {
            None => r == Err::<(), SetValueError>(SetValueError::NotInSketch) && final(sketch).constraints@ == old(sketch).constraints@,
            Some(i) => {
                let c = old(sketch).constraints@[i];
                if spec_stored_value(c.kind) is None {
                    r == Err::<(), SetValueError>(SetValueError::NotADimension) && final(sketch).constraints@ == old(sketch).constraints@
                } else {
                    let n = final(sketch).constraints@[i];
                    &&& r is Ok
                    &&& final(sketch).constraints@ == old(sketch).constraints@.update(i, n)
                    &&& with_display_value(c.kind, value, n.kind, radians)
                    &&& n == (Constraint {
                        kind: n.kind,
                        driving: match driving {
                            Some(d) => d,
                            None => c.driving,
                        },
                        ..c
                    })
                }
            },
        },
        final(sketch).geometry@ == old(sketch).geometry@,
        final(sketch).construction@ == old(sketch).construction@,
        final(sketch).external@ == old(sketch).external@,
        final(sketch).id == old(sketch).id,
        final(sketch).name@ == old(sketch).name@,
        final(sketch).is_fully_constrained == old(sketch).is_fully_constrained,
        final(sketch).plane == old(sketch).plane,
{
    let mut i: usize = 0;
    while i < sketch.constraints.len()
        invariant
            i <= sketch.constraints@.len(),
            sketch == old(sketch),
            forall|d: u32| radians.requires((d,)),
            forall|j: int| 0 <= j < i ==> (#[trigger] sketch.constraints@[j]).id != id,
        decreases sketch.constraints@.len() - i,
    {
        if sketch.constraints[i].id == id {
            proof {
                let ghost cs = sketch.constraints@;
                assert(names_constraint(cs, id));
                let k = first_with_id(cs, id)->0;
                assert(k == i) by {
                    if k < i {
                        assert(cs[k].id != id);
                    }
                    if k > i {
                        assert(cs[i as int].id != id);
                    }
                }
            }
            if stored_value(&sketch.constraints[i].kind).is_none() {
                return Err(SetValueError::NotADimension);
            }
            let kind = display_valued(&sketch.constraints[i].kind, value, &radians);
            sketch.constraints[i].kind = kind;
            if let Some(d) = driving {
                sketch.constraints[i].driving = d;
            }
            return Ok(());
        }
        i = i + 1;
    }
    Err(SetValueError::NotInSketch)
}

/// Why a constraint tool could not be applied.
#[derive(Debug, Clone, PartialEq, Eq)]
pub enum ConstrainError {
    /// `dimension` was asked of a selection that no dimension takes.
    NoDimension,
    /// The tool does not take these items.
    DoesNotFit(String),
    /// A value was given to a tool whose constraints hold none.
    TakesNoValue(String),
}

/// How many kinds lead `kinds` that hold a value.
pub open spec fn valued_prefix(kinds: Seq<ConstraintKind>) -> int
    decreases kinds.len(),
{
    if kinds.len() == 0 || !kinds[0].spec_is_dimensional() {
        0
    } else {
        1 + valued_prefix(kinds.drop_first())
    }
}

proof fn lemma_valued_prefix(kinds: Seq<ConstraintKind>)
    ensures
        0 <= valued_prefix(kinds) <= kinds.len(),
        forall|i: int| 0 <= i < valued_prefix(kinds) ==> (#[trigger] kinds[i]).spec_is_dimensional(),
        valued_prefix(kinds) < kinds.len() ==> !kinds[valued_prefix(kinds)].spec_is_dimensional(),
    decreases kinds.len(),
{
    if kinds.len() > 0 && kinds[0].spec_is_dimensional() {
        lemma_valued_prefix(kinds.drop_first());
        assert forall|i: int| 0 <= i < valued_prefix(kinds) implies (#[trigger] kinds[i]).spec_is_dimensional() by {
            if i > 0 {
                assert(kinds[i] == kinds.drop_first()[i - 1]);
            }
        }
    }
}

/// The tool a `kind` of constraint asks for on `shape`: `dimension` takes
/// the dimension the selection takes.
pub open spec fn tool_asked(kind: Seq<char>, shape: crate::constrain::SelectionShape) -> Option<Seq<char>> {
    if kind == "dimension"@ {
        crate::constrain::spec_dimension_for(shape)
    } else {
        Some(kind)
    }
}

/// What constraining gave, from sketch `before` to `after`, for a `kind`
/// of constraint on the items of `shape`, with `value` (display units) or
/// else at the measured values.
pub open spec fn constrained<M: Fn(ConstraintKind) -> u32, R: Fn(u32) -> u32>(
    before: Sketch,
    after: Sketch,
    kind: Seq<char>,
    shape: crate::constrain::SelectionShape,
    value: Option<u32>,
    measure: M,
    radians: R,
    r: Result<Vec<u128>, ConstrainError>,
) -> bool {
    let added = after.constraints@.skip(before.constraints@.len() as int);
    let made = crate::ovp::kinds_of(added);
    match tool_asked(kind, shape) {
        None => r == Err::<Vec<u128>, ConstrainError>(ConstrainError::NoDimension) && after.constraints@
            == before.constraints@,
        Some(tool) => match crate::constrain::spec_kinds_for(tool, shape, before) {
            None => (r matches Err(ConstrainError::DoesNotFit(t)) && t@ == tool) && after.constraints@
                == before.constraints@,
            Some(templates) => {
                &&& crate::ovp::appended(before.constraints@, after.constraints@, made)
                &&& match value {
                    None => {
                        &&& crate::constrain::measured_from(templates, made, measure)
                        &&& r matches Ok(ids) && ids@ == added.map_values(|c: Constraint| c.id)
                    },
                    Some(v) => {
                        &&& made.len() == valued_prefix(templates)
                        &&& forall|i: int|
                            0 <= i < made.len() ==> with_display_value(
                                #[trigger] templates[i],
                                v,
                                made[i],
                                radians,
                            )
                        &&& if made.len() < templates.len() {
                            r matches Err(ConstrainError::TakesNoValue(t)) && t@ == tool
                        } else {
                            r matches Ok(ids) && ids@ == added.map_values(|c: Constraint| c.id)
                        }
                    },
                }
            },
        },
    }
}

/// Lay a `kind` of constraint (a tool's name, or `dimension` for the one
/// the selection takes) on `items`: every constraint the tool makes is
/// added, dimensions at `value` (display units) where one is given, else
/// at what `measure` finds. A value given to a tool whose constraints hold
/// none is refused at the first such constraint. The ids of the
/// constraints made.
pub fn constrain<M: Fn(ConstraintKind) -> u32, R: Fn(u32) -> u32>(
    sketch: &mut Sketch,
    kind: &str,
    items: &[u128],
    value: Option<u32>,
    measure: M,
    radians: R,
) -> (r: Result<Vec<u128>, ConstrainError>)
    requires
        forall|t: ConstraintKind| measure.requires((t,)),
        forall|d: u32| radians.requires((d,)),
    ensures
        exists|shape: crate::constrain::SelectionShape|
            #[trigger] shape.spec_of(old(sketch).geometry@, items@.to_set()) && constrained(
                *old(sketch),
                *final(sketch),
                kind@,
                shape,
                value,
                measure,
                radians,
                r,
            ),
        final(sketch).geometry@ == old(sketch).geometry@,
        final(sketch).construction@ == old(sketch).construction@,
        final(sketch).external@ == old(sketch).external@,
        final(sketch).id == old(sketch).id,
        final(sketch).name@ == old(sketch).name@,
        final(sketch).is_fully_constrained == old(sketch).is_fully_constrained,
        final(sketch).plane == old(sketch).plane,
{
    let ghost base = old(sketch).constraints@;
    let mut selected: HashSet<u128> = HashSet::new();
    let mut i: usize = 0;
    while i < items.len()
        invariant
            i <= items@.len(),
            selected@ == items@.take(i as int).to_set(),
        decreases items@.len() - i,
    {
        proof {
            assert(items@.take(i + 1) =~= items@.take(i as int).push(items@[i as int]));
            assert(items@.take(i + 1).to_set() =~= items@.take(i as int).to_set().insert(items@[i as int]));
        }
        selected.insert(items[i]);
        i = i + 1;
    }
    assert(items@.take(items@.len() as int) =~= items@);
    let shape = crate::constrain::SelectionShape::of(sketch, &selected);
    let tool: &str = if str_eq(kind, "dimension") {
        match crate::constrain::dimension_for(&shape) {
            Some(t) => t,
            None => {
                return Err(ConstrainError::NoDimension);
            },
        }
    } else {
        kind
    };
    assert(tool_asked(kind@, shape) == Some(tool@));
    let ks = match crate::constrain::kinds_for(tool, &shape, sketch, measure) {
        Some(ks) => ks,
        None => {
            return Err(ConstrainError::DoesNotFit(String::from_str(tool)));
        },
    };
    let ghost templates = crate::constrain::spec_kinds_for(tool@, shape, *old(sketch))->0;
    proof {
        lemma_valued_prefix(templates);
    }
    let mut made_ids: Vec<u128> = Vec::new();
    let mut made: Ghost<Seq<ConstraintKind>> = Ghost(Seq::empty());
    assert(base.take(base.len() as int) =~= base);
    let mut k: usize = 0;
    while k < ks.len()
        invariant
            k <= ks@.len(),
            ks@.len() == templates.len(),
            crate::constrain::measured_from(templates, ks@, measure),
            forall|d: u32| radians.requires((d,)),
            value is Some ==> k <= valued_prefix(templates),
            0 <= valued_prefix(templates) <= templates.len(),
            forall|i: int| 0 <= i < valued_prefix(templates) ==> (#[trigger] templates[i]).spec_is_dimensional(),
            valued_prefix(templates) < templates.len() ==> !templates[valued_prefix(templates)].spec_is_dimensional(),
            crate::ovp::appended(base, sketch.constraints@, made@),
            base == old(sketch).constraints@,
            shape.spec_of(old(sketch).geometry@, items@.to_set()),
            tool_asked(kind@, shape) == Some(tool@),
            crate::constrain::spec_kinds_for(tool@, shape, *old(sketch)) == Some(templates),
            made@.len() == k,
            made_ids@ == sketch.constraints@.skip(base.len() as int).map_values(|c: Constraint| c.id),
            value is None ==> made@ == ks@.take(k as int),
            forall|i: int| 0 <= i < k ==> match value {
                Some(v) => with_display_value(#[trigger] templates[i], v, made@[i], radians),
                None => true,
            },
            sketch.geometry@ == old(sketch).geometry@,
            sketch.construction@ == old(sketch).construction@,
            sketch.external@ == old(sketch).external@,
            sketch.id == old(sketch).id,
            sketch.name@ == old(sketch).name@,
            sketch.is_fully_constrained == old(sketch).is_fully_constrained,
            sketch.plane == old(sketch).plane,
        decreases ks@.len() - k,
    {
        let mut c = ks[k];
        proof {
            assert(ks@[k as int].spec_is_dimensional() == templates[k as int].spec_is_dimensional());
        }
        if let Some(v) = value {
            if stored_value(&c).is_none() {
                proof {
                    assert(!templates[k as int].spec_is_dimensional());
                    assert(k == valued_prefix(templates));
                    lemma_kinds_appended(base, sketch.constraints@, made@);
                }
                return Err(ConstrainError::TakesNoValue(String::from_str(tool)));
            }
            c = display_valued(&c, v, &radians);
            proof {
                let t = templates[k as int];
                let m = choose|m: u32| measure.ensures((t,), m) && ks@[k as int] == spec_with_stored_value(t, m);
                lemma_restore(t, m);
                if spec_is_angular(t) {
                    let r = choose|r: u32| radians.ensures((v,), r) && c == spec_with_stored_value(ks@[k as int], r);
                    assert(c == spec_with_stored_value(t, r));
                }
                assert(with_display_value(t, v, c, radians));
            }
        }
        let ghost before_ids = made_ids@;
        let ghost before_cs = sketch.constraints@;
        crate::ovp::add_recorded(sketch, c, Ghost(base), made);
        let id = sketch.constraints[sketch.constraints.len() - 1].id;
        made_ids.push(id);
        proof {
            made@ = made@.push(c);
            assert(sketch.constraints@.skip(base.len() as int) =~= before_cs.skip(base.len() as int).push(c_last(sketch.constraints@)));
            assert(made_ids@ =~= sketch.constraints@.skip(base.len() as int).map_values(|c: Constraint| c.id));
        }
        k = k + 1;
        proof {
            if value is None {
                assert(made@ =~= ks@.take(k as int));
            }
        }
    }
    proof {
        lemma_kinds_appended(base, sketch.constraints@, made@);
        if value is None {
            assert(ks@.take(k as int) =~= ks@);
        }
    }
    Ok(made_ids)
}

/// What was appended is what the record says.
proof fn lemma_kinds_appended(base: Seq<Constraint>, after: Seq<Constraint>, made: Seq<ConstraintKind>)
    requires
        crate::ovp::appended(base, after, made),
    ensures
        crate::ovp::kinds_of(after.skip(base.len() as int)) == made,
{
    assert forall|i: int| 0 <= i < made.len() implies #[trigger] crate::ovp::kinds_of(after.skip(base.len() as int))[i]
        == made[i] by {
        assert(after.skip(base.len() as int)[i] == after[base.len() + i]);
    }
    assert(crate::ovp::kinds_of(after.skip(base.len() as int)) =~= made);
}

/// A stored value written over another is the one written, and never
/// makes a kind angular or not.
proof fn lemma_restore(t: ConstraintKind, m: u32)
    ensures
        forall|x: u32| #[trigger] spec_with_stored_value(spec_with_stored_value(t, m), x) == spec_with_stored_value(t, x),
        spec_is_angular(spec_with_stored_value(t, m)) == spec_is_angular(t),
{
}

/// The last constraint of a run.
pub open spec fn c_last(cs: Seq<Constraint>) -> Constraint {
    cs.last()
}

/// Law: a delete never takes the origin or an axis: they are not among
/// the elements it removes, whatever the list names.
pub proof fn law_references_are_never_deleted(constraints: Seq<Constraint>, items: Seq<u128>, id: u128)
    requires
        deleted_elements(constraints, items).contains(id),
    ensures
        !is_reference_id(id),
        items.contains(id),
{
    let f = deleted_elements(constraints, items);
    let k = choose|k: int| 0 <= k < f.len() && f[k] == id;
    crate::sketch::lemma_filter_member(items, deletable(constraints), id);
}

/// Law: right after `ids_of`, a sketch has made nothing: what
/// `made_since` reports is empty.
pub proof fn law_nothing_made_since_now(sketch: Sketch, elements: Set<u128>, constraints: Set<u128>)
    requires
        forall|x: u128| #[trigger] elements.contains(x) <==> exists|i: int|
            0 <= i < sketch.geometry@.len() && (#[trigger] sketch.geometry@[i]).spec_id() == x,
        forall|x: u128| #[trigger] constraints.contains(x) <==> names_constraint(sketch.constraints@, x),
    ensures
        sketch.geometry@.filter(new_element(elements)).len() == 0,
        sketch.constraints@.filter(new_constraint(constraints)).len() == 0,
{
    let g = sketch.geometry@;
    let cs = sketch.constraints@;
    assert forall|i: int| 0 <= i < g.len() implies !new_element(elements)(#[trigger] g[i]) by {
        assert(elements.contains(g[i].spec_id()));
    }
    assert forall|i: int| 0 <= i < cs.len() implies !new_constraint(constraints)(#[trigger] cs[i]) by {
        assert(names_constraint(cs, cs[i].id));
    }
    lemma_filter_none(g, new_element(elements));
    lemma_filter_none(cs, new_constraint(constraints));
}

} // verus!
