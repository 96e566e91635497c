//! What the sketcher does with a selection: flipping the flags of the
//! selected constraints, selecting what a diagnosis blames or what is
//! still free to move, and naming the selection in the status bar.

use std::collections::HashSet;
use vstd::prelude::*;

use crate::commands::set_constraints;
use crate::sketch::{
    constraint_label, constraint_refs, curve_points, spec_constraint_label, spec_constraint_refs, touches, Constraint,
    GeometryElement, Sketch,
};
use crate::style::{element_name, spec_element_name};
use crate::text::{append_str, decimal, decimal_text};

verus! {

broadcast use {vstd::std_specs::hash::group_hash_axioms, vstd::seq_lib::group_seq_properties};

/// The driving flag of `c`, or with `driving` false its active flag.
pub open spec fn flag_of(c: Constraint, driving: bool) -> bool {
    if driving {
        c.driving
    } else {
        c.active
    }
}

/// `c` with that flag set to `v`.
pub open spec fn with_flag(c: Constraint, driving: bool, v: bool) -> Constraint {
    if driving {
        Constraint { driving: v, ..c }
    } else {
        Constraint { active: v, ..c }
    }
}

/// The ids of the selected constraints among `cs` whose flag reads `set`,
/// in order.
pub open spec fn ids_flagged(cs: Seq<Constraint>, selected: Set<u128>, driving: bool, set: bool) -> Seq<u128>
    decreases cs.len(),
{
    if cs.len() == 0 {
        Seq::empty()
    } else {
        let before = ids_flagged(cs.drop_last(), selected, driving, set);
        let c = cs.last();
        if selected.contains(c.id) && flag_of(c, driving) == set {
            before.push(c.id)
        } else {
            before
        }
    }
}

/// The constraints after the flag of the selected ones is flipped: the
/// ones that read clear are set, then the ones that read set are cleared
/// (a constraint whose id a clear one shares ends set).
pub open spec fn flags_toggled(cs: Seq<Constraint>, selected: Set<u128>, driving: bool) -> Seq<Constraint> {
    let set_ones = ids_flagged(cs, selected, driving, true);
    let clear_ones = ids_flagged(cs, selected, driving, false);
    cs.map_values(
        |c: Constraint|
            if clear_ones.contains(c.id) {
                with_flag(c, driving, true)
            } else if set_ones.contains(c.id) {
                with_flag(c, driving, false)
            } else {
                c
            },
    )
}

/// Flip the driving flag (with `driving` false, the active flag) of every
/// selected constraint (`flags_toggled`). Returns the ids whose flag was
/// set and the ids whose flag was clear, in sketch order: the two changes
/// to record.
pub fn toggle_constraint_flags(sketch: &mut Sketch, selected: &HashSet<u128>, driving: bool) -> (r: (Vec<u128>, Vec<u128>))
    ensures
        r.0@ == ids_flagged(old(sketch).constraints@, selected@, driving, true),
        r.1@ == ids_flagged(old(sketch).constraints@, selected@, driving, false),
        final(sketch).constraints@ == flags_toggled(old(sketch).constraints@, selected@, driving),
        final(sketch).geometry@ == old(sketch).geometry@,
        final(sketch).construction@ == old(sketch).construction@,
        final(sketch).external@ == old(sketch).external@,
        final(sketch).id == old(sketch).id,
        final(sketch).plane == old(sketch).plane,
{
    let ghost cs = sketch.constraints@;
    let mut set_ones: Vec<u128> = Vec::new();
    let mut clear_ones: Vec<u128> = Vec::new();
    let mut i: usize = 0;
    while i < sketch.constraints.len()
        invariant
            i <= cs.len(),
            cs == sketch.constraints@,
            set_ones@ == ids_flagged(cs.take(i as int), selected@, driving, true),
            clear_ones@ == ids_flagged(cs.take(i as int), selected@, driving, false),
        decreases cs.len() - i,
    {
        assert(cs.take(i + 1).drop_last() =~= cs.take(i as int));
        let c = &sketch.constraints[i];
        if selected.contains(&c.id) {
            let now = if driving {
                c.driving
            } else {
                c.active
            };
            if now {
                set_ones.push(c.id);
            } else {
                clear_ones.push(c.id);
            }
        }
        i = i + 1;
    }
    assert(cs.take(cs.len() as int) =~= cs);
    let (d0, a0) = if driving {
        (Some(false), None)
    } else {
        (None, Some(false))
    };
    set_constraints(sketch, set_ones.as_slice(), d0, a0);
    let ghost mid = sketch.constraints@;
    let (d1, a1) = if driving {
        (Some(true), None)
    } else {
        (None, Some(true))
    };
    set_constraints(sketch, clear_ones.as_slice(), d1, a1);
    assert(sketch.constraints@ =~= flags_toggled(cs, selected@, driving)) by {
        assert forall|k: int| 0 <= k < cs.len() implies #[trigger] sketch.constraints@[k] == flags_toggled(
            cs,
            selected@,
            driving,
        )[k] by {
            assert(mid[k] == (if set_ones@.contains(cs[k].id) {
                crate::commands::flagged(cs[k], d0, a0)
            } else {
                cs[k]
            }));
            assert(mid[k].id == cs[k].id);
        }
    }
    (set_ones, clear_ones)
}

/// Whether no two constraints share an id.
pub open spec fn unique_ids(cs: Seq<Constraint>) -> bool {
    forall|i: int, j: int| 0 <= i < cs.len() && 0 <= j < cs.len() && i != j ==> (#[trigger] cs[i]).id != (#[trigger] cs[j]).id
}

/// What `ids_flagged` holds: the id of each selected constraint whose flag
/// reads `set`.
proof fn lemma_ids_flagged(cs: Seq<Constraint>, selected: Set<u128>, driving: bool, set: bool, x: u128)
    ensures
        ids_flagged(cs, selected, driving, set).contains(x) <==> exists|i: int|
            0 <= i < cs.len() && (#[trigger] cs[i]).id == x && selected.contains(x) && flag_of(cs[i], driving) == set,
    decreases cs.len(),
{
    if cs.len() > 0 {
        let init = cs.drop_last();
        lemma_ids_flagged(init, selected, driving, set, x);
        if ids_flagged(init, selected, driving, set).contains(x) {
            let i = choose|i: int|
                0 <= i < init.len() && (#[trigger] init[i]).id == x && selected.contains(x) && flag_of(init[i], driving) == set;
            assert(cs[i] == init[i]);
        }
        if exists|i: int| 0 <= i < cs.len() && (#[trigger] cs[i]).id == x && selected.contains(x) && flag_of(cs[i], driving) == set {
            let i = choose|i: int|
                0 <= i < cs.len() && (#[trigger] cs[i]).id == x && selected.contains(x) && flag_of(cs[i], driving) == set;
            if i < cs.len() - 1 {
                assert(init[i] == cs[i]);
            }
        }
    }
}

/// Where no two constraints share an id, toggling flips exactly the flag of
/// each selected constraint.
pub proof fn law_toggle_flips_each_selected_flag(cs: Seq<Constraint>, selected: Set<u128>, driving: bool)
    requires
        unique_ids(cs),
    ensures
        flags_toggled(cs, selected, driving) == cs.map_values(
            |c: Constraint|
                if selected.contains(c.id) {
                    with_flag(c, driving, !flag_of(c, driving))
                } else {
                    c
                },
        ),
{
    let t = flags_toggled(cs, selected, driving);
    assert forall|k: int| 0 <= k < cs.len() implies #[trigger] t[k] == (if selected.contains(cs[k].id) {
        with_flag(cs[k], driving, !flag_of(cs[k], driving))
    } else {
        cs[k]
    }) by {
        let x = cs[k].id;
        lemma_ids_flagged(cs, selected, driving, true, x);
        lemma_ids_flagged(cs, selected, driving, false, x);
        if ids_flagged(cs, selected, driving, false).contains(x) {
            let i = choose|i: int|
                0 <= i < cs.len() && (#[trigger] cs[i]).id == x && selected.contains(x) && flag_of(cs[i], driving) == false;
            assert(i == k);
        } else if ids_flagged(cs, selected, driving, true).contains(x) {
            let i = choose|i: int|
                0 <= i < cs.len() && (#[trigger] cs[i]).id == x && selected.contains(x) && flag_of(cs[i], driving) == true;
            assert(i == k);
        }
    }
    assert(t =~= cs.map_values(
        |c: Constraint|
            if selected.contains(c.id) {
                with_flag(c, driving, !flag_of(c, driving))
            } else {
                c
            },
    ));
}

/// Where no two constraints share an id, toggling the same selection's
/// flag twice gives back the constraints as they were.
pub proof fn law_toggling_twice_restores(cs: Seq<Constraint>, selected: Set<u128>, driving: bool)
    requires
        unique_ids(cs),
    ensures
        flags_toggled(flags_toggled(cs, selected, driving), selected, driving) == cs,
{
    let once = flags_toggled(cs, selected, driving);
    law_toggle_flips_each_selected_flag(cs, selected, driving);
    assert(once.len() == cs.len());
    assert forall|i: int, j: int| 0 <= i < once.len() && 0 <= j < once.len() && i != j implies (#[trigger] once[i]).id
        != (#[trigger] once[j]).id by {
        assert(once[i].id == cs[i].id);
        assert(once[j].id == cs[j].id);
    }
    law_toggle_flips_each_selected_flag(once, selected, driving);
    let twice = flags_toggled(once, selected, driving);
    assert forall|k: int| 0 <= k < cs.len() implies #[trigger] twice[k] == cs[k] by {
        assert(once[k].id == cs[k].id);
    }
    assert(twice =~= cs);
}

/// The constraints a diagnosis blames (`offenders`), and everything they
/// refer to: what "select conflicting" (or "select redundant") selects.
/// Returns the elements, then the constraints.
pub fn offender_selection(sketch: &Sketch, offenders: &HashSet<u128>) -> (r: (HashSet<u128>, HashSet<u128>))
    ensures
        forall|x: u128|
            #[trigger] r.1@.contains(x) <==> offenders@.contains(x) && exists|i: int|
                0 <= i < sketch.constraints@.len() && (#[trigger] sketch.constraints@[i]).id == x,
        forall|x: u128|
            #[trigger] r.0@.contains(x) <==> exists|i: int|
                0 <= i < sketch.constraints@.len() && offenders@.contains((#[trigger] sketch.constraints@[i]).id)
                    && spec_constraint_refs(sketch.constraints@[i].kind).contains(x),
{
    let ghost cs = sketch.constraints@;
    let mut elements: HashSet<u128> = HashSet::new();
    let mut constraints: HashSet<u128> = HashSet::new();
    let mut i: usize = 0;
    while i < sketch.constraints.len()
        invariant
            i <= cs.len(),
            cs == sketch.constraints@,
            forall|x: u128|
                #[trigger] constraints@.contains(x) <==> offenders@.contains(x) && exists|j: int|
                    0 <= j < i && (#[trigger] cs[j]).id == x,
            forall|x: u128|
                #[trigger] elements@.contains(x) <==> exists|j: int|
                    0 <= j < i && offenders@.contains((#[trigger] cs[j]).id) && spec_constraint_refs(cs[j].kind).contains(x),
        decreases cs.len() - i,
    {
        let c = &sketch.constraints[i];
        if offenders.contains(&c.id) {
            constraints.insert(c.id);
            let refs = constraint_refs(&c.kind);
            let ghost before = elements@;
            let mut k: usize = 0;
            while k < refs.len()
                invariant
                    k <= refs@.len(),
                    refs@ == spec_constraint_refs(cs[i as int].kind),
                    elements@ == before + refs@.take(k as int).to_set(),
                decreases refs@.len() - k,
            {
                elements.insert(refs[k]);
                proof {
                    assert(refs@.take(k + 1).to_set() =~= refs@.take(k as int).to_set().insert(refs@[k as int]));
                    assert(elements@ =~= before + refs@.take(k + 1).to_set());
                }
                k = k + 1;
            }
            proof {
                assert(refs@.take(refs@.len() as int) =~= refs@);
                assert forall|x: u128| #[trigger] elements@.contains(x) <==> exists|j: int|
                    0 <= j < i + 1 && offenders@.contains((#[trigger] cs[j]).id) && spec_constraint_refs(cs[j].kind).contains(x) by {
                    if refs@.contains(x) {
                        assert(refs@.to_set().contains(x));
                    }
                    if elements@.contains(x) && !before.contains(x) {
                        assert(refs@.to_set().contains(x));
                    }
                }
            }
        }
        i = i + 1;
    }
    (elements, constraints)
}

/// The curves that run through a point of `free`, in sketch order: with
/// the points still free to move, what "select free" selects when curves
/// are asked for too.
pub open spec fn curves_through_spec(g: Seq<GeometryElement>, free: Set<u128>) -> Seq<u128>
    decreases g.len(),
{
    if g.len() == 0 {
        Seq::empty()
    } else {
        let before = curves_through_spec(g.drop_last(), free);
        if touches(curve_points(g.last()), free) {
            before.push(g.last().spec_id())
        } else {
            before
        }
    }
}

/// The elements running through some point of `free`, in sketch order.
pub fn curves_through(sketch: &Sketch, free: &HashSet<u128>) -> (r: Vec<u128>)
    ensures
        r@ == curves_through_spec(sketch.geometry@, free@),
{
    let ghost g = sketch.geometry@;
    let mut r: Vec<u128> = Vec::new();
    let mut i: usize = 0;
    while i < sketch.geometry.len()
        invariant
            i <= g.len(),
            g == sketch.geometry@,
            r@ == curves_through_spec(g.take(i as int), free@),
        decreases g.len() - i,
    {
        assert(g.take(i + 1).drop_last() =~= g.take(i as int));
        let points = Sketch::curve_point_ids(&sketch.geometry[i]);
        let mut k: usize = 0;
        let mut hit = false;
        while k < points.len()
            invariant
                k <= points@.len(),
                points@ == curve_points(g[i as int]),
                hit <==> exists|j: int| 0 <= j < k && free@.contains(#[trigger] points@[j]),
            decreases points@.len() - k,
        {
            if free.contains(&points[k]) {
                hit = true;
            }
            k = k + 1;
        }
        if hit {
            r.push(sketch.geometry[i].id());
        }
        i = i + 1;
    }
    assert(g.take(g.len() as int) =~= g);
    r
}

/// The name a constraint goes by: its own, else its kind's label.
pub open spec fn constraint_display_name(c: Constraint) -> Seq<char> {
    match c.name {
        Some(n) => n@,
        None => spec_constraint_label(c.kind),
    }
}

/// The names of the selected elements among `g`, in order.
pub open spec fn element_names(sketch: Sketch, g: Seq<GeometryElement>, selected: Set<u128>) -> Seq<Seq<char>>
    decreases g.len(),
{
    if g.len() == 0 {
        Seq::empty()
    } else {
        let before = element_names(sketch, g.drop_last(), selected);
        if selected.contains(g.last().spec_id()) {
            before.push(spec_element_name(sketch, g.last().spec_id()))
        } else {
            before
        }
    }
}

/// The names of the selected constraints among `cs`, in order.
pub open spec fn constraint_names(cs: Seq<Constraint>, selected: Set<u128>) -> Seq<Seq<char>>
    decreases cs.len(),
{
    if cs.len() == 0 {
        Seq::empty()
    } else {
        let before = constraint_names(cs.drop_last(), selected);
        if selected.contains(cs.last().id) {
            before.push(constraint_display_name(cs.last()))
        } else {
            before
        }
    }
}

/// The text of each string.
pub open spec fn texts(v: Seq<String>) -> Seq<Seq<char>> {
    v.map_values(|s: String| s@)
}

/// The names of what is selected: the selected elements in sketch order,
/// then the selected constraints in theirs.
pub fn selection_names(sketch: &Sketch, selected: &HashSet<u128>, selected_constraints: &HashSet<u128>) -> (names: Vec<String>)
    ensures
        texts(names@) == element_names(*sketch, sketch.geometry@, selected@) + constraint_names(
            sketch.constraints@,
            selected_constraints@,
        ),
{
    let ghost g = sketch.geometry@;
    let ghost cs = sketch.constraints@;
    let mut names: Vec<String> = Vec::new();
    let mut i: usize = 0;
    while i < sketch.geometry.len()
        invariant
            i <= g.len(),
            g == sketch.geometry@,
            texts(names@) == element_names(*sketch, g.take(i as int), selected@),
        decreases g.len() - i,
    {
        assert(g.take(i + 1).drop_last() =~= g.take(i as int));
        let id = sketch.geometry[i].id();
        if selected.contains(&id) {
            let ghost before = names@;
            names.push(element_name(sketch, id));
            assert(texts(names@) =~= texts(before).push(spec_element_name(*sketch, id)));
        }
        i = i + 1;
    }
    assert(g.take(g.len() as int) =~= g);
    let ghost from_elements = texts(names@);
    let mut k: usize = 0;
    while k < sketch.constraints.len()
        invariant
            k <= cs.len(),
            cs == sketch.constraints@,
            texts(names@) == from_elements + constraint_names(cs.take(k as int), selected_constraints@),
        decreases cs.len() - k,
    {
        assert(cs.take(k + 1).drop_last() =~= cs.take(k as int));
        let c = &sketch.constraints[k];
        if selected_constraints.contains(&c.id) {
            let ghost before = names@;
            let name = match &c.name {
                Some(n) => n.clone(),
                None => constraint_label(&c.kind),
            };
            names.push(name);
            assert(texts(names@) =~= texts(before).push(constraint_display_name(cs[k as int])));
        }
        k = k + 1;
    }
    assert(cs.take(cs.len() as int) =~= cs);
    names
}

/// `parts` joined by `sep`.
pub open spec fn joined(parts: Seq<Seq<char>>, sep: Seq<char>) -> Seq<char>
    decreases parts.len(),
{
    if parts.len() == 0 {
        Seq::empty()
    } else if parts.len() == 1 {
        parts[0]
    } else {
        joined(parts.drop_last(), sep) + sep + parts.last()
    }
}

/// The status bar's words for a selection of `names`: none for nothing,
/// up to three names joined by a dot, else the first two and how many
/// more.
pub open spec fn spec_summary(names: Seq<Seq<char>>) -> Option<Seq<char>> {
    let n = names.len();
    if n == 0 {
        None
    } else if n <= 3 {
        Some(joined(names, " · "@))
    } else {
        Some(joined(names.take(2), " · "@) + " · "@ + decimal_text((n - 2) as nat) + " more"@)
    }
}

/// The first `count` of `names` joined by `sep`.
fn join_first(names: &Vec<String>, count: usize, sep: &str) -> (s: String)
    requires
        count <= names@.len(),
    ensures
        s@ == joined(texts(names@).take(count as int), sep@),
{
    let mut s = String::new();
    let mut i: usize = 0;
    proof {
        assert(texts(names@).take(0) =~= Seq::<Seq<char>>::empty());
    }
    while i < count
        invariant
            i <= count <= names@.len(),
            s@ == joined(texts(names@).take(i as int), sep@),
        decreases count - i,
    {
        let ghost t = texts(names@);
        proof {
            assert(t.take(i + 1).drop_last() =~= t.take(i as int));
            assert(t.take(i + 1).last() == names@[i as int]@);
        }
        if i > 0 {
            append_str(&mut s, sep);
        } else {
            assert(t.take(0) =~= Seq::<Seq<char>>::empty());
            assert(s@ =~= Seq::<char>::empty());
        }
        append_str(&mut s, names[i].as_str());
        proof {
            if i == 0 {
                assert(t.take(1) =~= seq![names@[0]@]);
                assert(s@ =~= names@[0]@);
            }
        }
        i = i + 1;
    }
    s
}

/// The status bar's words for a selection (`spec_summary`).
pub fn selection_summary(names: &Vec<String>) -> (r: Option<String>)
    ensures
        match r {
            Some(s) => spec_summary(texts(names@)) == Some(s@),
            None => spec_summary(texts(names@)) is None,
        },
{
    let n = names.len();
    if n == 0 {
        return None;
    }
    proof {
        reveal_strlit(" · ");
        reveal_strlit(" more");
    }
    if n <= 3 {
        let s = join_first(names, n, " · ");
        assert(texts(names@).take(n as int) =~= texts(names@));
        return Some(s);
    }
    let mut s = join_first(names, 2, " · ");
    append_str(&mut s, " · ");
    let more = decimal((n - 2) as u64);
    append_str(&mut s, more.as_str());
    append_str(&mut s, " more");
    Some(s)
}

} // verus!
