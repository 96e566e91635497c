//! The sketch check behind the Validate action: stray points, constraints
//! on geometry that is gone, and whether the sketch holds a profile; and
//! the construction toggle of a selection.

use vstd::prelude::*;

use crate::profile::{extract_wires, has_profile, ProfileError};
use crate::sketch::{
    constraint_refs, contains_id, has_id, id_of, orphan, spec_constraint_refs, Constraint, Sketch,
};
use crate::text::{append_str, decimal, decimal_text};

verus! {

broadcast use vstd::seq_lib::group_seq_properties;

/// Whether a constraint references an id no element of `geometry` has
/// (the origin and the axes are no elements).
pub open spec fn references_missing(geometry: Seq<crate::sketch::GeometryElement>) -> spec_fn(Constraint) -> bool {
    |c: Constraint| exists|k: int| 0 <= k < spec_constraint_refs(c.kind).len() && !has_id(geometry, #[trigger] spec_constraint_refs(c.kind)[k])
}

/// The ids of the constraints that reference geometry the sketch does not
/// have, in sketch order.
pub fn malformed_constraints(sketch: &Sketch) -> (r: Vec<u128>)
    ensures
        r@ == sketch.constraints@.filter(references_missing(sketch.geometry@)).map_values(|c: Constraint| c.id),
{
    let ghost cs = sketch.constraints@;
    let ghost geometry = sketch.geometry@;
    let mut ids: Vec<u128> = Vec::new();
    let mut i: usize = 0;
    while i < sketch.geometry.len()
        invariant
            i <= geometry.len(),
            geometry == sketch.geometry@,
            ids@ == geometry.take(i as int).map_values(id_of()),
        decreases geometry.len() - i,
    {
        ids.push(sketch.geometry[i].id());
        i = i + 1;
        assert(ids@ =~= geometry.take(i as int).map_values(id_of()));
    }
    assert(geometry.take(geometry.len() as int) =~= geometry);
    assert forall|x: u128| ids@.contains(x) <==> has_id(geometry, x) by {
        if ids@.contains(x) {
            let j = choose|j: int| 0 <= j < ids@.len() && ids@[j] == x;
            assert(geometry[j].spec_id() == x);
        }
        if has_id(geometry, x) {
            let j = choose|j: int| 0 <= j < geometry.len() && (#[trigger] geometry[j]).spec_id() == x;
            assert(ids@[j] == x);
        }
    }
    let mut out: Vec<u128> = Vec::new();
    let mut k: usize = 0;
    while k < sketch.constraints.len()
        invariant
            k <= cs.len(),
            cs == sketch.constraints@,
            geometry == sketch.geometry@,
            forall|x: u128| ids@.contains(x) <==> has_id(geometry, x),
            out@ == cs.take(k as int).filter(references_missing(geometry)).map_values(|c: Constraint| c.id),
        decreases cs.len() - k,
    {
        proof {
            assert(cs.take(k + 1) =~= cs.take(k as int).push(cs[k as int]));
            cs.take(k as int).lemma_filter_push(cs[k as int], references_missing(geometry));
        }
        let refs = constraint_refs(&sketch.constraints[k].kind);
        let mut missing = false;
        let mut m: usize = 0;
        while m < refs.len()
            invariant
                m <= refs@.len(),
                refs@ == spec_constraint_refs(cs[k as int].kind),
                forall|x: u128| ids@.contains(x) <==> has_id(geometry, x),
                missing == exists|j: int| 0 <= j < m && !has_id(geometry, #[trigger] refs@[j]),
            decreases refs@.len() - m,
        {
            if !contains_id(&ids, refs[m]) {
                missing = true;
            }
            m = m + 1;
        }
        if missing {
            out.push(sketch.constraints[k].id);
        }
        k = k + 1;
        assert(out@ =~= cs.take(k as int).filter(references_missing(geometry)).map_values(|c: Constraint| c.id));
    }
    assert(cs.take(cs.len() as int) =~= cs);
    out
}

/// What the sketch check found.
#[derive(Debug)]
pub struct SketchReport {
    /// Points no curve runs through.
    pub stray: Vec<u128>,
    /// Constraints on geometry that is gone.
    pub malformed: Vec<u128>,
    /// How many closed profiles there are, or why there is none.
    pub profile: Result<usize, ProfileError>,
}

/// Check the sketch: its stray points, its constraints on missing
/// geometry, and its profile.
pub fn check_sketch(sketch: &Sketch) -> (r: SketchReport)
    ensures
        r.stray@ == sketch.geometry@.filter(orphan(sketch.geometry@)).map_values(id_of()),
        r.malformed@ == sketch.constraints@.filter(references_missing(sketch.geometry@)).map_values(
            |c: Constraint| c.id,
        ),
        r.profile is Ok <==> has_profile(*sketch),
        match r.profile {
            Ok(n) => exists|wires: Seq<crate::profile::Wire>| wires.len() == n && crate::profile::wires_of(*sketch, wires),
            Err(e) => extract_wires_fails_with(*sketch, e),
        },
{
    let stray = sketch.orphan_point_ids();
    let malformed = malformed_constraints(sketch);
    let profile = match extract_wires(sketch) {
        Ok(wires) => Ok(wires.len()),
        Err(e) => Err(e),
    };
    SketchReport { stray, malformed, profile }
}

/// What `extract_wires` says of an error it gives.
pub open spec fn extract_wires_fails_with(sketch: Sketch, e: ProfileError) -> bool {
    let geometry = sketch.geometry@;
    match e {
        ProfileError::MissingPoint(p) => crate::profile::first_missing_in(sketch, geometry) == Some(p),
        ProfileError::Empty => {
            &&& crate::profile::first_missing_in(sketch, geometry) is None
            &&& crate::profile::edges_in(sketch, geometry).len() == 0
            &&& crate::profile::closed_in(sketch, geometry).len() == 0
        },
        ProfileError::OpenAt(p) => {
            &&& crate::profile::first_missing_in(sketch, geometry) is None
            &&& crate::profile::degree(crate::profile::edges_in(sketch, geometry), p) == 1
        },
        ProfileError::BranchingAt(p) => {
            &&& crate::profile::first_missing_in(sketch, geometry) is None
            &&& crate::profile::degree(crate::profile::edges_in(sketch, geometry), p) >= 3
        },
    }
}

/// The finding on the profile, in words.
pub open spec fn spec_profile_words(profile: Result<usize, ProfileError>) -> Seq<char> {
    match profile {
        Ok(n) => decimal_text(n as nat) + " closed profile(s)"@,
        Err(ProfileError::Empty) => "no closed profile"@,
        Err(ProfileError::OpenAt(_)) => "an open profile"@,
        Err(ProfileError::BranchingAt(_)) => "a branching profile"@,
        Err(ProfileError::MissingPoint(_)) => "a curve missing its point"@,
    }
}

/// The check's log line: `Sketch check: ` and its findings, separated by
/// commas: the stray points and the malformed constraints where there are
/// any, then the profile.
pub open spec fn spec_report_text(stray: nat, malformed: nat, profile: Result<usize, ProfileError>) -> Seq<char> {
    let s = if stray > 0 { decimal_text(stray) + " stray point(s), "@ } else { Seq::empty() };
    let m = if malformed > 0 {
        decimal_text(malformed) + " constraint(s) referencing missing geometry, "@
    } else {
        Seq::empty()
    };
    "Sketch check: "@ + s + m + spec_profile_words(profile)
}

/// The check's log line.
pub fn report_text(report: &SketchReport) -> (s: String)
    ensures
        s@ == spec_report_text(report.stray@.len(), report.malformed@.len(), report.profile),
{
    let mut s = String::from_str("Sketch check: ");
    proof {
        reveal_strlit("Sketch check: ");
    }
    let ghost start = s@;
    if report.stray.len() > 0 {
        append_str(&mut s, decimal(report.stray.len() as u64).as_str());
        append_str(&mut s, " stray point(s), ");
    }
    let ghost after_stray = s@;
    if report.malformed.len() > 0 {
        append_str(&mut s, decimal(report.malformed.len() as u64).as_str());
        append_str(&mut s, " constraint(s) referencing missing geometry, ");
    }
    match report.profile {
        Ok(n) => {
            append_str(&mut s, decimal(n as u64).as_str());
            append_str(&mut s, " closed profile(s)");
        },
        Err(ProfileError::Empty) => append_str(&mut s, "no closed profile"),
        Err(ProfileError::OpenAt(_)) => append_str(&mut s, "an open profile"),
        Err(ProfileError::BranchingAt(_)) => append_str(&mut s, "a branching profile"),
        Err(ProfileError::MissingPoint(_)) => append_str(&mut s, "a curve missing its point"),
    }
    assert(s@ =~= spec_report_text(report.stray@.len(), report.malformed@.len(), report.profile));
    s
}

/// What toggling construction on `ids` does to the flags: each id of an
/// element flips, the rest stay.
pub open spec fn toggled(construction: Set<u128>, geometry: Seq<crate::sketch::GeometryElement>, ids: Seq<u128>) -> Set<u128> {
    Set::new(
        |x: u128|
            if ids.contains(x) && has_id(geometry, x) {
                !construction.contains(x)
            } else {
                construction.contains(x)
            },
    )
}

/// Keeps an element id whose flag is `was` (which a toggle flips).
pub open spec fn flips(geometry: Seq<crate::sketch::GeometryElement>, construction: Set<u128>, was: bool) -> spec_fn(u128) -> bool {
    |x: u128| has_id(geometry, x) && construction.contains(x) == was
}

/// Flip the construction flag of each selected element (ids that are no
/// element are passed over); a mixed selection ends up mixed the other
/// way. The ids turned on and those turned off, in the order given.
pub fn toggle_construction(sketch: &mut Sketch, ids: &Vec<u128>) -> (r: (Vec<u128>, Vec<u128>))
    requires
        ids@.no_duplicates(),
    ensures
        final(sketch).construction@ == toggled(old(sketch).construction@, old(sketch).geometry@, ids@),
        r.0@ == ids@.filter(flips(old(sketch).geometry@, old(sketch).construction@, false)),
        r.1@ == ids@.filter(flips(old(sketch).geometry@, old(sketch).construction@, true)),
        final(sketch).geometry@ == old(sketch).geometry@,
        final(sketch).constraints@ == old(sketch).constraints@,
        final(sketch).external@ == old(sketch).external@,
        final(sketch).id == old(sketch).id,
        final(sketch).name@ == old(sketch).name@,
        final(sketch).is_fully_constrained == old(sketch).is_fully_constrained,
        final(sketch).plane == old(sketch).plane,
{
    let ghost c0 = old(sketch).construction@;
    let ghost g = old(sketch).geometry@;
    let ghost turn_on = flips(g, c0, false);
    let ghost turn_off = flips(g, c0, true);
    let mut on: Vec<u128> = Vec::new();
    let mut off: Vec<u128> = Vec::new();
    let mut i: usize = 0;
    while i < ids.len()
        invariant
            i <= ids@.len(),
            ids@.no_duplicates(),
            sketch.geometry@ == g,
            sketch.constraints@ == old(sketch).constraints@,
            sketch.external@ == old(sketch).external@,
            sketch.id == old(sketch).id,
            sketch.name@ == old(sketch).name@,
            sketch.is_fully_constrained == old(sketch).is_fully_constrained,
            sketch.plane == old(sketch).plane,
            sketch.construction@ == toggled(c0, g, ids@.take(i as int)),
            turn_on == flips(g, c0, false),
            turn_off == flips(g, c0, true),
            on@ == ids@.take(i as int).filter(turn_on),
            off@ == ids@.take(i as int).filter(turn_off),
        decreases ids@.len() - i,
    {
        let id = ids[i];
        proof {
            assert(ids@.take(i + 1) =~= ids@.take(i as int).push(id));
            ids@.take(i as int).lemma_filter_push(id, turn_on);
            ids@.take(i as int).lemma_filter_push(id, turn_off);
            assert(!ids@.take(i as int).contains(id)) by {
                if ids@.take(i as int).contains(id) {
                    let j = choose|j: int| 0 <= j < i && ids@.take(i as int)[j] == id;
                    assert(ids@[j] == ids@[i as int]);
                }
            }
        }
        proof {
            assert(sketch.construction@.contains(id) == c0.contains(id));
        }
        if sketch.get_geometry(id).is_some() {
            proof {
                crate::sketch::lemma_lookup_found(g, id);
            }
            let flag = !sketch.is_construction(id);
            sketch.set_construction(id, flag);
            if flag {
                on.push(id);
            } else {
                off.push(id);
            }
        }
        assert(turn_on(id) == (has_id(g, id) && !c0.contains(id)));
        assert(turn_off(id) == (has_id(g, id) && c0.contains(id)));
        assert(on@ =~= ids@.take(i + 1).filter(turn_on));
        assert(off@ =~= ids@.take(i + 1).filter(turn_off));
        i = i + 1;
        assert(sketch.construction@ =~= toggled(c0, g, ids@.take(i as int)));
    }
    assert(ids@.take(ids@.len() as int) =~= ids@);
    (on, off)
}

} // verus!
