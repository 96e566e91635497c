//! A sketch's dimensions as formulas set and read them: which constraints
//! are parameters, under what name and label, and where in the stored
//! sketch their value sits.

use vstd::prelude::*;

use crate::sketch::{
    constraint_label, is_angular, spec_constraint_label, spec_is_angular, spec_stored_value, stored_value,
    Constraint, ConstraintKind,
};
use crate::text::{append_str, decimal, decimal_text};

verus! {

broadcast use vstd::seq_lib::group_seq_properties;

pub open spec fn spec_value_field(kind: ConstraintKind) -> Option<(Seq<char>, Seq<char>)> {
    match kind {
        ConstraintKind::Length { .. } => Some(("Length"@, "length"@)),
        ConstraintKind::Radius { .. } => Some(("Radius"@, "radius"@)),
        ConstraintKind::Diameter { .. } => Some(("Diameter"@, "diameter"@)),
        ConstraintKind::Distance { .. } => Some(("Distance"@, "distance"@)),
        ConstraintKind::DistanceX { .. } => Some(("DistanceX"@, "value"@)),
        ConstraintKind::DistanceY { .. } => Some(("DistanceY"@, "value"@)),
        ConstraintKind::Angle { .. } => Some(("Angle"@, "angle_rad"@)),
        ConstraintKind::AngleToAxis { .. } => Some(("AngleToAxis"@, "angle_rad"@)),
        _ => None,
    }
}

/// The variant of a dimensional kind and the field of it that holds its
/// value, as the sketch is stored.
pub fn value_field(kind: &ConstraintKind) -> (r: Option<(&'static str, &'static str)>)
    ensures
        match (r, spec_value_field(*kind)) {
            (Some((v, f)), Some((sv, sf))) => v@ == sv && f@ == sf,
            (None, None) => true,
            _ => false,
        },
{
    match kind {
        ConstraintKind::Length { .. } => Some(("Length", "length")),
        ConstraintKind::Radius { .. } => Some(("Radius", "radius")),
        ConstraintKind::Diameter { .. } => Some(("Diameter", "diameter")),
        ConstraintKind::Distance { .. } => Some(("Distance", "distance")),
        ConstraintKind::DistanceX { .. } => Some(("DistanceX", "value")),
        ConstraintKind::DistanceY { .. } => Some(("DistanceY", "value")),
        ConstraintKind::Angle { .. } => Some(("Angle", "angle_rad")),
        ConstraintKind::AngleToAxis { .. } => Some(("AngleToAxis", "angle_rad")),
        _ => None,
    }
}

/// A driving dimension as a parameter.
#[derive(Debug, Clone, PartialEq, Eq)]
pub struct ParameterEntry {
    /// The constraint's id, which keeps the formula with its dimension.
    pub key: u128,
    /// The name formulas read it by, where the user gave a valid one.
    pub name: Option<String>,
    /// What the parameter list shows: the name, else the kind's label.
    pub label: String,
    /// Where the value sits in the stored sketch.
    pub pointer: String,
    /// An angle (set in degrees, stored in radians) rather than a length.
    pub angular: bool,
}

/// Where constraint `i`'s value sits in the stored sketch.
pub open spec fn value_pointer(i: nat, variant: Seq<char>, field: Seq<char>) -> Seq<char> {
    "/sketch/constraints/"@ + decimal_text(i) + "/kind/"@ + variant + "/"@ + field
}

/// Whether constraint `c` is a parameter: a driving dimension.
pub open spec fn is_parameter(c: Constraint) -> bool {
    c.driving && spec_stored_value(c.kind) is Some
}

/// The parameter entry of constraint `i`, `c`, given whether its name is
/// one formulas can read (`valid`).
pub open spec fn spec_entry(i: nat, c: Constraint, valid: bool) -> (Option<Seq<char>>, Seq<char>, Seq<char>, bool) {
    let name = match c.name {
        Some(n) => if valid { Some(n@) } else { None },
        None => None,
    };
    let (variant, field) = spec_value_field(c.kind)->0;
    (
        name,
        match name {
            Some(n) => n,
            None => spec_constraint_label(c.kind),
        },
        value_pointer(i, variant, field),
        spec_is_angular(c.kind),
    )
}

/// What `is_valid_name` said of the constraint's name, `valid`, where it
/// has one.
pub open spec fn name_judged<F: Fn(&str) -> bool>(c: Constraint, is_valid_name: F, valid: bool) -> bool {
    c.name matches Some(n) ==> exists|s: &str| s@ == n@ && #[trigger] is_valid_name.ensures((s,), valid)
}

/// `e` is the entry of constraint `i`, `c`, for what `is_valid_name`
/// said of its name.
pub open spec fn entry_of<F: Fn(&str) -> bool>(i: nat, c: Constraint, e: ParameterEntry, is_valid_name: F) -> bool {
    exists|valid: bool|
        #[trigger] name_judged(c, is_valid_name, valid) && spec_entry(i, c, valid) == (
            match e.name {
                Some(n) => Some(n@),
                None => None,
            },
            e.label@,
            e.pointer@,
            e.angular,
        )
}

/// The indices of the parameters among the first `n` constraints.
pub open spec fn parameter_indices(cs: Seq<Constraint>, n: int) -> Seq<int>
    decreases n,
{
    if n <= 0 {
        Seq::empty()
    } else if is_parameter(cs[n - 1]) {
        parameter_indices(cs, n - 1).push(n - 1)
    } else {
        parameter_indices(cs, n - 1)
    }
}

/// The sketch's driving dimensions as parameters, in constraint order. A
/// name counts only where `is_valid_name` accepts it (a name a formula
/// can spell); an unnamed dimension can be set but not read.
pub fn parameter_entries<F: Fn(&str) -> bool>(constraints: &Vec<Constraint>, is_valid_name: F) -> (out: Vec<ParameterEntry>)
    requires
        forall|s: &str| is_valid_name.requires((s,)),
    ensures
        out@.len() == parameter_indices(constraints@, constraints@.len() as int).len(),
        forall|k: int| 0 <= k < out@.len() ==> {
            let i = parameter_indices(constraints@, constraints@.len() as int)[k];
            let c = constraints@[i];
            let e = #[trigger] out@[k];
            &&& 0 <= i < constraints@.len()
            &&& e.key == c.id
            &&& entry_of(i as nat, c, e, is_valid_name)
        },
{
    let mut out: Vec<ParameterEntry> = Vec::new();
    let mut i: usize = 0;
    while i < constraints.len()
        invariant
            i <= constraints@.len(),
            forall|s: &str| is_valid_name.requires((s,)),
            out@.len() == parameter_indices(constraints@, i as int).len(),
            forall|k: int| 0 <= k < out@.len() ==> {
                let j = parameter_indices(constraints@, i as int)[k];
                let c = constraints@[j];
                let e = #[trigger] out@[k];
                &&& 0 <= j < i
                &&& e.key == c.id
                &&& entry_of(j as nat, c, e, is_valid_name)
            },
        decreases constraints@.len() - i,
    {
        let c = &constraints[i];
        if c.driving && stored_value(&c.kind).is_some() {
            let (variant, field) = match value_field(&c.kind) {
                Some(vf) => vf,
                None => {
                    proof {
                        assert(false);
                    }
                    ("", "")
                },
            };
            let ghost mut valid = false;
            let name: Option<String> = match &c.name {
                Some(n) => {
                    let ok = is_valid_name(n.as_str());
                    proof {
                        valid = ok;
                    }
                    if ok {
                        Some(n.clone())
                    } else {
                        None
                    }
                },
                None => None,
            };
            let label = match &name {
                Some(n) => n.clone(),
                None => constraint_label(&c.kind),
            };
            let mut pointer = String::from_str("/sketch/constraints/");
            proof {
                reveal_strlit("/sketch/constraints/");
            }
            append_str(&mut pointer, decimal(i as u64).as_str());
            append_str(&mut pointer, "/kind/");
            append_str(&mut pointer, variant);
            append_str(&mut pointer, "/");
            append_str(&mut pointer, field);
            let e = ParameterEntry { key: c.id, name, label, pointer, angular: is_angular(&c.kind) };
            let ghost before = out@;
            out.push(e);
            proof {
                assert(spec_entry(i as nat, *c, valid).2 =~= e.pointer@);
                assert forall|k: int| 0 <= k < out@.len() implies {
                    let j = parameter_indices(constraints@, i + 1)[k];
                    let c = constraints@[j];
                    let e = #[trigger] out@[k];
                    &&& 0 <= j < i + 1
                    &&& e.key == c.id
                    &&& entry_of(j as nat, c, e, is_valid_name)
                } by {
                    if k < before.len() {
                        assert(out@[k] == before[k]);
                    } else {
                        assert(name_judged(*c, is_valid_name, valid));
                        assert(spec_entry(i as nat, *c, valid) == (
                            match e.name {
                                Some(n) => Some(n@),
                                None => None,
                            },
                            e.label@,
                            e.pointer@,
                            e.angular,
                        ));
                    }
                }
            }
        }
        i = i + 1;
    }
    out
}

} // verus!
