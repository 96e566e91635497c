//! Constraint glyphs: what each draws, in which tone, and the index that
//! tells apart several relations of one kind. Where the glyphs land on the
//! screen is measured by the caller.

use std::collections::HashSet;
use vstd::prelude::*;
use vstd::std_specs::hash::*;

use crate::sketch::{Constraint, ConstraintKind};
use crate::style::{constraint_icon, spec_constraint_icon};
use crate::text::str_eq;

verus! {

broadcast use vstd::std_specs::hash::group_hash_axioms;

/// What a glyph draws.
#[derive(Debug, Clone, PartialEq, Eq)]
pub enum GlyphVisual {
    /// A dimension value in a pill.
    Pill { text: String },
    /// A constraint icon, with an index suffix when several of the same
    /// relational kind exist.
    Icon { name: &'static str, suffix: Option<usize> },
}

/// One drawn constraint glyph (dimension label or symbol) and the lines
/// that belong to it; positions in viewport pixels and the colour as the
/// bit patterns of their `f32`s.
#[derive(Debug, Clone)]
pub struct Glyph {
    pub constraint: u128,
    pub dimensional: bool,
    /// Label centre.
    pub pos: [u32; 2],
    /// The constrained element's anchor (where a leader line goes).
    pub anchor: [u32; 2],
    pub visual: GlyphVisual,
    pub color: [u32; 3],
    /// Dimension, extension and leader lines.
    pub lines: Vec<([u32; 2], [u32; 2])>,
}

impl Glyph {
    /// The text a pill shows; empty for icons.
    pub fn text(&self) -> (s: &str)
        ensures
            s@ == match self.visual {
                GlyphVisual::Pill { text } => text@,
                GlyphVisual::Icon { .. } => Seq::<char>::empty(),
            },
    {
        match &self.visual {
            GlyphVisual::Pill { text } => text.as_str(),
            GlyphVisual::Icon { .. } => {
                proof {
                    reveal_strlit("");
                }
                ""
            },
        }
    }
}

/// The two elements a relation between two elements joins, each marked
/// with its glyph.
pub open spec fn spec_pair_refs(kind: ConstraintKind) -> Option<(u128, u128)> {
    match kind {
        ConstraintKind::Parallel { line1, line2 } => Some((line1, line2)),
        ConstraintKind::Perpendicular { line1, line2 } => Some((line1, line2)),
        ConstraintKind::EqualLength { line1, line2 } => Some((line1, line2)),
        ConstraintKind::EqualRadius { circle1, circle2 } => Some((circle1, circle2)),
        ConstraintKind::Tangent { line_or_circle1, item2 } => Some((line_or_circle1, item2)),
        _ => None,
    }
}

/// The two elements a relation between two elements joins.
pub fn pair_refs(kind: &ConstraintKind) -> (r: Option<[u128; 2]>)
    ensures
        match (r, spec_pair_refs(*kind)) {
            (Some(a), Some((x, y))) => a@ == seq![x, y],
            (None, None) => true,
            _ => false,
        },
{
    let r = match *kind {
        ConstraintKind::Parallel { line1, line2 } => Some([line1, line2]),
        ConstraintKind::Perpendicular { line1, line2 } => Some([line1, line2]),
        ConstraintKind::EqualLength { line1, line2 } => Some([line1, line2]),
        ConstraintKind::EqualRadius { circle1, circle2 } => Some([circle1, circle2]),
        ConstraintKind::Tangent { line_or_circle1, item2 } => Some([line_or_circle1, item2]),
        _ => None,
    };
    proof {
        if let Some(a) = r {
            assert(a@ =~= seq![a[0], a[1]]);
        }
    }
    r
}

/// How many of the first `n` constraints are relations between two
/// elements drawn with `icon`.
pub open spec fn pairs_with_icon(cs: Seq<Constraint>, icon: Seq<char>, n: int) -> int
    decreases n,
{
    if n <= 0 {
        0
    } else {
        pairs_with_icon(cs, icon, n - 1) + if spec_pair_refs(cs[n - 1].kind) is Some && spec_constraint_icon(
            cs[n - 1].kind,
        ) == icon {
            1int
        } else {
            0int
        }
    }
}

/// The index suffix of constraint `i`'s glyphs: relations between two
/// elements of one icon are numbered from 1 in sketch order, when there
/// are several of them.
pub open spec fn spec_suffix(cs: Seq<Constraint>, i: int) -> Option<usize> {
    let icon = spec_constraint_icon(cs[i].kind);
    if spec_pair_refs(cs[i].kind) is Some && pairs_with_icon(cs, icon, cs.len() as int) > 1 {
        Some(pairs_with_icon(cs, icon, i + 1) as usize)
    } else {
        None
    }
}

proof fn lemma_pairs_bounds(cs: Seq<Constraint>, icon: Seq<char>, m: int, n: int)
    requires
        0 <= m <= n <= cs.len(),
    ensures
        0 <= pairs_with_icon(cs, icon, m) <= pairs_with_icon(cs, icon, n) <= n,
        pairs_with_icon(cs, icon, n) - pairs_with_icon(cs, icon, m) <= n - m,
    decreases n,
{
    if n > m {
        lemma_pairs_bounds(cs, icon, m, n - 1);
    } else if n > 0 {
        lemma_pairs_bounds(cs, icon, n - 1, n - 1);
    }
}

/// How many of the first `n` constraints are pairs drawn with `icon`.
fn count_pairs(cs: &Vec<Constraint>, icon: &str, n: usize) -> (c: usize)
    requires
        n <= cs@.len(),
    ensures
        c == pairs_with_icon(cs@, icon@, n as int),
{
    let mut c: usize = 0;
    let mut k: usize = 0;
    while k < n
        invariant
            k <= n <= cs@.len(),
            c == pairs_with_icon(cs@, icon@, k as int),
        decreases n - k,
    {
        proof {
            lemma_pairs_bounds(cs@, icon@, k as int, k as int);
        }
        if pair_refs(&cs[k].kind).is_some() && str_eq(constraint_icon(&cs[k].kind), icon) {
            c = c + 1;
        }
        k = k + 1;
    }
    c
}

/// The index suffix of every constraint's glyphs, in sketch order:
/// relations between two elements that share an icon are numbered 1, 2,
/// ... when there are several of them; everything else has none.
pub fn icon_suffixes(cs: &Vec<Constraint>) -> (v: Vec<Option<usize>>)
    ensures
        v@.len() == cs@.len(),
        forall|i: int| 0 <= i < cs@.len() ==> #[trigger] v@[i] == spec_suffix(cs@, i),
{
    let mut v: Vec<Option<usize>> = Vec::new();
    let mut i: usize = 0;
    while i < cs.len()
        invariant
            i <= cs@.len(),
            v@.len() == i,
            forall|j: int| 0 <= j < i ==> #[trigger] v@[j] == spec_suffix(cs@, j),
        decreases cs@.len() - i,
    {
        let icon = constraint_icon(&cs[i].kind);
        let s = if pair_refs(&cs[i].kind).is_some() && count_pairs(cs, icon, cs.len()) > 1 {
            Some(count_pairs(cs, icon, i + 1))
        } else {
            None
        };
        v.push(s);
        i = i + 1;
    }
    v
}

/// Law: the relations of one icon are numbered 1 to their count, in
/// sketch order, each number once.
pub proof fn law_suffixes_number_in_order(cs: Seq<Constraint>, i: int, j: int)
    requires
        0 <= i < j < cs.len() <= usize::MAX,
        spec_pair_refs(cs[i].kind) is Some,
        spec_pair_refs(cs[j].kind) is Some,
        spec_constraint_icon(cs[i].kind) == spec_constraint_icon(cs[j].kind),
        pairs_with_icon(cs, spec_constraint_icon(cs[i].kind), cs.len() as int) > 1,
    ensures
        spec_suffix(cs, i) matches Some(a) && spec_suffix(cs, j) matches Some(b) && 1 <= a < b
            <= pairs_with_icon(cs, spec_constraint_icon(cs[i].kind), cs.len() as int),
{
    let icon = spec_constraint_icon(cs[i].kind);
    lemma_pairs_bounds(cs, icon, i, i + 1);
    lemma_pairs_bounds(cs, icon, i + 1, j);
    lemma_pairs_bounds(cs, icon, j, j + 1);
    lemma_pairs_bounds(cs, icon, j + 1, cs.len() as int);
    lemma_pairs_bounds(cs, icon, 0, cs.len() as int);
    assert(pairs_with_icon(cs, icon, i + 1) == pairs_with_icon(cs, icon, i) + 1);
    assert(pairs_with_icon(cs, icon, j + 1) == pairs_with_icon(cs, icon, j) + 1);
}

/// The tone a constraint's glyph takes, in order of precedence.
#[derive(Debug, Clone, Copy, PartialEq, Eq)]
pub enum GlyphTone {
    Selected,
    Inactive,
    /// A reference (driven) dimension.
    Reference,
    /// A dimension a formula sets.
    Formula,
    Constraint,
}

pub open spec fn spec_glyph_tone(c: Constraint, selected: Set<u128>, bound: Set<u128>) -> GlyphTone {
    if selected.contains(c.id) {
        GlyphTone::Selected
    } else if !c.active {
        GlyphTone::Inactive
    } else if c.kind.spec_is_dimensional() && !c.driving {
        GlyphTone::Reference
    } else if bound.contains(c.id) {
        GlyphTone::Formula
    } else {
        GlyphTone::Constraint
    }
}

/// The tone of a constraint's glyph: selected first, then inactive, a
/// reference dimension, one a formula sets, else the plain constraint
/// tone.
pub fn glyph_tone(c: &Constraint, selected: &HashSet<u128>, bound: &HashSet<u128>) -> (t: GlyphTone)
    ensures
        t == spec_glyph_tone(*c, selected@, bound@),
{
    if selected.contains(&c.id) {
        GlyphTone::Selected
    } else if !c.active {
        GlyphTone::Inactive
    } else if c.kind.is_dimensional() && !c.driving {
        GlyphTone::Reference
    } else if bound.contains(&c.id) {
        GlyphTone::Formula
    } else {
        GlyphTone::Constraint
    }
}

} // verus!
