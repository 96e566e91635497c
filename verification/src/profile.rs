//! Closed profile wires from sketch geometry, for solid features (pad,
//! pocket).
//!
//! Curves are stitched into loops through their shared point ids: endpoint
//! snapping reuses point elements, so a profile that looks closed is
//! closed here with no coincidence tolerance.

use vstd::prelude::*;

use crate::sketch::{
    has_id, is_first_with_id, lemma_first_with_id_exists, lookup, well_formed, GeometryElement, Sketch,
};

verus! {

broadcast use vstd::seq_lib::group_seq_properties;

/// One piece of a wire: a curve that closes on itself (a circle, an
/// ellipse, a periodic spline), or an edge between two point ids (a line,
/// an arc, an open spline), as the element stores them.
#[derive(Debug, Clone, Copy, PartialEq, Eq)]
pub enum Segment {
    Closed { element: u128 },
    Edge { element: u128, start: u128, end: u128 },
}

/// A closed wire: the segments in the order they are walked.
#[derive(Debug, Clone, PartialEq, Eq)]
pub struct Wire {
    pub segments: Vec<Segment>,
}

/// Why a sketch holds no profile.
#[derive(Debug, Clone, Copy, PartialEq, Eq)]
pub enum ProfileError {
    /// The sketch has no closed geometry to extrude.
    Empty,
    /// A curve endpoint is used by only one curve: the loop never closes.
    OpenAt(u128),
    /// More than two curves meet at one point: the loop is ambiguous.
    BranchingAt(u128),
    /// A curve references a missing point element.
    MissingPoint(u128),
}

impl ProfileError {
    pub open spec fn spec_message(self) -> Seq<char> {
        match self {
            ProfileError::Empty => "sketch contains no closed profile"@,
            ProfileError::OpenAt(_) => "profile is not closed (open endpoint)"@,
            ProfileError::BranchingAt(_) => "profile branches (more than two curves share a point)"@,
            ProfileError::MissingPoint(_) => "curve references a missing point"@,
        }
    }

    /// What the error says to the user.
    pub fn message(&self) -> (s: &'static str)
        ensures
            s@ == self.spec_message(),
    {
        match self {
            ProfileError::Empty => "sketch contains no closed profile",
            ProfileError::OpenAt(_) => "profile is not closed (open endpoint)",
            ProfileError::BranchingAt(_) => "profile branches (more than two curves share a point)",
            ProfileError::MissingPoint(_) => "curve references a missing point",
        }
    }
}

/// Whether the element `id` is left out of profiles: construction geometry,
/// and geometry projected from a solid.
pub open spec fn left_out(sketch: Sketch, id: u128) -> bool {
    sketch.construction@.contains(id) || sketch.external@.contains_key(id)
}

/// The edge an element adds to the endpoint graph, if any.
pub open spec fn edge_of(sketch: Sketch, g: GeometryElement) -> Option<Segment> {
    if left_out(sketch, g.spec_id()) {
        None
    } else {
        match g {
            GeometryElement::Line(l) => Some(Segment::Edge { element: l.id, start: l.start, end: l.end }),
            GeometryElement::Arc(a) => Some(Segment::Edge { element: a.id, start: a.start, end: a.end }),
            GeometryElement::BSpline(b) => if b.control_points@.len() >= 2 && !b.periodic {
                Some(
                    Segment::Edge {
                        element: b.id,
                        start: b.control_points@[0],
                        end: b.control_points@.last(),
                    },
                )
            } else {
                None
            },
            _ => None,
        }
    }
}

/// The wire an element closes on its own, if any.
pub open spec fn closed_of(sketch: Sketch, g: GeometryElement) -> Option<Segment> {
    if left_out(sketch, g.spec_id()) {
        None
    } else {
        match g {
            GeometryElement::Circle(c) => Some(Segment::Closed { element: c.id }),
            GeometryElement::Ellipse(e) => Some(Segment::Closed { element: e.id }),
            GeometryElement::BSpline(b) => if b.control_points@.len() >= 2 && b.periodic {
                Some(Segment::Closed { element: b.id })
            } else {
                None
            },
            _ => None,
        }
    }
}

/// The point ids an element needs to exist, in the order they are looked
/// up.
pub open spec fn required_points(sketch: Sketch, g: GeometryElement) -> Seq<u128> {
    if left_out(sketch, g.spec_id()) {
        Seq::empty()
    } else {
        match g {
            GeometryElement::Point(_) => Seq::empty(),
            GeometryElement::Circle(c) => seq![c.center],
            GeometryElement::Line(l) => seq![l.start, l.end],
            GeometryElement::Arc(a) => seq![a.center, a.start, a.end],
            GeometryElement::Ellipse(e) => seq![e.center],
            GeometryElement::BSpline(b) => if b.control_points@.len() >= 2 {
                b.control_points@
            } else {
                Seq::empty()
            },
        }
    }
}

/// The edges of a run of geometry, in order.
pub open spec fn edges_in(sketch: Sketch, geometry: Seq<GeometryElement>) -> Seq<Segment>
    decreases geometry.len(),
{
    if geometry.len() == 0 {
        Seq::empty()
    } else {
        edges_in(sketch, geometry.drop_last()) + match edge_of(sketch, geometry.last()) {
            Some(e) => seq![e],
            None => Seq::empty(),
        }
    }
}

/// The self-closing segments of a run of geometry, in order.
pub open spec fn closed_in(sketch: Sketch, geometry: Seq<GeometryElement>) -> Seq<Segment>
    decreases geometry.len(),
{
    if geometry.len() == 0 {
        Seq::empty()
    } else {
        closed_in(sketch, geometry.drop_last()) + match closed_of(sketch, geometry.last()) {
            Some(c) => seq![c],
            None => Seq::empty(),
        }
    }
}

/// The first of `points` with no position in the sketch.
pub open spec fn first_missing_of(sketch: Sketch, points: Seq<u128>) -> Option<u128>
    decreases points.len(),
{
    if points.len() == 0 {
        None
    } else if sketch.position_of(points[0]) is None {
        Some(points[0])
    } else {
        first_missing_of(sketch, points.drop_first())
    }
}

/// The first point, in sketch order, that a profile curve needs and the
/// sketch does not have.
pub open spec fn first_missing_in(sketch: Sketch, geometry: Seq<GeometryElement>) -> Option<u128>
    decreases geometry.len(),
{
    if geometry.len() == 0 {
        None
    } else {
        match first_missing_in(sketch, geometry.drop_last()) {
            Some(p) => Some(p),
            None => first_missing_of(sketch, required_points(sketch, geometry.last())),
        }
    }
}

/// How often `p` is an end of `e`: twice for an edge from `p` to `p`.
pub open spec fn ends_at(e: Segment, p: u128) -> int {
    match e {
        Segment::Edge { start, end, .. } => (if start == p { 1int } else { 0int }) + (if end == p { 1int } else { 0int }),
        Segment::Closed { .. } => 0,
    }
}

/// How many edge ends among the first `n` edges, those `used` marks
/// (all of them when `used` is `None`), sit at `p`.
pub open spec fn ends_among(edges: Seq<Segment>, used: Option<Seq<bool>>, p: u128, n: int) -> int
    decreases n,
{
    if n <= 0 {
        0
    } else {
        ends_among(edges, used, p, n - 1) + match used {
            Some(u) => if u[n - 1] { ends_at(edges[n - 1], p) } else { 0 },
            None => ends_at(edges[n - 1], p),
        }
    }
}

/// The degree of `p` in the endpoint graph.
pub open spec fn degree(edges: Seq<Segment>, p: u128) -> int {
    ends_among(edges, None, p, edges.len() as int)
}

/// Where a walk from `v` along `w` ends: each edge must touch where the
/// walk is and takes it to its other end; `None` when one does not.
pub open spec fn chain_end(w: Seq<Segment>, v: u128) -> Option<u128>
    decreases w.len(),
{
    if w.len() == 0 {
        Some(v)
    } else {
        match chain_end(w.drop_last(), v) {
            Some(u) => match w.last() {
                Segment::Edge { start, end, .. } => if start == u {
                    Some(end)
                } else if end == u {
                    Some(start)
                } else {
                    None
                },
                Segment::Closed { .. } => None,
            },
            None => None,
        }
    }
}

/// A loop: edges walked end to end from the first one's start, back to
/// where it started.
pub open spec fn closes(w: Seq<Segment>) -> bool {
    &&& w.len() > 0
    &&& w[0] is Edge
    &&& chain_end(w, w[0]->start) == Some(w[0]->start)
}

/// The segments of `wires`, one wire after another.
pub open spec fn flatten(wires: Seq<Wire>) -> Seq<Segment>
    decreases wires.len(),
{
    if wires.len() == 0 {
        Seq::empty()
    } else {
        flatten(wires.drop_last()) + wires.last().segments@
    }
}

/// `order` lists `0..n`, each once.
pub open spec fn is_index_permutation(order: Seq<int>, n: int) -> bool {
    &&& order.no_duplicates()
    &&& forall|k: int| #![trigger order.contains(k)] order.contains(k) <==> 0 <= k < n
}

/// The loops cover the edges: each loop closes, and together they hold
/// every edge exactly once.
pub open spec fn loops_cover(loops: Seq<Wire>, edges: Seq<Segment>) -> bool {
    &&& forall|j: int| 0 <= j < loops.len() ==> closes(#[trigger] loops[j].segments@)
    &&& exists|order: Seq<int>|
        is_index_permutation(order, edges.len() as int) && flatten(loops) == order.map_values(
            |k: int| edges[k],
        )
}


/// The edges `idx` picks out of `edges`, in its order.
pub open spec fn edges_at(edges: Seq<Segment>, idx: Seq<int>) -> Seq<Segment> {
    idx.map_values(|k: int| edges[k])
}

/// The point a walk along the edges `idx` (indices into `edges`) reaches
/// from `start`.
pub open spec fn reached(edges: Seq<Segment>, idx: Seq<int>, start: u128) -> u128 {
    match chain_end(edges_at(edges, idx), start) {
        Some(p) => p,
        None => start,
    }
}

/// A loop walked as the edges come: its edges `idx` start at the first
/// edge not in `prior` (the edges walked before it), from that edge's
/// start, and each next edge is the first not walked yet that meets the
/// point the walk has reached.
pub open spec fn walked_from(edges: Seq<Segment>, idx: Seq<int>, prior: Seq<int>) -> bool {
    &&& idx.len() > 0
    &&& forall|k: int| 0 <= k < idx[0] ==> #[trigger] prior.contains(k)
    &&& forall|t: int, k: int|
        #![trigger edges[k], idx[t]]
        1 <= t < idx.len() && 0 <= k < idx[t] && !prior.contains(k) && !idx.take(t).contains(k) ==> ends_at(
            edges[k],
            reached(edges, idx.take(t), edges[idx[0]]->start),
        ) == 0
}

/// The edge indices of a run of loops, one loop after another.
pub open spec fn index_concat(s: Seq<Seq<int>>) -> Seq<int>
    decreases s.len(),
{
    if s.len() == 0 {
        Seq::empty()
    } else {
        index_concat(s.drop_last()) + s.last()
    }
}

/// The loops walk the edges in their order, each edge once: each loop from
/// the first edge no loop before it walked, and within a loop each edge the first one
/// left that meets the point the walk has reached.
pub open spec fn walked_in_order(loops: Seq<Wire>, edges: Seq<Segment>) -> bool {
    exists|idx: Seq<Seq<int>>|
        idx.len() == loops.len() && is_index_permutation(index_concat(idx), edges.len() as int) && forall|j: int|
            0 <= j < loops.len() ==> (#[trigger] loops[j]).segments@ == edges_at(edges, idx[j])
                && walked_from(edges, idx[j], index_concat(idx.take(j)))
}

/// Skipping points that are all there leaves the first missing one the
/// same.
proof fn lemma_first_missing_skip(sketch: Sketch, points: Seq<u128>, k: int)
    requires
        0 <= k <= points.len(),
        forall|j: int| 0 <= j < k ==> (#[trigger] sketch.position_of(points[j])) is Some,
    ensures
        first_missing_of(sketch, points) == first_missing_of(sketch, points.skip(k)),
    decreases k,
{
    if k > 0 {
        lemma_first_missing_skip(sketch, points, k - 1);
        let rest = points.skip(k - 1);
        assert(rest[0] == points[k - 1]);
        assert(rest.drop_first() =~= points.skip(k));
    } else {
        assert(points.skip(0) =~= points);
    }
}

/// Once a point is found missing, it stays the first one missing.
proof fn lemma_missing_persists(sketch: Sketch, geometry: Seq<GeometryElement>, k: int, p: u128)
    requires
        0 <= k <= geometry.len(),
        first_missing_in(sketch, geometry.take(k)) == Some(p),
    ensures
        first_missing_in(sketch, geometry) == Some(p),
    decreases geometry.len() - k,
{
    if k < geometry.len() {
        assert(geometry.take(k + 1).drop_last() =~= geometry.take(k));
        lemma_missing_persists(sketch, geometry, k + 1, p);
    } else {
        assert(geometry.take(k) =~= geometry);
    }
}

/// The first of `points` the sketch has no position for.
fn first_missing(sketch: &Sketch, points: &Vec<u128>) -> (r: Option<u128>)
    ensures
        r == first_missing_of(*sketch, points@),
{
    let mut k: usize = 0;
    while k < points.len()
        invariant
            k <= points@.len(),
            forall|j: int| 0 <= j < k ==> (#[trigger] sketch.position_of(points@[j])) is Some,
        decreases points@.len() - k,
    {
        if sketch.point_position(points[k]).is_none() {
            proof {
                lemma_first_missing_skip(*sketch, points@, k as int);
            }
            return Some(points[k]);
        }
        k = k + 1;
    }
    proof {
        lemma_first_missing_skip(*sketch, points@, k as int);
    }
    None
}

/// Whether the element `id` is left out of profiles.
fn is_left_out(sketch: &Sketch, id: u128) -> (b: bool)
    ensures
        b == left_out(*sketch, id),
{
    sketch.is_construction(id) || sketch.external.contains_key(&id)
}

/// The point ids an element needs.
fn required(sketch: &Sketch, g: &GeometryElement) -> (v: Vec<u128>)
    ensures
        v@ == required_points(*sketch, *g),
{
    if is_left_out(sketch, g.id()) {
        return Vec::new();
    }
    let v = match g {
        GeometryElement::Point(_) => Vec::new(),
        GeometryElement::Circle(c) => vec![c.center],
        GeometryElement::Line(l) => vec![l.start, l.end],
        GeometryElement::Arc(a) => vec![a.center, a.start, a.end],
        GeometryElement::Ellipse(e) => vec![e.center],
        GeometryElement::BSpline(b) => if b.control_points.len() >= 2 {
            crate::sketch::copy_ids(&b.control_points)
        } else {
            Vec::new()
        },
    };
    assert(v@ =~= required_points(*sketch, *g));
    v
}

/// The edge an element adds, if any.
fn exec_edge_of(sketch: &Sketch, g: &GeometryElement) -> (r: Option<Segment>)
    ensures
        r == edge_of(*sketch, *g),
{
    if is_left_out(sketch, g.id()) {
        return None;
    }
    match g {
        GeometryElement::Line(l) => Some(Segment::Edge { element: l.id, start: l.start, end: l.end }),
        GeometryElement::Arc(a) => Some(Segment::Edge { element: a.id, start: a.start, end: a.end }),
        GeometryElement::BSpline(b) => if b.control_points.len() >= 2 && !b.periodic {
            Some(
                Segment::Edge {
                    element: b.id,
                    start: b.control_points[0],
                    end: b.control_points[b.control_points.len() - 1],
                },
            )
        } else {
            None
        },
        _ => None,
    }
}

/// The self-closing segment an element is, if any.
fn exec_closed_of(sketch: &Sketch, g: &GeometryElement) -> (r: Option<Segment>)
    ensures
        r == closed_of(*sketch, *g),
{
    if is_left_out(sketch, g.id()) {
        return None;
    }
    match g {
        GeometryElement::Circle(c) => Some(Segment::Closed { element: c.id }),
        GeometryElement::Ellipse(e) => Some(Segment::Closed { element: e.id }),
        GeometryElement::BSpline(b) => if b.control_points.len() >= 2 && b.periodic {
            Some(Segment::Closed { element: b.id })
        } else {
            None
        },
        _ => None,
    }
}

/// The wires of self-closing curves, and the edges of the rest: or the
/// first point a curve needs that is missing.
fn gather(sketch: &Sketch) -> (r: Result<(Vec<Wire>, Vec<Segment>), ProfileError>)
    ensures
        match r {
            Err(e) => first_missing_in(*sketch, sketch.geometry@) matches Some(p) && e == ProfileError::MissingPoint(p),
            Ok((wires, edges)) => {
                &&& first_missing_in(*sketch, sketch.geometry@) is None
                &&& edges@ == edges_in(*sketch, sketch.geometry@)
                &&& wires@.len() == closed_in(*sketch, sketch.geometry@).len()
                &&& forall|j: int| 0 <= j < wires@.len() ==> (#[trigger] wires@[j]).segments@ == seq![
                    closed_in(*sketch, sketch.geometry@)[j],
                ]
            },
        },
{
    let ghost geometry = sketch.geometry@;
    let mut wires: Vec<Wire> = Vec::new();
    let mut edges: Vec<Segment> = Vec::new();
    let mut i: usize = 0;
    while i < sketch.geometry.len()
        invariant
            i <= geometry.len(),
            geometry == sketch.geometry@,
            first_missing_in(*sketch, geometry.take(i as int)) is None,
            edges@ == edges_in(*sketch, geometry.take(i as int)),
            wires@.len() == closed_in(*sketch, geometry.take(i as int)).len(),
            forall|j: int| 0 <= j < wires@.len() ==> (#[trigger] wires@[j]).segments@ == seq![
                closed_in(*sketch, geometry.take(i as int))[j],
            ],
        decreases geometry.len() - i,
    {
        let g = &sketch.geometry[i];
        proof {
            assert(geometry.take(i + 1).drop_last() =~= geometry.take(i as int));
            assert(geometry.take(i + 1).last() == geometry[i as int]);
        }
        let need = required(sketch, g);
        if let Some(p) = first_missing(sketch, &need) {
            proof {
                assert(first_missing_in(*sketch, geometry.take(i + 1)) == Some(p));
                lemma_missing_persists(*sketch, geometry, i + 1, p);
            }
            return Err(ProfileError::MissingPoint(p));
        }
        let ghost closed_before = closed_in(*sketch, geometry.take(i as int));
        match exec_closed_of(sketch, g) {
            Some(c) => {
                let mut segments: Vec<Segment> = Vec::new();
                segments.push(c);
                wires.push(Wire { segments });
                assert(closed_in(*sketch, geometry.take(i + 1)) =~= closed_before.push(c));
            },
            None => {
                assert(closed_in(*sketch, geometry.take(i + 1)) =~= closed_before);
            },
        }
        match exec_edge_of(sketch, g) {
            Some(e) => {
                edges.push(e);
            },
            None => {},
        }
        i = i + 1;
        assert(edges@ =~= edges_in(*sketch, geometry.take(i as int)));
    }
    assert(geometry.take(geometry.len() as int) =~= geometry);
    Ok((wires, edges))
}


/// Counting never goes below zero, and every counted term is in it.
proof fn lemma_ends_among_bounds(edges: Seq<Segment>, used: Option<Seq<bool>>, p: u128, n: int, k: int)
    requires
        0 <= n <= edges.len(),
        used matches Some(u) ==> u.len() == edges.len(),
    ensures
        ends_among(edges, used, p, n) >= 0,
        0 <= k < n ==> ends_among(edges, used, p, n) >= match used {
            Some(u) => if u[k] { ends_at(edges[k], p) } else { 0 },
            None => ends_at(edges[k], p),
        },
    decreases n,
{
    if n > 0 {
        lemma_ends_among_bounds(edges, used, p, n - 1, k);
    }
}

/// A positive count has an edge with an end there.
proof fn lemma_ends_among_witness(edges: Seq<Segment>, used: Option<Seq<bool>>, p: u128, n: int)
    requires
        0 <= n <= edges.len(),
        used matches Some(u) ==> u.len() == edges.len(),
        ends_among(edges, used, p, n) > 0,
    ensures
        exists|k: int|
            0 <= k < n && ends_at(#[trigger] edges[k], p) > 0 && (used matches Some(u) ==> u[k]),
    decreases n,
{
    lemma_ends_among_bounds(edges, used, p, n - 1, 0);
    if ends_among(edges, used, p, n - 1) > 0 {
        lemma_ends_among_witness(edges, used, p, n - 1);
        let k = choose|k: int|
            0 <= k < n - 1 && ends_at(#[trigger] edges[k], p) > 0 && (used matches Some(u) ==> u[k]);
    } else {
        assert(ends_at(edges[n - 1], p) > 0);
    }
}

/// The degree of `p`, capped at three: enough to tell an open end or a branch.
fn capped_degree(edges: &Vec<Segment>, p: u128) -> (d: u8)
    ensures
        d as int == if degree(edges@, p) < 3 { degree(edges@, p) } else { 3 },
{
    let mut d: u8 = 0;
    let mut k: usize = 0;
    while k < edges.len()
        invariant
            k <= edges@.len(),
            d as int == if ends_among(edges@, None, p, k as int) < 3 { ends_among(edges@, None, p, k as int) } else { 3 },
        decreases edges@.len() - k,
    {
        proof {
            lemma_ends_among_bounds(edges@, None, p, k as int, 0);
        }
        match edges[k] {
            Segment::Edge { start, end, .. } => {
                if start == p && d < 3 {
                    d = d + 1;
                }
                if end == p && d < 3 {
                    d = d + 1;
                }
            },
            Segment::Closed { .. } => {},
        }
        k = k + 1;
    }
    d
}

/// Every point of the endpoint graph meets exactly two edge ends, or the
/// first one found that does not: open where one meets it, branching where
/// three or more do.
fn check_degrees(edges: &Vec<Segment>) -> (r: Result<(), ProfileError>)
    ensures
        match r {
            Ok(()) => forall|p: u128| #[trigger] degree(edges@, p) == 0 || degree(edges@, p) == 2,
            Err(ProfileError::OpenAt(p)) => degree(edges@, p) == 1,
            Err(ProfileError::BranchingAt(p)) => degree(edges@, p) >= 3,
            Err(_) => false,
        },
{
    let mut k: usize = 0;
    while k < edges.len()
        invariant
            k <= edges@.len(),
            forall|j: int, p: u128|
                0 <= j < k && #[trigger] ends_at(edges@[j], p) > 0 ==> degree(edges@, p) == 2,
        decreases edges@.len() - k,
    {
        match edges[k] {
            Segment::Edge { start, end, .. } => {
                proof {
                    lemma_ends_among_bounds(edges@, None, start, edges@.len() as int, k as int);
                    lemma_ends_among_bounds(edges@, None, end, edges@.len() as int, k as int);
                }
                let ds = capped_degree(edges, start);
                if ds == 1 {
                    return Err(ProfileError::OpenAt(start));
                }
                if ds != 2 {
                    return Err(ProfileError::BranchingAt(start));
                }
                let de = capped_degree(edges, end);
                if de == 1 {
                    return Err(ProfileError::OpenAt(end));
                }
                if de != 2 {
                    return Err(ProfileError::BranchingAt(end));
                }
            },
            Segment::Closed { .. } => {},
        }
        k = k + 1;
    }
    assert forall|p: u128| #[trigger] degree(edges@, p) == 0 || degree(edges@, p) == 2 by {
        lemma_ends_among_bounds(edges@, None, p, edges@.len() as int, 0);
        if degree(edges@, p) != 0 {
            lemma_ends_among_witness(edges@, None, p, edges@.len() as int);
            let j = choose|j: int| 0 <= j < edges@.len() && ends_at(#[trigger] edges@[j], p) > 0;
        }
    }
    Ok(())
}


/// How many of the first `n` flags are set.
pub open spec fn count_true(s: Seq<bool>, n: int) -> int
    decreases n,
{
    if n <= 0 {
        0
    } else {
        count_true(s, n - 1) + if s[n - 1] { 1int } else { 0int }
    }
}

proof fn lemma_count_true_bound(s: Seq<bool>, n: int)
    requires
        0 <= n <= s.len(),
    ensures
        0 <= count_true(s, n) <= n,
    decreases n,
{
    if n > 0 {
        lemma_count_true_bound(s, n - 1);
    }
}

proof fn lemma_count_true_update(s: Seq<bool>, k: int, n: int)
    requires
        0 <= k < s.len(),
        0 <= n <= s.len(),
        !s[k],
    ensures
        count_true(s.update(k, true), n) == count_true(s, n) + if k < n { 1int } else { 0int },
    decreases n,
{
    if n > 0 {
        lemma_count_true_update(s, k, n - 1);
    }
}

/// Marking edge `k` used adds its ends to the used count.
proof fn lemma_ends_among_update(edges: Seq<Segment>, used: Seq<bool>, k: int, p: u128, n: int)
    requires
        used.len() == edges.len(),
        0 <= k < edges.len(),
        0 <= n <= edges.len(),
        !used[k],
    ensures
        ends_among(edges, Some(used.update(k, true)), p, n) == ends_among(edges, Some(used), p, n) + if k < n {
            ends_at(edges[k], p)
        } else {
            0
        },
    decreases n,
{
    if n > 0 {
        lemma_ends_among_update(edges, used, k, p, n - 1);
    }
}

/// The used ends at a point are among all its ends; where fewer are used
/// than there are, an unused edge ends there.
proof fn lemma_unused_witness(edges: Seq<Segment>, used: Seq<bool>, p: u128, n: int)
    requires
        used.len() == edges.len(),
        0 <= n <= edges.len(),
    ensures
        ends_among(edges, Some(used), p, n) <= ends_among(edges, None, p, n),
        ends_among(edges, Some(used), p, n) < ends_among(edges, None, p, n) ==> exists|k: int|
            0 <= k < n && !used[k] && ends_at(#[trigger] edges[k], p) > 0,
    decreases n,
{
    if n > 0 {
        lemma_unused_witness(edges, used, p, n - 1);
        lemma_ends_among_bounds(edges, None, p, n, 0);
        if ends_among(edges, Some(used), p, n - 1) < ends_among(edges, None, p, n - 1) {
            let k = choose|k: int| 0 <= k < n - 1 && !used[k] && ends_at(#[trigger] edges[k], p) > 0;
        }
    }
}

/// With nothing used, no used end sits anywhere.
proof fn lemma_unused_zero(edges: Seq<Segment>, used: Seq<bool>, p: u128, n: int)
    requires
        used.len() == edges.len(),
        0 <= n <= edges.len(),
        forall|j: int| 0 <= j < n ==> !(#[trigger] used[j]),
    ensures
        ends_among(edges, Some(used), p, n) == 0,
    decreases n,
{
    if n > 0 {
        lemma_unused_zero(edges, used, p, n - 1);
    }
}

/// Whether `e` has an end at `p`.
fn touches_point(e: &Segment, p: u128) -> (b: bool)
    ensures
        b == (ends_at(*e, p) > 0),
{
    match e {
        Segment::Edge { start, end, .. } => *start == p || *end == p,
        Segment::Closed { .. } => false,
    }
}

/// Walk the endpoint graph into loops: every point meets two edge ends, so
/// each edge not yet walked starts a cycle of its own.
#[verifier::rlimit(80)]
fn walk_loops(edges: &Vec<Segment>) -> (loops: Vec<Wire>)
    requires
        forall|k: int| 0 <= k < edges@.len() ==> (#[trigger] edges@[k]) is Edge,
        forall|p: u128| #[trigger] degree(edges@, p) == 0 || degree(edges@, p) == 2,
    ensures
        loops_cover(loops@, edges@),
        walked_in_order(loops@, edges@),
{
    let ghost e = edges@;
    let n = edges.len();
    let mut used: Vec<bool> = Vec::new();
    let mut k: usize = 0;
    while k < n
        invariant
            k <= n,
            used@.len() == k,
            forall|j: int| 0 <= j < k ==> !(#[trigger] used@[j]),
        decreases n - k,
    {
        used.push(false);
        k = k + 1;
    }
    proof {
        assert forall|u: u128| #[trigger] ends_among(e, Some(used@), u, n as int) == 0 by {
            lemma_unused_zero(e, used@, u, n as int);
        }
    }
    let mut loops: Vec<Wire> = Vec::new();
    let ghost mut order: Seq<int> = Seq::empty();
    let ghost mut idxs: Seq<Seq<int>> = Seq::empty();
    let mut start_idx: usize = 0;
    while start_idx < n
        invariant
            e == edges@,
            n == e.len(),
            start_idx <= n,
            used@.len() == n,
            forall|k: int| 0 <= k < e.len() ==> (#[trigger] e[k]) is Edge,
            forall|p: u128| #[trigger] degree(e, p) == 0 || degree(e, p) == 2,
            order.no_duplicates(),
            forall|k: int| #![trigger order.contains(k)] order.contains(k) <==> (0 <= k < n && used@[k]),
            forall|k: int| 0 <= k < start_idx ==> #[trigger] used@[k],
            flatten(loops@) == order.map_values(|k: int| e[k]),
            forall|j: int| 0 <= j < loops@.len() ==> closes(#[trigger] loops@[j].segments@),
            forall|u: u128| #[trigger] ends_among(e, Some(used@), u, n as int) % 2 == 0,
            idxs.len() == loops@.len(),
            index_concat(idxs) == order,
            forall|j: int| 0 <= j < loops@.len() ==> (#[trigger] loops@[j]).segments@ == edges_at(e, idxs[j]),
            forall|j: int|
                0 <= j < loops@.len() ==> walked_from(e, #[trigger] idxs[j], index_concat(idxs.take(j))),
        decreases n - start_idx,
    {
        if !used[start_idx] {
            let start_point = match edges[start_idx] {
                Segment::Edge { start, .. } => start,
                Segment::Closed { .. } => start_idx as u128,
            };
            let ghost outer = order;
            let ghost mut inner: Seq<int> = Seq::empty();
            proof {
                assert forall|k: int| 0 <= k < start_idx implies #[trigger] outer.contains(k) by {
                    assert(used@[k]);
                }
            }
            let mut segments: Vec<Segment> = Vec::new();
            let mut current_point = start_point;
            let mut current_idx = start_idx;
            loop
                invariant_except_break
                    e == edges@,
                    n == e.len(),
                    start_idx < n,
                    current_idx < n,
                    used@.len() == n,
                    forall|k: int| 0 <= k < e.len() ==> (#[trigger] e[k]) is Edge,
                    forall|p: u128| #[trigger] degree(e, p) == 0 || degree(e, p) == 2,
                    e[start_idx as int]->start == start_point,
                    !used@[current_idx as int],
                    ends_at(e[current_idx as int], current_point) > 0,
                    order == outer + inner,
                    order.no_duplicates(),
                    forall|k: int| #![trigger order.contains(k)] order.contains(k) <==> (0 <= k < n && used@[k]),
                    forall|k: int| 0 <= k < start_idx ==> #[trigger] used@[k],
                    flatten(loops@) == outer.map_values(|k: int| e[k]),
                    forall|j: int| 0 <= j < loops@.len() ==> closes(#[trigger] loops@[j].segments@),
                    segments@ == inner.map_values(|k: int| e[k]),
                    chain_end(segments@, start_point) == Some(current_point),
                    idxs.len() == loops@.len(),
                    index_concat(idxs) == outer,
                    forall|j: int| 0 <= j < loops@.len() ==> (#[trigger] loops@[j]).segments@ == edges_at(e, idxs[j]),
                    forall|j: int|
                        0 <= j < loops@.len() ==> walked_from(e, #[trigger] idxs[j], index_concat(idxs.take(j))),
                    forall|k: int| 0 <= k < start_idx ==> #[trigger] outer.contains(k),
                    inner.len() > 0 ==> forall|k: int|
                        0 <= k < current_idx && !outer.contains(k) && !inner.contains(k) ==> ends_at(#[trigger] e[k], current_point)
                            == 0,
                    forall|t: int, k: int|
                        #![trigger e[k], inner[t]]
                        1 <= t < inner.len() && 0 <= k < inner[t] && !outer.contains(k) && !inner.take(t).contains(k)
                            ==> ends_at(e[k], reached(e, inner.take(t), start_point)) == 0,
                    inner.len() == 0 ==> current_idx == start_idx && current_point == start_point,
                    inner.len() > 0 ==> inner[0] == start_idx,
                    inner.len() > 0 ==> used@[start_idx as int],
                    forall|u: u128| #[trigger] ends_among(e, Some(used@), u, n as int) % 2 == if current_point != start_point
                        && (u == start_point || u == current_point) {
                        1int
                    } else {
                        0int
                    },
                ensures
                    e == edges@,
                    n == e.len(),
                    used@.len() == n,
                    order.no_duplicates(),
                    forall|k: int| #![trigger order.contains(k)] order.contains(k) <==> (0 <= k < n && used@[k]),
                    forall|k: int| 0 <= k < start_idx ==> #[trigger] used@[k],
                    used@[start_idx as int],
                    flatten(loops@) == order.map_values(|k: int| e[k]),
                    forall|j: int| 0 <= j < loops@.len() ==> closes(#[trigger] loops@[j].segments@),
                    forall|u: u128| #[trigger] ends_among(e, Some(used@), u, n as int) % 2 == 0,
                    idxs.len() == loops@.len(),
                    index_concat(idxs) == order,
                    forall|j: int| 0 <= j < loops@.len() ==> (#[trigger] loops@[j]).segments@ == edges_at(e, idxs[j]),
                    forall|j: int|
                        0 <= j < loops@.len() ==> walked_from(e, #[trigger] idxs[j], index_concat(idxs.take(j))),
                decreases n - count_true(used@, n as int),
            {
                let ghost before = used@;
                let ghost old_segments = segments@;
                let seg = edges[current_idx];
                proof {
                    lemma_count_true_update(before, current_idx as int, n as int);
                    lemma_count_true_bound(before.update(current_idx as int, true), n as int);
                    assert forall|u: u128| #[trigger] ends_among(e, Some(before.update(current_idx as int, true)), u, n as int)
                        == ends_among(e, Some(before), u, n as int) + ends_at(e[current_idx as int], u) by {
                        lemma_ends_among_update(e, before, current_idx as int, u, n as int);
                    }
                    assert(!order.contains(current_idx as int));
                }
                used.set(current_idx, true);
                segments.push(seg);
                let ghost old_inner = inner;
                let ghost old_point = current_point;
                proof {
                    inner = inner.push(current_idx as int);
                    order = order.push(current_idx as int);
                    assert(old_inner.map_values(|k: int| e[k]) == old_segments);
                    assert forall|t: int, k: int|
                        #![trigger e[k], inner[t]]
                        1 <= t < inner.len() && 0 <= k < inner[t] && !outer.contains(k) && !inner.take(t).contains(k)
                            implies ends_at(e[k], reached(e, inner.take(t), start_point)) == 0 by {
                        if t < old_inner.len() {
                            assert(inner[t] == old_inner[t]);
                            assert(inner.take(t) =~= old_inner.take(t));
                            assert(e[k] == e[k]);
                            assert(old_inner[t] == old_inner[t]);
                        } else {
                            assert(inner.take(t) =~= old_inner);
                            assert(reached(e, old_inner, start_point) == old_point);
                        }
                    }
                    assert(segments@ =~= inner.map_values(|k: int| e[k]));
                    assert(segments@.drop_last() =~= inner.drop_last().map_values(|k: int| e[k]));
                }
                let next_point = match seg {
                    Segment::Edge { start, end, .. } => if start == current_point {
                        end
                    } else {
                        start
                    },
                    Segment::Closed { .. } => current_point,
                };
                proof {
                    assert forall|u: u128| ends_at(seg, u) == (if u == current_point { 1int } else { 0int }) + (if u
                        == next_point { 1int } else { 0int }) by {}
                    assert forall|u: u128| #[trigger] ends_among(e, Some(used@), u, n as int) % 2 == if next_point
                        != start_point && (u == start_point || u == next_point) {
                        1int
                    } else {
                        0int
                    } by {
                        assert(ends_among(e, Some(used@), u, n as int) == ends_among(e, Some(before), u, n as int)
                            + ends_at(seg, u));
                    }
                }
                proof {
                    assert(segments@.drop_last() =~= old_segments);
                    assert(chain_end(segments@, start_point) == Some(next_point));
                }
                if next_point == start_point {
                    let ghost loops_before = loops@;
                    let wire = Wire { segments };
                    proof {
                        assert(inner.len() > 0);
                        assert(wire.segments@[0] == e[start_idx as int]);
                        assert(closes(wire.segments@));
                    }
                    loops.push(wire);
                    proof {
                        assert(loops@.drop_last() =~= loops_before);
                        assert(flatten(loops@) =~= flatten(loops@.drop_last()) + wire.segments@);
                        assert(order.map_values(|k: int| e[k]) =~= outer.map_values(|k: int| e[k])
                            + inner.map_values(|k: int| e[k]));
                        let old_idxs = idxs;
                        assert(inner[0] == start_idx);
                        assert(walked_from(e, inner, outer)) by {
                            assert(e[inner[0]]->start == start_point);
                            assert forall|k: int| 0 <= k < inner[0] implies #[trigger] outer.contains(k) by {}
                        }
                        idxs = idxs.push(inner);
                        assert(idxs.drop_last() =~= old_idxs);
                        assert(index_concat(idxs) == order);
                        assert forall|j: int| 0 <= j < loops@.len() implies (#[trigger] loops@[j]).segments@ == edges_at(e, idxs[j]) by {
                            if j < old_idxs.len() {
                                assert(idxs[j] == old_idxs[j]);
                                assert(loops@[j] == loops_before[j]);
                            }
                        }
                        assert forall|j: int|
                            0 <= j < loops@.len() implies walked_from(e, #[trigger] idxs[j], index_concat(idxs.take(j))) by {
                            if j < old_idxs.len() {
                                assert(idxs[j] == old_idxs[j]);
                                assert(idxs.take(j) =~= old_idxs.take(j));
                            } else {
                                assert(idxs.take(j) =~= old_idxs);
                            }
                        }
                    }
                    break;
                }
                // Another unused edge ends where the walk is: the used ends
                // there are odd, so fewer than the two it has.
                proof {
                    lemma_ends_among_bounds(e, Some(used@), next_point, n as int, current_idx as int);
                    lemma_ends_among_bounds(e, None, next_point, n as int, current_idx as int);
                    lemma_unused_witness(e, used@, next_point, n as int);
                    assert(ends_at(e[current_idx as int], next_point) > 0);
                    assert(degree(e, next_point) == 2);
                    assert(ends_among(e, Some(used@), next_point, n as int) == 1);
                }
                let mut k: usize = 0;
                let mut found: usize = n;
                while k < n
                    invariant
                        k <= n,
                        n == e.len(),
                        e == edges@,
                        used@.len() == n,
                        found == n ==> forall|j: int| 0 <= j < k ==> used@[j] || ends_at(#[trigger] e[j], next_point) == 0,
                        found != n ==> found < n && !used@[found as int] && ends_at(e[found as int], next_point) > 0,
                        found != n ==> forall|j: int| 0 <= j < found ==> used@[j] || ends_at(#[trigger] e[j], next_point) == 0,
                    decreases n - k,
                {
                    if found == n && !used[k] && touches_point(&edges[k], next_point) {
                        found = k;
                    }
                    k = k + 1;
                }
                if found == n {
                    proof {
                        let j = choose|j: int| 0 <= j < n && !used@[j] && ends_at(#[trigger] e[j], next_point) > 0;
                        assert(false);
                    }
                    return loops;
                }
                proof {
                    assert forall|j: int|
                        0 <= j < found && !outer.contains(j) && !inner.contains(j) implies ends_at(#[trigger] e[j], next_point)
                            == 0 by {
                        if used@[j] {
                            assert(order.contains(j));
                            assert(order == outer + inner);
                            if !outer.contains(j) {
                                let m = choose|m: int| 0 <= m < order.len() && order[m] == j;
                                if m >= outer.len() {
                                    assert(inner[m - outer.len()] == j);
                                } else {
                                    assert(outer[m] == j);
                                }
                            }
                        }
                    }
                }
                current_point = next_point;
                current_idx = found;
            }
            proof {
                assert(order.no_duplicates());
            }
        }
        start_idx = start_idx + 1;
    }
    proof {
        assert(is_index_permutation(order, n as int));
    }
    loops
}


/// Every edge of a run of geometry joins two points.
proof fn lemma_edges_are_edges(sketch: Sketch, geometry: Seq<GeometryElement>)
    ensures
        forall|k: int| 0 <= k < edges_in(sketch, geometry).len() ==> (#[trigger] edges_in(sketch, geometry)[k]) is Edge,
    decreases geometry.len(),
{
    if geometry.len() > 0 {
        lemma_edges_are_edges(sketch, geometry.drop_last());
    }
}

/// The sketch holds a profile: every curve finds its points, something
/// closes, and every point of the endpoint graph meets two edge ends or
/// none.
pub open spec fn has_profile(sketch: Sketch) -> bool {
    &&& first_missing_in(sketch, sketch.geometry@) is None
    &&& !(edges_in(sketch, sketch.geometry@).len() == 0 && closed_in(sketch, sketch.geometry@).len() == 0)
    &&& forall|p: u128| #[trigger] degree(edges_in(sketch, sketch.geometry@), p) == 0
        || degree(edges_in(sketch, sketch.geometry@), p) == 2
}

/// The wires are those of the sketch: first one wire per self-closing
/// curve, in sketch order, then the loops that the edges form, each edge
/// in exactly one of them, walked in the edges' order (`walked_in_order`).
pub open spec fn wires_of(sketch: Sketch, wires: Seq<Wire>) -> bool {
    let closed = closed_in(sketch, sketch.geometry@);
    &&& wires.len() >= closed.len()
    &&& forall|j: int| 0 <= j < closed.len() ==> (#[trigger] wires[j]).segments@ == seq![closed[j]]
    &&& loops_cover(wires.skip(closed.len() as int), edges_in(sketch, sketch.geometry@))
    &&& walked_in_order(wires.skip(closed.len() as int), edges_in(sketch, sketch.geometry@))
}

/// Extract every closed wire of the sketch. Standalone points,
/// construction geometry and geometry projected from a solid are left
/// out; circles, ellipses and periodic
/// splines are wires by themselves; lines, arcs and open splines must form
/// closed loops through shared endpoints.
pub fn extract_wires(sketch: &Sketch) -> (r: Result<Vec<Wire>, ProfileError>)
    ensures
        r is Ok <==> has_profile(*sketch),
        match r {
            Ok(wires) => wires_of(*sketch, wires@),
            Err(ProfileError::MissingPoint(p)) => first_missing_in(*sketch, sketch.geometry@) == Some(p),
            Err(ProfileError::Empty) => {
                &&& first_missing_in(*sketch, sketch.geometry@) is None
                &&& edges_in(*sketch, sketch.geometry@).len() == 0
                &&& closed_in(*sketch, sketch.geometry@).len() == 0
            },
            Err(ProfileError::OpenAt(p)) => {
                &&& first_missing_in(*sketch, sketch.geometry@) is None
                &&& degree(edges_in(*sketch, sketch.geometry@), p) == 1
            },
            Err(ProfileError::BranchingAt(p)) => {
                &&& first_missing_in(*sketch, sketch.geometry@) is None
                &&& degree(edges_in(*sketch, sketch.geometry@), p) >= 3
            },
        },
{
    let (mut wires, edges) = match gather(sketch) {
        Ok(found) => found,
        Err(e) => {
            return Err(e);
        },
    };
    let ghost closed = closed_in(*sketch, sketch.geometry@);
    if edges.len() == 0 && wires.len() == 0 {
        return Err(ProfileError::Empty);
    }
    match check_degrees(&edges) {
        Ok(()) => {},
        Err(e) => {
            return Err(e);
        },
    }
    proof {
        lemma_edges_are_edges(*sketch, sketch.geometry@);
    }
    let mut loops = walk_loops(&edges);
    let ghost before = wires@;
    let ghost walked = loops@;
    wires.append(&mut loops);
    proof {
        assert(wires@.skip(closed.len() as int) =~= walked);
        assert forall|j: int| 0 <= j < closed.len() implies (#[trigger] wires@[j]).segments@ == seq![closed[j]] by {
            assert(wires@[j] == before[j]);
        }
    }
    Ok(wires)
}


/// The element a segment comes from.
pub open spec fn segment_element(s: Segment) -> u128 {
    match s {
        Segment::Closed { element } => element,
        Segment::Edge { element, .. } => element,
    }
}

/// Whether `id` is a curve of the sketch drawn for the profile: an element
/// that is no point, no construction and not projected from a solid.
pub open spec fn drawn_curve(sketch: Sketch, id: u128) -> bool {
    &&& !sketch.construction@.contains(id)
    &&& !sketch.external@.contains_key(id)
    &&& exists|i: int|
        0 <= i < sketch.geometry@.len() && (#[trigger] sketch.geometry@[i]).spec_id() == id
            && !(sketch.geometry@[i] is Point)
}

proof fn lemma_edges_from_curves(sketch: Sketch, geometry: Seq<GeometryElement>, k: int)
    requires
        0 <= k < edges_in(sketch, geometry).len(),
    ensures
        exists|i: int| 0 <= i < geometry.len() && edge_of(sketch, #[trigger] geometry[i]) == Some(edges_in(sketch, geometry)[k]),
    decreases geometry.len(),
{
    let rest = edges_in(sketch, geometry.drop_last());
    if k < rest.len() {
        lemma_edges_from_curves(sketch, geometry.drop_last(), k);
        let i = choose|i: int| 0 <= i < geometry.drop_last().len() && edge_of(sketch, #[trigger] geometry.drop_last()[i]) == Some(rest[k]);
        assert(geometry[i] == geometry.drop_last()[i]);
    } else {
        assert(edge_of(sketch, geometry[geometry.len() - 1]) == Some(edges_in(sketch, geometry)[k]));
    }
}

proof fn lemma_closed_from_curves(sketch: Sketch, geometry: Seq<GeometryElement>, k: int)
    requires
        0 <= k < closed_in(sketch, geometry).len(),
    ensures
        exists|i: int| 0 <= i < geometry.len() && closed_of(sketch, #[trigger] geometry[i]) == Some(closed_in(sketch, geometry)[k]),
    decreases geometry.len(),
{
    let rest = closed_in(sketch, geometry.drop_last());
    if k < rest.len() {
        lemma_closed_from_curves(sketch, geometry.drop_last(), k);
        let i = choose|i: int| 0 <= i < geometry.drop_last().len() && closed_of(sketch, #[trigger] geometry.drop_last()[i]) == Some(rest[k]);
        assert(geometry[i] == geometry.drop_last()[i]);
    } else {
        assert(closed_of(sketch, geometry[geometry.len() - 1]) == Some(closed_in(sketch, geometry)[k]));
    }
}

/// Each segment of each wire is among the wires' segments laid end to end.
proof fn lemma_in_flatten(wires: Seq<Wire>, j: int, k: int)
    requires
        0 <= j < wires.len(),
        0 <= k < wires[j].segments@.len(),
    ensures
        flatten(wires).contains(wires[j].segments@[k]),
    decreases wires.len(),
{
    let f = flatten(wires);
    let before = flatten(wires.drop_last());
    if j == wires.len() - 1 {
        assert(f[before.len() + k] == wires[j].segments@[k]);
    } else {
        lemma_in_flatten(wires.drop_last(), j, k);
        let m = choose|m: int| 0 <= m < before.len() && before[m] == wires.drop_last()[j].segments@[k];
        assert(f[m] == before[m]);
    }
}

/// Law: a profile is made of the sketch's drawn curves only: every
/// segment of every wire comes from an element that is no point, no
/// construction geometry and no geometry projected from a solid.
pub proof fn law_profile_is_drawn_curves(sketch: Sketch, wires: Seq<Wire>, j: int, k: int)
    requires
        wires_of(sketch, wires),
        0 <= j < wires.len(),
        0 <= k < wires[j].segments@.len(),
    ensures
        drawn_curve(sketch, segment_element(wires[j].segments@[k])),
{
    let geometry = sketch.geometry@;
    let closed = closed_in(sketch, geometry);
    let edges = edges_in(sketch, geometry);
    let s = wires[j].segments@[k];
    if j < closed.len() {
        assert(wires[j].segments@ == seq![closed[j]]);
        assert(s == closed[j]);
        lemma_closed_from_curves(sketch, geometry, j);
        let i = choose|i: int| 0 <= i < geometry.len() && closed_of(sketch, #[trigger] geometry[i]) == Some(closed[j]);
        assert(geometry[i].spec_id() == segment_element(s));
    } else {
        let loops = wires.skip(closed.len() as int);
        assert(loops[j - closed.len()] == wires[j]);
        lemma_in_flatten(loops, j - closed.len(), k);
        let order = choose|order: Seq<int>|
            is_index_permutation(order, edges.len() as int) && flatten(loops) == order.map_values(|m: int| edges[m]);
        let m = choose|m: int| 0 <= m < flatten(loops).len() && flatten(loops)[m] == s;
        assert(order.contains(order[m]));
        lemma_edges_from_curves(sketch, geometry, order[m]);
        let i = choose|i: int| 0 <= i < geometry.len() && edge_of(sketch, #[trigger] geometry[i]) == Some(edges[order[m]]);
        assert(geometry[i].spec_id() == segment_element(s));
    }
}
/// Walking a chain that reaches an end: every prefix reaches a point, the
/// next edge touches it, and the prefix one longer reaches a point too.
proof fn lemma_chain_prefix(w: Seq<Segment>, v: u128, t: int)
    requires
        chain_end(w, v) is Some,
        0 <= t < w.len(),
    ensures
        chain_end(w.take(t), v) is Some,
        ends_at(w[t], chain_end(w.take(t), v)->0) > 0,
        chain_end(w.take(t + 1), v) is Some,
    decreases w.len(),
{
    if t == w.len() - 1 {
        assert(w.take(t) =~= w.drop_last());
        assert(w.take(t + 1) =~= w);
    } else {
        lemma_chain_prefix(w.drop_last(), v, t);
        assert(w.drop_last().take(t) =~= w.take(t));
        assert(w.drop_last().take(t + 1) =~= w.take(t + 1));
        assert(w.drop_last()[t] == w[t]);
    }
}

/// The last edge of a chain touches where the chain ends.
proof fn lemma_chain_last(w: Seq<Segment>, v: u128)
    requires
        chain_end(w, v) is Some,
        w.len() > 0,
    ensures
        ends_at(w.last(), chain_end(w, v)->0) > 0,
{
}

/// Three different edges' ends at `p` count toward its degree.
proof fn lemma_three_ends(e: Seq<Segment>, p: u128, x: int, y: int, z: int, n: int)
    requires
        0 <= n <= e.len(),
        0 <= x < e.len(),
        0 <= y < e.len(),
        0 <= z < e.len(),
        x != y,
        y != z,
        x != z,
    ensures
        ends_among(e, None, p, n) >= (if x < n { ends_at(e[x], p) } else { 0 }) + (if y < n { ends_at(e[y], p) } else {
            0
        }) + (if z < n { ends_at(e[z], p) } else { 0 }),
    decreases n,
{
    if n > 0 {
        lemma_three_ends(e, p, x, y, z, n - 1);
        lemma_ends_among_bounds(e, None, p, n, 0);
    }
}

/// The edge indices `idx` pick, as edges, commute with taking a prefix.
proof fn lemma_edges_at_take(e: Seq<Segment>, idx: Seq<int>, t: int)
    requires
        0 <= t <= idx.len(),
    ensures
        edges_at(e, idx.take(t)) == edges_at(e, idx).take(t),
{
    assert(edges_at(e, idx.take(t)) =~= edges_at(e, idx).take(t));
}

/// Two loops walked by the walking rule from the same earlier edges and
/// the same first edge agree edge for edge as far as both go.
proof fn lemma_loop_prefix(e: Seq<Segment>, prior: Seq<int>, a: Seq<int>, b: Seq<int>, t: int)
    requires
        forall|k: int| 0 <= k < e.len() ==> (#[trigger] e[k]) is Edge,
        walked_from(e, a, prior),
        walked_from(e, b, prior),
        closes(edges_at(e, a)),
        closes(edges_at(e, b)),
        a[0] == b[0],
        forall|i: int| 0 <= i < a.len() ==> !prior.contains(#[trigger] a[i]),
        forall|i: int| 0 <= i < b.len() ==> !prior.contains(#[trigger] b[i]),
        forall|i: int, j: int| 0 <= i < j < a.len() ==> #[trigger] a[i] != #[trigger] a[j],
        forall|i: int, j: int| 0 <= i < j < b.len() ==> #[trigger] b[i] != #[trigger] b[j],
        forall|i: int| 0 <= i < a.len() ==> 0 <= #[trigger] a[i] < e.len(),
        forall|i: int| 0 <= i < b.len() ==> 0 <= #[trigger] b[i] < e.len(),
        1 <= t <= a.len(),
        t <= b.len(),
    ensures
        a.take(t) == b.take(t),
    decreases t,
{
    if t == 1 {
        assert(a.take(1) =~= b.take(1));
    } else {
        let u = t - 1;
        lemma_loop_prefix(e, prior, a, b, u);
        let s = e[a[0]]->start;
        let wa = edges_at(e, a);
        let wb = edges_at(e, b);
        assert(wa[0] == e[a[0]]);
        assert(wb[0] == e[b[0]]);
        lemma_chain_prefix(wa, s, u);
        lemma_chain_prefix(wb, s, u);
        lemma_edges_at_take(e, a, u);
        lemma_edges_at_take(e, b, u);
        let p = reached(e, a.take(u), s);
        assert(reached(e, b.take(u), s) == p);
        assert(wa[u] == e[a[u]]);
        assert(wb[u] == e[b[u]]);
        assert(!a.take(u).contains(a[u])) by {
            if a.take(u).contains(a[u]) {
                let i = choose|i: int| 0 <= i < u && a.take(u)[i] == a[u];
                assert(a[i] == a[u]);
            }
        }
        assert(!b.take(u).contains(b[u])) by {
            if b.take(u).contains(b[u]) {
                let i = choose|i: int| 0 <= i < u && b.take(u)[i] == b[u];
                assert(b[i] == b[u]);
            }
        }
        if b[u] < a[u] {
            assert(ends_at(e[b[u]], reached(e, a.take(u), e[a[0]]->start)) == 0);
        }
        if a[u] < b[u] {
            assert(ends_at(e[a[u]], reached(e, b.take(u), e[b[0]]->start)) == 0);
        }
        assert(a.take(t) =~= a.take(u).push(a[u]));
        assert(b.take(t) =~= b.take(u).push(b[u]));
    }
}

/// Two loops walked from the same earlier edges by the walking rule, both
/// closing, in a graph where every point meets two edge ends or none, are
/// the same loop.
proof fn lemma_loop_unique(e: Seq<Segment>, prior: Seq<int>, a: Seq<int>, b: Seq<int>)
    requires
        forall|k: int| 0 <= k < e.len() ==> (#[trigger] e[k]) is Edge,
        forall|p: u128| #[trigger] degree(e, p) == 0 || degree(e, p) == 2,
        walked_from(e, a, prior),
        walked_from(e, b, prior),
        closes(edges_at(e, a)),
        closes(edges_at(e, b)),
        (prior + a).no_duplicates(),
        (prior + b).no_duplicates(),
        forall|i: int| 0 <= i < a.len() ==> 0 <= #[trigger] a[i] < e.len(),
        forall|i: int| 0 <= i < b.len() ==> 0 <= #[trigger] b[i] < e.len(),
    ensures
        a == b,
{
    // Not in the earlier edges, and not twice in a loop.
    assert forall|i: int| 0 <= i < a.len() implies !prior.contains(#[trigger] a[i]) by {
        if prior.contains(a[i]) {
            let m = choose|m: int| 0 <= m < prior.len() && prior[m] == a[i];
            assert((prior + a)[m] == (prior + a)[prior.len() + i]);
        }
    }
    assert forall|i: int| 0 <= i < b.len() implies !prior.contains(#[trigger] b[i]) by {
        if prior.contains(b[i]) {
            let m = choose|m: int| 0 <= m < prior.len() && prior[m] == b[i];
            assert((prior + b)[m] == (prior + b)[prior.len() + i]);
        }
    }
    assert forall|i: int, j: int| 0 <= i < j < a.len() implies #[trigger] a[i] != #[trigger] a[j] by {
        assert((prior + a)[prior.len() + i] == a[i]);
        assert((prior + a)[prior.len() + j] == a[j]);
    }
    assert forall|i: int, j: int| 0 <= i < j < b.len() implies #[trigger] b[i] != #[trigger] b[j] by {
        assert((prior + b)[prior.len() + i] == b[i]);
        assert((prior + b)[prior.len() + j] == b[j]);
    }
    // The first edge is the first one not walked before.
    if a[0] < b[0] {
        assert(prior.contains(a[0]));
    }
    if b[0] < a[0] {
        assert(prior.contains(b[0]));
    }
    assert(a[0] == b[0]);
    // Step by step, both take the first unwalked edge at the point reached.
    let m: int = if a.len() < b.len() { a.len() as int } else { b.len() as int };
    lemma_loop_prefix(e, prior, a, b, m);
    // Neither goes on past where the other closes: the start would meet a
    // third edge end.
    if a.len() < b.len() {
        lemma_not_longer(e, a, b);
    }
    if b.len() < a.len() {
        lemma_not_longer(e, b, a);
    }
    assert(a.len() == b.len());
    assert(a.take(m) =~= a);
    assert(b.take(m) =~= b);
}

/// A loop that closes is not the start of a longer walk that goes on from
/// where it closed: the start point would meet a third edge end.
proof fn lemma_not_longer(e: Seq<Segment>, short: Seq<int>, long: Seq<int>)
    requires
        forall|k: int| 0 <= k < e.len() ==> (#[trigger] e[k]) is Edge,
        forall|p: u128| #[trigger] degree(e, p) == 0 || degree(e, p) == 2,
        closes(edges_at(e, short)),
        closes(edges_at(e, long)),
        short.len() <= long.len(),
        long.take(short.len() as int) == short,
        forall|i: int, j: int| 0 <= i < j < long.len() ==> #[trigger] long[i] != #[trigger] long[j],
        forall|i: int| 0 <= i < long.len() ==> 0 <= #[trigger] long[i] < e.len(),
    ensures
        short.len() == long.len(),
{
    if short.len() == long.len() {
        return;
    }
    let ws = edges_at(e, short);
    let wl = edges_at(e, long);
    let l = short.len() as int;
    assert(short[0] == long[0]) by {
        assert(long.take(l)[0] == long[0]);
    }
    assert(ws[0] == e[short[0]]);
    assert(wl[0] == e[long[0]]);
    let s = ws[0]->start;
    assert(wl[0]->start == s);
    lemma_chain_prefix(wl, s, l);
    lemma_edges_at_take(e, long, l);
    assert(wl.take(l) == ws);
    assert(wl[l] == e[long[l]]);
    assert(ends_at(e[long[l]], s) > 0);
    lemma_chain_last(ws, s);
    assert(ws.last() == e[short[l - 1]]);
    assert(short[l - 1] == long[l - 1]) by {
        assert(long.take(l)[l - 1] == long[l - 1]);
    }
    assert(long[l - 1] != long[l]);
    assert(degree(e, s) == 0 || degree(e, s) == 2);
    if l == 1 {
        assert(ws.drop_last() =~= Seq::<Segment>::empty());
        assert(chain_end(ws.drop_last(), s) == Some(s));
        assert(ws.last() == e[long[0]]);
        assert(ends_at(e[long[0]], s) == 2);
        lemma_two_ends(e, s, long[0], long[l], e.len() as int);
    } else {
        assert(long[0] != long[l - 1]);
        assert(long[0] != long[l]);
        lemma_three_ends(e, s, long[0], long[l - 1], long[l], e.len() as int);
    }
}

/// Two different edges' ends at `p` count toward its degree.
proof fn lemma_two_ends(e: Seq<Segment>, p: u128, x: int, z: int, n: int)
    requires
        0 <= n <= e.len(),
        0 <= x < e.len(),
        0 <= z < e.len(),
        x != z,
    ensures
        ends_among(e, None, p, n) >= (if x < n { ends_at(e[x], p) } else { 0 }) + (if z < n { ends_at(e[z], p) } else { 0 }),
    decreases n,
{
    if n > 0 {
        lemma_two_ends(e, p, x, z, n - 1);
        lemma_ends_among_bounds(e, None, p, n, 0);
    }
}

/// The indices of the first `j` loops come first in the indices of all.
proof fn lemma_concat_prefix(s: Seq<Seq<int>>, j: int)
    requires
        0 <= j <= s.len(),
    ensures
        index_concat(s.take(j)).len() <= index_concat(s).len(),
        index_concat(s).take(index_concat(s.take(j)).len() as int) == index_concat(s.take(j)),
    decreases s.len(),
{
    if j == s.len() {
        assert(s.take(j) =~= s);
    } else {
        lemma_concat_prefix(s.drop_last(), j);
        assert(s.drop_last().take(j) =~= s.take(j));
        assert(index_concat(s) == index_concat(s.drop_last()) + s.last());
        assert(index_concat(s).take(index_concat(s.take(j)).len() as int) =~= index_concat(s.drop_last()).take(
            index_concat(s.take(j)).len() as int,
        ));
    }
}

/// Two runs of loops that both walk the edges in order agree loop for loop
/// as far as both go.
proof fn lemma_walks_agree(e: Seq<Segment>, x: Seq<Seq<int>>, y: Seq<Seq<int>>, j: int)
    requires
        forall|k: int| 0 <= k < e.len() ==> (#[trigger] e[k]) is Edge,
        forall|p: u128| #[trigger] degree(e, p) == 0 || degree(e, p) == 2,
        is_index_permutation(index_concat(x), e.len() as int),
        is_index_permutation(index_concat(y), e.len() as int),
        forall|i: int| 0 <= i < x.len() ==> closes(edges_at(e, #[trigger] x[i])),
        forall|i: int| 0 <= i < y.len() ==> closes(edges_at(e, #[trigger] y[i])),
        forall|i: int| 0 <= i < x.len() ==> walked_from(e, #[trigger] x[i], index_concat(x.take(i))),
        forall|i: int| 0 <= i < y.len() ==> walked_from(e, #[trigger] y[i], index_concat(y.take(i))),
        0 <= j <= x.len(),
        j <= y.len(),
    ensures
        x.take(j) == y.take(j),
    decreases j,
{
    if j == 0 {
        assert(x.take(0) =~= y.take(0));
    } else {
        let i = j - 1;
        lemma_walks_agree(e, x, y, i);
        let prior = index_concat(x.take(i));
        assert(index_concat(y.take(i)) == prior);
        lemma_loop_in_walk(e, x, i);
        lemma_loop_in_walk(e, y, i);
        lemma_loop_unique(e, prior, x[i], y[i]);
        assert(x.take(j) =~= x.take(i).push(x[i]));
        assert(y.take(j) =~= y.take(i).push(y[i]));
    }
}

/// One loop of a run that walks every edge once: its edges come after the
/// earlier loops' with no edge twice, and each is an edge index.
proof fn lemma_loop_in_walk(e: Seq<Segment>, x: Seq<Seq<int>>, i: int)
    requires
        is_index_permutation(index_concat(x), e.len() as int),
        0 <= i < x.len(),
    ensures
        (index_concat(x.take(i)) + x[i]).no_duplicates(),
        forall|t: int| 0 <= t < x[i].len() ==> 0 <= #[trigger] x[i][t] < e.len(),
{
    let all = index_concat(x);
    let pre = index_concat(x.take(i + 1));
    assert(x.take(i + 1).drop_last() =~= x.take(i));
    assert(pre == index_concat(x.take(i)) + x[i]);
    lemma_concat_prefix(x, i + 1);
    assert(all.take(pre.len() as int) == pre);
    assert forall|a: int, b: int| 0 <= a < b < pre.len() implies pre[a] != pre[b] by {
        assert(all[a] == pre[a]);
        assert(all[b] == pre[b]);
    }
    assert forall|t: int| 0 <= t < x[i].len() implies 0 <= #[trigger] x[i][t] < e.len() by {
        let q = index_concat(x.take(i)).len() + t;
        assert(pre[q] == x[i][t]);
        assert(all[q] == x[i][t]);
        assert(all.contains(x[i][t]));
    }
}

/// Every loop of a run that walks every edge has at least one edge, so the
/// run has as many loops as its indices allow and no more.
proof fn lemma_concat_len(x: Seq<Seq<int>>, j: int)
    requires
        0 <= j <= x.len(),
        forall|i: int| 0 <= i < x.len() ==> (#[trigger] x[i]).len() > 0,
    ensures
        index_concat(x.take(j)).len() + (x.len() - j) <= index_concat(x).len(),
    decreases x.len(),
{
    if j < x.len() {
        lemma_concat_len(x.drop_last(), j);
        assert(x.drop_last().take(j) =~= x.take(j));
        assert(x.last().len() > 0);
    } else {
        assert(x.take(j) =~= x);
    }
}

/// The wires of a sketch are determined by the sketch: any two lists of
/// wires that `wires_of` allows are the same, wire for wire and segment
/// for segment.
pub proof fn law_wires_are_determined(sketch: Sketch, w1: Seq<Wire>, w2: Seq<Wire>)
    requires
        has_profile(sketch),
        wires_of(sketch, w1),
        wires_of(sketch, w2),
    ensures
        w1.len() == w2.len(),
        forall|j: int| 0 <= j < w1.len() ==> (#[trigger] w1[j]).segments@ == w2[j].segments@,
{
    let e = edges_in(sketch, sketch.geometry@);
    let c = closed_in(sketch, sketch.geometry@).len() as int;
    lemma_edges_are_edges(sketch, sketch.geometry@);
    let l1 = w1.skip(c);
    let l2 = w2.skip(c);
    let x = choose|idx: Seq<Seq<int>>|
        idx.len() == l1.len() && is_index_permutation(index_concat(idx), e.len() as int) && forall|j: int|
            0 <= j < l1.len() ==> (#[trigger] l1[j]).segments@ == edges_at(e, idx[j]) && walked_from(
                e,
                idx[j],
                index_concat(idx.take(j)),
            );
    let y = choose|idx: Seq<Seq<int>>|
        idx.len() == l2.len() && is_index_permutation(index_concat(idx), e.len() as int) && forall|j: int|
            0 <= j < l2.len() ==> (#[trigger] l2[j]).segments@ == edges_at(e, idx[j]) && walked_from(
                e,
                idx[j],
                index_concat(idx.take(j)),
            );
    assert forall|i: int| 0 <= i < x.len() implies closes(edges_at(e, #[trigger] x[i])) by {
        assert(l1[i].segments@ == edges_at(e, x[i]));
    }
    assert forall|i: int| 0 <= i < y.len() implies closes(edges_at(e, #[trigger] y[i])) by {
        assert(l2[i].segments@ == edges_at(e, y[i]));
    }
    assert forall|i: int| 0 <= i < x.len() implies walked_from(e, #[trigger] x[i], index_concat(x.take(i))) by {
        assert(l1[i].segments@ == edges_at(e, x[i]));
    }
    assert forall|i: int| 0 <= i < y.len() implies walked_from(e, #[trigger] y[i], index_concat(y.take(i))) by {
        assert(l2[i].segments@ == edges_at(e, y[i]));
    }
    let m = if x.len() < y.len() { x.len() as int } else { y.len() as int };
    lemma_walks_agree(e, x, y, m);
    // Neither run has loops left over: the other has already walked every edge.
    if x.len() != y.len() {
        let (short, long) = if x.len() < y.len() { (x, y) } else { (y, x) };
        assert(short.take(m) =~= short);
        assert(long.take(m) == short);
        assert forall|i: int| 0 <= i < long.len() implies (#[trigger] long[i]).len() > 0 by {
            assert(walked_from(e, long[i], index_concat(long.take(i))));
        }
        lemma_concat_len(long, m);
        lemma_concat_prefix(long, m);
        let ps = index_concat(short);
        let pl = index_concat(long);
        assert(pl.take(ps.len() as int) == ps);
        let q = ps.len() as int;
        let k = pl[q];
        assert(pl.contains(k));
        assert(ps.contains(k));
        let i = choose|i: int| 0 <= i < ps.len() && ps[i] == k;
        assert(pl[i] == k);
    }
    assert(x =~= y) by {
        assert(x.take(m) =~= x);
        assert(y.take(m) =~= y);
    }
    assert forall|j: int| 0 <= j < w1.len() implies (#[trigger] w1[j]).segments@ == w2[j].segments@ by {
        if j >= c {
            assert(l1[j - c] == w1[j]);
            assert(l2[j - c] == w2[j]);
        }
    }
}

/// Keeps an element unless it is a curve marked as construction geometry.
pub open spec fn kept_without_construction(construction: Set<u128>) -> spec_fn(GeometryElement) -> bool {
    |g: GeometryElement| g is Point || !construction.contains(g.spec_id())
}

/// The two sketches leave out the same ids.
pub open spec fn same_left_out(s1: Sketch, s2: Sketch) -> bool {
    s1.construction@ == s2.construction@ && s1.external@ == s2.external@
}

/// Dropping construction curves leaves the edges and the self-closing
/// segments as they were.
proof fn lemma_dropped_curves_add_nothing(s1: Sketch, s2: Sketch, geometry: Seq<GeometryElement>)
    requires
        same_left_out(s1, s2),
    ensures
        edges_in(s2, geometry.filter(kept_without_construction(s1.construction@))) == edges_in(s1, geometry),
        closed_in(s2, geometry.filter(kept_without_construction(s1.construction@))) == closed_in(s1, geometry),
        forall|g: GeometryElement| #[trigger] required_points(s2, g) == required_points(s1, g),
    decreases geometry.len(),
{
    reveal(Seq::filter);
    let kept = kept_without_construction(s1.construction@);
    assert forall|g: GeometryElement| #[trigger] required_points(s2, g) == required_points(s1, g) by {
        assert(left_out(s2, g.spec_id()) == left_out(s1, g.spec_id()));
    }
    if geometry.len() > 0 {
        lemma_dropped_curves_add_nothing(s1, s2, geometry.drop_last());
        let g = geometry.last();
        let sub = geometry.drop_last().filter(kept);
        assert(left_out(s2, g.spec_id()) == left_out(s1, g.spec_id()));
        if kept(g) {
            assert(geometry.filter(kept) == sub.push(g));
            assert(sub.push(g).drop_last() =~= sub);
            assert(sub.push(g).last() == g);
        } else {
            assert(geometry.filter(kept) == sub);
            assert(edge_of(s1, g) is None);
            assert(closed_of(s1, g) is None);
        }
    }
}

/// With no id twice, dropping construction curves moves no point: every id
/// has the position it had.
proof fn lemma_dropped_curves_keep_positions(s1: Sketch, s2: Sketch, id: u128)
    requires
        well_formed(s1.geometry@),
        s2.geometry@ == s1.geometry@.filter(kept_without_construction(s1.construction@)),
    ensures
        s2.position_of(id) == s1.position_of(id),
{
    broadcast use vstd::seq_lib::group_filter_ensures;

    let g1 = s1.geometry@;
    let g2 = s2.geometry@;
    let kept = kept_without_construction(s1.construction@);
    // An element with the id in the dropped list is the one in the sketch.
    if has_id(g2, id) {
        lemma_first_with_id_exists(g2, id);
        let k = choose|k: int| is_first_with_id(g2, id, k);
        assert(g2.contains(g2[k]));
        g1.lemma_filter_contains_rev(kept, g2[k]);
        let i = choose|i: int| 0 <= i < g1.len() && g1[i] == g2[k];
        assert(has_id(g1, id));
        lemma_first_with_id_exists(g1, id);
        let f = choose|f: int| is_first_with_id(g1, id, f);
        assert(f == i);
        assert(lookup(g2, id) == Some(g2[k]));
        assert(lookup(g1, id) == Some(g1[f]));
    } else if has_id(g1, id) {
        lemma_first_with_id_exists(g1, id);
        let i = choose|i: int| is_first_with_id(g1, id, i);
        if g1[i] is Point {
            assert(kept(g1[i]));
            assert(g2.contains(g1[i]));
            let k = choose|k: int| 0 <= k < g2.len() && g2[k] == g1[i];
            assert(g2[k].spec_id() == id);
        }
    }
}

/// With every position the same, the first missing point of a list is the same.
proof fn lemma_first_missing_same(s1: Sketch, s2: Sketch, points: Seq<u128>)
    requires
        forall|id: u128| #[trigger] s2.position_of(id) == s1.position_of(id),
    ensures
        first_missing_of(s2, points) == first_missing_of(s1, points),
    decreases points.len(),
{
    if points.len() > 0 {
        assert(s2.position_of(points[0]) == s1.position_of(points[0]));
        lemma_first_missing_same(s1, s2, points.drop_first());
    }
}

/// Dropping construction curves changes no missing point.
proof fn lemma_dropped_curves_miss_nothing(s1: Sketch, s2: Sketch, geometry: Seq<GeometryElement>)
    requires
        same_left_out(s1, s2),
        forall|id: u128| #[trigger] s2.position_of(id) == s1.position_of(id),
    ensures
        first_missing_in(s2, geometry.filter(kept_without_construction(s1.construction@))) == first_missing_in(
            s1,
            geometry,
        ),
    decreases geometry.len(),
{
    reveal(Seq::filter);
    let kept = kept_without_construction(s1.construction@);
    lemma_dropped_curves_add_nothing(s1, s2, geometry);
    if geometry.len() > 0 {
        lemma_dropped_curves_miss_nothing(s1, s2, geometry.drop_last());
        let g = geometry.last();
        let sub = geometry.drop_last().filter(kept);
        assert(required_points(s2, g) == required_points(s1, g));
        lemma_first_missing_same(s1, s2, required_points(s1, g));
        if kept(g) {
            assert(geometry.filter(kept) == sub.push(g));
            assert(sub.push(g).drop_last() =~= sub);
            assert(sub.push(g).last() == g);
        } else {
            assert(geometry.filter(kept) == sub);
            assert(left_out(s1, g.spec_id()));
            assert(required_points(s1, g) =~= Seq::<u128>::empty());
        }
    }
}

/// Construction geometry never shapes a profile: a sketch whose
/// construction curves are dropped (its points kept, construction and
/// projected ids as they were) holds a profile exactly when the sketch
/// does, and then the same wires. The sketch's elements have distinct ids.
pub proof fn law_construction_never_shapes_profiles(s1: Sketch, s2: Sketch, w1: Seq<Wire>, w2: Seq<Wire>)
    requires
        well_formed(s1.geometry@),
        s2.geometry@ == s1.geometry@.filter(kept_without_construction(s1.construction@)),
        same_left_out(s1, s2),
    ensures
        has_profile(s1) == has_profile(s2),
        has_profile(s1) && wires_of(s1, w1) && wires_of(s2, w2) ==> w1.len() == w2.len() && forall|j: int|
            0 <= j < w1.len() ==> (#[trigger] w1[j]).segments@ == w2[j].segments@,
{
    assert forall|id: u128| #[trigger] s2.position_of(id) == s1.position_of(id) by {
        lemma_dropped_curves_keep_positions(s1, s2, id);
    }
    lemma_dropped_curves_add_nothing(s1, s2, s1.geometry@);
    lemma_dropped_curves_miss_nothing(s1, s2, s1.geometry@);
    if has_profile(s1) && wires_of(s1, w1) && wires_of(s2, w2) {
        assert(wires_of(s1, w2));
        law_wires_are_determined(s1, w1, w2);
    }
}

} // verus!
