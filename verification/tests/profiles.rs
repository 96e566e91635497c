use wb_sketch::profile::{extract_wires, ProfileError, Segment};
use wb_sketch::sketch::{Arc, BSpline, Circle, Ellipse, GeometryElement, Line, Point, Sketch, Vec2D};

fn v(x: f32, y: f32) -> Vec2D {
    Vec2D::new(x.to_bits(), y.to_bits())
}

fn pt(sketch: &mut Sketch, x: f32, y: f32) -> u128 {
    sketch.add_geometry(GeometryElement::Point(Point::new(v(x, y))))
}

fn line(sketch: &mut Sketch, a: u128, b: u128) -> u128 {
    sketch.add_geometry(GeometryElement::Line(Line::new(a, b)))
}

fn rectangle(sketch: &mut Sketch) -> [u128; 4] {
    let a = pt(sketch, 0.0, 0.0);
    let b = pt(sketch, 10.0, 0.0);
    let c = pt(sketch, 10.0, 5.0);
    let d = pt(sketch, 0.0, 5.0);
    line(sketch, a, b);
    line(sketch, b, c);
    line(sketch, c, d);
    line(sketch, d, a);
    [a, b, c, d]
}

#[test]
fn rectangle_extracts_one_closed_wire() {
    let mut sketch = Sketch::new("t");
    rectangle(&mut sketch);
    let wires = extract_wires(&sketch).unwrap();
    assert_eq!(wires.len(), 1);
    assert_eq!(wires[0].segments.len(), 4);
}

#[test]
fn circle_is_its_own_wire() {
    let mut sketch = Sketch::new("t");
    let c = pt(&mut sketch, 3.0, 3.0);
    let circle = sketch.add_geometry(GeometryElement::Circle(Circle::new(c, 2.0f32.to_bits())));
    let wires = extract_wires(&sketch).unwrap();
    assert_eq!(wires.len(), 1);
    assert_eq!(wires[0].segments, vec![Segment::Closed { element: circle }]);
    match sketch.get_geometry(circle) {
        Some(GeometryElement::Circle(found)) => assert!((f32::from_bits(found.radius) - 2.0).abs() < 1e-9),
        _ => panic!("the wire's circle is in the sketch"),
    }
}

#[test]
fn rectangle_with_hole_gives_two_wires() {
    let mut sketch = Sketch::new("t");
    rectangle(&mut sketch);
    let c = pt(&mut sketch, 5.0, 2.5);
    sketch.add_geometry(GeometryElement::Circle(Circle::new(c, 1.0f32.to_bits())));
    let wires = extract_wires(&sketch).unwrap();
    assert_eq!(wires.len(), 2);
}

#[test]
fn open_chain_is_rejected() {
    let mut sketch = Sketch::new("t");
    let a = pt(&mut sketch, 0.0, 0.0);
    let b = pt(&mut sketch, 10.0, 0.0);
    let c = pt(&mut sketch, 10.0, 5.0);
    line(&mut sketch, a, b);
    line(&mut sketch, b, c);
    assert!(matches!(extract_wires(&sketch), Err(ProfileError::OpenAt(_))));
}

#[test]
fn branching_is_rejected() {
    let mut sketch = Sketch::new("t");
    let [a, ..] = rectangle(&mut sketch);
    let e = pt(&mut sketch, -5.0, -5.0);
    let e2 = pt(&mut sketch, -5.0, 5.0);
    // Two extra edges through corner `a` (degree 4) forming a closed-ish
    // detour: every vertex except `a` has degree 2, so the failure is the
    // branch at `a`.
    line(&mut sketch, a, e);
    line(&mut sketch, e, e2);
    line(&mut sketch, e2, a);
    assert!(matches!(extract_wires(&sketch), Err(ProfileError::BranchingAt(_))));
    assert_eq!(extract_wires(&sketch), Err(ProfileError::BranchingAt(a)));
}

#[test]
fn dangling_edge_is_rejected() {
    let mut sketch = Sketch::new("t");
    let [a, ..] = rectangle(&mut sketch);
    let e = pt(&mut sketch, -5.0, -5.0);
    line(&mut sketch, a, e); // open spur off the rectangle
    assert!(matches!(
        extract_wires(&sketch),
        Err(ProfileError::OpenAt(_) | ProfileError::BranchingAt(_))
    ));
}

#[test]
fn empty_sketch_is_rejected_but_points_are_ignored() {
    let mut sketch = Sketch::new("t");
    assert_eq!(extract_wires(&sketch), Err(ProfileError::Empty));
    pt(&mut sketch, 1.0, 1.0);
    assert_eq!(extract_wires(&sketch), Err(ProfileError::Empty));
}

#[test]
fn construction_curves_are_ignored_by_profile() {
    let mut sketch = Sketch::new("t");
    let [a, _, c, _] = rectangle(&mut sketch);
    // A construction diagonal through two rectangle corners would make the
    // endpoint graph branch if it were part of the wire.
    let diagonal = line(&mut sketch, a, c);
    sketch.set_construction(diagonal, true);
    // A construction circle must not become its own wire either.
    let center = pt(&mut sketch, 5.0, 2.5);
    let circle = sketch.add_geometry(GeometryElement::Circle(Circle::new(center, 1.0f32.to_bits())));
    sketch.set_construction(circle, true);

    let wires = extract_wires(&sketch).unwrap();
    assert_eq!(wires.len(), 1, "only the rectangle remains");
    assert_eq!(wires[0].segments.len(), 4);
}

#[test]
fn all_construction_geometry_yields_empty_error() {
    let mut sketch = Sketch::new("t");
    let center = pt(&mut sketch, 0.0, 0.0);
    let circle = sketch.add_geometry(GeometryElement::Circle(Circle::new(center, 2.0f32.to_bits())));
    sketch.set_construction(circle, true);
    assert_eq!(extract_wires(&sketch), Err(ProfileError::Empty));
}

#[test]
fn arc_capped_slot_closes_in_one_wire() {
    let mut sketch = Sketch::new("t");
    let a = pt(&mut sketch, 0.0, 0.0);
    let b = pt(&mut sketch, 10.0, 0.0);
    let c = pt(&mut sketch, 10.0, 4.0);
    let d = pt(&mut sketch, 0.0, 4.0);
    let right_center = pt(&mut sketch, 10.0, 2.0);
    let left_center = pt(&mut sketch, 0.0, 2.0);
    let bottom = line(&mut sketch, a, b);
    let right = sketch.add_geometry(GeometryElement::Arc(Arc::new(right_center, b, c, 2.0f32.to_bits())));
    let top = line(&mut sketch, c, d);
    let left = sketch.add_geometry(GeometryElement::Arc(Arc::new(left_center, d, a, 2.0f32.to_bits())));
    let wires = extract_wires(&sketch).unwrap();
    assert_eq!(wires.len(), 1);
    let elements: Vec<u128> = wires[0]
        .segments
        .iter()
        .map(|s| match s {
            Segment::Edge { element, .. } => *element,
            Segment::Closed { element } => *element,
        })
        .collect();
    // Walked end to end from the first curve.
    assert_eq!(elements, vec![bottom, right, top, left]);
}

#[test]
fn a_curve_without_its_point_is_reported() {
    let mut sketch = Sketch::new("t");
    let a = pt(&mut sketch, 0.0, 0.0);
    let missing = 0x1234u128;
    line(&mut sketch, a, missing);
    assert_eq!(extract_wires(&sketch), Err(ProfileError::MissingPoint(missing)));
    assert_eq!(ProfileError::MissingPoint(missing).message(), "curve references a missing point");
    assert_eq!(ProfileError::Empty.message(), "sketch contains no closed profile");
}

#[test]
fn ellipses_and_periodic_splines_close_themselves_and_open_splines_join_loops() {
    let mut sketch = Sketch::new("t");
    let c = pt(&mut sketch, 0.0, 0.0);
    let e = sketch.add_geometry(GeometryElement::Ellipse(Ellipse::new(c, v(4.0, 0.0), 0.5f32.to_bits())));
    let p = [pt(&mut sketch, 10.0, 0.0), pt(&mut sketch, 12.0, 2.0), pt(&mut sketch, 14.0, 0.0)];
    let closed_spline = sketch.add_geometry(GeometryElement::BSpline(BSpline::new(p.to_vec(), true)));
    let q = [pt(&mut sketch, 20.0, 0.0), pt(&mut sketch, 22.0, 2.0), pt(&mut sketch, 24.0, 0.0)];
    let open_spline = sketch.add_geometry(GeometryElement::BSpline(BSpline::new(q.to_vec(), false)));
    let back = line(&mut sketch, q[2], q[0]);
    let wires = extract_wires(&sketch).unwrap();
    assert_eq!(wires.len(), 3);
    assert_eq!(wires[0].segments, vec![Segment::Closed { element: e }]);
    assert_eq!(wires[1].segments, vec![Segment::Closed { element: closed_spline }]);
    assert_eq!(
        wires[2].segments,
        vec![
            Segment::Edge { element: open_spline, start: q[0], end: q[2] },
            Segment::Edge { element: back, start: q[2], end: q[0] },
        ]
    );
}

#[test]
fn dropping_construction_curves_leaves_the_wires_as_they_were() {
    let mut sketch = Sketch::new("t");
    let [a, _, c, _] = rectangle(&mut sketch);
    let diagonal = line(&mut sketch, a, c);
    sketch.set_construction(diagonal, true);
    let center = pt(&mut sketch, 5.0, 2.5);
    let circle = sketch.add_geometry(GeometryElement::Circle(Circle::new(center, 1.0f32.to_bits())));
    sketch.set_construction(circle, true);

    let kept: Vec<GeometryElement> = sketch
        .geometry
        .iter()
        .filter(|g| matches!(g, GeometryElement::Point(_)) || !sketch.construction.contains(&g.id()))
        .cloned()
        .collect();
    assert_eq!(kept.len(), sketch.geometry.len() - 2);
    let without = Sketch {
        id: sketch.id,
        name: sketch.name.clone(),
        plane: sketch.plane,
        geometry: kept,
        constraints: Vec::new(),
        is_fully_constrained: sketch.is_fully_constrained,
        construction: sketch.construction.clone(),
        external: sketch.external.clone(),
    };
    assert_eq!(extract_wires(&sketch), extract_wires(&without));
    assert!(extract_wires(&sketch).is_ok());
}

#[test]
fn a_loop_takes_the_first_edge_left_at_each_point() {
    let mut sketch = Sketch::new("t");
    let a = pt(&mut sketch, 0.0, 0.0);
    let b = pt(&mut sketch, 10.0, 0.0);
    let c = pt(&mut sketch, 10.0, 5.0);
    let d = pt(&mut sketch, 0.0, 5.0);
    let ab = line(&mut sketch, a, b);
    let cd = line(&mut sketch, c, d);
    let bc = line(&mut sketch, b, c);
    let da = line(&mut sketch, d, a);
    let wires = extract_wires(&sketch).unwrap();
    assert_eq!(wires.len(), 1);
    assert_eq!(
        wires[0].segments,
        vec![
            Segment::Edge { element: ab, start: a, end: b },
            Segment::Edge { element: bc, start: b, end: c },
            Segment::Edge { element: cd, start: c, end: d },
            Segment::Edge { element: da, start: d, end: a },
        ]
    );
    assert_eq!(extract_wires(&sketch), extract_wires(&sketch));
}
