use wb_sketch::dxf::{add_drawn, Added, DrawnSegment, DrawnShape, SegmentArc};
use wb_sketch::sketch::{ConstraintKind, GeometryElement, Point, Sketch, Vec2D};

fn pt(sketch: &mut Sketch, x: f32, y: f32) -> u128 {
    sketch.add_geometry(GeometryElement::Point(Point::new(Vec2D::new(x.to_bits(), y.to_bits()))))
}

fn segment(start: u128, end: u128) -> DrawnShape {
    DrawnShape::Segment(DrawnSegment { start, end, arc: None })
}

#[test]
fn a_closed_square_of_segments_is_four_lines_on_four_points() {
    let mut sketch = Sketch::new("t");
    let p: Vec<u128> = [(0.0, 0.0), (1.0, 0.0), (1.0, 1.0), (0.0, 1.0)]
        .iter()
        .map(|(x, y)| pt(&mut sketch, *x, *y))
        .collect();
    let mut added = Added::default();
    for i in 0..4 {
        add_drawn(&mut sketch, &segment(p[i], p[(i + 1) % 4]), false, &mut added);
    }
    assert_eq!(added, Added { lines: 4, ..Added::default() });
    assert_eq!(added.curves(), 4);
    assert_eq!(sketch.geometry.len(), 8);
    let GeometryElement::Line(last) = &sketch.geometry[7] else { panic!() };
    assert_eq!((last.start, last.end), (p[3], p[0]));
}

#[test]
fn a_segment_whose_ends_are_one_point_makes_nothing() {
    let mut sketch = Sketch::new("t");
    let a = pt(&mut sketch, 0.0, 0.0);
    let mut added = Added::default();
    let made = add_drawn(&mut sketch, &segment(a, a), true, &mut added);
    assert!(made.is_empty());
    assert_eq!(added, Added::default());
    assert_eq!(sketch.geometry.len(), 1);
}

#[test]
fn a_clockwise_bulge_is_an_arc_from_the_segments_end() {
    let mut sketch = Sketch::new("t");
    let a = pt(&mut sketch, 0.0, 0.0);
    let b = pt(&mut sketch, 2.0, 0.0);
    let c = pt(&mut sketch, 1.0, 0.0);
    let mut added = Added::default();
    let arc = SegmentArc { centre: c, radius: 1.0f32.to_bits(), counterclockwise: false };
    let made = add_drawn(
        &mut sketch,
        &DrawnShape::Segment(DrawnSegment { start: a, end: b, arc: Some(arc) }),
        false,
        &mut added,
    );
    let Some(GeometryElement::Arc(made)) = sketch.get_geometry(made[0]) else { panic!() };
    assert_eq!((made.center, made.start, made.end), (c, b, a));
    assert_eq!(made.radius, 1.0f32.to_bits());
    assert_eq!(added.arcs, 1);
}

#[test]
fn a_closed_spline_is_lines_back_to_its_first_point() {
    let mut sketch = Sketch::new("t");
    let p: Vec<u128> = (0..3).map(|i| pt(&mut sketch, i as f32, (i * i) as f32)).collect();
    let mut added = Added::default();
    let made = add_drawn(&mut sketch, &DrawnShape::Spline { points: p.clone(), closed: true }, false, &mut added);
    assert_eq!(made.len(), 3);
    assert_eq!(added, Added { lines: 3, splines: 1, ..Added::default() });
    let GeometryElement::Line(closing) = sketch.get_geometry(made[2]).unwrap() else { panic!() };
    assert_eq!((closing.start, closing.end), (p[2], p[0]));
}

#[test]
fn an_arc_with_one_end_point_is_left_out() {
    let mut sketch = Sketch::new("t");
    let a = pt(&mut sketch, 1.0, 0.0);
    let mut added = Added::default();
    let made = add_drawn(
        &mut sketch,
        &DrawnShape::Arc { start: a, end: a, centre: None, radius: 1.0f32.to_bits() },
        false,
        &mut added,
    );
    assert!(made.is_empty());
    assert_eq!(added.arcs, 0);
}

#[test]
fn an_ellipse_arc_holds_its_ends_on_it() {
    let mut sketch = Sketch::new("t");
    let c = pt(&mut sketch, 0.0, 0.0);
    let s = pt(&mut sketch, 2.0, 0.0);
    let e = pt(&mut sketch, 0.0, 1.0);
    let mut added = Added::default();
    let shape = DrawnShape::Ellipse {
        centre: c,
        major: Vec2D::new(2.0f32.to_bits(), 0.0f32.to_bits()),
        ratio: 0.5f32.to_bits(),
        ends: Some((s, e)),
    };
    let made = add_drawn(&mut sketch, &shape, false, &mut added);
    assert_eq!(added.ellipses, 1);
    assert_eq!(sketch.constraints.len(), 2);
    assert_eq!(sketch.constraints[0].kind, ConstraintKind::PointOnEllipse { point: s, ellipse: made[0] });
    assert_eq!(sketch.constraints[1].kind, ConstraintKind::PointOnEllipse { point: e, ellipse: made[0] });
    // A whole ellipse has no ends to hold.
    let whole = DrawnShape::Ellipse { centre: c, major: Vec2D::new(1, 0), ratio: 1, ends: None };
    add_drawn(&mut sketch, &whole, false, &mut added);
    assert_eq!(sketch.constraints.len(), 2);
    assert_eq!(added.ellipses, 2);
}

#[test]
fn a_hidden_curve_is_construction() {
    let mut sketch = Sketch::new("t");
    let c = pt(&mut sketch, 0.0, 0.0);
    let mut added = Added::default();
    let made = add_drawn(&mut sketch, &DrawnShape::Circle { centre: c, radius: 1 }, true, &mut added);
    assert!(sketch.is_construction(made[0]));
    assert!(!sketch.is_construction(c));
    assert_eq!(added, Added { circles: 1, construction: 1, ..Added::default() });
}
