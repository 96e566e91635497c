use std::collections::HashSet;

use wb_sketch::constrain::{dimension_for, fits, kinds_for, SelectionShape};
use wb_sketch::sketch::{
    AxisDirection, Circle, ConstraintKind, GeometryElement, Line, Point, Sketch, Vec2D, ORIGIN_ID, X_AXIS_ID,
};

fn v(x: f32, y: f32) -> Vec2D {
    Vec2D::new(x.to_bits(), y.to_bits())
}

fn pt(sketch: &mut Sketch, x: f32, y: f32) -> u128 {
    sketch.add_geometry(GeometryElement::Point(Point::new(v(x, y))))
}

/// What the sketcher measures for a dimension: here a line's length and a
/// circle's radius, the rest zero.
fn measure(sketch: &Sketch) -> impl Fn(ConstraintKind) -> u32 + '_ {
    move |k: ConstraintKind| match k {
        ConstraintKind::Length { line, .. } => match sketch.get_geometry(line) {
            Some(GeometryElement::Line(l)) => {
                let a = sketch.point_position(l.start).unwrap();
                let b = sketch.point_position(l.end).unwrap();
                let dx = f32::from_bits(b.x) - f32::from_bits(a.x);
                let dy = f32::from_bits(b.y) - f32::from_bits(a.y);
                (dx * dx + dy * dy).sqrt().to_bits()
            }
            _ => 0,
        },
        ConstraintKind::Radius { circle, .. } => match sketch.get_geometry(circle) {
            Some(GeometryElement::Circle(c)) => c.radius,
            _ => 0,
        },
        _ => 0,
    }
}

fn sketch_with_line_and_circle() -> (Sketch, u128, u128, u128, u128) {
    let mut sketch = Sketch::new("t");
    let a = pt(&mut sketch, 0.0, 0.0);
    let b = pt(&mut sketch, 10.0, 0.0);
    let line = sketch.add_geometry(GeometryElement::Line(Line::new(a, b)));
    let center = pt(&mut sketch, 5.0, 5.0);
    let circle = sketch.add_geometry(GeometryElement::Circle(Circle::new(center, 2.0f32.to_bits())));
    (sketch, a, b, line, circle)
}

fn shape_of(sketch: &Sketch, ids: &[u128]) -> SelectionShape {
    SelectionShape::of(sketch, &ids.iter().copied().collect::<HashSet<u128>>())
}

const TOOLS: &[&str] = &[
    "coincident",
    "point_on_object",
    "midpoint",
    "vertical",
    "horizontal",
    "parallel",
    "perpendicular",
    "tangent",
    "equal",
    "symmetric",
    "block",
    "lock",
    "distance_x",
    "distance_y",
    "distance",
    "radius",
    "diameter",
    "angle",
    "angle_x",
    "angle_y",
];

#[test]
fn a_line_alone_takes_length_and_orientation_tools() {
    let (sketch, _, _, line, _) = sketch_with_line_and_circle();
    let shape = shape_of(&sketch, &[line]);
    assert!(fits("horizontal", &shape));
    assert!(fits("distance", &shape));
    assert!(fits("angle_x", &shape));
    assert!(!fits("radius", &shape));
    assert!(!fits("coincident", &shape));
    let kinds = kinds_for("distance", &shape, &sketch, measure(&sketch)).unwrap();
    assert!(matches!(kinds[0], ConstraintKind::Length { length, .. } if (f32::from_bits(length) - 10.0).abs() < 1e-4));
}

#[test]
fn point_on_object_dispatches_by_the_other_element() {
    let (sketch, a, _, line, circle) = sketch_with_line_and_circle();
    let on_line = shape_of(&sketch, &[a, line]);
    assert!(matches!(
        kinds_for("point_on_object", &on_line, &sketch, measure(&sketch)).unwrap()[0],
        ConstraintKind::PointOnLine { .. }
    ));
    let on_circle = shape_of(&sketch, &[a, circle]);
    assert!(matches!(
        kinds_for("point_on_object", &on_circle, &sketch, measure(&sketch)).unwrap()[0],
        ConstraintKind::PointOnCircle { .. }
    ));
}

#[test]
fn block_takes_any_selection_and_nothing_takes_an_empty_one() {
    let (sketch, a, _, line, _) = sketch_with_line_and_circle();
    let shape = shape_of(&sketch, &[a, line]);
    assert_eq!(kinds_for("block", &shape, &sketch, measure(&sketch)).unwrap().len(), 2);
    let empty = SelectionShape::new();
    assert!(TOOLS.iter().all(|t| !fits(t, &empty)));
}

#[test]
fn the_dimension_tool_picks_what_the_selection_takes() {
    let mut sketch = Sketch::new("t");
    let a = pt(&mut sketch, 0.0, 0.0);
    let b = pt(&mut sketch, 10.0, 0.0);
    let c = pt(&mut sketch, 0.0, 5.0);
    let line = sketch.add_geometry(GeometryElement::Line(Line::new(a, b)));
    let other = sketch.add_geometry(GeometryElement::Line(Line::new(a, c)));
    let circle = sketch.add_geometry(GeometryElement::Circle(Circle::new(c, 2.0f32.to_bits())));
    assert_eq!(dimension_for(&shape_of(&sketch, &[circle])), Some("radius"));
    assert_eq!(dimension_for(&shape_of(&sketch, &[line, other])), Some("angle"));
    assert_eq!(dimension_for(&shape_of(&sketch, &[a, b])), Some("distance"));
    assert_eq!(dimension_for(&shape_of(&sketch, &[])), None);
}

#[test]
fn the_selection_sorts_by_kind_with_references_last() {
    let (sketch, a, b, line, circle) = sketch_with_line_and_circle();
    let shape = shape_of(&sketch, &[X_AXIS_ID, circle, b, ORIGIN_ID, line, a]);
    assert_eq!(shape.points, vec![a, b, ORIGIN_ID]);
    assert_eq!(shape.lines, vec![line, X_AXIS_ID]);
    assert_eq!(shape.circles, vec![circle]);
    assert!(shape.ellipses.is_empty());
    assert_eq!(shape.all, vec![a, b, line, circle, ORIGIN_ID, X_AXIS_ID]);
}

#[test]
fn horizontal_takes_every_selected_line() {
    let (sketch, a, _, line, _) = sketch_with_line_and_circle();
    let mut sketch = sketch;
    let c = pt(&mut sketch, 0.0, 5.0);
    let other = sketch.add_geometry(GeometryElement::Line(Line::new(a, c)));
    let shape = shape_of(&sketch, &[line, other]);
    let kinds = kinds_for("horizontal", &shape, &sketch, measure(&sketch)).unwrap();
    assert_eq!(
        kinds,
        vec![ConstraintKind::Horizontal { element: line }, ConstraintKind::Horizontal { element: other }]
    );
}

#[test]
fn lock_fixes_the_point_where_it_is_and_angle_x_takes_the_x_axis() {
    let (sketch, _, b, line, _) = sketch_with_line_and_circle();
    let lock = kinds_for("lock", &shape_of(&sketch, &[b]), &sketch, measure(&sketch)).unwrap();
    assert_eq!(lock, vec![ConstraintKind::FixedPoint { point: b, position: v(10.0, 0.0) }]);
    let angle = kinds_for("angle_x", &shape_of(&sketch, &[line]), &sketch, |_| 0.25f32.to_bits()).unwrap();
    assert_eq!(
        angle,
        vec![ConstraintKind::AngleToAxis { line, axis: AxisDirection::Horizontal, angle_rad: 0.25f32.to_bits() }]
    );
    assert!(kinds_for("tangent", &shape_of(&sketch, &[line]), &sketch, measure(&sketch)).is_none());
}

#[test]
fn distance_x_of_one_point_measures_from_the_origin() {
    let (sketch, a, b, _, _) = sketch_with_line_and_circle();
    let one = kinds_for("distance_x", &shape_of(&sketch, &[b]), &sketch, |_| 10.0f32.to_bits()).unwrap();
    assert_eq!(one, vec![ConstraintKind::DistanceX { a: b, b: None, value: 10.0f32.to_bits() }]);
    let two = kinds_for("distance_y", &shape_of(&sketch, &[a, b]), &sketch, |_| 0).unwrap();
    assert_eq!(two, vec![ConstraintKind::DistanceY { a, b: Some(b), value: 0 }]);
}

#[test]
fn a_fitting_tool_makes_constraints_on_the_selection_only() {
    let mut sketch = Sketch::new("t");
    let a = sketch.add_geometry(GeometryElement::Point(Point::new(Vec2D::new(0, 0))));
    let b = sketch.add_geometry(GeometryElement::Point(Point::new(Vec2D::new(1.0f32.to_bits(), 0))));
    let l = sketch.add_geometry(GeometryElement::Line(Line::new(a, b)));
    let selected: HashSet<u128> = [l].into_iter().collect();
    let shape = SelectionShape::of(&sketch, &selected);
    for tool in ["horizontal", "vertical", "block", "distance"] {
        let kinds = kinds_for(tool, &shape, &sketch, measure(&sketch)).unwrap();
        assert!(!kinds.is_empty());
        for k in &kinds {
            assert!(wb_sketch::sketch::constraint_refs(k).iter().all(|id| selected.contains(id)));
        }
    }
}
