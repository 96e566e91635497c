use std::collections::HashSet;

use wb_sketch::sketch::{
    constraint_label, constraint_refs, is_angular, stored_value, with_stored_value, AxisDirection, BSpline,
    Constraint, ConstraintKind, Ellipse, GeometryElement, Line, Point, Reference, Sketch, SketchPlane, Vec2D,
    ORIGIN_ID, X_AXIS_ID, Y_AXIS_ID,
};
use wb_sketch::commands::{resolve_items, ItemError};
use wb_sketch::style::{constraint_icon, element_icon, element_kind, element_name};

fn v(x: f32, y: f32) -> Vec2D {
    Vec2D::new(x.to_bits(), y.to_bits())
}

fn pt(sketch: &mut Sketch, x: f32, y: f32) -> u128 {
    sketch.add_geometry(GeometryElement::Point(Point::new(v(x, y))))
}

fn line(sketch: &mut Sketch, a: u128, b: u128) -> u128 {
    sketch.add_geometry(GeometryElement::Line(Line::new(a, b)))
}

#[test]
fn construction_flag_round_trips() {
    let mut sketch = Sketch::new("t");
    let a = pt(&mut sketch, 0.0, 0.0);
    let b = pt(&mut sketch, 5.0, 0.0);
    let l = line(&mut sketch, a, b);

    assert!(!sketch.is_construction(l));
    sketch.set_construction(l, true);
    assert!(sketch.is_construction(l));
    assert!(!sketch.is_construction(a), "flag applies per element");

    sketch.set_construction(l, false);
    assert!(!sketch.is_construction(l));
}

#[test]
fn ellipse_and_bspline_round_trip_and_cascade() {
    let mut sketch = Sketch::new("t");
    let c = pt(&mut sketch, 0.0, 0.0);
    let e = sketch.add_geometry(GeometryElement::Ellipse(Ellipse::new(c, v(4.0, 0.0), 0.5f32.to_bits())));
    let p1 = pt(&mut sketch, 0.0, 5.0);
    let p2 = pt(&mut sketch, 5.0, 8.0);
    let p3 = pt(&mut sketch, 9.0, 5.0);
    let b = sketch.add_geometry(GeometryElement::BSpline(BSpline::new(vec![p1, p2, p3], false)));

    assert!(matches!(
        sketch.get_geometry(e),
        Some(GeometryElement::Ellipse(el)) if (f32::from_bits(el.ratio) - 0.5).abs() < 1e-6
    ));
    assert!(matches!(
        sketch.get_geometry(b),
        Some(GeometryElement::BSpline(bs)) if bs.control_points.len() == 3 && !bs.periodic
    ));

    // Removing a referenced point cascades to the curve.
    sketch.remove_geometry_cascade(&[c]);
    assert!(sketch.get_geometry(e).is_none(), "ellipse follows center");
    sketch.remove_geometry_cascade(&[p2]);
    assert!(sketch.get_geometry(b).is_none(), "spline follows its cp");
    assert!(sketch.get_geometry(p1).is_none(), "the spline's other control points go with it");
}

#[test]
fn cascade_delete_cleans_construction_set() {
    let mut sketch = Sketch::new("t");
    let a = pt(&mut sketch, 0.0, 0.0);
    let b = pt(&mut sketch, 5.0, 0.0);
    let l = line(&mut sketch, a, b);
    sketch.set_construction(l, true);
    sketch.remove_geometry_cascade(&[a]);
    assert!(sketch.construction.is_empty());
}

fn assert_orthonormal(plane: &SketchPlane) {
    let f = |a: [u32; 3]| [f32::from_bits(a[0]), f32::from_bits(a[1]), f32::from_bits(a[2])];
    let (n, x, y) = (f(plane.normal), f(plane.x_axis), f(plane.y_axis));
    let dot = |a: [f32; 3], b: [f32; 3]| a[0] * b[0] + a[1] * b[1] + a[2] * b[2];
    let cross = |a: [f32; 3], b: [f32; 3]| {
        [a[1] * b[2] - a[2] * b[1], a[2] * b[0] - a[0] * b[2], a[0] * b[1] - a[1] * b[0]]
    };
    assert!((dot(n, n).sqrt() - 1.0).abs() < 1e-5);
    assert!((dot(x, x).sqrt() - 1.0).abs() < 1e-5);
    assert!((dot(y, y).sqrt() - 1.0).abs() < 1e-5);
    assert!(dot(x, n).abs() < 1e-5);
    assert!(dot(y, n).abs() < 1e-5);
    assert!(dot(x, y).abs() < 1e-5);
    // Right-handed: x × y = n.
    let c = cross(x, y);
    let d = [c[0] - n[0], c[1] - n[1], c[2] - n[2]];
    assert!(dot(d, d).sqrt() < 1e-5);
}

#[test]
fn presets_are_orthonormal_and_right_handed() {
    for plane in [SketchPlane::xy(), SketchPlane::xz(), SketchPlane::yz()] {
        assert_orthonormal(&plane);
    }
}

#[test]
fn the_default_plane_is_the_top_plane() {
    assert_eq!(SketchPlane::default(), SketchPlane::xy());
    assert_eq!(SketchPlane::xy().normal, [0, 0, 1.0f32.to_bits()]);
    assert_eq!(SketchPlane::xz().normal, [0, (-1.0f32).to_bits(), 0]);
}

#[test]
fn element_names_count_per_kind_in_sketch_order() {
    let mut sketch = Sketch::new("t");
    let a = pt(&mut sketch, 0.0, 0.0);
    let b = pt(&mut sketch, 1.0, 0.0);
    let l = line(&mut sketch, a, b);
    let c = pt(&mut sketch, 2.0, 0.0);
    assert_eq!(element_name(&sketch, a), "Point 1");
    assert_eq!(element_name(&sketch, l), "Line 1");
    assert_eq!(element_name(&sketch, c), "Point 3");
}

#[test]
fn references_are_named_and_unknown_ids_spelled_out() {
    let sketch = Sketch::new("t");
    assert_eq!(element_name(&sketch, ORIGIN_ID), "Origin");
    assert_eq!(element_name(&sketch, X_AXIS_ID), "X axis");
    assert_eq!(element_name(&sketch, Y_AXIS_ID), "Y axis");
    let stranger = 0x67e5_5044_10b1_426f_9247_bb68_0e5f_e0c8u128;
    assert_eq!(element_name(&sketch, stranger), "Element 67e55044");
}

#[test]
fn reference_ids_map_both_ways() {
    for r in [Reference::Origin, Reference::XAxis, Reference::YAxis] {
        let id = match r {
            Reference::Origin => ORIGIN_ID,
            Reference::XAxis => X_AXIS_ID,
            Reference::YAxis => Y_AXIS_ID,
        };
        assert_eq!(Reference::of(id), Some(r));
    }
    assert_eq!(Reference::of(7), None);
    assert_eq!(Reference::Origin.label(), "Origin");
    assert_eq!(Reference::XAxis.label(), "X axis");
    assert!(Reference::Origin.is_point());
    assert!(!Reference::YAxis.is_point());
    assert_eq!(Reference::XAxis.direction(), Some(v(1.0, 0.0)));
    assert_eq!(Reference::YAxis.direction(), Some(v(0.0, 1.0)));
    assert_eq!(Reference::Origin.direction(), None);
}

#[test]
fn the_origin_has_a_position_and_lines_have_none() {
    let mut sketch = Sketch::new("t");
    let a = pt(&mut sketch, 3.0, 4.0);
    let b = pt(&mut sketch, 5.0, 4.0);
    let l = line(&mut sketch, a, b);
    assert_eq!(sketch.point_position(ORIGIN_ID), Some(v(0.0, 0.0)));
    assert_eq!(sketch.point_position(a), Some(v(3.0, 4.0)));
    assert_eq!(sketch.point_position(l), None);
    assert_eq!(Sketch::curve_point_ids(sketch.get_geometry(l).unwrap()), vec![a, b]);
}

#[test]
fn cascade_spares_points_a_remaining_curve_shares() {
    let mut sketch = Sketch::new("t");
    let a = pt(&mut sketch, 0.0, 0.0);
    let b = pt(&mut sketch, 1.0, 0.0);
    let c = pt(&mut sketch, 1.0, 1.0);
    let ab = line(&mut sketch, a, b);
    let bc = line(&mut sketch, b, c);
    let on_ab = sketch.add_constraint(ConstraintKind::Horizontal { element: ab });
    let on_bc = sketch.add_constraint(ConstraintKind::Vertical { element: bc });
    let removed = sketch.remove_geometry_cascade(&[ab]);
    // The line goes, and its end `a` no other curve needs; `b` stays.
    assert_eq!(removed, vec![a, ab]);
    assert!(sketch.get_geometry(b).is_some());
    assert!(sketch.get_geometry(bc).is_some());
    assert_eq!(sketch.constraints.len(), 1);
    assert_eq!(sketch.constraints[0].id, on_bc);
    assert_ne!(on_ab, on_bc);
}

#[test]
fn cascade_of_nothing_changes_nothing() {
    let mut sketch = Sketch::new("t");
    let a = pt(&mut sketch, 0.0, 0.0);
    let b = pt(&mut sketch, 1.0, 0.0);
    line(&mut sketch, a, b);
    assert!(sketch.remove_geometry_cascade(&[]).is_empty());
    assert_eq!(sketch.geometry.len(), 3);
}

#[test]
fn standalone_points_are_orphans_and_curve_ends_are_not() {
    let mut sketch = Sketch::new("t");
    let a = pt(&mut sketch, 0.0, 0.0);
    let b = pt(&mut sketch, 1.0, 0.0);
    let lone = pt(&mut sketch, 5.0, 5.0);
    line(&mut sketch, a, b);
    assert_eq!(sketch.orphan_point_ids(), vec![lone]);
}

#[test]
fn a_stored_value_reads_back_and_plain_kinds_hold_none() {
    let kind = ConstraintKind::Distance { point1: 1, point2: 2, distance: 3.0f32.to_bits() };
    assert_eq!(stored_value(&kind), Some(3.0f32.to_bits()));
    let changed = with_stored_value(&kind, 7.5f32.to_bits());
    assert_eq!(stored_value(&changed), Some(7.5f32.to_bits()));
    assert_eq!(constraint_refs(&changed), vec![1, 2]);
    let plain = ConstraintKind::Parallel { line1: 1, line2: 2 };
    assert_eq!(stored_value(&plain), None);
    assert_eq!(with_stored_value(&plain, 9), plain);
}

#[test]
fn kinds_are_labelled_iconned_and_angles_known() {
    let angle = ConstraintKind::AngleToAxis { line: 1, axis: AxisDirection::Vertical, angle_rad: 0 };
    assert_eq!(constraint_label(&angle), "Angle to Y axis");
    assert_eq!(constraint_icon(&angle), "constraint-angle");
    assert!(is_angular(&angle));
    assert!(angle.is_dimensional());
    let equal = ConstraintKind::EqualRadius { circle1: 1, circle2: 2 };
    assert_eq!(constraint_label(&equal), "Equal radius");
    assert_eq!(constraint_icon(&equal), "constraint-equal");
    assert!(!is_angular(&equal));
    assert!(!equal.is_dimensional());
}

#[test]
fn a_reference_dimension_is_not_solved() {
    let mut c = Constraint::new(ConstraintKind::Length { line: 1, length: 0 });
    assert!(c.is_solved());
    c.driving = false;
    assert!(!c.is_solved());
    let mut plain = Constraint::new(ConstraintKind::Horizontal { element: 1 });
    plain.driving = false;
    assert!(plain.is_solved());
    plain.active = false;
    assert!(!plain.is_solved());
}

#[test]
fn elements_have_kinds_and_icons() {
    let mut sketch = Sketch::new("t");
    let a = pt(&mut sketch, 0.0, 0.0);
    let b = pt(&mut sketch, 1.0, 0.0);
    let l = line(&mut sketch, a, b);
    let g = sketch.get_geometry(l).unwrap();
    assert_eq!(element_kind(g), "Line");
    assert_eq!(element_icon(g), "line");
}

#[test]
fn ids_are_random_and_read_back_from_their_text() {
    let mut seen = HashSet::new();
    let mut sketch = Sketch::new("t");
    for _ in 0..8 {
        let id = pt(&mut sketch, 0.0, 0.0);
        // Version 4, variant 10.
        assert_eq!((id >> 76) & 0xf, 4);
        assert_eq!((id >> 62) & 0x3, 2);
        assert!(seen.insert(id));
        // The hyphenated text reads back as the id the sketch holds.
        let text = uuid::Uuid::from_u128(id).to_string();
        assert_eq!(text.len(), 36);
        assert_eq!(resolve_items(&sketch, &vec![text.clone()]), Ok(vec![id]));
        assert_eq!(resolve_items(&sketch, &vec![text.to_uppercase()]), Ok(vec![id]));
        assert_eq!(resolve_items(&sketch, &vec![text.replace('-', "")]), Ok(vec![id]));
    }
    assert_eq!(
        resolve_items(&sketch, &vec!["not an id".to_string()]),
        Err(ItemError::NotAnId("not an id".to_string()))
    );
    // An id the sketch does not hold is named by the first eight digits of
    // its text.
    assert_eq!(element_name(&sketch, 1), "Element 00000000");
    assert_eq!(element_name(&sketch, 0x67e5_5044_10b1_426f_9247_bb68_0e5f_e0c8), "Element 67e55044");
}

#[test]
fn external_ids_take_the_points_of_external_curves() {
    let mut sketch = Sketch::new("t");
    let a = pt(&mut sketch, 0.0, 0.0);
    let b = pt(&mut sketch, 1.0, 0.0);
    let l = line(&mut sketch, a, b);
    let free = pt(&mut sketch, 3.0, 3.0);
    sketch.external.insert(l, wb_sketch::sketch::ExternalSource { body: 9, point: [0; 3], direction: [0; 3] });
    let ext = sketch.external_ids();
    assert!(ext.contains(&l) && ext.contains(&a) && ext.contains(&b));
    assert!(!ext.contains(&free));
    assert!(sketch.is_external(a));
    assert!(!sketch.is_external(free));
}

#[test]
fn an_element_changed_in_place_keeps_its_place() {
    let mut sketch = Sketch::new("t");
    let a = pt(&mut sketch, 0.0, 0.0);
    let b = pt(&mut sketch, 1.0, 0.0);
    if let Some(GeometryElement::Point(p)) = sketch.get_geometry_mut(b) {
        p.position = v(2.0, 3.0);
    }
    assert_eq!(sketch.point_position(b), Some(v(2.0, 3.0)));
    assert_eq!(sketch.point_position(a), Some(v(0.0, 0.0)));
    assert_eq!(sketch.geometry[1].id(), b);
    assert!(sketch.get_geometry_mut(42).is_none());
}

#[test]
fn a_second_cascade_with_the_same_ids_changes_nothing() {
    let mut sketch = Sketch::new("t");
    let a = pt(&mut sketch, 0.0, 0.0);
    let b = pt(&mut sketch, 1.0, 0.0);
    let c = pt(&mut sketch, 2.0, 0.0);
    let ab = line(&mut sketch, a, b);
    let _bc = line(&mut sketch, b, c);
    sketch.add_constraint(ConstraintKind::Horizontal { element: ab });
    let first = sketch.remove_geometry_cascade(&[a]);
    assert_eq!(first, vec![a, ab]);
    let (g, n) = (sketch.geometry.len(), sketch.constraints.len());
    assert!(sketch.remove_geometry_cascade(&[a]).is_empty());
    assert_eq!((sketch.geometry.len(), sketch.constraints.len()), (g, n));
}
