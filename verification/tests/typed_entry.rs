use wb_sketch::ovp::{
    apply_typed_constraints, digit_of, fields_for, typed_value, DimCapture, FieldKind, Key, PendingDim, ToolState,
};
use wb_sketch::sketch::{Arc, AxisDirection, Circle, ConstraintKind, GeometryElement, Line, Point, Sketch, Vec2D};
use wb_sketch::snap::SnapTarget;

fn v(x: f32, y: f32) -> Vec2D {
    Vec2D::new(x.to_bits(), y.to_bits())
}

fn pt(sketch: &mut Sketch, x: f32, y: f32) -> u128 {
    sketch.add_geometry(GeometryElement::Point(Point::new(v(x, y))))
}

/// The buffers as the sketcher parses them: each non-empty one as an `f32`.
fn typed(cap: &DimCapture) -> Vec<(FieldKind, f32)> {
    cap.fields()
        .iter()
        .zip(cap.buffers())
        .filter_map(|(f, b)| b.iter().collect::<String>().trim().parse::<f32>().ok().map(|x| (*f, x)))
        .collect()
}

/// Degrees to radians, wrapped into (-180, 180] first.
fn radians(bits: u32) -> u32 {
    let mut d = f32::from_bits(bits) % 360.0;
    if d <= -180.0 {
        d += 360.0;
    }
    if d > 180.0 {
        d -= 360.0;
    }
    d.to_radians().to_bits()
}

#[test]
fn capture_typing_focus_and_clear() {
    let mut cap = DimCapture::default();
    let state = ToolState::LineFrom { from: SnapTarget::New(v(0.0, 0.0)) };
    cap.sync(&state);
    assert!(cap.is_active());
    assert!(cap.handle_key(Key::Key2));
    assert!(cap.handle_key(Key::Key5));
    assert!(cap.handle_key(Key::Period));
    assert!(cap.handle_key(Key::Key5));
    assert_eq!(typed(&cap), vec![(FieldKind::Length, 25.5)]);

    // Tab moves the focus to the angle field.
    assert!(cap.handle_key(Key::Tab));
    assert!(cap.handle_key(Key::Key4));
    assert!(cap.handle_key(Key::Key5));
    assert_eq!(typed(&cap), vec![(FieldKind::Length, 25.5), (FieldKind::Angle, 45.0)]);

    // Minus toggles the sign; backspace edits; clear drops everything.
    assert!(cap.handle_key(Key::Minus));
    assert_eq!(typed(&cap)[1].1, -45.0);
    assert!(cap.handle_key(Key::Backspace));
    assert_eq!(typed(&cap)[1].1, -4.0);
    cap.clear_buffers();
    assert!(!cap.has_typed_input());

    // Idle drops the fields.
    cap.sync(&ToolState::Idle);
    assert!(!cap.is_active());
    assert!(!cap.handle_key(Key::Key1));
}

#[test]
fn a_decimal_point_goes_in_once_and_a_comma_types_it_too() {
    let mut cap = DimCapture::new();
    cap.sync(&ToolState::CircleFrom { center: SnapTarget::Existing(1) });
    assert_eq!(cap.fields(), &vec![FieldKind::Diameter]);
    for k in [Key::Key1, Key::Comma, Key::Key5, Key::Period, Key::Key0] {
        assert!(cap.handle_key(k));
    }
    assert_eq!(cap.buffers()[0], vec!['1', '.', '5', '0']);
    assert!(!cap.handle_key(Key::Other), "a key the entry does not read is not consumed");
    assert_eq!(cap.buffers()[0], vec!['1', '.', '5', '0']);
}

#[test]
fn minus_twice_restores_and_backspace_on_empty_is_not_consumed() {
    let mut cap = DimCapture::new();
    cap.sync(&ToolState::SlotFrom { from: SnapTarget::Existing(1) });
    assert!(!cap.handle_key(Key::Backspace));
    assert!(cap.handle_key(Key::Key7));
    assert!(cap.handle_key(Key::Minus));
    assert_eq!(cap.buffers()[0], vec!['-', '7']);
    assert!(cap.handle_key(Key::Minus));
    assert_eq!(cap.buffers()[0], vec!['7']);
}

#[test]
fn tab_comes_back_round_and_keeps_what_is_typed() {
    let mut cap = DimCapture::new();
    cap.sync(&ToolState::RectFrom { corner: SnapTarget::New(v(1.0, 1.0)) });
    assert_eq!(cap.focus(), 0);
    assert!(cap.handle_key(Key::Key3));
    assert!(cap.handle_key(Key::Tab));
    assert_eq!(cap.focus(), 1);
    assert!(cap.handle_key(Key::Tab));
    assert_eq!(cap.focus(), 0);
    assert_eq!(cap.buffers()[0], vec!['3']);
}

#[test]
fn syncing_with_the_same_fields_keeps_the_text_and_another_set_drops_it() {
    let mut cap = DimCapture::new();
    cap.sync(&ToolState::ArcCenter { center: SnapTarget::Existing(1) });
    assert!(cap.handle_key(Key::Key9));
    // The polygon's centre exposes the same radius field.
    cap.sync(&ToolState::PolygonCenter { center: SnapTarget::Existing(2) });
    assert!(cap.has_typed_input());
    cap.sync(&ToolState::EllipseCenter { center: SnapTarget::Existing(2) });
    assert_eq!(cap.fields(), &vec![FieldKind::MajorRadius]);
    assert!(!cap.has_typed_input());
}

#[test]
fn fields_follow_the_tool_state() {
    assert_eq!(fields_for(&ToolState::Idle), vec![]);
    assert_eq!(fields_for(&ToolState::Busy), vec![]);
    assert_eq!(
        fields_for(&ToolState::RectCenterAt { center: v(0.0, 0.0) }),
        vec![FieldKind::Width, FieldKind::Height]
    );
    assert_eq!(
        fields_for(&ToolState::EllipseMajor { center: SnapTarget::Existing(1), major_pos: v(1.0, 0.0) }),
        vec![FieldKind::MinorRadius]
    );
    assert_eq!(fields_for(&ToolState::ArcSlotCenter { center: SnapTarget::Existing(1) }), vec![FieldKind::Length]);
    assert_eq!(FieldKind::Angle.short(), "∠");
    assert_eq!(FieldKind::Diameter.short(), "⌀");
    assert!(FieldKind::Angle.is_angle());
    assert!(!FieldKind::Radius.is_angle());
    assert_eq!(digit_of(Key::Key7), Some('7'));
    assert_eq!(digit_of(Key::Tab), None);
    assert_eq!(typed_value(&[(FieldKind::Width, 1), (FieldKind::Width, 2)], FieldKind::Width), Some(1));
    assert_eq!(typed_value(&[(FieldKind::Width, 1)], FieldKind::Height), None);
}

#[test]
fn typed_line_commit_adds_distance_and_angle_constraints() {
    let mut sketch = Sketch::new("t");
    let a = pt(&mut sketch, 0.0, 0.0);
    let b = pt(&mut sketch, 25.0, 0.0);
    sketch.add_geometry(GeometryElement::Line(Line::new(a, b)));
    let mut cap = DimCapture::default();
    let before = ToolState::LineFrom { from: SnapTarget::Existing(a) };
    let after = ToolState::LineFrom { from: SnapTarget::Existing(b) };
    let added = apply_typed_constraints(
        &mut cap,
        &mut sketch,
        &before,
        &after,
        true,
        &[(FieldKind::Length, 25.0f32.to_bits()), (FieldKind::Angle, 360.0f32.to_bits())],
        radians,
    );
    assert_eq!(added, 2);
    assert!(sketch.constraints.iter().any(|c| matches!(
        c.kind,
        ConstraintKind::Distance { distance, .. } if (f32::from_bits(distance) - 25.0).abs() < 1e-5
    )));
    // 360° normalizes to 0°.
    assert!(sketch.constraints.iter().any(|c| matches!(
        c.kind,
        ConstraintKind::AngleToAxis { angle_rad, axis: AxisDirection::Horizontal, .. }
            if f32::from_bits(angle_rad).abs() < 1e-5
    )));
}

#[test]
fn a_negative_typed_length_constrains_its_size() {
    let mut sketch = Sketch::new("t");
    let a = pt(&mut sketch, 0.0, 0.0);
    let b = pt(&mut sketch, 5.0, 0.0);
    sketch.add_geometry(GeometryElement::Line(Line::new(a, b)));
    let mut cap = DimCapture::new();
    let state = ToolState::LineFrom { from: SnapTarget::Existing(a) };
    let added = apply_typed_constraints(&mut cap, &mut sketch, &state, &state, true, &[(FieldKind::Length, (-5.0f32).to_bits())], radians);
    assert_eq!(added, 1);
    assert_eq!(
        sketch.constraints[0].kind,
        ConstraintKind::Distance { point1: a, point2: b, distance: 5.0f32.to_bits() }
    );
    // Nothing made: nothing constrained.
    let none = apply_typed_constraints(&mut cap, &mut sketch, &state, &state, false, &[(FieldKind::Length, 1)], radians);
    assert_eq!(none, 0);
    assert_eq!(sketch.constraints.len(), 1);
}

#[test]
fn a_rectangle_takes_width_and_height_between_its_diagonal_corners() {
    let mut sketch = Sketch::new("t");
    let c = [pt(&mut sketch, 0.0, 0.0), pt(&mut sketch, 4.0, 0.0), pt(&mut sketch, 4.0, 3.0), pt(&mut sketch, 0.0, 3.0)];
    for i in 0..4 {
        sketch.add_geometry(GeometryElement::Line(Line::new(c[i], c[(i + 1) % 4])));
    }
    let mut cap = DimCapture::new();
    let state = ToolState::RectFrom { corner: SnapTarget::Existing(c[0]) };
    let added = apply_typed_constraints(
        &mut cap,
        &mut sketch,
        &state,
        &ToolState::Idle,
        true,
        &[(FieldKind::Width, 4.0f32.to_bits()), (FieldKind::Height, 3.0f32.to_bits())],
        radians,
    );
    assert_eq!(added, 2);
    assert_eq!(sketch.constraints[0].kind, ConstraintKind::DistanceX { a: c[0], b: Some(c[2]), value: 4.0f32.to_bits() });
    assert_eq!(sketch.constraints[1].kind, ConstraintKind::DistanceY { a: c[0], b: Some(c[2]), value: 3.0f32.to_bits() });
}

#[test]
fn an_arc_radius_waits_for_the_arc() {
    let mut sketch = Sketch::new("t");
    let center = pt(&mut sketch, 0.0, 0.0);
    let mut cap = DimCapture::new();
    let at_center = ToolState::ArcCenter { center: SnapTarget::Existing(center) };
    let at_start = ToolState::ArcStart { center: SnapTarget::Existing(center), start: SnapTarget::New(v(2.0, 0.0)) };
    let r = 2.0f32.to_bits();
    assert_eq!(apply_typed_constraints(&mut cap, &mut sketch, &at_center, &at_start, true, &[(FieldKind::Radius, r)], radians), 0);
    assert!(sketch.constraints.is_empty());
    let s = pt(&mut sketch, 2.0, 0.0);
    let e = pt(&mut sketch, 0.0, 2.0);
    let arc = sketch.add_geometry(GeometryElement::Arc(Arc::new(center, s, e, r)));
    assert_eq!(apply_typed_constraints(&mut cap, &mut sketch, &at_start, &ToolState::Idle, true, &[], radians), 1);
    assert_eq!(sketch.constraints[0].kind, ConstraintKind::Radius { circle: arc, radius: r });
    // The kept value was taken.
    assert_eq!(apply_typed_constraints(&mut cap, &mut sketch, &at_start, &ToolState::Idle, true, &[], radians), 0);
    let _ = PendingDim::ArcRadius(r);
}

#[test]
fn a_polygon_radius_brings_a_construction_circle() {
    let mut sketch = Sketch::new("t");
    let mut cap = DimCapture::new();
    let state = ToolState::PolygonCenter { center: SnapTarget::New(v(1.0, 1.0)) };
    let added = apply_typed_constraints(&mut cap, &mut sketch, &state, &ToolState::Idle, true, &[(FieldKind::Radius, 3.0f32.to_bits())], radians);
    assert_eq!(added, 1);
    assert_eq!(sketch.geometry.len(), 2);
    let center = match &sketch.geometry[0] {
        GeometryElement::Point(p) => {
            assert_eq!(p.position, v(1.0, 1.0));
            p.id
        }
        _ => panic!("a centre point first"),
    };
    let circle = match &sketch.geometry[1] {
        GeometryElement::Circle(c) => {
            assert_eq!(c.center, center);
            assert_eq!(c.radius, 3.0f32.to_bits());
            c.id
        }
        _ => panic!("then the circle"),
    };
    assert!(sketch.is_construction(center) && sketch.is_construction(circle));
    assert_eq!(sketch.constraints[0].kind, ConstraintKind::Radius { circle, radius: 3.0f32.to_bits() });
    let _ = Circle::new(center, 0);
}

#[test]
fn a_buffer_never_holds_a_second_decimal_point() {
    let mut cap = DimCapture::default();
    cap.sync(&ToolState::LineFrom { from: SnapTarget::New(v(0.0, 0.0)) });
    for key in [Key::Key1, Key::Period, Key::Key5, Key::Comma, Key::Period, Key::Key2, Key::Minus] {
        assert!(cap.handle_key(key));
    }
    let text: String = cap.buffers()[0].iter().collect();
    assert_eq!(text, "-1.52");
    assert_eq!(text.matches('.').count(), 1);
}
