use wb_sketch::commands::{
    constrain, delete_items, ids_of, made_since, resolve_items, set_constraints, set_dimension_value, ConstrainError,
    ItemError, SetValueError,
};
use wb_sketch::sketch::{
    Circle, ConstraintKind, GeometryElement, Line, Point, Sketch, Vec2D, ORIGIN_ID, X_AXIS_ID, Y_AXIS_ID,
};

fn v(x: f32, y: f32) -> Vec2D {
    Vec2D::new(x.to_bits(), y.to_bits())
}

fn pt(sketch: &mut Sketch, x: f32, y: f32) -> u128 {
    sketch.add_geometry(GeometryElement::Point(Point::new(v(x, y))))
}

fn radians(bits: u32) -> u32 {
    f32::from_bits(bits).to_radians().to_bits()
}

fn two_lines() -> (Sketch, u128, u128, u128, u128, u128) {
    let mut sketch = Sketch::new("t");
    let a = pt(&mut sketch, 0.0, 0.0);
    let b = pt(&mut sketch, 10.0, 0.0);
    let c = pt(&mut sketch, 0.0, 5.0);
    let ab = sketch.add_geometry(GeometryElement::Line(Line::new(a, b)));
    let ac = sketch.add_geometry(GeometryElement::Line(Line::new(a, c)));
    (sketch, a, b, c, ab, ac)
}

#[test]
fn deleting_a_point_takes_its_curves_and_their_constraints() {
    let (mut sketch, a, b, c, ab, ac) = two_lines();
    let h = sketch.add_constraint(ConstraintKind::Horizontal { element: ab });
    let removed = delete_items(&mut sketch, &[a]);
    // a, both lines, and b and c that only the lines ran through.
    assert_eq!(removed, 5);
    assert!(sketch.geometry.is_empty());
    assert!(sketch.constraints.is_empty());
    let _ = (b, c, ac, h);
}

#[test]
fn deleting_a_constraint_leaves_the_geometry_and_references_are_kept() {
    let (mut sketch, _, _, _, ab, _) = two_lines();
    let h = sketch.add_constraint(ConstraintKind::Horizontal { element: ab });
    let removed = delete_items(&mut sketch, &[h, ORIGIN_ID, X_AXIS_ID]);
    assert_eq!(removed, 1);
    assert_eq!(sketch.geometry.len(), 5);
    assert!(sketch.constraints.is_empty());
}

#[test]
fn flags_are_set_only_where_given_and_only_on_the_listed() {
    let (mut sketch, _, _, _, ab, ac) = two_lines();
    let h = sketch.add_constraint(ConstraintKind::Horizontal { element: ab });
    let l = sketch.add_constraint(ConstraintKind::Length { line: ac, length: 5.0f32.to_bits() });
    set_constraints(&mut sketch, &[l], Some(false), None);
    assert!(!sketch.constraints[1].driving);
    assert!(sketch.constraints[1].active);
    assert!(sketch.constraints[0].driving);
    set_constraints(&mut sketch, &[h, l], None, Some(false));
    assert!(!sketch.constraints[0].active && !sketch.constraints[1].active);
    assert!(!sketch.constraints[1].driving);
}

#[test]
fn what_a_command_made_is_what_is_new() {
    let (mut sketch, a, _, _, ab, _) = two_lines();
    let before = ids_of(&sketch);
    assert_eq!(made_since(&sketch, &before), (vec![], vec![]));
    let d = pt(&mut sketch, 3.0, 3.0);
    let line = sketch.add_geometry(GeometryElement::Line(Line::new(a, d)));
    let h = sketch.add_constraint(ConstraintKind::Horizontal { element: ab });
    assert_eq!(made_since(&sketch, &before), (vec![d, line], vec![h]));
}

fn id_text(id: u128) -> String {
    uuid::Uuid::from_u128(id).to_string()
}

#[test]
fn items_are_read_by_name_or_id_and_must_be_in_the_sketch() {
    let (sketch, a, _, _, ab, _) = two_lines();
    let texts: Vec<String> =
        vec!["origin".into(), "x_axis".into(), "y_axis".into(), id_text(a), id_text(ab)];
    assert_eq!(resolve_items(&sketch, &texts), Ok(vec![ORIGIN_ID, X_AXIS_ID, Y_AXIS_ID, a, ab]));
    let bad = vec![id_text(a), "nonsense".to_string(), "also bad".to_string()];
    assert_eq!(resolve_items(&sketch, &bad), Err(ItemError::NotAnId("nonsense".to_string())));
    let stranger = 0x67e5_5044_10b1_426f_9247_bb68_0e5f_e0c8u128;
    assert_eq!(resolve_items(&sketch, &vec![id_text(stranger)]), Err(ItemError::NotInSketch(stranger)));
}

#[test]
fn a_dimension_takes_a_new_value_in_display_units() {
    let (mut sketch, _, _, _, ab, ac) = two_lines();
    let len = sketch.add_constraint(ConstraintKind::Length { line: ab, length: 10.0f32.to_bits() });
    let ang = sketch.add_constraint(ConstraintKind::Angle { line1: ab, line2: ac, angle_rad: 0 });
    let par = sketch.add_constraint(ConstraintKind::Parallel { line1: ab, line2: ac });
    assert_eq!(set_dimension_value(&mut sketch, len, 12.0f32.to_bits(), Some(false), radians), Ok(()));
    assert_eq!(sketch.constraints[0].kind, ConstraintKind::Length { line: ab, length: 12.0f32.to_bits() });
    assert!(!sketch.constraints[0].driving);
    assert_eq!(set_dimension_value(&mut sketch, ang, 90.0f32.to_bits(), None, radians), Ok(()));
    match sketch.constraints[1].kind {
        ConstraintKind::Angle { angle_rad, .. } => {
            assert!((f32::from_bits(angle_rad) - std::f32::consts::FRAC_PI_2).abs() < 1e-6)
        }
        _ => panic!("still an angle"),
    }
    assert_eq!(set_dimension_value(&mut sketch, par, 1, None, radians), Err(SetValueError::NotADimension));
    assert_eq!(set_dimension_value(&mut sketch, 99, 1, None, radians), Err(SetValueError::NotInSketch));
}

#[test]
fn constraining_by_name_measures_or_takes_the_value_given() {
    let (mut sketch, a, b, _, ab, _) = two_lines();
    let made = constrain(&mut sketch, "horizontal", &[ab], None, |_| 0, radians).unwrap();
    assert_eq!(made.len(), 1);
    assert_eq!(sketch.constraints[0].id, made[0]);
    assert_eq!(sketch.constraints[0].kind, ConstraintKind::Horizontal { element: ab });
    let made = constrain(&mut sketch, "dimension", &[a, b], Some(7.0f32.to_bits()), |_| 0, radians).unwrap();
    assert_eq!(sketch.constraints[1].id, made[0]);
    assert_eq!(sketch.constraints[1].kind, ConstraintKind::Distance { point1: a, point2: b, distance: 7.0f32.to_bits() });
    let measured = constrain(&mut sketch, "distance", &[ab], None, |_| 10.0f32.to_bits(), radians).unwrap();
    assert_eq!(measured.len(), 1);
    assert_eq!(sketch.constraints[2].kind, ConstraintKind::Length { line: ab, length: 10.0f32.to_bits() });
}

#[test]
fn constraining_refuses_what_does_not_fit() {
    let (mut sketch, a, _, _, ab, _) = two_lines();
    let center = pt(&mut sketch, 5.0, 5.0);
    let circle = sketch.add_geometry(GeometryElement::Circle(Circle::new(center, 1.0f32.to_bits())));
    assert_eq!(constrain(&mut sketch, "dimension", &[], None, |_| 0, radians), Err(ConstrainError::NoDimension));
    assert_eq!(
        constrain(&mut sketch, "radius", &[ab], None, |_| 0, radians),
        Err(ConstrainError::DoesNotFit("radius".to_string()))
    );
    assert_eq!(
        constrain(&mut sketch, "point_on_object", &[a, circle], Some(1), |_| 0, radians),
        Err(ConstrainError::TakesNoValue("point_on_object".to_string()))
    );
    assert!(sketch.constraints.is_empty());
}

#[test]
fn an_item_is_known_by_its_id_or_as_a_reference() {
    let (sketch, a, _, _, ab, _) = two_lines();
    assert!(wb_sketch::commands::is_known_item(&sketch, a));
    assert!(wb_sketch::commands::is_known_item(&sketch, ab));
    assert!(wb_sketch::commands::is_known_item(&sketch, ORIGIN_ID));
    assert!(wb_sketch::commands::is_known_item(&sketch, Y_AXIS_ID));
    assert!(!wb_sketch::commands::is_known_item(&sketch, 0x67e5_5044_10b1_426f_9247_bb68_0e5f_e0c8));
}

#[test]
fn one_item_is_read_from_what_its_text_parses_to() {
    let (sketch, a, _, _, _, _) = two_lines();
    let text = |t: &str| t.to_string();
    assert_eq!(wb_sketch::commands::resolve_item(&sketch, &text("whatever"), Some(a)), Ok(a));
    assert_eq!(wb_sketch::commands::resolve_item(&sketch, &text("origin"), None), Ok(ORIGIN_ID));
    assert_eq!(
        wb_sketch::commands::resolve_item(&sketch, &text("nonsense"), None),
        Err(ItemError::NotAnId("nonsense".to_string()))
    );
    assert_eq!(wb_sketch::commands::resolve_item(&sketch, &text("x"), Some(7)), Err(ItemError::NotInSketch(7)));
}
