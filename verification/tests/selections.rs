use std::collections::HashSet;

use wb_sketch::constrain::SelectionShape;
use wb_sketch::selection::{
    curves_through, offender_selection, selection_names, selection_summary, toggle_constraint_flags,
};
use wb_sketch::sketch::{ConstraintKind, GeometryElement, Line, Point, Sketch, Vec2D};
use wb_sketch::workbench::{tool_enabled, BenchState};

fn pt(sketch: &mut Sketch, x: f32, y: f32) -> u128 {
    sketch.add_geometry(GeometryElement::Point(Point::new(Vec2D::new(x.to_bits(), y.to_bits()))))
}

fn line(sketch: &mut Sketch, a: u128, b: u128) -> u128 {
    sketch.add_geometry(GeometryElement::Line(Line::new(a, b)))
}

fn set(ids: &[u128]) -> HashSet<u128> {
    ids.iter().copied().collect()
}

#[test]
fn toggling_driving_flips_each_selected_constraint_and_twice_restores() {
    let mut sketch = Sketch::new("t");
    let a = pt(&mut sketch, 0.0, 0.0);
    let b = pt(&mut sketch, 3.0, 0.0);
    let l = line(&mut sketch, a, b);
    let length = sketch.add_constraint(ConstraintKind::Length { line: l, length: 3.0f32.to_bits() });
    let dist = sketch.add_constraint(ConstraintKind::Distance { point1: a, point2: b, distance: 3.0f32.to_bits() });
    let horizontal = sketch.add_constraint(ConstraintKind::Horizontal { element: l });
    sketch.constraints[1].driving = false;
    let selected = set(&[length, dist]);
    let (were_set, were_clear) = toggle_constraint_flags(&mut sketch, &selected, true);
    assert_eq!(were_set, vec![length]);
    assert_eq!(were_clear, vec![dist]);
    assert!(!sketch.constraints[0].driving);
    assert!(sketch.constraints[1].driving);
    assert!(sketch.constraints[2].driving, "{horizontal:x} was not selected");
    toggle_constraint_flags(&mut sketch, &selected, true);
    assert!(sketch.constraints[0].driving);
    assert!(!sketch.constraints[1].driving);
}

#[test]
fn toggling_active_leaves_driving_alone() {
    let mut sketch = Sketch::new("t");
    let a = pt(&mut sketch, 0.0, 0.0);
    let b = pt(&mut sketch, 1.0, 0.0);
    let c = sketch.add_constraint(ConstraintKind::Coincident { point1: a, point2: b });
    let (were_set, were_clear) = toggle_constraint_flags(&mut sketch, &set(&[c]), false);
    assert_eq!((were_set, were_clear), (vec![c], vec![]));
    assert!(!sketch.constraints[0].active);
    assert!(sketch.constraints[0].driving);
}

#[test]
fn offenders_select_themselves_and_what_they_refer_to() {
    let mut sketch = Sketch::new("t");
    let a = pt(&mut sketch, 0.0, 0.0);
    let b = pt(&mut sketch, 1.0, 0.0);
    let c = pt(&mut sketch, 1.0, 1.0);
    let l = line(&mut sketch, a, b);
    let h = sketch.add_constraint(ConstraintKind::Horizontal { element: l });
    let on = sketch.add_constraint(ConstraintKind::PointOnLine { point: c, line: l });
    let _other = sketch.add_constraint(ConstraintKind::Coincident { point1: a, point2: c });
    let (elements, constraints) = offender_selection(&sketch, &set(&[h, on, 42]));
    assert_eq!(constraints, set(&[h, on]));
    assert_eq!(elements, set(&[l, c]));
}

#[test]
fn curves_through_free_points_come_in_sketch_order() {
    let mut sketch = Sketch::new("t");
    let a = pt(&mut sketch, 0.0, 0.0);
    let b = pt(&mut sketch, 1.0, 0.0);
    let c = pt(&mut sketch, 1.0, 1.0);
    let ab = line(&mut sketch, a, b);
    let bc = line(&mut sketch, b, c);
    let _ca = line(&mut sketch, c, a);
    assert_eq!(curves_through(&sketch, &set(&[b])), vec![ab, bc]);
    assert!(curves_through(&sketch, &set(&[])).is_empty());
}

#[test]
fn the_status_bar_names_up_to_three_and_counts_the_rest() {
    let mut sketch = Sketch::new("t");
    let a = pt(&mut sketch, 0.0, 0.0);
    let b = pt(&mut sketch, 1.0, 0.0);
    let l = line(&mut sketch, a, b);
    let h = sketch.add_constraint(ConstraintKind::Horizontal { element: l });
    let named = sketch.add_constraint(ConstraintKind::Coincident { point1: a, point2: b });
    sketch.constraints[1].name = Some("pin".to_string());
    let names = selection_names(&sketch, &set(&[l, b]), &set(&[h]));
    assert_eq!(names, vec!["Point 2".to_string(), "Line 1".to_string(), "Horizontal".to_string()]);
    assert_eq!(selection_summary(&names), Some("Point 2 · Line 1 · Horizontal".to_string()));
    let names = selection_names(&sketch, &set(&[a, b, l]), &set(&[h, named]));
    assert_eq!(names.len(), 5);
    assert_eq!(names[4], "pin");
    assert_eq!(selection_summary(&names), Some("Point 1 · Point 2 · 3 more".to_string()));
    assert_eq!(selection_summary(&[].to_vec()), None);
    assert_eq!(selection_summary(&vec!["Line 1".to_string()]), Some("Line 1".to_string()));
}

#[test]
fn tools_are_enabled_by_what_they_need() {
    let editing = BenchState { editing: true, ..BenchState::default() };
    let nothing = SelectionShape::new();
    assert!(!tool_enabled("sketch.line", None, &nothing, &BenchState::default()));
    assert!(tool_enabled("sketch.line", None, &nothing, &editing));
    assert!(tool_enabled("sketch.create", None, &nothing, &BenchState { body_selected: true, ..BenchState::default() }));
    assert!(!tool_enabled("sketch.edit", None, &nothing, &BenchState { sketch_active: true, ..editing }));
    assert!(tool_enabled("sketch.edit", None, &nothing, &BenchState { sketch_active: true, ..BenchState::default() }));
    assert!(!tool_enabled("sketch.array", None, &nothing, &editing));
    assert!(tool_enabled("sketch.array", None, &nothing, &BenchState { geometry_selected: true, ..editing }));
    assert!(tool_enabled("sketch.toggle_active", None, &nothing, &BenchState { constraints_selected: true, ..editing }));
    assert!(!tool_enabled("sketch.select_redundant", None, &nothing, &BenchState { conflicting: true, ..editing }));
    // Constraint tools go by the selection.
    let mut sketch = Sketch::new("t");
    let a = pt(&mut sketch, 0.0, 0.0);
    let b = pt(&mut sketch, 1.0, 0.0);
    let l = line(&mut sketch, a, b);
    let one_line = SelectionShape::of(&sketch, &set(&[l]));
    assert!(tool_enabled("sketch.constrain.horizontal", None, &one_line, &editing));
    assert!(!tool_enabled("sketch.constrain.horizontal", None, &one_line, &BenchState::default()));
    assert!(!tool_enabled("sketch.constrain.coincident", None, &one_line, &editing));
    assert!(tool_enabled("sketch.constrain.dimension", None, &one_line, &editing));
    assert!(!tool_enabled("sketch.constrain.dimension", None, &nothing, &editing));
    // A variant names the constraint in place of the id's tail.
    assert!(tool_enabled("sketch.constrain.anything", Some("horizontal"), &one_line, &editing));
}
