use wb_sketch::profile::ProfileError;
use wb_sketch::sketch::{ConstraintKind, GeometryElement, Line, Point, Sketch, Vec2D, ORIGIN_ID};
use wb_sketch::validate::{check_sketch, malformed_constraints, report_text, toggle_construction};

fn v(x: f32, y: f32) -> Vec2D {
    Vec2D::new(x.to_bits(), y.to_bits())
}

fn pt(sketch: &mut Sketch, x: f32, y: f32) -> u128 {
    sketch.add_geometry(GeometryElement::Point(Point::new(v(x, y))))
}

#[test]
fn the_check_counts_strays_malformed_constraints_and_profiles() {
    let mut sketch = Sketch::new("t");
    let c = [pt(&mut sketch, 0.0, 0.0), pt(&mut sketch, 1.0, 0.0), pt(&mut sketch, 1.0, 1.0)];
    for i in 0..3 {
        sketch.add_geometry(GeometryElement::Line(Line::new(c[i], c[(i + 1) % 3])));
    }
    let stray = pt(&mut sketch, 5.0, 5.0);
    let gone = sketch.add_constraint(ConstraintKind::Horizontal { element: 0xdead });
    let on_origin = sketch.add_constraint(ConstraintKind::Coincident { point1: c[0], point2: ORIGIN_ID });
    let report = check_sketch(&sketch);
    assert_eq!(report.stray, vec![stray]);
    assert_eq!(report.malformed, vec![gone, on_origin]);
    assert_eq!(report.profile, Ok(1));
    assert_eq!(
        report_text(&report),
        "Sketch check: 1 stray point(s), 2 constraint(s) referencing missing geometry, 1 closed profile(s)"
    );
    assert_eq!(malformed_constraints(&sketch), vec![gone, on_origin]);
}

#[test]
fn an_empty_sketch_checks_to_no_profile() {
    let sketch = Sketch::new("t");
    let report = check_sketch(&sketch);
    assert_eq!(report.profile, Err(ProfileError::Empty));
    assert_eq!(report_text(&report), "Sketch check: no closed profile");
}

#[test]
fn toggling_construction_flips_each_element_and_passes_over_the_rest() {
    let mut sketch = Sketch::new("t");
    let a = pt(&mut sketch, 0.0, 0.0);
    let b = pt(&mut sketch, 1.0, 0.0);
    let l = sketch.add_geometry(GeometryElement::Line(Line::new(a, b)));
    sketch.set_construction(a, true);
    let (on, off) = toggle_construction(&mut sketch, &vec![l, a, 999]);
    assert_eq!(on, vec![l]);
    assert_eq!(off, vec![a]);
    assert!(sketch.is_construction(l));
    assert!(!sketch.is_construction(a));
    assert!(!sketch.is_construction(999));
}
