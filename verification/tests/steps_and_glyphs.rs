use std::collections::HashSet;

use wb_sketch::dxf::{spline_lines, Added};
use wb_sketch::feature::{DatumSupport, SketchFeature};
use wb_sketch::glyphs::{glyph_tone, icon_suffixes, pair_refs, Glyph, GlyphTone, GlyphVisual};
use wb_sketch::ovp::FieldKind;
use wb_sketch::params::{parameter_entries, value_field};
use wb_sketch::sketch::{
    AxisDirection, Constraint, ConstraintKind, ExternalSource, GeometryElement, Line, Point, Sketch, SketchPlane,
    Vec2D,
};
use wb_sketch::snap::{pick_snap, Snap, SnapCandidates, SnapContext, SnapKind, SnapTarget, AxisSnap};
use wb_sketch::step::{drag_point_ids, drag_targets, drop_new_axis_constraints, field_name, field_of, flag_made_as_construction};

fn v(x: f32, y: f32) -> Vec2D {
    Vec2D::new(x.to_bits(), y.to_bits())
}

fn pt(sketch: &mut Sketch, x: f32, y: f32) -> u128 {
    sketch.add_geometry(GeometryElement::Point(Point::new(v(x, y))))
}

#[test]
fn field_names_round_trip() {
    for kind in [
        FieldKind::Length,
        FieldKind::Angle,
        FieldKind::Width,
        FieldKind::Height,
        FieldKind::Diameter,
        FieldKind::Radius,
        FieldKind::MajorRadius,
        FieldKind::MinorRadius,
    ] {
        assert_eq!(field_of(field_name(kind)), Some(kind));
    }
    assert_eq!(field_name(FieldKind::MajorRadius), "major_radius");
    assert_eq!(field_of("sides"), None);
}

#[test]
fn a_drag_carries_each_point_once_and_leaves_external_ones() {
    let mut sketch = Sketch::new("t");
    let a = pt(&mut sketch, 0.0, 0.0);
    let b = pt(&mut sketch, 1.0, 0.0);
    let c = pt(&mut sketch, 1.0, 1.0);
    let ab = sketch.add_geometry(GeometryElement::Line(Line::new(a, b)));
    let bc = sketch.add_geometry(GeometryElement::Line(Line::new(b, c)));
    assert_eq!(drag_point_ids(&sketch, ab), vec![a, b]);
    assert_eq!(drag_point_ids(&sketch, c), vec![c]);
    assert_eq!(drag_point_ids(&sketch, 5), Vec::<u128>::new());
    assert_eq!(
        drag_targets(&sketch, &[ab, bc]),
        vec![(a, v(0.0, 0.0)), (b, v(1.0, 0.0)), (c, v(1.0, 1.0))]
    );
    sketch.external.insert(c, ExternalSource { body: 1, point: [0; 3], direction: [0; 3] });
    assert_eq!(drag_targets(&sketch, &[bc]), vec![(b, v(1.0, 0.0))]);
}

#[test]
fn construction_mode_flags_only_what_is_new() {
    let mut sketch = Sketch::new("t");
    let a = pt(&mut sketch, 0.0, 0.0);
    let before: HashSet<u128> = [a].into_iter().collect();
    let b = pt(&mut sketch, 1.0, 0.0);
    let ab = sketch.add_geometry(GeometryElement::Line(Line::new(a, b)));
    flag_made_as_construction(&mut sketch, &before);
    assert!(!sketch.is_construction(a));
    assert!(sketch.is_construction(b) && sketch.is_construction(ab));
}

#[test]
fn a_typed_angle_drops_the_new_axis_constraints_only() {
    let mut sketch = Sketch::new("t");
    let old = sketch.add_constraint(ConstraintKind::Horizontal { element: 1 });
    let before: HashSet<u128> = [old].into_iter().collect();
    sketch.add_constraint(ConstraintKind::Vertical { element: 2 });
    let keep = sketch.add_constraint(ConstraintKind::Parallel { line1: 1, line2: 2 });
    drop_new_axis_constraints(&mut sketch, &before);
    let ids: Vec<u128> = sketch.constraints.iter().map(|c| c.id).collect();
    assert_eq!(ids, vec![old, keep]);
}

#[test]
fn relations_of_one_icon_are_numbered_when_there_are_several() {
    let cs = vec![
        Constraint::new(ConstraintKind::Parallel { line1: 1, line2: 2 }),
        Constraint::new(ConstraintKind::Horizontal { element: 1 }),
        Constraint::new(ConstraintKind::EqualLength { line1: 1, line2: 2 }),
        Constraint::new(ConstraintKind::Parallel { line1: 3, line2: 4 }),
        Constraint::new(ConstraintKind::EqualRadius { circle1: 5, circle2: 6 }),
        Constraint::new(ConstraintKind::Tangent { line_or_circle1: 1, item2: 5 }),
    ];
    assert_eq!(icon_suffixes(&cs), vec![Some(1), None, Some(1), Some(2), Some(2), None]);
    assert_eq!(pair_refs(&cs[5].kind), Some([1, 5]));
    assert_eq!(pair_refs(&cs[1].kind), None);
}

#[test]
fn glyph_tones_go_by_precedence() {
    let mut c = Constraint::new(ConstraintKind::Length { line: 1, length: 0 });
    let none = HashSet::new();
    let mine: HashSet<u128> = [c.id].into_iter().collect();
    assert_eq!(glyph_tone(&c, &none, &none), GlyphTone::Constraint);
    assert_eq!(glyph_tone(&c, &none, &mine), GlyphTone::Formula);
    c.driving = false;
    assert_eq!(glyph_tone(&c, &none, &mine), GlyphTone::Reference);
    c.active = false;
    assert_eq!(glyph_tone(&c, &none, &mine), GlyphTone::Inactive);
    assert_eq!(glyph_tone(&c, &mine, &mine), GlyphTone::Selected);
}

#[test]
fn a_pill_shows_its_text_and_an_icon_none() {
    let mut g = Glyph {
        constraint: 1,
        dimensional: true,
        pos: [0, 0],
        anchor: [0, 0],
        visual: GlyphVisual::Pill { text: "12.5".to_string() },
        color: [0; 3],
        lines: vec![],
    };
    assert_eq!(g.text(), "12.5");
    g.visual = GlyphVisual::Icon { name: "constraint-parallel", suffix: Some(2) };
    assert_eq!(g.text(), "");
}

#[test]
fn a_drawing_tallies_its_curves() {
    let added = Added { lines: 3, arcs: 2, circles: 1, ellipses: 1, splines: 1, construction: 0 };
    assert_eq!(added.curves(), 7);
    assert_eq!(Added::default().curves(), 0);
}

#[test]
fn a_spline_comes_in_as_lines_closing_where_it_is_closed() {
    let mut sketch = Sketch::new("t");
    let p = [pt(&mut sketch, 0.0, 0.0), pt(&mut sketch, 1.0, 1.0), pt(&mut sketch, 2.0, 0.0)];
    let open = spline_lines(&mut sketch, &vec![p[0], p[1], p[1], p[2]], false);
    assert_eq!(open.len(), 2, "a repeated point makes no line");
    let closed = spline_lines(&mut sketch, &p.to_vec(), true);
    assert_eq!(closed.len(), 3);
    let ends: Vec<(u128, u128)> = sketch.geometry[5..]
        .iter()
        .map(|g| match g {
            GeometryElement::Line(l) => (l.start, l.end),
            _ => panic!("lines only"),
        })
        .collect();
    assert_eq!(ends, vec![(p[0], p[1]), (p[1], p[2]), (p[2], p[0])]);
    assert!(spline_lines(&mut sketch, &vec![p[0]], true).is_empty());
}

#[test]
fn driving_dimensions_are_parameters_where_their_value_is() {
    let mut width = Constraint::new(ConstraintKind::Length { line: 1, length: 10.0f32.to_bits() });
    width.name = Some("width".into());
    let mut reference = Constraint::new(ConstraintKind::Length { line: 1, length: 10.0f32.to_bits() });
    reference.driving = false;
    let angle = Constraint::new(ConstraintKind::AngleToAxis {
        line: 1,
        axis: AxisDirection::Horizontal,
        angle_rad: 0.5f32.to_bits(),
    });
    let mut bad_name = Constraint::new(ConstraintKind::Radius { circle: 2, radius: 1 });
    bad_name.name = Some("2 wide".into());
    let plain = Constraint::new(ConstraintKind::Horizontal { element: 1 });
    let cs = vec![width.clone(), reference, angle.clone(), plain, bad_name.clone()];
    let params = parameter_entries(&cs, |n: &str| n.chars().next().is_some_and(|c| c.is_alphabetic()));
    assert_eq!(params.len(), 3, "the reference dimension is measured, not set");
    assert_eq!(params[0].name.as_deref(), Some("width"));
    assert_eq!(params[0].key, width.id);
    assert_eq!(params[0].label, "width");
    assert_eq!(params[0].pointer, "/sketch/constraints/0/kind/Length/length");
    assert!(!params[0].angular);
    assert_eq!(params[1].name, None, "unnamed: settable, not readable");
    assert_eq!(params[1].label, "Angle to X axis");
    assert_eq!(params[1].pointer, "/sketch/constraints/2/kind/AngleToAxis/angle_rad");
    assert!(params[1].angular);
    assert_eq!(params[2].name, None);
    assert_eq!(params[2].label, "Radius");
    assert_eq!(params[2].key, bad_name.id);
    assert_eq!(value_field(&angle.kind), Some(("AngleToAxis", "angle_rad")));
    assert_eq!(value_field(&ConstraintKind::Horizontal { element: 1 }), None);
}

#[test]
fn a_snap_reuses_a_found_point_and_otherwise_follows_the_order() {
    let mut sketch = Sketch::new("t");
    let c = pt(&mut sketch, 0.0, 0.0);
    let rim = pt(&mut sketch, 1.0, 0.0);
    sketch.add_geometry(GeometryElement::Circle(wb_sketch::sketch::Circle::new(c, 1.0f32.to_bits())));
    let cursor = v(0.1, 0.1);
    let nothing = SnapCandidates {
        point: None,
        origin_near: false,
        crossing: None,
        middle: None,
        on_curve: None,
        aligned: None,
    };
    assert_eq!(pick_snap(&sketch, cursor, &nothing), Snap { target: SnapTarget::New(cursor), pos: cursor, kind: None });
    let at_center = SnapCandidates { point: Some((c, v(0.0, 0.0))), origin_near: true, ..nothing };
    assert_eq!(pick_snap(&sketch, cursor, &at_center).kind, Some(SnapKind::Center));
    assert_eq!(pick_snap(&sketch, cursor, &at_center).target, SnapTarget::Existing(c));
    let at_rim = SnapCandidates { point: Some((rim, v(1.0, 0.0))), ..nothing };
    assert_eq!(pick_snap(&sketch, cursor, &at_rim).kind, Some(SnapKind::Endpoint));
    let origin = SnapCandidates { origin_near: true, middle: Some(v(5.0, 5.0)), ..nothing };
    assert_eq!(pick_snap(&sketch, cursor, &origin).kind, Some(SnapKind::Origin));
    let axis = SnapCandidates { on_curve: Some((wb_sketch::sketch::X_AXIS_ID, v(0.1, 0.0))), ..nothing };
    assert_eq!(pick_snap(&sketch, cursor, &axis).kind, Some(SnapKind::OnAxis));
    let level = SnapCandidates { aligned: Some((v(0.1, 0.0), AxisSnap::Horizontal)), ..nothing };
    assert_eq!(pick_snap(&sketch, cursor, &level).pos, v(0.1, 0.0));
    assert_eq!(SnapKind::OnCurve.label(), "On curve");
    assert_eq!(SnapTarget::Existing(rim).position(&sketch), Some(v(1.0, 0.0)));
    assert_eq!(SnapTarget::Existing(12345).position(&sketch), None);
    let cx = SnapContext::new();
    assert!(cx.from.is_none() && cx.exclude.is_empty());
}

#[test]
fn a_feature_depends_on_the_datum_it_follows() {
    let mut f = SketchFeature::from_sketch(Sketch::new("s"));
    assert_eq!(f.plane, SketchPlane::xy());
    assert!(f.dependencies().is_empty());
    f.support = Some(DatumSupport { datum: 77, plane: Some("XZ".into()), offset: 0 });
    assert_eq!(f.dependencies(), vec![77]);
    let g = SketchFeature::new(Sketch::new("s"), SketchPlane::yz());
    assert_eq!(g.plane, SketchPlane::yz());
}
