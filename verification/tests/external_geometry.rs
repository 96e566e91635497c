use std::f64::consts::FRAC_PI_2;

use wb_sketch::profile::{extract_wires, ProfileError};
use wb_sketch::external::{add, add_external, groups, refresh_external, refresh_group, Projection};
use wb_sketch::sketch::{ExternalSource, GeometryElement, Line, Point, Sketch, Vec2D};

fn v(x: f64, y: f64) -> Vec2D {
    Vec2D::new((x as f32).to_bits(), (y as f32).to_bits())
}

fn f(bits: u32) -> f32 {
    f32::from_bits(bits)
}

fn source() -> ExternalSource {
    ExternalSource {
        body: 0,
        point: [1.0f32.to_bits(), 2.0f32.to_bits(), 3.0f32.to_bits()],
        direction: [0.0f32.to_bits(), 0.0f32.to_bits(), 1.0f32.to_bits()],
    }
}

fn other_source() -> ExternalSource {
    ExternalSource {
        body: 0,
        point: [0.0f32.to_bits(), 2.0f32.to_bits(), 3.0f32.to_bits()],
        direction: [0.0f32.to_bits(), 0.0f32.to_bits(), 1.0f32.to_bits()],
    }
}

fn circle_point(centre: [f64; 2], radius: f64, t: f64) -> Vec2D {
    v(centre[0] + radius * t.cos(), centre[1] + radius * t.sin())
}

fn line_projection(start: [f64; 2], end: [f64; 2]) -> Projection {
    Projection::Line { start: v(start[0], start[1]), end: v(end[0], end[1]) }
}

#[test]
fn each_projection_becomes_the_sketch_curve_it_is() {
    let mut sketch = Sketch::new("t");
    let full = Projection::Circle { centre: v(1.0, 2.0), radius: 3.0f32.to_bits() };
    assert_eq!(add(&mut sketch, &full, source()), 1);
    let arc = Projection::Arc {
        centre: v(0.0, 0.0),
        radius: 2.0f32.to_bits(),
        start: circle_point([0.0, 0.0], 2.0, 0.0),
        end: circle_point([0.0, 0.0], 2.0, FRAC_PI_2),
    };
    add(&mut sketch, &arc, source());
    let chain = Projection::Polyline(vec![v(0.0, 0.0), v(1.0, 1.0), v(2.0, 0.0)]);
    assert_eq!(add(&mut sketch, &chain, source()), 2);
    let kinds: Vec<&str> = sketch
        .geometry
        .iter()
        .filter(|g| sketch.external.contains_key(&g.id()))
        .map(|g| match g {
            GeometryElement::Circle(_) => "circle",
            GeometryElement::Arc(_) => "arc",
            GeometryElement::Line(_) => "line",
            _ => "other",
        })
        .collect();
    assert_eq!(kinds, ["circle", "arc", "line", "line"]);
    // The arc's ends sit on the circle where its angles say.
    let arc = sketch
        .geometry
        .iter()
        .find_map(|g| match g {
            GeometryElement::Arc(a) => Some(a.clone()),
            _ => None,
        })
        .unwrap();
    let end = sketch.point_position(arc.end).unwrap();
    assert!(f(end.x).abs() < 1e-6 && (f(end.y) - 2.0).abs() < 1e-6);
}

#[test]
fn a_refresh_moves_the_same_kind_in_place_and_remakes_another() {
    let mut sketch = Sketch::new("t");
    add(&mut sketch, &line_projection([0.0, 0.0], [5.0, 0.0]), source());
    let (src, group) = groups(&sketch).remove(0);
    let line_id = group[0];
    refresh_group(&mut sketch, src, &group, &line_projection([0.0, 1.0], [8.0, 1.0]));
    assert!(sketch.get_geometry(line_id).is_some(), "moved in place");
    let GeometryElement::Line(line) = sketch.get_geometry(line_id).unwrap() else {
        panic!()
    };
    assert_eq!(sketch.point_position(line.end), Some(v(8.0, 1.0)));
    // The edge is now round: the line gives way to a circle.
    refresh_group(
        &mut sketch,
        src,
        &group,
        &Projection::Circle { centre: v(0.0, 0.0), radius: 1.0f32.to_bits() },
    );
    assert!(sketch.get_geometry(line_id).is_none());
    assert_eq!(groups(&sketch).len(), 1);
    assert!(matches!(
        sketch.get_geometry(groups(&sketch)[0].1[0]),
        Some(GeometryElement::Circle(_))
    ));
}

#[test]
fn a_point_edge_is_one_external_point() {
    let mut sketch = Sketch::new("t");
    assert_eq!(add(&mut sketch, &Projection::Point(v(3.0, 4.0)), source()), 1);
    assert_eq!(sketch.geometry.len(), 1);
    let id = sketch.geometry[0].id();
    assert_eq!(sketch.external.get(&id), Some(&source()));
    assert_eq!(sketch.point_position(id), Some(v(3.0, 4.0)));
}

#[test]
fn a_chain_of_one_point_makes_no_line() {
    let mut sketch = Sketch::new("t");
    assert_eq!(add(&mut sketch, &Projection::Polyline(vec![v(1.0, 1.0)]), source()), 0);
    assert_eq!(sketch.geometry.len(), 1);
    assert!(sketch.external.is_empty());
}

#[test]
fn an_ellipse_arc_keeps_its_ends_and_axes_when_refreshed() {
    let mut sketch = Sketch::new("t");
    let first = Projection::EllipseArc {
        centre: v(0.0, 0.0),
        major: v(2.0, 0.0),
        ratio: 0.5f32.to_bits(),
        start: v(2.0, 0.0),
        end: v(0.0, 1.0),
    };
    assert_eq!(add(&mut sketch, &first, source()), 1);
    let (src, group) = groups(&sketch).remove(0);
    let moved = Projection::EllipseArc {
        centre: v(1.0, 0.0),
        major: v(3.0, 0.0),
        ratio: 0.25f32.to_bits(),
        start: v(4.0, 0.0),
        end: v(1.0, 0.75),
    };
    refresh_group(&mut sketch, src, &group, &moved);
    let Some(GeometryElement::Ellipse(e)) = sketch.get_geometry(group[0]) else {
        panic!("the ellipse stays under its id")
    };
    assert_eq!(e.major, v(3.0, 0.0));
    assert_eq!(e.ratio, 0.25f32.to_bits());
    let ends = e.arc.unwrap();
    assert_eq!(sketch.point_position(e.center), Some(v(1.0, 0.0)));
    assert_eq!(sketch.point_position(ends.start), Some(v(4.0, 0.0)));
    assert_eq!(sketch.point_position(ends.end), Some(v(1.0, 0.75)));
    // A closed ellipse is another kind: the arc is made again.
    let closed = Projection::Ellipse { centre: v(0.0, 0.0), major: v(1.0, 0.0), ratio: 0.5f32.to_bits() };
    refresh_group(&mut sketch, src, &group, &closed);
    assert!(sketch.get_geometry(group[0]).is_none());
    assert_eq!(sketch.geometry.len(), 2);
}

#[test]
fn a_chain_refreshed_with_as_many_points_moves_every_line_end() {
    let mut sketch = Sketch::new("t");
    let chain = Projection::Polyline(vec![v(0.0, 0.0), v(1.0, 0.0), v(2.0, 0.0)]);
    add(&mut sketch, &chain, source());
    let (src, group) = groups(&sketch).remove(0);
    assert_eq!(group.len(), 2);
    let bent = Projection::Polyline(vec![v(0.0, 0.0), v(1.0, 1.0), v(2.0, 0.0)]);
    refresh_group(&mut sketch, src, &group, &bent);
    let GeometryElement::Line(first) = sketch.get_geometry(group[0]).unwrap() else { panic!() };
    let GeometryElement::Line(second) = sketch.get_geometry(group[1]).unwrap() else { panic!() };
    assert_eq!(sketch.point_position(first.end), Some(v(1.0, 1.0)));
    assert_eq!(sketch.point_position(second.start), Some(v(1.0, 1.0)));
    // One point more: the chain is made again.
    let longer = Projection::Polyline(vec![v(0.0, 0.0), v(1.0, 1.0), v(2.0, 0.0), v(3.0, 0.0)]);
    refresh_group(&mut sketch, src, &group, &longer);
    assert!(sketch.get_geometry(group[0]).is_none());
    assert_eq!(groups(&sketch)[0].1.len(), 3);
}

#[test]
fn groups_follow_the_source_key_and_keep_sketch_order() {
    let mut sketch = Sketch::new("t");
    // Sources differ in their point's x: 1.0 sorts after 0.0 byte by byte.
    add(&mut sketch, &line_projection([0.0, 0.0], [1.0, 0.0]), source());
    add(&mut sketch, &line_projection([0.0, 1.0], [1.0, 1.0]), other_source());
    add(&mut sketch, &line_projection([0.0, 2.0], [1.0, 2.0]), source());
    let lines: Vec<u128> = sketch
        .geometry
        .iter()
        .filter(|g| matches!(g, GeometryElement::Line(_)))
        .map(|g| g.id())
        .collect();
    let found = groups(&sketch);
    assert_eq!(found.len(), 2);
    assert_eq!(found[0].0, other_source());
    assert_eq!(found[0].1, vec![lines[1]]);
    assert_eq!(found[1].0, source());
    assert_eq!(found[1].1, vec![lines[0], lines[2]]);
}

#[test]
fn elements_without_a_source_are_in_no_group() {
    let mut sketch = Sketch::new("t");
    let a = sketch.add_geometry(GeometryElement::Point(Point::new(v(0.0, 0.0))));
    let b = sketch.add_geometry(GeometryElement::Point(Point::new(v(1.0, 0.0))));
    sketch.add_geometry(GeometryElement::Line(Line::new(a, b)));
    assert!(groups(&sketch).is_empty());
}

#[test]
fn edges_that_fail_to_project_are_passed_over() {
    let mut sketch = Sketch::new("t");
    let edges = vec![
        (source(), Ok(line_projection([0.0, 0.0], [1.0, 0.0]))),
        (other_source(), Err("that body has no solid shape".to_string())),
    ];
    assert_eq!(add_external(&mut sketch, &edges), Ok(1));
    assert_eq!(sketch.geometry.len(), 3);
    assert_eq!(groups(&sketch).len(), 1);
}

#[test]
fn when_nothing_projects_the_last_failure_is_the_answer() {
    let mut sketch = Sketch::new("t");
    let edges = vec![
        (source(), Err("no kernel to project with".to_string())),
        (other_source(), Err("that body has no solid shape".to_string())),
    ];
    assert_eq!(add_external(&mut sketch, &edges), Err("that body has no solid shape".to_string()));
    assert!(sketch.geometry.is_empty());
    // A chain of one point makes no element: that counts as nothing made.
    let edges = vec![
        (source(), Ok(Projection::Polyline(vec![v(0.0, 0.0)]))),
        (other_source(), Err("no kernel to project with".to_string())),
    ];
    assert_eq!(add_external(&mut sketch, &edges), Err("no kernel to project with".to_string()));
    assert_eq!(add_external(&mut sketch, &[]), Ok(0));
}

#[test]
fn a_group_whose_edge_is_lost_stays_where_it_was() {
    let mut sketch = Sketch::new("t");
    add(&mut sketch, &line_projection([0.0, 0.0], [1.0, 0.0]), source());
    add(&mut sketch, &line_projection([0.0, 5.0], [1.0, 5.0]), other_source());
    let found = groups(&sketch);
    let items: Vec<_> = found
        .iter()
        .map(|(src, group)| {
            let projected = if *src == source() {
                Ok(line_projection([0.0, 0.0], [2.0, 0.0]))
            } else {
                Err("that body has no solid shape".to_string())
            };
            (*src, group.clone(), projected)
        })
        .collect();
    assert_eq!(refresh_external(&mut sketch, &items), 1);
    let moved = found.iter().find(|(src, _)| *src == source()).unwrap().1[0];
    let kept = found.iter().find(|(src, _)| *src == other_source()).unwrap().1[0];
    let GeometryElement::Line(moved) = sketch.get_geometry(moved).unwrap() else { panic!() };
    let GeometryElement::Line(kept) = sketch.get_geometry(kept).unwrap() else { panic!() };
    assert_eq!(sketch.point_position(moved.end), Some(v(2.0, 0.0)));
    assert_eq!(sketch.point_position(kept.end), Some(v(1.0, 5.0)));
}

#[test]
fn projected_geometry_is_left_out_of_profiles() {
    let mut sketch = Sketch::new("t");
    add(&mut sketch, &Projection::Circle { centre: v(0.0, 0.0), radius: 1.0f32.to_bits() }, source());
    assert_eq!(sketch.geometry.len(), 2);
    assert!(matches!(extract_wires(&sketch), Err(ProfileError::Empty)));
    // A drawn circle beside it is the only wire.
    let c = sketch.add_geometry(GeometryElement::Point(Point::new(v(5.0, 0.0))));
    let drawn = sketch.add_geometry(GeometryElement::Circle(wb_sketch::sketch::Circle::new(c, 1.0f32.to_bits())));
    let wires = extract_wires(&sketch).unwrap();
    assert_eq!(wires.len(), 1);
    assert!(matches!(wires[0].segments[0], wb_sketch::profile::Segment::Closed { element } if element == drawn));
}
