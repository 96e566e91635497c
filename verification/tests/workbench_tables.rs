use wb_sketch::workbench::{
    carbon_copy_log, idle_hint, is_draw_tool, next_sketch_name, parse_sketch_index, tool_icon, tool_key,
};

#[test]
fn default_keys_draw_with_a_letter_and_constrain_with_shift() {
    assert_eq!(tool_key("sketch.line"), Some("L"));
    assert_eq!(tool_key("sketch.constrain.dimension"), Some("Shift+D"));
    assert_eq!(tool_key("sketch.fillet"), None);
}

#[test]
fn no_two_tools_share_a_default_key() {
    let tools = [
        "sketch.point", "sketch.line", "sketch.polyline", "sketch.arc", "sketch.circle", "sketch.ellipse",
        "sketch.bspline", "sketch.rect", "sketch.polygon", "sketch.slot", "sketch.trim", "sketch.external",
        "sketch.construction", "sketch.constrain.coincident", "sketch.constrain.point_on_object",
        "sketch.constrain.vertical", "sketch.constrain.horizontal", "sketch.constrain.parallel",
        "sketch.constrain.perpendicular", "sketch.constrain.tangent", "sketch.constrain.equal",
        "sketch.constrain.symmetric", "sketch.constrain.block", "sketch.constrain.dimension",
        "sketch.constrain.lock", "sketch.constrain.distance_x", "sketch.constrain.distance_y",
        "sketch.constrain.radius", "sketch.constrain.angle",
    ];
    let mut seen = std::collections::HashSet::new();
    for t in tools {
        let key = tool_key(t).unwrap_or_else(|| panic!("{t} has no key"));
        assert!(seen.insert(key), "{t} shares {key}");
    }
}

#[test]
fn icons_come_from_the_variants_then_the_geometry_row() {
    assert_eq!(tool_icon("sketch.arc3"), "arc-3pt");
    assert_eq!(tool_icon("sketch.polyline"), "polyline");
    assert_eq!(tool_icon("sketch.polygon"), "regular-polygon");
    assert_eq!(tool_icon("sketch.mirror"), "symmetry-geometry");
    assert_eq!(tool_icon("sketch.nothing"), "sketch");
}

#[test]
fn each_tool_prompts_its_first_click() {
    assert_eq!(idle_hint("sketch.rect"), ("Rectangle", "Click the first corner"));
    assert_eq!(idle_hint("sketch.mirror"), ("Symmetry", "Click a mirror line or its first point"));
    assert_eq!(idle_hint("sketch.select"), ("Select", "Click to select · drag for a box"));
}

#[test]
fn drawing_tools_are_told_from_the_rest() {
    assert!(is_draw_tool("sketch.arc_slot"));
    assert!(is_draw_tool("sketch.point"));
    assert!(!is_draw_tool("sketch.trim"));
    assert!(!is_draw_tool("sketch.constrain.radius"));
}

#[test]
fn sketch_names_carry_their_index() {
    assert_eq!(parse_sketch_index("sketch"), Some(0));
    assert_eq!(parse_sketch_index("Sketch_3"), Some(3));
    assert_eq!(parse_sketch_index("SKETCH3"), Some(3));
    assert_eq!(parse_sketch_index("sketch. 12"), Some(12));
    assert_eq!(parse_sketch_index("sketch__"), Some(0));
    assert_eq!(parse_sketch_index("sketch_+4"), Some(4));
    assert_eq!(parse_sketch_index("sketch_4294967295"), Some(u32::MAX));
    assert_eq!(parse_sketch_index("sketch_4294967296"), None);
    assert_eq!(parse_sketch_index("sketch_x"), None);
    assert_eq!(parse_sketch_index("sketch_-1"), None);
    assert_eq!(parse_sketch_index("part"), None);
    assert_eq!(parse_sketch_index("sketc"), None);
}

fn nodes(list: &[(&str, &str)]) -> Vec<(String, String)> {
    list.iter().map(|(w, n)| (w.to_string(), n.to_string())).collect()
}

#[test]
fn a_new_sketch_is_numbered_past_the_others() {
    assert_eq!(next_sketch_name(&nodes(&[])), "sketch");
    assert_eq!(next_sketch_name(&nodes(&[("wb.sketch", "sketch")])), "sketch_1");
    assert_eq!(
        next_sketch_name(&nodes(&[("wb.sketch", "sketch_7"), ("wb.sketch", "Sketch2"), ("wb.part", "sketch_40")])),
        "sketch_8"
    );
    assert_eq!(next_sketch_name(&nodes(&[("wb.sketch", "outline")])), "sketch");
    assert_eq!(next_sketch_name(&nodes(&[("wb.sketch", "sketch_4294967295")])), "sketch_4294967295");
    // The name made reads back past every index.
    let made = next_sketch_name(&nodes(&[("wb.sketch", "sketch_41")]));
    assert_eq!(parse_sketch_index(&made), Some(42));
}

#[test]
fn a_carbon_copy_logs_what_it_brought() {
    assert_eq!(carbon_copy_log("base", 12, 5, true), "Carbon copy of base: 12 elements, 5 constraints");
    assert_eq!(
        carbon_copy_log("base", 3, 5, false),
        "Carbon copy of base: 3 elements; its constraints stay behind, as its axes are turned against this sketch's"
    );
}

use wb_sketch::workbench::{canonical_tool, solver_verdict, SolverKind};

#[test]
fn the_verdict_goes_by_what_the_solver_found() {
    let empty = solver_verdict(false, false, false, true, 0, vec![], vec![]);
    assert_eq!(empty.kind, SolverKind::Empty);
    assert_eq!(empty.title, "Empty sketch");
    let conflict = solver_verdict(true, true, true, true, 2, vec![], vec![9]);
    assert_eq!(conflict.kind, SolverKind::Conflicting);
    assert!(conflict.offenders.is_empty());
    let redundant = solver_verdict(true, true, false, true, 0, vec![], vec![9]);
    assert_eq!(redundant.kind, SolverKind::Redundant);
    assert_eq!(redundant.offenders, vec![9]);
    let fully = solver_verdict(true, true, false, true, 0, vec![], vec![]);
    assert_eq!(fully.kind, SolverKind::Fully);
    assert_eq!(fully.body, "Sketch has 0 degrees of freedom.");
    let under = solver_verdict(true, false, false, true, 4, vec![], vec![]);
    assert_eq!(under.kind, SolverKind::Under);
    assert_eq!(under.body, "4 degrees of freedom remain. Add dimensions or constraints.");
    let over = solver_verdict(true, true, false, true, -2, vec![], vec![]);
    assert_eq!(over.body, "-2 degrees of freedom remain. Add dimensions or constraints.");
    assert_eq!(over.dof, -2);
    let big = solver_verdict(true, true, false, false, 0, vec![1], vec![]);
    assert_eq!(big.kind, SolverKind::Unanalyzed);
}

#[test]
fn variants_fold_into_their_tools() {
    let (mut sides, mut periodic) = (6u32, false);
    assert_eq!(canonical_tool("sketch.arc", Some("3pt"), &mut sides, &mut periodic).as_deref(), Some("sketch.arc3"));
    assert_eq!(canonical_tool("sketch.copy", None, &mut sides, &mut periodic).as_deref(), Some("sketch.translate"));
    assert_eq!(canonical_tool("sketch.line", None, &mut sides, &mut periodic).as_deref(), Some("sketch.line"));
    assert_eq!(canonical_tool("part.pad", None, &mut sides, &mut periodic), None);
    assert_eq!(canonical_tool("sketch.polygon", Some("20"), &mut sides, &mut periodic).as_deref(), Some("sketch.polygon"));
    assert_eq!(sides, 12);
    canonical_tool("sketch.polygon", Some("2"), &mut sides, &mut periodic);
    assert_eq!(sides, 3);
    canonical_tool("sketch.polygon", Some("many"), &mut sides, &mut periodic);
    assert_eq!(sides, 3);
    canonical_tool("sketch.bspline", Some("periodic"), &mut sides, &mut periodic);
    assert!(periodic);
    canonical_tool("sketch.bspline", Some("open"), &mut sides, &mut periodic);
    assert!(!periodic);
}
