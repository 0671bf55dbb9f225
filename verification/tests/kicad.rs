use physical::kicad::{
    atom_str, child_atom, component_lists, component_reference, find_child, find_children, footprint_name,
    is_bottom_side, is_edge_cuts, kicad_board_text, parse_kicad_root, parse_sexpr, tokenize, KicadBoardText, SExpr,
};

const SAMPLE_PCB: &str = r#"
(kicad_pcb (version 4) (host pcbnew "5.1.0")
  (general
    (thickness 1.6)
  )
  (gr_line (start 0 0) (end 50 0) (layer Edge.Cuts) (width 0.05))
  (gr_line (start 50 0) (end 50 40) (layer Edge.Cuts) (width 0.05))
  (gr_line (start 50 40) (end 0 40) (layer Edge.Cuts) (width 0.05))
  (gr_line (start 0 40) (end 0 0) (layer Edge.Cuts) (width 0.05))
  (module Package_SO:SOIC-8 (layer F.Cu) (at 25 20 90)
    (fp_text reference "U1" (at 0 0) (layer F.SilkS))
    (pad 1 thru_hole rect (at -1.27 0) (size 1 1) (drill 0.6) (layers *.Cu))
    (pad 2 thru_hole rect (at 1.27 0) (size 1 1) (drill 0.6) (layers *.Cu))
  )
  (module Resistor_SMD:R_0402 (layer F.Cu) (at 10 10)
    (fp_text reference "R1" (at 0 0) (layer F.SilkS))
  )
  (via (at 30 15) (size 0.8) (drill 0.4) (layers F.Cu B.Cu))
)
"#;

#[test]
fn reject_invalid_input() {
    assert!(parse_kicad_root("not a kicad file").is_none());
    assert!(parse_kicad_root("").is_none());
    assert!(parse_kicad_root("(step_file)").is_none());
}

#[test]
fn kicad_tokenize_strings_and_parens() {
    let t = tokenize("(a \"b c\" \"\")d");
    assert_eq!(t, vec!["(", "a", "b c", "", ")", "d"]);
}

#[test]
fn kicad_parse_nested_lists() {
    let t = tokenize("(x (y 1) z) w");
    let mut pos = 0;
    let e = parse_sexpr(&t, &mut pos).unwrap();
    assert_eq!(pos, 8);
    match &e {
        SExpr::List(items) => {
            assert_eq!(items.len(), 3);
            assert_eq!(atom_str(&items[0]), Some("x"));
            assert_eq!(child_atom(items, "y", 1), Some("1"));
        }
        SExpr::Atom(_) => panic!("expected a list"),
    }
    let w = parse_sexpr(&t, &mut pos).unwrap();
    assert_eq!(atom_str(&w), Some("w"));
    assert!(parse_sexpr(&t, &mut pos).is_none());
}

#[test]
fn kicad_board_structure() {
    let root = parse_kicad_root(SAMPLE_PCB).unwrap();
    let general = find_child(&root, "general").unwrap();
    assert_eq!(child_atom(general, "thickness", 1), Some("1.6"));
    let lines = find_children(&root, "gr_line");
    assert_eq!(lines.len(), 4);
    assert!(lines.iter().all(|l| is_edge_cuts(l)));
    let modules = component_lists(&root);
    assert_eq!(modules.len(), 2);
    assert_eq!(component_reference(modules[0]), "U1");
    assert_eq!(footprint_name(modules[0]), "Package_SO:SOIC-8");
    assert_eq!(child_atom(modules[0], "at", 3), Some("90"));
    assert_eq!(find_children(modules[0], "pad").len(), 2);
    let vias = find_children(&root, "via");
    assert_eq!(child_atom(vias[0], "drill", 1), Some("0.4"));
}

#[test]
fn kicad7_property_reference_wins() {
    let pcb = r#"
(kicad_pcb (version 20221018) (generator pcbnew)
  (general (thickness 1.2))
  (footprint "Resistor:R_0603" (layer "F.Cu") (at 5 5)
    (property "Reference" "R10")
  )
)
"#;
    let root = parse_kicad_root(pcb).unwrap();
    let modules = component_lists(&root);
    assert_eq!(modules.len(), 1);
    assert_eq!(component_reference(modules[0]), "R10");
    assert_eq!(footprint_name(modules[0]), "Resistor:R_0603");
}

#[test]
fn kicad_line_off_edge_cuts() {
    let root = parse_kicad_root("(kicad_pcb (gr_line (start 0 0) (layer F.SilkS)))").unwrap();
    let lines = find_children(&root, "gr_line");
    assert!(!is_edge_cuts(lines[0]));
}

#[test]
fn kicad_component_side_from_layer() {
    let text = "(kicad_pcb (general (thickness 1.2)) (footprint A (layer \"F.Cu\") (at 1 2)) (footprint B (layer \"B.Cu\") (at 3 4)) (footprint C (at 5 6)))";
    let root = parse_kicad_root(text).unwrap();
    let modules = component_lists(&root);
    assert_eq!(modules.len(), 3);
    assert!(!is_bottom_side(modules[0]));
    assert!(is_bottom_side(modules[1]));
    assert!(!is_bottom_side(modules[2]));
    let root = parse_kicad_root(SAMPLE_PCB).unwrap();
    assert!(component_lists(&root).iter().all(|m| !is_bottom_side(m)));
}

fn num(a: &Option<String>) -> Option<f64> {
    a.as_deref().and_then(|s| s.parse().ok())
}

fn board_text(text: &str) -> KicadBoardText {
    kicad_board_text(&parse_kicad_root(text).unwrap())
}

/// The outline's distinct points, read as numbers.
fn outline_of(t: &KicadBoardText) -> Vec<(f64, f64)> {
    let mut pts: Vec<(f64, f64)> = Vec::new();
    for (x, y) in &t.outline {
        let p = (num(x).unwrap(), num(y).unwrap());
        if !pts.contains(&p) {
            pts.push(p);
        }
    }
    pts
}

/// The drill holes: drilled pads (offset by their module), then vias.
fn holes_of(t: &KicadBoardText) -> Vec<((f64, f64), f64)> {
    let mut holes = Vec::new();
    for d in &t.pad_drills {
        let dia = num(&d.drill).unwrap_or(0.0);
        if dia > 0.0 {
            let x = num(&d.module_x).unwrap_or(0.0) + num(&d.pad_x).unwrap_or(0.0);
            let y = num(&d.module_y).unwrap_or(0.0) + num(&d.pad_y).unwrap_or(0.0);
            holes.push(((x, y), dia));
        }
    }
    for v in &t.vias {
        let drill = num(&v.drill).unwrap_or(0.0);
        let dia = if drill > 0.0 { drill } else { num(&v.size).unwrap_or(0.3) };
        holes.push(((num(&v.x).unwrap_or(0.0), num(&v.y).unwrap_or(0.0)), dia));
    }
    holes
}

#[test]
fn parse_board_outline() {
    let t = board_text(SAMPLE_PCB);
    let outline = outline_of(&t);
    assert_eq!(outline.len(), 4);
    assert_eq!(outline[0], (0.0, 0.0));
}

#[test]
fn parse_board_thickness() {
    let t = board_text(SAMPLE_PCB);
    let thickness = num(&t.thickness).unwrap_or(1.6);
    assert!((thickness - 1.6).abs() < 1e-6);
}

#[test]
fn parse_components() {
    let t = board_text(SAMPLE_PCB);
    assert_eq!(t.components.len(), 2);
    assert_eq!(t.components[0].reference, "U1");
    assert_eq!(t.components[0].footprint, "Package_SO:SOIC-8");
    assert!((num(&t.components[0].rotation).unwrap_or(0.0) - 90.0).abs() < 1e-6);
}

#[test]
fn parse_component_position() {
    let t = board_text(SAMPLE_PCB);
    let u1 = &t.components[0];
    assert!((num(&u1.x).unwrap_or(0.0) - 25.0).abs() < 1e-6);
    assert!((num(&u1.y).unwrap_or(0.0) - 20.0).abs() < 1e-6);
}

#[test]
fn parse_drill_holes() {
    let t = board_text(SAMPLE_PCB);
    // 2 pads with drill + 1 via = 3
    assert_eq!(holes_of(&t).len(), 3);
}

#[test]
fn parse_via_drill() {
    let t = board_text(SAMPLE_PCB);
    let holes = holes_of(&t);
    let via = holes.iter().find(|h| (h.0 .0 - 30.0).abs() < 1e-6).unwrap();
    assert!((via.1 - 0.4).abs() < 1e-6);
}

#[test]
fn parse_kicad7_property_reference() {
    let pcb = r#"
(kicad_pcb (version 20221018) (generator pcbnew)
  (general (thickness 1.2))
  (footprint "Resistor:R_0603" (layer "F.Cu") (at 5 5)
    (property "Reference" "R10")
  )
)
"#;
    let t = board_text(pcb);
    assert_eq!(t.components.len(), 1);
    assert_eq!(t.components[0].reference, "R10");
    assert!((num(&t.thickness).unwrap_or(1.6) - 1.2).abs() < 1e-6);
}

#[test]
fn kicad_board_text_fields() {
    let t = board_text(SAMPLE_PCB);
    assert_eq!(t.thickness.as_deref(), Some("1.6"));
    // Four edge lines, each with a start and an end.
    assert_eq!(t.outline.len(), 8);
    assert_eq!(t.outline[1], (Some("50".to_string()), Some("0".to_string())));
    assert_eq!(t.components[1].reference, "R1");
    assert_eq!(t.components[1].rotation, None);
    assert!(!t.components[1].bottom);
    assert_eq!(t.pad_drills.len(), 2);
    assert_eq!(t.pad_drills[0].module_x.as_deref(), Some("25"));
    assert_eq!(t.pad_drills[0].pad_x.as_deref(), Some("-1.27"));
    assert_eq!(t.pad_drills[0].drill.as_deref(), Some("0.6"));
    assert_eq!(t.vias.len(), 1);
    assert_eq!(t.vias[0].size.as_deref(), Some("0.8"));
    assert_eq!(t.vias[0].drill.as_deref(), Some("0.4"));
}

#[test]
fn kicad_board_text_skips_other_layers_and_bare_vias() {
    let t = board_text(
        "(kicad_pcb (gr_line (start 0 0) (end 1 1) (layer F.SilkS)) (via (size 0.5)) (via (at 2 3) (size 0.5)) (footprint B (layer \"B.Cu\") (at 3 4) (pad 1 smd rect (at 0 0))))",
    );
    assert_eq!(t.thickness, None);
    assert!(t.outline.is_empty());
    assert_eq!(t.vias.len(), 1);
    assert_eq!(t.vias[0].drill, None);
    assert_eq!(holes_of(&t)[0].1, 0.5);
    assert!(t.components[0].bottom);
    assert!(t.pad_drills.is_empty());
}
