use physical::step::{DimensionType, GdtCharacteristic, MaterialCondition};
use physical::step_ap::{
    write_step_ap214_text, write_step_ap242_text, write_step_assembly_text, DimensionText, GdtText, PartText,
};
use physical::step_entities::{push_surface, Coords, FaceText, NurbsText, Placement3, SurfaceText};
use physical::step::entity_type_name;
use physical::step_read::read_step_structure;
use physical::step_solid::solid_from_step_faces;
use physical::step_write::write_step_ap203_text;

/// The solid topology of STEP text and its part name: a vertex per
/// Cartesian point, in entity-number order.
fn step_solid(text: &str) -> Option<(physical::solid::Solid, String)> {
    let st = read_step_structure(text)?;
    let mut ids: Vec<u64> =
        st.entities.iter().filter(|(_, b)| entity_type_name(b) == "CARTESIAN_POINT").map(|(&id, _)| id).collect();
    ids.sort();
    let built = solid_from_step_faces(&ids, &st.faces);
    Some((built.solid, st.part_name))
}

fn f6(v: f64) -> String {
    format!("{:.6}", v)
}

fn c(v: [f64; 3]) -> Coords {
    (f6(v[0]), f6(v[1]), f6(v[2]))
}

fn normalize(v: [f64; 3]) -> [f64; 3] {
    let l = (v[0] * v[0] + v[1] * v[1] + v[2] * v[2]).sqrt();
    [v[0] / l, v[1] / l, v[2] / l]
}

fn cross(a: [f64; 3], b: [f64; 3]) -> [f64; 3] {
    [a[1] * b[2] - a[2] * b[1], a[2] * b[0] - a[0] * b[2], a[0] * b[1] - a[1] * b[0]]
}

fn perpendicular_to(v: [f64; 3]) -> [f64; 3] {
    let n = normalize(v);
    let cand = if n[0].abs() < 0.9 { [1.0, 0.0, 0.0] } else { [0.0, 1.0, 0.0] };
    normalize(cross(n, cand))
}

fn placement(origin: [f64; 3], axis: [f64; 3]) -> Placement3 {
    Placement3 { origin: c(origin), axis: c(normalize(axis)), ref_dir: c(perpendicular_to(axis)) }
}

fn plane(origin: [f64; 3], normal: [f64; 3]) -> SurfaceText {
    SurfaceText::Plane { at: placement(origin, normal) }
}

/// The vertices and faces of a box centred at the origin, as the kernel
/// builds it.
fn box_solid(w: f64, h: f64, d: f64) -> (Vec<Coords>, Vec<FaceText>) {
    let (hw, hh, hd) = (w / 2.0, h / 2.0, d / 2.0);
    let pts = vec![
        c([-hw, -hh, -hd]),
        c([hw, -hh, -hd]),
        c([hw, hh, -hd]),
        c([-hw, hh, -hd]),
        c([-hw, -hh, hd]),
        c([hw, -hh, hd]),
        c([hw, hh, hd]),
        c([-hw, hh, hd]),
    ];
    let faces = vec![
        FaceText { verts: vec![4, 5, 6, 7], surface: plane([0.0, 0.0, hd], [0.0, 0.0, 1.0]) },
        FaceText { verts: vec![1, 0, 3, 2], surface: plane([0.0, 0.0, -hd], [0.0, 0.0, -1.0]) },
        FaceText { verts: vec![5, 1, 2, 6], surface: plane([hw, 0.0, 0.0], [1.0, 0.0, 0.0]) },
        FaceText { verts: vec![0, 4, 7, 3], surface: plane([-hw, 0.0, 0.0], [-1.0, 0.0, 0.0]) },
        FaceText { verts: vec![3, 7, 6, 2], surface: plane([0.0, hh, 0.0], [0.0, 1.0, 0.0]) },
        FaceText { verts: vec![0, 1, 5, 4], surface: plane([0.0, -hh, 0.0], [0.0, -1.0, 0.0]) },
    ];
    (pts, faces)
}

/// A cylinder about the Y axis with planar caps and one cylindrical face
/// per segment.
fn cylinder_solid(radius: f64, height: f64, segments: usize) -> (Vec<Coords>, Vec<FaceText>) {
    let hh = height / 2.0;
    let seg = segments.max(8);
    let mut pts = Vec::new();
    for i in 0..seg {
        let a = std::f64::consts::TAU * (i as f64 / seg as f64);
        pts.push(c([radius * a.cos(), -hh, radius * a.sin()]));
        pts.push(c([radius * a.cos(), hh, radius * a.sin()]));
    }
    let bottom: Vec<usize> = (0..seg).rev().map(|i| 2 * i).collect();
    let top: Vec<usize> = (0..seg).map(|i| 2 * i + 1).collect();
    let mut faces = vec![
        FaceText { verts: bottom, surface: plane([0.0, -hh, 0.0], [0.0, -1.0, 0.0]) },
        FaceText { verts: top, surface: plane([0.0, hh, 0.0], [0.0, 1.0, 0.0]) },
    ];
    for i in 0..seg {
        let j = (i + 1) % seg;
        faces.push(FaceText {
            verts: vec![2 * i, 2 * j, 2 * j + 1, 2 * i + 1],
            surface: SurfaceText::Cylinder { at: placement([0.0, 0.0, 0.0], [0.0, 1.0, 0.0]), radius: f6(radius) },
        });
    }
    (pts, faces)
}

fn gdt(ch: GdtCharacteristic, tol: f64, datums: &[&str], mc: Option<MaterialCondition>, face: usize) -> GdtText {
    GdtText {
        characteristic: ch,
        tolerance: f6(tol),
        datum_refs: datums.iter().map(|d| d.to_string()).collect(),
        material_condition: mc,
        face_index: face,
    }
}

fn ap242(name: &str, anns: &[GdtText], dims: Vec<DimensionText>) -> String {
    let (pts, faces) = box_solid(10.0, 20.0, 30.0);
    let anns: Vec<GdtText> = anns
        .iter()
        .map(|a| GdtText {
            characteristic: a.characteristic,
            tolerance: a.tolerance.clone(),
            datum_refs: a.datum_refs.clone(),
            material_condition: a.material_condition,
            face_index: a.face_index,
        })
        .collect();
    write_step_ap242_text(name, &pts, &faces, &anns, &dims, "/* AP242 B-Rep */\n")
}

fn identity() -> Placement3 {
    Placement3 {
        origin: c([0.0, 0.0, 0.0]),
        axis: c([0.0, 0.0, 1.0]),
        ref_dir: c([1.0, 0.0, 0.0]),
    }
}

fn part(name: &str, w: f64, h: f64, d: f64, at: [f64; 3]) -> PartText {
    let (points, faces) = box_solid(w, h, d);
    PartText {
        name: name.to_string(),
        points,
        faces,
        placement: Placement3 { origin: c(at), axis: c([0.0, 0.0, 1.0]), ref_dir: c([1.0, 0.0, 0.0]) },
    }
}

#[test]
fn ap214_basic_box() {
    let (pts, faces) = box_solid(10.0, 20.0, 30.0);
    let step = write_step_ap214_text("Box214", &pts, &faces, &vec![], "/* AP214 B-Rep */\n");
    assert!(step.contains("ISO-10303-21"));
    assert!(step.contains("AP214"));
    assert!(step.contains("PRODUCT_DEFINITION_FORMATION('1','version 1'"));
    assert!(step.contains("SHAPE_REPRESENTATION"));
    assert!(step.contains("SHAPE_DEFINITION_REPRESENTATION"));
    assert!(step.contains("PLANE("));
}

#[test]
fn ap214_with_colors() {
    let (pts, faces) = box_solid(10.0, 20.0, 30.0);
    let red = ("0.8000".to_string(), "0.1000".to_string(), "0.1000".to_string());
    let blue = ("0.1000".to_string(), "0.3000".to_string(), "0.8000".to_string());
    let step = write_step_ap214_text("ColorBox", &pts, &faces, &vec![(0, red), (2, blue)], "");
    assert!(step.contains("COLOUR_RGB"));
    assert!(step.contains("STYLED_ITEM"));
    assert!(step.contains("SURFACE_STYLE_USAGE"));
    let styled_count = step.matches("STYLED_ITEM").count();
    assert_eq!(styled_count, 2, "expected 2 STYLED_ITEMs, got {styled_count}");
}

#[test]
fn ap214_cylinder_surface() {
    let (pts, faces) = cylinder_solid(5.0, 20.0, 32);
    let step = write_step_ap214_text("Cyl", &pts, &faces, &vec![], "");
    assert!(step.contains("CYLINDRICAL_SURFACE"));
    assert!(step.contains("PLANE("));
}

#[test]
fn ap214_numbering_of_a_box() {
    let (pts, faces) = box_solid(10.0, 20.0, 30.0);
    let step = write_step_ap214_text("B", &pts, &faces, &vec![(5, c([1.0, 0.0, 0.0])), (6, c([0.0, 1.0, 0.0]))], "");
    // Solid #20, shell #21, points #22..#29, then 8 numbers per planar face.
    assert!(step.contains("#22=CARTESIAN_POINT('',(-5.000000,-10.000000,-15.000000));\n"));
    assert!(step.contains("#32=EDGE_LOOP('', (#26,#27,#28,#29) );\n"));
    assert!(step.contains("#31=FACE_OUTER_BOUND('',#32, .T.);\n"));
    assert!(step.contains("#37=PLANE('',#36);\n"));
    assert!(step.contains("#30=ADVANCED_FACE('',(#31),#37,.T.);\n"));
    assert!(step.contains("#21=CLOSED_SHELL('', (#30,#38,#46,#54,#62,#70) );\n"));
    assert!(step.contains("#20=MANIFOLD_SOLID_BREP('B',#21);\n"));
    assert!(step.contains("#78=SHAPE_REPRESENTATION('B',(#20),#9);\n"));
    assert!(step.contains("#79=SHAPE_DEFINITION_REPRESENTATION(#8,#78);\n"));
    // Only the colour of face 5 is written; face 6 does not exist.
    assert!(step.contains("#87=STYLED_ITEM('',(#86),#70);\n"));
    assert_eq!(step.matches("STYLED_ITEM").count(), 1);
    assert!(step.ends_with("ENDSEC;\nEND-ISO-10303-21;\n"));
}

#[test]
fn surface_entity_plane() {
    let mut s = String::new();
    let id = push_surface(&mut s, 1, &plane([0.0, 0.0, 0.0], [0.0, 0.0, 1.0]));
    assert!(id > 0);
    assert!(s.contains("PLANE("));
    assert!(s.contains("AXIS2_PLACEMENT_3D"));
    assert_eq!(id, 5);
    assert!(s.contains("#4=AXIS2_PLACEMENT_3D('',#1,#2,#3);\n#5=PLANE('',#4);\n"));
}

#[test]
fn surface_entity_cylinder() {
    let mut s = String::new();
    let surface = SurfaceText::Cylinder { at: placement([0.0, 0.0, 0.0], [0.0, 1.0, 0.0]), radius: f6(10.0) };
    let id = push_surface(&mut s, 1, &surface);
    assert!(id > 0);
    assert!(s.contains("CYLINDRICAL_SURFACE"));
    assert!(s.contains("10.000000"));
}

#[test]
fn surface_entity_cone() {
    let mut s = String::new();
    let surface = SurfaceText::Cone { at: placement([0.0, 0.0, 10.0], [0.0, 0.0, 1.0]), half_angle: f6(0.5) };
    let id = push_surface(&mut s, 1, &surface);
    assert!(id > 0);
    assert!(s.contains("CONICAL_SURFACE"));
    assert!(s.contains("0.500000"));
    assert!(s.contains("#5=CONICAL_SURFACE('',#4,0.0,0.500000);\n"));
}

#[test]
fn surface_entity_sphere() {
    let mut s = String::new();
    let surface = SurfaceText::Sphere { center: c([1.0, 2.0, 3.0]), radius: f6(7.5) };
    let id = push_surface(&mut s, 1, &surface);
    assert!(id > 0);
    assert!(s.contains("SPHERICAL_SURFACE"));
    assert!(s.contains("7.500000"));
    assert!(s.contains("#2=DIRECTION('',(0.000000,0.000000,1.000000));\n#3=DIRECTION('',(0.000000,1.000000,0.000000));\n"));
}

#[test]
fn surface_entity_torus() {
    let mut s = String::new();
    let surface = SurfaceText::Torus {
        at: placement([0.0, 0.0, 0.0], [0.0, 0.0, 1.0]),
        major_radius: f6(10.0),
        minor_radius: f6(2.0),
    };
    let id = push_surface(&mut s, 1, &surface);
    assert!(id > 0);
    assert!(s.contains("TOROIDAL_SURFACE"));
    assert!(s.contains("10.000000"));
    assert!(s.contains("2.000000"));
}

fn nurbs(weights: Option<Vec<Vec<String>>>) -> SurfaceText {
    SurfaceText::Nurbs {
        surface: NurbsText {
            grid: vec![
                vec![c([0.0, 0.0, 0.0]), c([1.0, 0.0, 0.0])],
                vec![c([0.0, 1.0, 0.0]), c([1.0, 1.0, 1.0])],
            ],
            degree_u: 1,
            degree_v: 1,
            u_mults: vec![2, 2],
            v_mults: vec![2, 2],
            u_knots: vec![f6(0.0), f6(1.0)],
            v_knots: vec![f6(0.0), f6(1.0)],
            weights,
        },
    }
}

#[test]
fn surface_entity_bspline() {
    let mut s = String::new();
    let id = push_surface(&mut s, 1, &nurbs(None));
    assert!(id > 0);
    assert!(s.contains("B_SPLINE_SURFACE_WITH_KNOTS"));
    assert_eq!(id, 5);
    assert!(s.contains(
        "#5=B_SPLINE_SURFACE_WITH_KNOTS('',1,1,((#1,#2),(#3,#4)),.UNSPECIFIED.,.F.,.F.,.F.,(2,2),(2,2),(0.000000,1.000000,0.000000,1.000000),.UNSPECIFIED.);\n"
    ));
}

#[test]
fn surface_entity_rational_bspline() {
    let mut s = String::new();
    let w = vec![vec![f6(1.0), f6(2.0)], vec![f6(1.0), f6(1.0)]];
    let id = push_surface(&mut s, 1, &nurbs(Some(w)));
    assert!(id > 0);
    assert!(s.contains("B_SPLINE_SURFACE_WITH_KNOTS"));
    assert!(s.contains("RATIONAL_B_SPLINE_SURFACE"));
    assert_eq!(id, 6);
    assert!(s.contains("#6=RATIONAL_B_SPLINE_SURFACE(#5,1,1,"));
    assert!(s.ends_with(",.UNSPECIFIED.,((1.000000,2.000000),(1.000000,1.000000)));\n"));
}

#[test]
fn assembly_two_boxes() {
    let parts = vec![part("Base", 10.0, 10.0, 10.0, [0.0, 0.0, 0.0]), part("Block", 5.0, 5.0, 5.0, [10.0, 0.0, 0.0])];
    let step = write_step_assembly_text("TestAsm", &parts);
    assert!(step.contains("ISO-10303-21"));
    assert!(step.contains("NEXT_ASSEMBLY_USAGE_OCCURRENCE"));
    assert!(step.contains("CONTEXT_DEPENDENT_SHAPE_REPRESENTATION"));
    assert!(step.contains("ITEM_DEFINED_TRANSFORMATION"));
    assert!(step.contains("SHAPE_REPRESENTATION"));
    let nauo_count = step.matches("NEXT_ASSEMBLY_USAGE_OCCURRENCE").count();
    assert_eq!(nauo_count, 2, "expected 2 NAUOs, got {nauo_count}");
    let cdsr_count = step.matches("CONTEXT_DEPENDENT_SHAPE_REPRESENTATION").count();
    assert_eq!(cdsr_count, 2, "expected 2 CDSRs, got {cdsr_count}");
    assert_eq!(step.matches("=SHAPE_REPRESENTATION(").count(), 3);
}

#[test]
fn assembly_single_part() {
    let parts = vec![PartText { placement: identity(), ..part("OnlyPart", 10.0, 20.0, 30.0, [0.0, 0.0, 0.0]) }];
    let step = write_step_assembly_text("SingleAsm", &parts);
    assert!(step.contains("NEXT_ASSEMBLY_USAGE_OCCURRENCE"));
    assert!(step.contains("OnlyPart"));
    assert!(step.contains("SingleAsm"));
}

#[test]
fn assembly_empty() {
    let step = write_step_assembly_text("EmptyAsm", &vec![]);
    assert!(step.contains("ISO-10303-21"));
    assert!(step.contains("EmptyAsm"));
    assert!(!step.contains("NEXT_ASSEMBLY_USAGE_OCCURRENCE"));
    assert!(step.contains("/* Assembly 'EmptyAsm': 0 parts */\n"));
}

#[test]
fn assembly_numbering() {
    let parts = vec![part("P", 2.0, 2.0, 2.0, [10.0, 0.0, 0.0])];
    let step = write_step_assembly_text("A", &parts);
    assert!(step.contains("#100=PRODUCT('A','A','',(#4));\n"));
    assert!(step.contains("#104=PRODUCT('P','P','',(#4));\n"));
    // Part: product #104..#107, solid #108, shell #109, points #110..#117,
    // six faces of eight numbers from #118, representation #166, link #168.
    assert!(step.contains("#108=MANIFOLD_SOLID_BREP('P',#109);\n"));
    assert!(step.contains("#166=SHAPE_REPRESENTATION('P',(#108),#98);\n"));
    assert!(step.contains("#167=SHAPE_DEFINITION_REPRESENTATION(#107,#166);\n"));
    assert!(step.contains("#168=NEXT_ASSEMBLY_USAGE_OCCURRENCE('link_0','P','',#102,#106);\n"));
    assert!(step.contains("#170=CARTESIAN_POINT('',(10.000000,0.000000,0.000000));\n"));
    assert!(step.contains("#174=ITEM_DEFINED_TRANSFORMATION('','',#178,#173);\n"));
    assert!(step.contains(
        "#179=( REPRESENTATION_RELATIONSHIP('','',#166,#181) REPRESENTATION_RELATIONSHIP_WITH_TRANSFORMATION(#174) SHAPE_REPRESENTATION_RELATIONSHIP() );\n"
    ));
    assert!(step.contains("#181=SHAPE_REPRESENTATION('A',(#185),#98);\n"));
    assert!(step.contains("#185=AXIS2_PLACEMENT_3D('',#182,#183,#184);\n"));
    assert!(step.contains("#186=SHAPE_DEFINITION_REPRESENTATION(#103,#181);\n"));
    assert!(step.contains("#180=CONTEXT_DEPENDENT_SHAPE_REPRESENTATION(#179,#169);\n"));
    assert!(step.contains("/* Assembly 'A': 1 parts */\n"));
}

#[test]
fn ap242_header_contains_schema() {
    let step = ap242("Box242", &[], vec![]);
    assert!(step.contains("FILE_SCHEMA(('AUTOMOTIVE_DESIGN { 1 0 10303 442 1 1 4 }'))"));
    assert!(step.contains("AP242"));
}

#[test]
fn ap242_gdt_flatness_writes() {
    let step = ap242("FlatBox", &[gdt(GdtCharacteristic::Flatness, 0.05, &[], None, 0)], vec![]);
    assert!(step.contains("FLATNESS_TOLERANCE"));
    assert!(step.contains("TOLERANCE_ZONE"));
    assert!(step.contains("SHAPE_ASPECT"));
}

#[test]
fn ap242_gdt_position_with_datums() {
    let step = ap242("PosBox", &[gdt(GdtCharacteristic::Position, 0.1, &["A", "B", "C"], None, 0)], vec![]);
    assert!(step.contains("GEOMETRIC_TOLERANCE_WITH_DATUM_REFERENCE"));
    assert!(step.contains("DATUM('A'"));
    assert!(step.contains("DATUM('B'"));
    assert!(step.contains("DATUM('C'"));
    assert!(step.contains("DATUM_REFERENCE"));
}

#[test]
fn ap242_gdt_material_condition() {
    let step = ap242(
        "MmcBox",
        &[gdt(GdtCharacteristic::Position, 0.25, &["A"], Some(MaterialCondition::Mmc), 0)],
        vec![],
    );
    assert!(step.contains("GEOMETRIC_TOLERANCE_WITH_MODIFIERS"));
    assert!(step.contains(".MAXIMUM_MATERIAL_CONDITION."));
}

#[test]
fn ap242_dimension_linear() {
    let dims = vec![DimensionText { dim_type: DimensionType::Linear, value: f6(25.0), tolerance: None }];
    let step = ap242("DimBox", &[], dims);
    assert!(step.contains("DIMENSIONAL_SIZE"));
    assert!(step.contains("'linear'"));
    assert!(step.contains("LENGTH_MEASURE(25.000000)"));
}

#[test]
fn ap242_dimension_with_tolerance() {
    let dims = vec![DimensionText {
        dim_type: DimensionType::Diameter,
        value: f6(50.0),
        tolerance: Some((f6(0.05), f6(-0.02))),
    }];
    let step = ap242("TolBox", &[], dims);
    assert!(step.contains("DIMENSIONAL_SIZE"));
    assert!(step.contains("'diameter'"));
    assert!(step.contains("PLUS_MINUS_TOLERANCE"));
    assert!(step.contains("LENGTH_MEASURE(0.050000)"));
    assert!(step.contains("LENGTH_MEASURE(-0.020000)"));
}

#[test]
fn ap242_roundtrip_preserves_geometry() {
    let step = ap242("RtBox", &[gdt(GdtCharacteristic::Flatness, 0.01, &[], None, 0)], vec![]);
    let st = read_step_structure(&step).unwrap();
    assert_eq!(st.faces.len(), 6);
    let mut corners: Vec<u64> = st.faces.iter().flat_map(|f| f.point_refs.clone()).collect();
    corners.sort();
    corners.dedup();
    assert!(corners.len() >= 8, "expected at least 8 vertices, got {}", corners.len());
    assert_eq!(st.part_name, "RtBox");
}

#[test]
fn ap242_multiple_annotations() {
    let anns = [
        gdt(GdtCharacteristic::Flatness, 0.05, &[], None, 0),
        gdt(GdtCharacteristic::Perpendicularity, 0.1, &["A"], None, 1),
        gdt(GdtCharacteristic::Parallelism, 0.08, &["A", "B"], Some(MaterialCondition::Lmc), 2),
    ];
    let step = ap242("MultiBox", &anns, vec![]);
    assert!(step.contains("FLATNESS_TOLERANCE"));
    assert!(step.contains("PERPENDICULARITY_TOLERANCE"));
    assert!(step.contains("PARALLELISM_TOLERANCE"));
    let sa_count = step.matches("SHAPE_ASPECT('gdt_target'").count();
    assert_eq!(sa_count, 3, "expected 3 SHAPE_ASPECTs, got {sa_count}");
}

#[test]
fn ap242_datum_references() {
    let step = ap242("DatumBox", &[gdt(GdtCharacteristic::Position, 0.15, &["A", "B"], None, 0)], vec![]);
    let datum_count = step.matches("DATUM('").count();
    assert_eq!(datum_count, 2, "expected 2 DATUMs, got {datum_count}");
    let dr_count = step.matches("=DATUM_REFERENCE(").count();
    assert_eq!(dr_count, 2, "expected 2 DATUM_REFERENCEs, got {dr_count}");
    assert!(step.contains("DATUM_REFERENCE(#") && step.contains(",1)"));
    assert!(step.contains(",2)"));
}

#[test]
fn ap242_empty_annotations_still_valid() {
    let step = ap242("EmptyAnn", &[], vec![]);
    assert!(step.contains("ISO-10303-21"));
    assert!(step.contains("END-ISO-10303-21"));
    assert!(step.contains("FILE_SCHEMA(('AUTOMOTIVE_DESIGN { 1 0 10303 442 1 1 4 }'))"));
    assert!(step.contains("MANIFOLD_SOLID_BREP"));
    assert!(step.contains("CLOSED_SHELL"));
    assert!(!step.contains("FLATNESS_TOLERANCE"));
    assert!(!step.contains("GEOMETRIC_TOLERANCE_WITH_DATUM_REFERENCE"));
    assert!(!step.contains("DIMENSIONAL_SIZE"));
}

#[test]
fn ap242_callout_numbering() {
    // Geometry ends at #78; #78/#79 are the representations; callouts from #80.
    let step = ap242(
        "N",
        &[
            gdt(GdtCharacteristic::Position, 0.1, &["A", "B"], Some(MaterialCondition::Rfs), 1),
            gdt(GdtCharacteristic::Flatness, 0.2, &[], None, 9),
        ],
        vec![DimensionText { dim_type: DimensionType::Angular, value: f6(1.0), tolerance: None }],
    );
    assert!(step.contains("#80=SHAPE_ASPECT('gdt_target','',#8,.F.);\n#81=SHAPE_ASPECT_RELATIONSHIP('','',#80,#38);\n"));
    assert!(step.contains("#82=DATUM('A','A',#8);\n#83=DATUM_REFERENCE(#82,1);\n#84=DATUM('B','B',#8);\n#85=DATUM_REFERENCE(#84,2);\n"));
    assert!(step.contains("#86=TOLERANCE_ZONE('',LENGTH_MEASURE(0.100000),#80);\n"));
    assert!(step.contains("#87=POSITION_TOLERANCE('','0.100000',#86,#80);\n"));
    assert!(step.contains("#88=GEOMETRIC_TOLERANCE_WITH_DATUM_REFERENCE(#87,(#83,#85));\n"));
    assert!(step.contains("#89=GEOMETRIC_TOLERANCE_WITH_MODIFIERS(#87,.REGARDLESS_OF_FEATURE_SIZE.);\n"));
    // The callout on face 9 writes nothing; the dimension follows at #90.
    assert!(!step.contains("FLATNESS_TOLERANCE"));
    assert!(step.contains("#90=SHAPE_ASPECT('dimension','',#8,.F.);\n#91=DIMENSIONAL_SIZE(#90,'angular');\n"));
    assert!(step.contains("#92=MEASURE_WITH_UNIT(LENGTH_MEASURE(1.000000),#9b);\n"));
}

fn box_ap203(name: &str) -> String {
    let (pts, faces) = box_solid(10.0, 20.0, 30.0);
    let corners: Vec<Vec<usize>> = faces.iter().map(|f| f.verts.clone()).collect();
    write_step_ap203_text(name, &pts, &corners, "/* B-Rep */\n")
}

#[test]
fn roundtrip_box() {
    let step = box_ap203("Box");
    let st = read_step_structure(&step).unwrap();
    assert_eq!(st.faces.len(), 6);
    let mut corners: Vec<u64> = st.faces.iter().flat_map(|f| f.point_refs.clone()).collect();
    corners.sort();
    corners.dedup();
    assert_eq!(corners.len(), 8);
}

#[test]
fn read_step_preserves_vertex_count() {
    let step = box_ap203("Verts");
    let (reimported, _name) = step_solid(&step).unwrap();
    assert!(reimported.vertex_count() >= 8, "expected >= 8 vertices, got {}", reimported.vertex_count());
}

#[test]
fn read_step_solid_box() {
    let step = "\
ISO-10303-21;
HEADER;
FILE_DESCRIPTION(('test'),'2;1');
FILE_NAME('test.step','2025-01-01',('T'),('T'),'test','test','');
FILE_SCHEMA(('AUTOMOTIVE_DESIGN'));
ENDSEC;
DATA;
#1=CARTESIAN_POINT('',(0.0,0.0,0.0));
#2=CARTESIAN_POINT('',(10.0,0.0,0.0));
#3=CARTESIAN_POINT('',(10.0,10.0,0.0));
#4=CARTESIAN_POINT('',(0.0,10.0,0.0));
#5=CARTESIAN_POINT('',(0.0,0.0,10.0));
#6=CARTESIAN_POINT('',(10.0,0.0,10.0));
#7=CARTESIAN_POINT('',(10.0,10.0,10.0));
#8=CARTESIAN_POINT('',(0.0,10.0,10.0));
#9=DIRECTION('',(0.0,0.0,-1.0));
#10=DIRECTION('',(1.0,0.0,0.0));
#11=AXIS2_PLACEMENT_3D('',#1,#9,#10);
#12=PLANE('',#11);
#20=EDGE_LOOP('',(#1,#2,#3,#4));
#21=FACE_OUTER_BOUND('',#20,.T.);
#22=ADVANCED_FACE('',(#21),#12,.T.);
#30=EDGE_LOOP('',(#5,#8,#7,#6));
#31=FACE_OUTER_BOUND('',#30,.T.);
#32=ADVANCED_FACE('',(#31),#12,.T.);
#40=EDGE_LOOP('',(#1,#5,#6,#2));
#41=FACE_OUTER_BOUND('',#40,.T.);
#42=ADVANCED_FACE('',(#41),#12,.T.);
#50=EDGE_LOOP('',(#2,#6,#7,#3));
#51=FACE_OUTER_BOUND('',#50,.T.);
#52=ADVANCED_FACE('',(#51),#12,.T.);
#60=EDGE_LOOP('',(#3,#7,#8,#4));
#61=FACE_OUTER_BOUND('',#60,.T.);
#62=ADVANCED_FACE('',(#61),#12,.T.);
#70=EDGE_LOOP('',(#4,#8,#5,#1));
#71=FACE_OUTER_BOUND('',#70,.T.);
#72=ADVANCED_FACE('',(#71),#12,.T.);
#80=PRODUCT('TestBox','TestBox','',(#81));
#81=PRODUCT_CONTEXT('',#82,'mechanical');
#82=APPLICATION_CONTEXT('automotive design');
ENDSEC;
END-ISO-10303-21;
";
    let (solid, name) = step_solid(step).unwrap();
    assert_eq!(solid.face_count(), 6, "box should have 6 faces");
    assert_eq!(name, "TestBox");
    assert_eq!(solid.vertex_count(), 8);
    assert!(solid.is_valid_shell());
}

#[test]
fn written_entities_come_back_under_their_numbers() {
    let pts = vec![
        ("0".to_string(), "0".to_string(), "0".to_string()),
        ("1.5".to_string(), "-2".to_string(), "3".to_string()),
        ("4".to_string(), "5".to_string(), "6".to_string()),
    ];
    let faces = vec![vec![0usize, 1, 2]];
    let text = write_step_ap203_text("part", &pts, &faces, "/* summary */\n");
    let m = physical::step::build_entity_map(&text);
    assert_eq!(m.len(), 7 + 3 + 3 + 2);
    assert_eq!(m[&3], "PRODUCT('part','part','',(#4))");
    assert_eq!(m[&13], "CARTESIAN_POINT('',(1.5,-2,3))");
    assert_eq!(m[&17], "EDGE_LOOP('', (#12,#13,#14) )");
    assert_eq!(m[&16], "FACE_OUTER_BOUND('',#17, .T.)");
    assert_eq!(m[&15], "ADVANCED_FACE('',(#16),#17,.T.)");
    assert_eq!(m[&11], "CLOSED_SHELL('', (#15) )");
    assert_eq!(m[&10], "MANIFOLD_SOLID_BREP('part',#11)");
}

#[test]
fn ap203_faces_read_back_exactly() {
    let (pts, faces) = box_solid(10.0, 20.0, 30.0);
    let corners: Vec<Vec<usize>> = faces.iter().map(|f| f.verts.clone()).collect();
    let step = write_step_ap203_text("Faces", &pts, &corners, "/* B-Rep */\n");
    let st = read_step_structure(&step).unwrap();
    assert_eq!(st.faces.len(), corners.len());
    let np = pts.len() as u64;
    for (k, verts) in corners.iter().enumerate() {
        let f = 12 + np + 3 * k as u64;
        let refs: Vec<u64> = verts.iter().map(|&v| 12 + v as u64).collect();
        let hits = st.faces.iter().filter(|sf| sf.point_refs == refs && sf.surface_id == Some(f + 2)).count();
        assert_eq!(hits, 1, "face {k} read back once");
    }
}

#[test]
fn ap203_solid_counts_read_back() {
    let (pts, faces) = box_solid(10.0, 20.0, 30.0);
    let corners: Vec<Vec<usize>> = faces.iter().map(|f| f.verts.clone()).collect();
    let step = write_step_ap203_text("Counts", &pts, &corners, "/* B-Rep */\n");
    let (solid, name) = step_solid(&step).unwrap();
    assert_eq!(solid.vertex_count(), pts.len());
    assert_eq!(solid.face_count(), corners.len());
    assert_eq!(name, "Counts");
}
