use physical::step::{
    build_entity_map, entity_type_name, extract_first_quoted_string, parse_entity_id_from_str,
    parse_entity_refs, parse_int_list, tokenize_step_args, DimensionType, GdtCharacteristic, IdAlloc,
    MaterialCondition,
};
use physical::step_read::{read_step_structure, is_step_text, collect_face_bounds, extract_product_name};

#[test]
fn read_step_returns_none_for_empty() {
    assert!(read_step_structure("").is_none());
    assert!(read_step_structure("not a step file").is_none());
    assert!(read_step_structure("ISO-10303-21;\nHEADER;\nENDSEC;\nDATA;\nENDSEC;\nEND-ISO-10303-21;").is_none());
}

const SMALL_STEP: &str = "ISO-10303-21;\nHEADER;\nENDSEC;\nDATA;\n\
#1=CARTESIAN_POINT('',(0.,0.,0.));\n\
#2=CARTESIAN_POINT('',(1.,0.,0.));\n\
#3=CARTESIAN_POINT('',(1.,1.,0.));\n\
#4=EDGE_LOOP('',(#1,#2,#3));\n\
#5=FACE_OUTER_BOUND('',#4,.T.);\n\
#6=PLANE('',#9);\n\
#7=ADVANCED_FACE('',(#5),#6,.T.);\n\
#8=PRODUCT('Bracket','Bracket','',(#10));\n\
/* a comment */\n\
#9=AXIS2_PLACEMENT_3D('',#1,\n  #2,#3);\n\
ENDSEC;\nEND-ISO-10303-21;\n";

#[test]
fn step_structure_of_small_file() {
    let st = read_step_structure(SMALL_STEP).unwrap();
    assert_eq!(st.entities.len(), 9);
    assert_eq!(st.entities[&9], "AXIS2_PLACEMENT_3D('',#1,#2,#3)");
    assert_eq!(st.part_name, "Bracket");
    assert_eq!(st.faces.len(), 1);
    assert_eq!(st.faces[0].point_refs, vec![1, 2, 3]);
    assert_eq!(st.faces[0].surface_id, Some(6));
}

#[test]
fn step_face_bounds_name_loops() {
    let m = build_entity_map(SMALL_STEP);
    let fb = collect_face_bounds(&m);
    assert_eq!(fb.len(), 1);
    assert_eq!(fb[&5], 4);
}

#[test]
fn step_product_name_default() {
    let m = build_entity_map("ISO-10303-21;\nDATA;\n#1=PRODUCT('','','',());\nENDSEC;\n");
    assert_eq!(extract_product_name(&m), "Unnamed");
}

#[test]
fn step_text_checks() {
    assert!(is_step_text(SMALL_STEP));
    assert!(!is_step_text("ISO-10303-21;\nDATA;\n"));
}

#[test]
fn step_entity_parsing_helpers() {
    assert_eq!(parse_entity_id_from_str("#42=FOO()"), Some(42));
    assert_eq!(parse_entity_id_from_str("42=FOO()"), None);
    assert_eq!(entity_type_name(" cartesian_point ('',(0.,0.,0.))"), "CARTESIAN_POINT");
    assert_eq!(extract_first_quoted_string("PRODUCT('Part A','x')"), Some(String::from("Part A")));
    assert_eq!(extract_first_quoted_string("PRODUCT(#1)"), None);
    assert_eq!(parse_entity_refs("ADVANCED_FACE('',(#5),#6,.T.)"), Some(vec![5, 6]));
    assert_eq!(parse_entity_refs("CARTESIAN_POINT('',(0.,0.,0.))"), None);
    assert_eq!(parse_int_list("(3,1, 3)"), vec![3, 1, 3]);
    assert_eq!(tokenize_step_args("'',#1,(1.,2.),.T."), vec!["''", "#1", "(1.,2.)", ".T."]);
}

#[test]
fn step_labels() {
    assert_eq!(GdtCharacteristic::Flatness.step_entity_name(), "FLATNESS_TOLERANCE");
    assert_eq!(MaterialCondition::Mmc.step_label(), ".MAXIMUM_MATERIAL_CONDITION.");
    assert_eq!(DimensionType::Linear.step_label(), "linear");
}

#[test]
fn step_id_alloc_counts_up() {
    let mut ids = IdAlloc::new(10);
    assert_eq!(ids.next(), 10);
    assert_eq!(ids.next(), 11);
    assert_eq!(ids.0, 12);
}

#[test]
fn step_product_name_first_written_wins() {
    let text = "ISO-10303-21;\nDATA;\n#80=PRODUCT('A','A','',(#81));\n#81=PRODUCT_CONTEXT('',#1,'mechanical');\n#90=PRODUCT('B','B','',(#81));\nENDSEC;\n";
    for _ in 0..20 {
        let m = build_entity_map(text);
        assert_eq!(extract_product_name(&m), "A");
    }
    let st = read_step_structure(text).unwrap();
    assert_eq!(st.part_name, "A");
}
