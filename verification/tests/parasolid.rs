use physical::parasolid::{read_xt_text, write_xt_text, xt_kind_record, XtKind, XtSurfaceText, XtText};

fn c(x: &str, y: &str, z: &str) -> (String, String, String) {
    (x.to_string(), y.to_string(), z.to_string())
}

/// The records whose numbers all parse, with the numbers as floats.
fn entities(t: &XtText) -> Vec<(u32, XtKind, Vec<f64>)> {
    t.records
        .iter()
        .filter_map(|r| {
            let v: Option<Vec<f64>> = r.numbers.iter().map(|w| w.parse::<f64>().ok()).collect();
            v.map(|v| (r.id, r.kind, v))
        })
        .collect()
}

fn box_points(x: &str, y: &str, z: &str) -> Vec<(String, String, String)> {
    let mut pts = Vec::new();
    for (a, b, cc) in [
        ("0", "0", "0"),
        (x, "0", "0"),
        (x, y, "0"),
        ("0", y, "0"),
        ("0", "0", z),
        (x, "0", z),
        (x, y, z),
        ("0", y, z),
    ] {
        pts.push(c(a, b, cc));
    }
    pts
}

fn box_planes() -> Vec<XtSurfaceText> {
    [("0", "0", "-1"), ("0", "0", "1"), ("0", "-1", "0"), ("0", "1", "0"), ("-1", "0", "0"), ("1", "0", "0")]
        .iter()
        .map(|(a, b, cc)| XtSurfaceText::Plane { normal: c(a, b, cc) })
        .collect()
}

#[test]
fn parse_empty_xt() {
    let model = read_xt_text("");
    assert!(entities(&model).is_empty());
}

#[test]
fn parse_xt_with_points() {
    let model = read_xt_text("1 point 10.0 20.0 30.0\n2 point 40.0 50.0 60.0\n");
    let e = entities(&model);
    assert_eq!(e.len(), 2);
    assert_eq!(e[0].1, XtKind::Point);
    assert!((e[0].2[0] - 10.0).abs() < 0.01);
    assert!((e[0].2[1] - 20.0).abs() < 0.01);
}

#[test]
fn parse_xt_with_plane() {
    let model = read_xt_text("1 plane 0 0 0 0 0 1\n");
    let e = entities(&model);
    assert_eq!(e.len(), 1);
    assert_eq!(e[0].1, XtKind::Plane);
    assert!((e[0].2[5] - 1.0).abs() < 0.01);
}

#[test]
fn parse_xt_with_cylinder() {
    let model = read_xt_text("1 cylinder 0 0 0 0 0 1 5.0\n");
    let e = entities(&model);
    assert_eq!(e[0].1, XtKind::Cylinder);
    assert!((e[0].2[6] - 5.0).abs() < 0.01);
}

#[test]
fn parse_xt_with_sphere() {
    let model = read_xt_text("1 sphere 10 20 30 15.0\n");
    let e = entities(&model);
    assert_eq!(e[0].1, XtKind::Sphere);
    assert!((e[0].2[0] - 10.0).abs() < 0.01);
    assert!((e[0].2[3] - 15.0).abs() < 0.01);
}

#[test]
fn schema_version_parsed() {
    let model = read_xt_text("**PART\n**SCH 30.0\n1 point 0 0 0\n**END\n");
    assert!(!model.schema_version.is_empty() || entities(&model).len() == 1);
}

#[test]
fn write_xt_box() {
    let xt = write_xt_text("test_box", &box_points("10", "20", "30"), &box_planes());
    assert!(xt.contains("**PART"));
    assert!(xt.contains("point") || xt.contains("plane"));
    assert!(xt.contains("**END"));
}

#[test]
fn write_xt_contains_surfaces() {
    let xt = write_xt_text("cube", &box_points("10", "10", "10"), &box_planes());
    assert!(xt.contains("plane"), "box should have plane surfaces");
}

#[test]
fn roundtrip_write_read() {
    let xt = write_xt_text("roundtrip", &box_points("20", "15", "10"), &box_planes());
    let model = read_xt_text(&xt);
    assert!(!entities(&model).is_empty());
}

#[test]
fn written_text_is_numbered_on() {
    let surfaces = vec![
        XtSurfaceText::Sphere { center: c("1", "2", "3"), radius: "4".to_string() },
        XtSurfaceText::Nurbs,
    ];
    let xt = write_xt_text("m", &vec![c("0.5", "0", "-1")], &surfaces);
    assert_eq!(
        xt,
        "**PART\n** m - Parasolid XT generated by OpenIE\n**SCH 30.0\n**HEADER\n1 point 0.5 0 -1\n2 sphere 1 2 3 4\n3 bsurface\n**END\n"
    );
}

#[test]
fn written_entities_read_back() {
    let surfaces = vec![
        XtSurfaceText::Cylinder { origin: c("0", "0", "0"), axis: c("0", "0", "1"), radius: "5".to_string() },
        XtSurfaceText::Torus {
            center: c("0", "0", "0"),
            axis: c("0", "0", "1"),
            major_radius: "3".to_string(),
            minor_radius: "1".to_string(),
        },
    ];
    let xt = write_xt_text("m", &vec![c("1", "2", "3")], &surfaces);
    let e = entities(&read_xt_text(&xt));
    assert_eq!(e.len(), 2);
    assert_eq!((e[0].0, e[0].1), (1, XtKind::Point));
    assert_eq!((e[1].0, e[1].1), (2, XtKind::Cylinder));
    assert_eq!(e[1].2, vec![0.0, 0.0, 0.0, 0.0, 0.0, 1.0, 5.0]);
}

#[test]
fn schema_from_part_or_sch_line() {
    assert_eq!(read_xt_text("**PART 12\n").schema_version, "12");
    assert_eq!(read_xt_text("SCH_1 7 x\nSCH 9\n").schema_version, "9");
    assert_eq!(read_xt_text("**PART\n").schema_version, "");
}

#[test]
fn record_needs_words_and_number() {
    let ws = |s: &str| s.split_whitespace().map(|w| w.to_string()).collect::<Vec<String>>();
    assert!(xt_kind_record("1 point 1 2", &ws("1 point 1 2"), XtKind::Point).is_none());
    assert!(xt_kind_record("x point 1 2 3", &ws("x point 1 2 3"), XtKind::Point).is_none());
    assert!(xt_kind_record("4294967296 point 1 2 3", &ws("4294967296 point 1 2 3"), XtKind::Point).is_none());
    let r = xt_kind_record("+7 POINT 1 2 3 9", &ws("+7 POINT 1 2 3 9"), XtKind::Point).unwrap();
    assert_eq!(r.id, 7);
    assert_eq!(r.numbers, vec!["1", "2", "3"]);
    assert!(xt_kind_record("7 POINT 1 2 3", &ws("7 POINT 1 2 3"), XtKind::Plane).is_none());
}
