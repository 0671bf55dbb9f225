use physical::gerber::{
    aperture_def_fields, coordinate_texts, extract_d_code, gerber_initial_state, gerber_line_step, shape_letter,
    shape_of_letter, write_gerber_text, ApertureShape, ApertureText, GerberAction, GerberUnit, Interpolation,
    Polarity,
};

fn sample_gerber() -> &'static str {
    "G04 Test*\n%MOMM*%\n%FSLAX24Y24*%\n%ADD10C,0.1*%\nD10*\nX10000Y20000D02*\nX30000Y20000D01*\nX30000Y40000D01*\nX20000Y30000D03*\nM02*\n"
}

/// The actions of the reader on each line, and the final state's unit.
fn actions(text: &str) -> (Vec<(GerberAction, String)>, GerberUnit) {
    let mut st = gerber_initial_state();
    let mut out = Vec::new();
    for raw in text.lines() {
        let (next, action) = gerber_line_step(st, raw);
        out.push((action, raw.trim().to_string()));
        st = next;
    }
    (out, st.unit)
}

#[test]
fn parse_basic_gerber() {
    let (acts, _) = actions(sample_gerber());
    assert!(acts.iter().any(|(a, _)| *a == GerberAction::Draw));
    assert!(acts.iter().any(|(a, _)| *a == GerberAction::Flash));
}

#[test]
fn parse_aperture() {
    let aps: Vec<_> = sample_gerber().lines().filter_map(aperture_def_fields).collect();
    assert_eq!(aps.len(), 1);
    assert_eq!(aps[0].0, 10);
    assert_eq!(aps[0].1, ApertureShape::Circle);
    assert_eq!(aps[0].2, vec!["0.1".to_string()]);
}

#[test]
fn parse_traces() {
    let (acts, _) = actions(sample_gerber());
    assert_eq!(acts.iter().filter(|(a, _)| *a == GerberAction::Draw).count(), 2);
}

#[test]
fn parse_flashes() {
    let (acts, _) = actions(sample_gerber());
    let flashes: Vec<_> = acts.iter().filter(|(a, _)| *a == GerberAction::Flash).collect();
    assert_eq!(flashes.len(), 1);
    let (x, _) = coordinate_texts(&flashes[0].1);
    assert!((x.unwrap().parse::<f64>().unwrap() / 10000.0 - 2.0).abs() < 0.01);
}

#[test]
fn unit_detection() {
    let (_, unit) = actions(sample_gerber());
    assert_eq!(unit, GerberUnit::Millimeter);
}

#[test]
fn empty_gerber() {
    let (acts, _) = actions("G04 empty*\nM02*\n");
    assert!(acts.iter().all(|(a, _)| *a == GerberAction::Nothing));
}

#[test]
fn write_gerber_roundtrip() {
    let aps = vec![ApertureText { code: 10, shape: ApertureShape::Circle, params: vec!["0.1".to_string()] }];
    let text = write_gerber_text(&aps, &vec![(10000, 20000, 30000, 20000)], &vec![(20000, 30000)]);
    assert!(text.contains("D01"));
    assert!(text.contains("D03"));
    assert!(text.contains("M02"));
    assert_eq!(
        text,
        "G04 Generated by OpenIE*\n%MOMM*%\n%FSLAX24Y24*%\n%ADD10C,0.1*%\nD10*\nX10000Y20000D02*\nX30000Y20000D01*\nX20000Y30000D03*\nM02*\n"
    );
    let back: Vec<_> = text.lines().filter_map(aperture_def_fields).collect();
    assert_eq!(back, vec![(10, ApertureShape::Circle, vec!["0.1".to_string()])]);
}

#[test]
fn gerber_writer_without_apertures_selects_d10() {
    let text = write_gerber_text(&vec![], &vec![], &vec![(-5, 7)]);
    assert!(text.contains("D10*\nX-5Y7D03*\n"));
    assert_eq!(write_gerber_text(&vec![], &vec![], &vec![]), "G04 Generated by OpenIE*\n%MOMM*%\n%FSLAX24Y24*%\nM02*\n");
}

#[test]
fn aperture_definition_edge_cases() {
    let r = aperture_def_fields("%ADD11R,1.5X0.8*%").unwrap();
    assert_eq!(r, (11, ApertureShape::Rectangle, vec!["1.5".to_string(), "0.8".to_string()]));
    assert!(aperture_def_fields("%ADD12Q,1*%").is_none());
    assert!(aperture_def_fields("%ADDC,1*%").is_none());
    assert!(aperture_def_fields("%ADD99999999999C,1*%").is_none());
    assert!(aperture_def_fields("%ADD13C").is_none());
    assert_eq!(coordinate_texts("X-120Y+45D01*"), (Some("-120".to_string()), Some("+45".to_string())));
    assert_eq!(coordinate_texts("D10*"), (None, None));
}

#[test]
fn gerber_d_codes() {
    assert_eq!(extract_d_code("D10*"), Some(10));
    assert_eq!(extract_d_code("X100Y200D01*"), None);
    assert_eq!(extract_d_code("G54D11*"), Some(11));
    assert_eq!(extract_d_code("%ADD12C,0.1*%"), Some(12));
    assert_eq!(extract_d_code("no code"), None);
    assert_eq!(extract_d_code("D99999999999*"), None);
}

#[test]
fn gerber_modes_and_actions() {
    let s0 = gerber_initial_state();
    assert_eq!(s0.unit, GerberUnit::Millimeter);
    assert_eq!(s0.aperture, 10);
    let (s1, a1) = gerber_line_step(s0, "%MOIN*%");
    assert_eq!(s1.unit, GerberUnit::Inch);
    assert_eq!(a1, GerberAction::Nothing);
    let (s2, _) = gerber_line_step(s1, "%FSLAX36Y36*%");
    assert_eq!((s2.format_int, s2.format_dec), (3, 6));
    let (s3, _) = gerber_line_step(s2, "%LPC*%");
    assert_eq!(s3.polarity, Polarity::Clear);
    let (s4, a4) = gerber_line_step(s3, "G02X100Y100D01*");
    assert_eq!(s4.interpolation, Interpolation::ClockwiseArc);
    assert_eq!(a4, GerberAction::Draw);
    let (s5, a5) = gerber_line_step(s4, "  D12*  ");
    assert_eq!(s5.aperture, 12);
    assert_eq!(a5, GerberAction::Nothing);
    let (_, a6) = gerber_line_step(s5, "X0Y0D02*");
    assert_eq!(a6, GerberAction::Move);
    let (_, a7) = gerber_line_step(s5, "X5Y5D03*");
    assert_eq!(a7, GerberAction::Flash);
    let (s8, a8) = gerber_line_step(s5, "   ");
    assert_eq!(s8, s5);
    assert_eq!(a8, GerberAction::Nothing);
}

#[test]
fn gerber_shape_letters() {
    for s in [ApertureShape::Circle, ApertureShape::Rectangle, ApertureShape::Obround, ApertureShape::Polygon] {
        assert_eq!(shape_of_letter(shape_letter(s)), Some(s));
    }
    assert_eq!(shape_of_letter('X'), None);
}

#[test]
fn written_aperture_lines_read_back() {
    let aps = vec![
        ApertureText { code: 10, shape: ApertureShape::Circle, params: vec!["0.1".to_string()] },
        ApertureText {
            code: 4294967295,
            shape: ApertureShape::Obround,
            params: vec!["".to_string(), "0.5".to_string(), "-3e2".to_string()],
        },
    ];
    let text = write_gerber_text(&aps, &vec![], &vec![]);
    let defs: Vec<(u32, ApertureShape, Vec<String>)> = text
        .lines()
        .map(|l| l.trim())
        .filter(|l| l.starts_with("%ADD"))
        .map(|l| aperture_def_fields(l).unwrap())
        .collect();
    assert_eq!(defs.len(), 2);
    assert_eq!(defs[0], (10, ApertureShape::Circle, vec!["0.1".to_string()]));
    assert_eq!(defs[1], (4294967295, ApertureShape::Obround, vec!["".to_string(), "0.5".to_string(), "-3e2".to_string()]));
}

#[test]
fn written_coordinates_read_back() {
    let text = write_gerber_text(&vec![], &vec![(-12, 0, 340, -5)], &vec![(7, 9223372036854775807)]);
    let mut st = gerber_initial_state();
    let mut seen = Vec::new();
    for line in text.lines() {
        let (ns, action) = gerber_line_step(st, line);
        st = ns;
        if action != GerberAction::Nothing {
            let (x, y) = coordinate_texts(line);
            seen.push((action, x.unwrap(), y.unwrap()));
        }
    }
    assert_eq!(
        seen,
        vec![
            (GerberAction::Move, "-12".to_string(), "0".to_string()),
            (GerberAction::Draw, "340".to_string(), "-5".to_string()),
            (GerberAction::Flash, "7".to_string(), "9223372036854775807".to_string()),
        ]
    );
}
