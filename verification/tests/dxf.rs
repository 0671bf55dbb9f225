use physical::dxf::{read_dxf_contour_texts, w, write_dxf, write_header};

/// Renders contours as the writer's callers do: each coordinate with six
/// decimals.
fn texts(contours: &[Vec<[f64; 2]>]) -> Vec<Vec<(String, String)>> {
    contours
        .iter()
        .map(|c| c.iter().map(|p| (format!("{:.6}", p[0]), format!("{:.6}", p[1]))).collect())
        .collect()
}

/// Reads contours back, parsing each value as the reader's callers do.
fn read(dxf: &str) -> Vec<Vec<[f64; 2]>> {
    read_dxf_contour_texts(dxf)
        .into_iter()
        .map(|c| {
            c.into_iter()
                .map(|(x, y)| {
                    let px = x.and_then(|s| s.parse::<f64>().ok()).unwrap_or(0.0);
                    let py = y.and_then(|s| s.parse::<f64>().ok()).unwrap_or(0.0);
                    [px, py]
                })
                .collect()
        })
        .collect()
}

#[test]
fn write_single_contour() {
    let contours = vec![vec![[0.0, 0.0], [10.0, 0.0], [10.0, 10.0], [0.0, 10.0]]];
    let dxf = write_dxf(&texts(&contours));
    assert!(dxf.contains("AC1009"), "should contain ACADVER");
    assert!(dxf.contains("POLYLINE"), "should contain POLYLINE");
    assert!(dxf.contains("VERTEX"), "should contain VERTEX");
    assert!(dxf.contains("SEQEND"), "should contain SEQEND");
    assert!(dxf.contains("EOF"), "should end with EOF");
}

#[test]
fn write_multiple_contours() {
    let contours = vec![
        vec![[0.0, 0.0], [10.0, 0.0], [10.0, 10.0]],
        vec![[20.0, 20.0], [30.0, 20.0], [30.0, 30.0]],
    ];
    let dxf = write_dxf(&texts(&contours));
    let polyline_count = dxf.matches("POLYLINE").count();
    assert_eq!(polyline_count, 2, "should have 2 POLYLINE entities");
    let seqend_count = dxf.matches("SEQEND").count();
    assert_eq!(seqend_count, 2, "should have 2 SEQEND markers");
}

#[test]
fn write_empty_contours() {
    let contours: Vec<Vec<[f64; 2]>> = vec![];
    let dxf = write_dxf(&texts(&contours));
    assert!(dxf.contains("EOF"));
    assert!(!dxf.contains("POLYLINE"));
}

#[test]
fn roundtrip_contours() {
    let original = vec![vec![[0.0, 0.0], [10.0, 0.0], [10.0, 10.0], [0.0, 10.0]]];
    let dxf = write_dxf(&texts(&original));
    let parsed = read(&dxf);
    assert_eq!(parsed.len(), 1, "should parse 1 contour");
    assert_eq!(parsed[0].len(), 4, "contour should have 4 vertices");
    for (orig, rd) in original[0].iter().zip(parsed[0].iter()) {
        assert!((orig[0] - rd[0]).abs() < 1e-4, "x mismatch");
        assert!((orig[1] - rd[1]).abs() < 1e-4, "y mismatch");
    }
}

#[test]
fn write_dxf_coordinates() {
    let contours = vec![vec![[1.5, 2.5], [3.5, 4.5]]];
    let dxf = write_dxf(&texts(&contours));
    assert!(dxf.contains("1.500000"), "x coordinate should be written");
    assert!(dxf.contains("2.500000"), "y coordinate should be written");
}

#[test]
fn dxf_empty_contour_is_skipped() {
    let dxf = write_dxf(&vec![vec![], vec![(String::from("1"), String::from("2"))]]);
    assert_eq!(dxf.matches("POLYLINE").count(), 1);
    let header = "  0\nSECTION\n  2\nHEADER\n  9\n$ACADVER\n  1\nAC1009\n  0\nENDSEC\n";
    assert!(dxf.starts_with(header));
    assert!(dxf.ends_with("  0\nENDSEC\n  0\nEOF\n"));
}

#[test]
fn dxf_line_writer_and_header() {
    let mut out = String::new();
    w(&mut out, "  0");
    assert_eq!(out, "  0\n");
    let mut h = String::new();
    write_header(&mut h);
    assert_eq!(h.lines().count(), 10);
}

#[test]
fn dxf_reader_last_value_wins_and_missing_values() {
    let text = "0\nPOLYLINE\n0\nVERTEX\n10\n1.0\n10\n2.0\n0\nVERTEX\n20\n5\n0\nSEQEND\n";
    let c = read_dxf_contour_texts(text);
    assert_eq!(c.len(), 1);
    assert_eq!(c[0][0], (Some(String::from("2.0")), None));
    assert_eq!(c[0][1], (None, Some(String::from("5"))));
}

#[test]
fn dxf_reader_handles_crlf_and_odd_tail() {
    let text = "  0\r\nPOLYLINE\r\n  0\r\nVERTEX\r\n 10\r\n3\r\n";
    let c = read_dxf_contour_texts(text);
    assert_eq!(c, vec![vec![(Some(String::from("3")), None)]]);
    assert!(read_dxf_contour_texts("").is_empty());
}
