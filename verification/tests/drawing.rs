use physical::drawing::{pdf_document, pdf_escape, TitleBlock};

#[test]
fn title_block() {
    let tb = TitleBlock::new("Widget", "W-100");
    assert_eq!(tb.title, "Widget");
    assert_eq!(tb.revision, "A");
}

#[test]
fn title_block_defaults() {
    let tb = TitleBlock::new("Bracket", "BR-100");
    assert_eq!(tb.part_number, "BR-100");
    assert_eq!(tb.scale, "1:1");
    assert_eq!(tb.material, "");
    assert_eq!(tb.drawn_by, "");
    assert_eq!(tb.date, "");
}

#[test]
fn pdf_escape_parens_and_backslash() {
    assert_eq!(pdf_escape("a(b)c\\d"), "a\\(b\\)c\\\\d");
    assert_eq!(pdf_escape("plain"), "plain");
}

#[test]
fn pdf_document_layout_and_xref_offsets() {
    let objects = vec![
        String::from("1 0 obj\n<< /Type /Catalog /Pages 2 0 R >>\nendobj\n"),
        String::from("2 0 obj\n<< /Type /Pages /Kids [] /Count 0 >>\nendobj\n"),
    ];
    let pdf = pdf_document(&objects);
    assert!(pdf.starts_with(b"%PDF-1.4\n%\xE2\xE3\xCF\xD3\n"));
    let text = String::from_utf8_lossy(&pdf).to_string();
    assert!(text.contains("xref\n0 3\n0000000000 65535 f \n"));
    assert!(text.contains("trailer\n<< /Size 3 /Root 1 0 R >>\nstartxref\n"));
    assert!(text.ends_with("%%EOF\n"));
    // Each xref entry points at its object.
    let first = 15;
    let second = first + objects[0].len();
    assert_eq!(&pdf[first..first + 7], b"1 0 obj");
    assert_eq!(&pdf[second..second + 7], b"2 0 obj");
    assert!(text.contains(&format!("{:010} 00000 n \n", first)));
    assert!(text.contains(&format!("{:010} 00000 n \n", second)));
    let xref_at = 15 + objects[0].len() + objects[1].len();
    assert!(text.contains(&format!("startxref\n{}\n", xref_at)));
}
