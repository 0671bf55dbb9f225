use physical::bgcode::text_to_bgcode;

#[test]
fn magic_header() {
    let bgcode = text_to_bgcode("G28\nG1 X10 Y10 F1000\n");
    assert!(bgcode.starts_with(b"BGCODE"));
}

#[test]
fn compressed_smaller() {
    let gcode = "G1 X10.000 Y10.000 Z0.200 E0.500 F1500\n".repeat(1000);
    let bgcode = text_to_bgcode(&gcode);
    assert!(
        bgcode.len() < gcode.len(),
        "bgcode ({}) should be smaller than gcode ({})",
        bgcode.len(),
        gcode.len()
    );
}

#[test]
fn bgcode_header_and_metadata_block() {
    let bgcode = text_to_bgcode("G28\n");
    assert_eq!(&bgcode[0..6], b"BGCODE");
    // version 1, little-endian
    assert_eq!(&bgcode[6..10], &[1, 0, 0, 0]);
    // metadata block: type 0, uncompressed, 20 bytes stored as-is
    let meta = b"Producer=OpenIE CAD\n";
    assert_eq!(&bgcode[10..12], &[0, 0]);
    assert_eq!(&bgcode[12..14], &[0, 0]);
    assert_eq!(&bgcode[14..18], &(meta.len() as u32).to_le_bytes());
    assert_eq!(&bgcode[18..22], &(meta.len() as u32).to_le_bytes());
    assert_eq!(&bgcode[22..22 + meta.len()], meta);
    // G-code block: type 1, deflate, original size 4
    let g = 22 + meta.len();
    assert_eq!(&bgcode[g..g + 2], &[1, 0]);
    assert_eq!(&bgcode[g + 2..g + 4], &[1, 0]);
    assert_eq!(&bgcode[g + 4..g + 8], &4u32.to_le_bytes());
    let stored = u32::from_le_bytes([bgcode[g + 8], bgcode[g + 9], bgcode[g + 10], bgcode[g + 11]]) as usize;
    assert_eq!(bgcode.len(), g + 12 + stored);
}

#[test]
fn bgcode_deflated_payload_differs_from_text() {
    // The compressed payload is not the raw text: the wrapper really encodes.
    let gcode = "G1 X1 Y1\n".repeat(200);
    let bgcode = text_to_bgcode(&gcode);
    let hay = bgcode.windows(gcode.len()).any(|w| w == gcode.as_bytes());
    assert!(!hay);
}

#[test]
fn produces_valid_zip() {
    let ufp = physical::ufp::text_to_ufp("G28\nG1 X10 Y10\n").unwrap();
    let cursor = std::io::Cursor::new(&ufp);
    let mut archive = zip::ZipArchive::new(cursor).expect("valid ZIP");
    assert!(archive.by_name("/3D/model.gcode").is_ok());
}

#[test]
fn contains_gcode() {
    let ufp = physical::ufp::text_to_ufp("G28\nG1 X10 Y10\n").unwrap();
    let cursor = std::io::Cursor::new(&ufp);
    let mut archive = zip::ZipArchive::new(cursor).unwrap();
    let mut gcode_file = archive.by_name("/3D/model.gcode").unwrap();
    let mut contents = String::new();
    std::io::Read::read_to_string(&mut gcode_file, &mut contents).unwrap();
    assert!(contents.contains("G28"));
    assert!(contents.contains("G1 X10"));
}

#[test]
fn ufp_metadata_entry() {
    let ufp = physical::ufp::text_to_ufp("G28\n").unwrap();
    let mut archive = zip::ZipArchive::new(std::io::Cursor::new(&ufp)).unwrap();
    assert_eq!(archive.len(), 2);
    let mut meta = archive.by_name("/Metadata/UFP_Global.json").unwrap();
    let mut contents = String::new();
    std::io::Read::read_to_string(&mut meta, &mut contents).unwrap();
    assert_eq!(contents, r#"{"application":"OpenIE CAD","version":"0.1.0"}"#);
}

#[test]
fn ufp_layout_headers_and_end_record() {
    let gcode = "G28\nG1 X10 Y10\n";
    let b = physical::ufp::text_to_ufp(gcode).unwrap();
    let le16 = |i: usize| b[i] as usize | (b[i + 1] as usize) << 8;
    let le32 = |i: usize| le16(i) | le16(i + 2) << 16;
    let n = b.len();
    assert_eq!(&b[n - 22..n - 18], &[0x50, 0x4b, 0x05, 0x06]);
    assert_eq!(le16(n - 14), 2);
    assert_eq!(le16(n - 12), 2);
    assert_eq!(le16(n - 2), 0);
    let meta = r#"{"application":"OpenIE CAD","version":"0.1.0"}"#;
    let files: [(&str, &[u8]); 2] = [("/3D/model.gcode", gcode.as_bytes()), ("/Metadata/UFP_Global.json", meta.as_bytes())];
    let mut at = 0;
    for (name, data) in files {
        assert_eq!(&b[at..at + 4], &[0x50, 0x4b, 0x03, 0x04]);
        assert_eq!(le16(at + 8), 8);
        assert_eq!(le32(at + 14) as u32, physical::threemf::crc32(data));
        assert_eq!(le32(at + 22), data.len());
        assert_eq!(le16(at + 26), name.len());
        assert_eq!(&b[at + 30..at + 30 + name.len()], name.as_bytes());
        at += 30 + name.len() + le16(at + 28) + le32(at + 18);
    }
}
