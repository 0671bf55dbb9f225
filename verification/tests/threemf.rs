use physical::threemf::{crc32, model_xml, write_3mf, write_zip, xml_escape};

fn fmt6(v: f32) -> String {
    format!("{:.6}", v)
}

/// The vertices of the single-triangle test mesh, rendered as the writer
/// renders them, and its indices.
fn test_mesh() -> (Vec<(String, String, String)>, Vec<u32>) {
    let pos: [[f32; 3]; 3] = [[0.0, 0.0, 0.0], [10.0, 0.0, 0.0], [5.0, 10.0, 0.0]];
    let verts = pos.iter().map(|p| (fmt6(p[0]), fmt6(p[1]), fmt6(p[2]))).collect();
    (verts, vec![0, 1, 2])
}

#[test]
fn write_3mf_produces_valid_zip() {
    let (v, i) = test_mesh();
    let bytes = write_3mf(&v, &i, "test_part");
    assert_eq!(&bytes[0..4], &[0x50, 0x4b, 0x03, 0x04], "should start with ZIP local header signature");
    let eocd_sig = [0x50, 0x4b, 0x05, 0x06];
    assert!(bytes.windows(4).any(|w| w == eocd_sig), "should contain end-of-central-directory record");
}

#[test]
fn write_3mf_contains_required_files() {
    let (v, i) = test_mesh();
    let bytes = write_3mf(&v, &i, "test");
    let content = String::from_utf8_lossy(&bytes);
    assert!(content.contains("[Content_Types].xml"), "should contain Content_Types");
    assert!(content.contains("_rels/.rels"), "should contain rels");
    assert!(content.contains("3D/3dmodel.model"), "should contain model");
}

#[test]
fn model_xml_contains_vertices_and_triangles() {
    let (v, i) = test_mesh();
    let xml = model_xml(&v, &i, "part");
    assert!(xml.contains("<vertex"), "should contain vertex elements");
    assert!(xml.contains("<triangle"), "should contain triangle elements");
    assert!(xml.contains("unit=\"millimeter\""), "should specify millimeter units");
}

#[test]
fn model_xml_vertex_count() {
    let (v, i) = test_mesh();
    let xml = model_xml(&v, &i, "part");
    let vertex_count = xml.matches("<vertex x=").count();
    assert_eq!(vertex_count, 3, "triangle mesh should have 3 vertices");
    let tri_count = xml.matches("<triangle v1=").count();
    assert_eq!(tri_count, 1, "should have 1 triangle");
}

#[test]
fn crc32_known_values() {
    assert_eq!(crc32(b""), 0x0000_0000);
    assert_eq!(crc32(b"123456789"), 0xCBF4_3926);
}

#[test]
fn xml_escape_special_chars() {
    assert_eq!(xml_escape("a<b>c&d\"e"), "a&lt;b&gt;c&amp;d&quot;e");
}

#[test]
fn write_3mf_name_escaping() {
    let (v, i) = test_mesh();
    let xml = model_xml(&v, &i, "part<1>");
    assert!(xml.contains("part&lt;1&gt;"), "name should be XML-escaped");
}

#[test]
fn write_3mf_nonzero_size() {
    let (v, i) = test_mesh();
    let bytes = write_3mf(&v, &i, "part");
    assert!(bytes.len() > 100, "3MF should be non-trivial in size");
}

#[test]
fn zip_has_three_entries() {
    let (v, i) = test_mesh();
    let bytes = write_3mf(&v, &i, "part");
    let eocd_sig = [0x50_u8, 0x4b, 0x05, 0x06];
    let eocd_pos = bytes.windows(4).position(|w| w == eocd_sig).unwrap();
    let total_entries = u16::from_le_bytes([bytes[eocd_pos + 10], bytes[eocd_pos + 11]]);
    assert_eq!(total_entries, 3, "ZIP should contain 3 files");
}

#[test]
fn model_xml_vertex_and_triangle_lines() {
    let (v, i) = test_mesh();
    let xml = model_xml(&v, &i, "part");
    assert!(xml.contains("          <vertex x=\"5.000000\" y=\"10.000000\" z=\"0.000000\" />\n"));
    assert!(xml.contains("          <triangle v1=\"0\" v2=\"1\" v3=\"2\" />\n"));
    // Trailing indices that do not make a whole triangle are ignored.
    let xml2 = model_xml(&v, &vec![0, 1, 2, 0], "part");
    assert_eq!(xml2.matches("<triangle v1=").count(), 1);
}

#[test]
fn zip_stores_files_with_crc() {
    let data: &[u8] = b"hello zip";
    let bytes = write_zip(&[("a.txt", data)]);
    // local header: signature, version 20, flags 0, method 0 (stored)
    assert_eq!(&bytes[0..4], &[0x50, 0x4b, 0x03, 0x04]);
    assert_eq!(&bytes[8..10], &[0, 0]);
    assert_eq!(&bytes[14..18], &crc32(data).to_le_bytes());
    assert_eq!(&bytes[18..22], &(data.len() as u32).to_le_bytes());
    assert_eq!(&bytes[22..26], &(data.len() as u32).to_le_bytes());
    assert_eq!(&bytes[26..28], &5u16.to_le_bytes());
    assert_eq!(&bytes[30..35], b"a.txt");
    assert_eq!(&bytes[35..44], data);
    let n = bytes.len();
    // end of central directory: one entry, offset of the central directory = 44
    assert_eq!(&bytes[n - 22..n - 18], &[0x50, 0x4b, 0x05, 0x06]);
    assert_eq!(&bytes[n - 12..n - 10], &1u16.to_le_bytes());
    assert_eq!(&bytes[n - 6..n - 2], &44u32.to_le_bytes());
}

/// Walks the local entries of a stored archive from the start.
fn read_stored(b: &[u8]) -> Vec<(Vec<u8>, Vec<u8>)> {
    let le16 = |i: usize| b[i] as usize | (b[i + 1] as usize) << 8;
    let le32 = |i: usize| le16(i) | le16(i + 2) << 16;
    let mut out = Vec::new();
    let mut p = 0;
    while p + 30 <= b.len() && le32(p) == 0x04034b50 {
        let size = le32(p + 18);
        let nl = le16(p + 26);
        assert_eq!(le32(p + 14) as u32, crc32(&b[p + 30 + nl..p + 30 + nl + size]));
        out.push((b[p + 30..p + 30 + nl].to_vec(), b[p + 30 + nl..p + 30 + nl + size].to_vec()));
        p += 30 + nl + size;
    }
    out
}

#[test]
fn stored_zip_reads_back_its_files() {
    let files: Vec<(&str, &[u8])> = vec![("a.txt", b"hello"), ("dir/b.bin", b""), ("c", &[0u8, 1, 2, 255])];
    let z = write_zip(&files);
    let back = read_stored(&z);
    assert_eq!(back.len(), 3);
    for (k, (name, data)) in files.iter().enumerate() {
        assert_eq!(back[k].0, name.as_bytes());
        assert_eq!(back[k].1, data.to_vec());
    }
    assert!(read_stored(&write_zip(&[])).is_empty());
    let n = z.len();
    let le16 = |i: usize| z[i] as usize | (z[i + 1] as usize) << 8;
    let le32 = |i: usize| le16(i) | le16(i + 2) << 16;
    assert_eq!(&z[n - 22..n - 18], &[0x50, 0x4b, 0x05, 0x06]);
    assert_eq!(le16(n - 12), 3);
    let (cd_size, cd_offset) = (le32(n - 10), le32(n - 6));
    assert_eq!(cd_offset + cd_size, n - 22);
    assert_eq!(&z[cd_offset..cd_offset + 4], &[0x50, 0x4b, 0x01, 0x02]);
}
