use physical::gltf::{
    align4, assemble_glb, build_bin_buffer, decode_glb_mesh, glb_chunks, GlbAccessor, GlbBufferView, GlbDocument,
};

fn bits(v: [f32; 6]) -> [u32; 6] {
    [v[0].to_bits(), v[1].to_bits(), v[2].to_bits(), v[3].to_bits(), v[4].to_bits(), v[5].to_bits()]
}

#[test]
fn glb_align4_values() {
    assert_eq!(align4(0), 0);
    assert_eq!(align4(1), 4);
    assert_eq!(align4(4), 4);
    assert_eq!(align4(5), 8);
}

#[test]
fn glb_container_layout() {
    let json = b"{\"a\":1}";
    let bin = [1u8, 2, 3, 4, 5];
    let glb = assemble_glb(json, &bin);
    assert_eq!(&glb[0..4], b"glTF");
    assert_eq!(&glb[4..8], &2u32.to_le_bytes());
    assert_eq!(&glb[8..12], &(glb.len() as u32).to_le_bytes());
    assert_eq!(glb.len() % 4, 0);
    // JSON padded with spaces to 8, binary with zeros to 8
    assert_eq!(&glb[12..16], &8u32.to_le_bytes());
    assert_eq!(&glb[20..28], b"{\"a\":1} ");
    let (js, jl, bs, bl) = glb_chunks(&glb).unwrap();
    assert_eq!((js, jl, bs, bl), (20, 8, 36, 8));
    assert_eq!(&glb[bs..bs + 5], &bin);
    assert_eq!(&glb[bs + 5..bs + 8], &[0, 0, 0]);
}

#[test]
fn glb_chunks_rejects_bad_data() {
    assert!(glb_chunks(b"").is_none());
    assert!(glb_chunks(b"not a glb file at all").is_none());
    let mut glb = assemble_glb(b"{}", &[]);
    glb[0] = b'x';
    assert!(glb_chunks(&glb).is_none());
}

#[test]
fn glb_buffer_roundtrip() {
    let verts = vec![
        bits([0.0, 0.0, 0.0, 0.0, 0.0, 1.0]),
        bits([1.0, 0.0, 0.0, 0.0, 0.0, 1.0]),
        bits([0.0, 1.0, 0.0, 0.0, 0.0, 1.0]),
    ];
    let indices = vec![0u32, 1, 2];
    let bin = build_bin_buffer(&verts, &indices);
    assert_eq!(bin.len(), 3 * 24 + 3 * 4);
    let doc = GlbDocument {
        meshes: vec![vec![(0, 1, 2)]],
        accessors: vec![
            GlbAccessor { buffer_view: 0, byte_offset: 0, count: 3 },
            GlbAccessor { buffer_view: 0, byte_offset: 12, count: 3 },
            GlbAccessor { buffer_view: 1, byte_offset: 0, count: 3 },
        ],
        buffer_views: vec![
            GlbBufferView { byte_offset: 0, byte_stride: Some(24) },
            GlbBufferView { byte_offset: 72, byte_stride: None },
        ],
    };
    let m = decode_glb_mesh(&doc, &bin).unwrap();
    assert_eq!(m.vertices, verts);
    assert_eq!(m.indices, indices);
    let short = &bin[..bin.len() - 1];
    assert!(decode_glb_mesh(&doc, short).is_none());
    let empty = GlbDocument { meshes: vec![], accessors: vec![], buffer_views: vec![] };
    assert!(decode_glb_mesh(&empty, &bin).is_none());
}

#[test]
fn invalid_data_returns_none() {
    assert!(glb_chunks(&[]).is_none());
    assert!(glb_chunks(&[0u8; 12]).is_none());
    assert!(glb_chunks(b"not a glb file at all").is_none());
}
