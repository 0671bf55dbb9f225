use physical::obj::{first_kd_words, write_mtl_text, write_obj_simple_text, write_obj_text, add_face, parse_face_vertex, resolve_index};

#[test]
fn obj_resolve_index_rules() {
    assert_eq!(resolve_index(1, 3), Some(0));
    assert_eq!(resolve_index(3, 3), Some(2));
    assert_eq!(resolve_index(4, 3), None);
    assert_eq!(resolve_index(-1, 3), Some(2));
    assert_eq!(resolve_index(-3, 3), Some(0));
    assert_eq!(resolve_index(-4, 3), None);
    assert_eq!(resolve_index(0, 3), None);
    assert_eq!(resolve_index(i64::MIN, 3), None);
}

#[test]
fn obj_face_vertex_forms() {
    assert_eq!(parse_face_vertex("2", 3, 0, 0), Some((1, None, None)));
    assert_eq!(parse_face_vertex("1/2", 3, 0, 2), Some((0, None, Some(1))));
    assert_eq!(parse_face_vertex("1//3", 3, 3, 0), Some((0, Some(2), None)));
    assert_eq!(parse_face_vertex("1/2/3", 3, 3, 3), Some((0, Some(2), Some(1))));
    assert_eq!(parse_face_vertex("-1/-1/-1", 3, 3, 3), Some((2, Some(2), Some(2))));
    assert_eq!(parse_face_vertex("x", 3, 0, 0), None);
    assert_eq!(parse_face_vertex("1/2/3/4", 3, 3, 3), None);
    assert_eq!(parse_face_vertex("9", 3, 0, 0), None);
    assert_eq!(parse_face_vertex("+2", 3, 0, 0), Some((1, None, None)));
}

#[test]
fn obj_faces_dedup_and_fan() {
    let mut map = Vec::new();
    let mut idx = Vec::new();
    let quad = vec![(0, None, None), (1, None, None), (2, None, None), (3, None, None)];
    add_face(&mut map, &mut idx, &quad);
    assert_eq!(map.len(), 4);
    assert_eq!(idx, vec![0, 1, 2, 0, 2, 3]);
    let tri = vec![(2, None, None), (4, None, None), (0, None, None)];
    add_face(&mut map, &mut idx, &tri);
    assert_eq!(map.len(), 5);
    assert_eq!(&idx[6..], &[2, 4, 0]);
}

fn t3(a: f32, b: f32, c: f32) -> (String, String, String) {
    (format!("{a}"), format!("{b}"), format!("{c}"))
}

/// A unit cube: eight corners, twelve triangles.
fn box_mesh() -> (Vec<(String, String, String)>, Vec<u32>) {
    let mut pos = Vec::new();
    for i in 0..8u32 {
        pos.push(t3((i & 1) as f32, ((i >> 1) & 1) as f32, ((i >> 2) & 1) as f32));
    }
    let idx = vec![0, 2, 1, 1, 2, 3, 4, 5, 6, 5, 7, 6, 0, 1, 4, 1, 5, 4, 2, 6, 3, 3, 6, 7, 0, 4, 2, 2, 4, 6, 1, 3, 5, 3, 7, 5];
    (pos, idx)
}

#[test]
fn write_obj_simple_valid_format() {
    let (pos, idx) = box_mesh();
    let obj = write_obj_simple_text(&pos, &idx);
    assert!(obj.contains("v "));
    assert!(obj.contains("f "));
    assert!(!obj.contains("vn "));
    assert!(!obj.contains("vt "));
}

#[test]
fn face_indices_are_one_based() {
    let pos = vec![t3(0.0, 0.0, 0.0), t3(1.0, 0.0, 0.0), t3(0.0, 1.0, 0.0)];
    let obj = write_obj_simple_text(&pos, &vec![0, 1, 2]);
    assert!(obj.contains("f 1 2 3"));
    assert_eq!(obj, "# physical-emit-obj\nv 0 0 0\nv 1 0 0\nv 0 1 0\nf 1 2 3\n");
}

#[test]
fn write_read_roundtrip_box() {
    let (pos, idx) = box_mesh();
    let nrm = vec![t3(0.0, 0.0, 0.0); 8];
    let uvs = vec![("0".to_string(), "0".to_string()); 8];
    let obj = write_obj_text("box", &pos, &nrm, &uvs, &idx);
    assert_eq!(obj.lines().filter(|l| l.starts_with("v ")).count(), 8);
    let faces: Vec<&str> = obj.lines().filter(|l| l.starts_with("f ")).collect();
    assert_eq!(faces.len(), 12);
    // Every corner reads back as the same position, normal and texture index.
    for f in faces {
        for tok in f.split_whitespace().skip(1) {
            let (p, t, n) = parse_face_vertex(tok, 8, 8, 8).unwrap();
            assert_eq!(Some(p), n);
            assert_eq!(Some(p), t);
        }
    }
}

#[test]
fn empty_mesh_produces_valid_output() {
    let obj = write_obj_text("empty", &vec![], &vec![], &vec![], &vec![]);
    assert!(obj.contains("o empty"));
    assert_eq!(obj, "# physical-emit-obj\no empty\n");
}

#[test]
fn obj_incomplete_triangle_is_not_written() {
    let obj = write_obj_text("t", &vec![], &vec![], &vec![], &vec![0, 1, 2, 3, 4]);
    assert!(obj.ends_with("f 1/1/1 2/2/2 3/3/3\n"));
    assert_eq!(obj.matches("f ").count(), 1);
}

#[test]
fn mtl_roundtrip() {
    let mtl = write_mtl_text("red_plastic", &("0.8".to_string(), "0.1".to_string(), "0.1".to_string()));
    let (r, g, b) = first_kd_words(&mtl).expect("should parse");
    assert!((r.parse::<f64>().unwrap() - 0.8).abs() < 1e-9);
    assert!((g.parse::<f64>().unwrap() - 0.1).abs() < 1e-9);
    assert!((b.parse::<f64>().unwrap() - 0.1).abs() < 1e-9);
    assert!(first_kd_words("Ka 1 2 3\nKd 1 2\n").is_none());
}

#[test]
fn read_obj_negative_indices() {
    let obj = "v 0 0 0\nv 1 0 0\nv 0 1 0\nf -3 -2 -1\n";
    let num_pos = obj.lines().filter(|l| l.starts_with("v ")).count();
    let face = obj.lines().find(|l| l.starts_with("f ")).unwrap();
    let corners: Vec<usize> = face
        .split_whitespace()
        .skip(1)
        .map(|t| parse_face_vertex(t, num_pos, 0, 0).expect("should parse").0)
        .collect();
    assert_eq!(corners.len(), 3);
    assert_eq!(corners, vec![0, 1, 2]);
}

#[test]
fn written_corners_read_back() {
    let text = write_obj_text("m", &vec![], &vec![], &vec![], &vec![4, 0, 7]);
    let face = text.lines().find(|l| l.starts_with("f ")).unwrap();
    let corners: Vec<(usize, Option<usize>, Option<usize>)> =
        face.split_whitespace().skip(1).map(|t| parse_face_vertex(t, 8, 8, 8).unwrap()).collect();
    assert_eq!(corners, vec![(4, Some(4), Some(4)), (0, Some(0), Some(0)), (7, Some(7), Some(7))]);
    let simple = write_obj_simple_text(&vec![], &vec![2, 1, 0]);
    let face = simple.lines().find(|l| l.starts_with("f ")).unwrap();
    let corners: Vec<(usize, Option<usize>, Option<usize>)> =
        face.split_whitespace().skip(1).map(|t| parse_face_vertex(t, 3, 0, 0).unwrap()).collect();
    assert_eq!(corners, vec![(2, None, None), (1, None, None), (0, None, None)]);
}
