use physical::shell::shell_topology;
use physical::solid::Solid;

/// The topology of the kernel's box: eight vertices, six quads.
fn box_topology() -> Solid {
    let mut s = Solid::new();
    let v: Vec<u64> = (0..8).map(|p| s.add_vertex(p)).collect();
    let loops = [[4, 5, 6, 7], [1, 0, 3, 2], [5, 1, 2, 6], [0, 4, 7, 3], [3, 7, 6, 2], [0, 1, 5, 4]];
    for (k, l) in loops.iter().enumerate() {
        let ids: Vec<u64> = l.iter().map(|&i| v[i]).collect();
        s.add_face_from_vertices(k as u64, &ids, true);
    }
    s.link_twins();
    s
}

#[test]
fn shell_box_one_open_face() {
    let b = box_topology();
    assert_eq!(b.face_count(), 6);
    let shelled = shell_topology(&b, &vec![4]).solid;
    // 5 outer, 5 inner, 4 rim quads.
    assert_eq!(shelled.face_count(), 14);
    assert!(shelled.is_valid_shell(), "Euler V-E+F = {} (expected 2)", shelled.euler_characteristic());
}

#[test]
fn shell_box_no_open_faces() {
    let b = box_topology();
    let shelled = shell_topology(&b, &vec![]).solid;
    assert_eq!(shelled.face_count(), 12);
    assert_eq!(shelled.euler_characteristic(), 4);
}

#[test]
fn shell_copies_each_vertex_twice() {
    let b = box_topology();
    let r = shell_topology(&b, &vec![4]);
    assert_eq!(r.copies.len(), 8);
    assert_eq!(r.solid.vertex_count(), 16);
    assert_eq!(r.face_order, b.face_ids());
    assert_eq!(r.faces.len(), 14);
}

#[test]
fn shell_faces_follow_outer_inner_rim_order() {
    let b = box_topology();
    let r = shell_topology(&b, &vec![4, 4]);
    let outer = |v: u64| r.copies.iter().find(|c| c.0 == v).unwrap().1;
    let inner = |v: u64| r.copies.iter().find(|c| c.0 == v).unwrap().2;
    let first = b.face_vertices(r.face_order[0]);
    assert_eq!(r.solid.face_vertices(r.faces[0]), first.iter().map(|&v| outer(v)).collect::<Vec<_>>());
    assert_eq!(r.solid.face_vertices(r.faces[5]), first.iter().rev().map(|&v| inner(v)).collect::<Vec<_>>());
    let open = b.face_vertices(r.face_order[4]);
    let quad = r.solid.face_vertices(r.faces[10]);
    assert_eq!(quad, vec![outer(open[0]), outer(open[1]), inner(open[1]), inner(open[0])]);
    let last = r.solid.face_vertices(r.faces[13]);
    assert_eq!(last, vec![outer(open[3]), outer(open[0]), inner(open[0]), inner(open[3])]);
}
