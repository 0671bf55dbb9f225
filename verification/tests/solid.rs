use physical::solid::{Solid, NO_ID};

/// The topology of the kernel's box: eight vertices, six quads.
fn box_topology() -> Solid {
    let mut s = Solid::new();
    let v: Vec<u64> = (0..8).map(|p| s.add_vertex(p)).collect();
    let loops = [[4, 5, 6, 7], [1, 0, 3, 2], [5, 1, 2, 6], [0, 4, 7, 3], [3, 7, 6, 2], [0, 1, 5, 4]];
    for (k, l) in loops.iter().enumerate() {
        let ids: Vec<u64> = l.iter().map(|&i| v[i]).collect();
        s.add_face_from_vertices(k as u64, &ids, true);
    }
    s.link_twins();
    s
}

/// The topology of the kernel's cylinder: two rings of vertices, two caps
/// and one quad per segment.
fn cylinder_topology(segments: usize) -> Solid {
    let mut s = Solid::new();
    let seg = segments.max(8);
    let mut bottom = Vec::new();
    let mut top = Vec::new();
    for i in 0..seg {
        bottom.push(s.add_vertex(2 * i as u64));
        top.push(s.add_vertex(2 * i as u64 + 1));
    }
    let reversed: Vec<u64> = bottom.iter().rev().copied().collect();
    s.add_face_from_vertices(0, &reversed, true);
    s.add_face_from_vertices(1, &top, true);
    for i in 0..seg {
        let j = (i + 1) % seg;
        s.add_face_from_vertices(2, &vec![bottom[i], bottom[j], top[j], top[i]], true);
    }
    s.link_twins();
    s
}

#[test]
fn empty_solid() {
    let s = Solid::new();
    assert_eq!(s.vertex_count(), 0);
    assert_eq!(s.edge_count(), 0);
    assert_eq!(s.face_count(), 0);
}

#[test]
fn box_euler() {
    let b = box_topology();
    assert_eq!(b.vertex_count(), 8);
    assert_eq!(b.face_count(), 6);
    assert_eq!(b.edge_count(), 12);
    assert!(b.is_valid_shell(), "Euler: V-E+F = {}", b.euler_characteristic());
}

#[test]
fn cylinder_topology_counts() {
    let c = cylinder_topology(16);
    assert_eq!(c.vertex_count(), 32);
    assert_eq!(c.face_count(), 18);
    assert!(c.is_valid_shell(), "Euler: V-E+F = {}", c.euler_characteristic());
}

#[test]
fn box_edge_queries() {
    let b = box_topology();
    for eid in b.edge_ids() {
        let faces = b.faces_of_edge(eid);
        assert_eq!(faces.len(), 2, "Every edge of a box should border 2 faces");
        assert_ne!(faces[0], faces[1]);
    }
}

#[test]
fn box_face_queries() {
    let b = box_topology();
    for fid in b.face_ids() {
        let edges = b.edges_of_face(fid);
        assert_eq!(edges.len(), 4, "Every face of a box should have 4 edges");
    }
}

#[test]
fn face_gives_back_its_loop() {
    let mut s = Solid::new();
    let v: Vec<u64> = (0..3).map(|p| s.add_vertex(p)).collect();
    let f = s.add_face_from_vertices(9, &v, false);
    assert_eq!(s.face_vertices(f), v);
    assert_eq!(s.edge_count(), 3);
    // An open triangle has no twins: each edge has one face.
    for eid in s.edge_ids() {
        assert_eq!(s.faces_of_edge(eid), vec![f]);
    }
    assert_eq!(s.faces_of_vertex(v[1]), vec![f]);
    assert_eq!(s.edges_of_vertex(v[0]).len(), 2);
}

#[test]
fn twins_share_edges_between_two_triangles() {
    let mut s = Solid::new();
    let v: Vec<u64> = (0..4).map(|p| s.add_vertex(p)).collect();
    let f1 = s.add_face_from_vertices(0, &vec![v[0], v[1], v[2]], true);
    let f2 = s.add_face_from_vertices(1, &vec![v[2], v[1], v[3]], true);
    assert_eq!(s.edge_count(), 6);
    s.link_twins();
    assert_eq!(s.edge_count(), 5);
    let shared: Vec<u64> = s.edge_ids().into_iter().filter(|&e| s.faces_of_edge(e).len() == 2).collect();
    assert_eq!(shared.len(), 1);
    let mut faces = s.faces_of_edge(shared[0]);
    faces.sort();
    let mut expect = vec![f1, f2];
    expect.sort();
    assert_eq!(faces, expect);
    let (a, b) = s.vertices_of_edge(shared[0]);
    assert!((a, b) == (v[1], v[2]) || (a, b) == (v[2], v[1]));
    assert_ne!(a, NO_ID);
}

#[test]
fn ids_come_in_slot_order() {
    let b = box_topology();
    let faces = b.face_ids();
    assert_eq!(faces.len(), 6);
    assert!(faces.windows(2).all(|w| (w[0] & 0xffff_ffff) < (w[1] & 0xffff_ffff)));
    let edges = b.edge_ids();
    assert_eq!(edges.len(), 12);
    assert!(edges.windows(2).all(|w| (w[0] & 0xffff_ffff) < (w[1] & 0xffff_ffff)));
}
