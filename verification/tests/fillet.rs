use physical::brep::FilletError;
use physical::fillet::fillet_edge_faces;
use physical::solid::{Solid, NO_ID};

fn box_topology() -> Solid {
    let mut s = Solid::new();
    let v: Vec<u64> = (0..8).map(|p| s.add_vertex(p)).collect();
    let loops = [[4, 5, 6, 7], [1, 0, 3, 2], [5, 1, 2, 6], [0, 4, 7, 3], [3, 7, 6, 2], [0, 1, 5, 4]];
    for (k, l) in loops.iter().enumerate() {
        let ids: Vec<u64> = l.iter().map(|&i| v[i]).collect();
        s.add_face_from_vertices(k as u64, &ids, true);
    }
    s.link_twins();
    s
}

#[test]
fn fillet_box_edge_lies_between_two_faces() {
    let b = box_topology();
    for e in b.edge_ids() {
        let (f1, f2) = fillet_edge_faces(&b, e).unwrap();
        assert_ne!(f1, f2);
        assert_eq!(b.faces_of_edge(e), vec![f1, f2]);
    }
}

#[test]
fn fillet_missing_edge_is_refused() {
    let b = box_topology();
    assert_eq!(fillet_edge_faces(&b, NO_ID), Err(FilletError::EdgeNotFound));
    assert_eq!(fillet_edge_faces(&b, 12345), Err(FilletError::EdgeNotFound));
}

#[test]
fn fillet_boundary_edge_is_refused() {
    let mut s = Solid::new();
    let v: Vec<u64> = (0..3).map(|p| s.add_vertex(p)).collect();
    s.add_face_from_vertices(0, &v, true);
    let e = s.edge_ids()[0];
    assert_eq!(fillet_edge_faces(&s, e), Err(FilletError::NonManifoldEdge));
    assert_eq!(s.face_count(), 1);
}
