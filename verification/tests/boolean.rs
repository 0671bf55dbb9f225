use physical::boolean::{boolean_topology, face_kept};
use physical::brep::BooleanOp;
use physical::solid::Solid;

fn box_topology(first_point: u64) -> Solid {
    let mut s = Solid::new();
    let v: Vec<u64> = (0..8).map(|p| s.add_vertex(first_point + p)).collect();
    let loops = [[4, 5, 6, 7], [1, 0, 3, 2], [5, 1, 2, 6], [0, 4, 7, 3], [3, 7, 6, 2], [0, 1, 5, 4]];
    for (k, l) in loops.iter().enumerate() {
        let ids: Vec<u64> = l.iter().map(|&i| v[i]).collect();
        s.add_face_from_vertices(k as u64, &ids, true);
    }
    s.link_twins();
    s
}

#[test]
fn boolean_keep_table() {
    assert_eq!(face_kept(BooleanOp::Union, true, false), (true, false));
    assert_eq!(face_kept(BooleanOp::Union, false, true), (false, false));
    assert_eq!(face_kept(BooleanOp::Subtract, true, true), (false, false));
    assert_eq!(face_kept(BooleanOp::Subtract, false, true), (true, true));
    assert_eq!(face_kept(BooleanOp::Subtract, false, false), (false, true));
    assert_eq!(face_kept(BooleanOp::Intersect, true, true), (true, false));
    assert_eq!(face_kept(BooleanOp::Intersect, false, false), (false, false));
}

#[test]
fn boolean_union_of_apart_boxes_keeps_every_face() {
    let a = box_topology(0);
    let b = box_topology(100);
    let r = boolean_topology(&a, &b, BooleanOp::Union, &vec![false; 6], &vec![false; 6]);
    assert_eq!(r.faces.len(), 12);
    assert_eq!(r.solid.face_count(), 12);
    assert_eq!(r.solid.vertex_count(), 48);
    assert_eq!(r.first_order, a.face_ids());
}

#[test]
fn boolean_subtract_flips_the_second_solids_faces() {
    let a = box_topology(0);
    let b = box_topology(100);
    let mut inside = vec![false; 6];
    inside[2] = true;
    let r = boolean_topology(&a, &b, BooleanOp::Subtract, &vec![false; 6], &inside);
    assert_eq!(r.faces.len(), 7);
    let src = b.face_vertices(r.second_order[2]);
    let copy = r.solid.face_vertices(r.faces[6]);
    assert_eq!(copy.len(), src.len());
    let r2 = boolean_topology(&a, &b, BooleanOp::Intersect, &vec![false; 6], &vec![false; 6]);
    assert_eq!(r2.faces.len(), 0);
    assert_eq!(r2.solid.face_count(), 0);
}
