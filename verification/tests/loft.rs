use physical::loft::loft_topology;

/// A rectangle section at height `z` with the given half-widths.
fn rect_section(hw: f64, hh: f64, z: f64) -> Vec<[f64; 3]> {
    vec![[-hw, -hh, z], [hw, -hh, z], [hw, hh, z], [-hw, hh, z]]
}

/// The topology of a loft through sections of points.
fn loft(sections: &[Vec<[f64; 3]>]) -> physical::solid::Solid {
    loft_topology(sections.len(), sections[0].len()).solid
}

#[test]
fn loft_two_rectangles() {
    let bottom = rect_section(5.0, 3.0, 0.0);
    let top = rect_section(5.0, 3.0, 10.0);
    let solid = loft(&[bottom, top]);
    assert_eq!(solid.vertex_count(), 8);
    assert_eq!(solid.face_count(), 6);
    assert_eq!(solid.edge_count(), 12);
    assert!(solid.is_valid_shell());
}

#[test]
fn loft_three_sections() {
    let s0 = rect_section(10.0, 10.0, 0.0);
    let s1 = rect_section(3.0, 3.0, 10.0);
    let s2 = rect_section(8.0, 8.0, 20.0);
    let solid = loft(&[s0, s1, s2]);
    assert_eq!(solid.vertex_count(), 12);
    assert_eq!(solid.face_count(), 10);
    assert_eq!(solid.edge_count(), 20);
    assert!(solid.is_valid_shell());
}

#[test]
fn loft_valid_shell() {
    let bottom = rect_section(1.0, 1.0, 0.0);
    let top = rect_section(1.0, 1.0, 5.0);
    let solid = loft(&[bottom, top]);
    assert_eq!(solid.euler_characteristic(), 2);
}

#[test]
fn loft_faces_in_order() {
    let r = loft_topology(3, 5);
    assert_eq!(r.solid.face_count(), 2 + 2 * 5);
    assert_eq!(r.solid.vertex_count(), 15);
    assert!(r.solid.is_valid_shell());
    assert_eq!(r.ids.len(), 3);
    let mut first = r.ids[0].clone();
    first.reverse();
    assert_eq!(r.solid.face_vertices(r.faces[0]), first);
    assert_eq!(r.solid.face_vertices(r.faces[1]), r.ids[2]);
    assert_eq!(r.solid.face_vertices(r.faces[2]), vec![r.ids[0][0], r.ids[0][1], r.ids[1][1], r.ids[1][0]]);
    assert_eq!(r.solid.face_vertices(r.faces[6]), vec![r.ids[0][4], r.ids[0][0], r.ids[1][0], r.ids[1][4]]);
}
