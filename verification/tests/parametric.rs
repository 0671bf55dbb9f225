use physical::parametric::ModelDocument;

/// The modelling operations the tree tests use; the tree does not look
/// inside them.
#[derive(Debug, Clone, PartialEq)]
enum FeatureOp {
    Box { width: f64, height: f64, depth: f64 },
    Shell { thickness: f64, open_face_indices: Vec<usize> },
    Fillet { edge_indices: Vec<usize>, radius: f64 },
}

#[test]
fn empty_document() {
    let doc: ModelDocument<FeatureOp> = ModelDocument::new("test");
    assert_eq!(doc.feature_count(), 0);
    assert!(doc.active_ops().is_empty());
}

#[test]
fn undo_redo() {
    let mut doc = ModelDocument::new("test");
    doc.add("Base", FeatureOp::Box { width: 10.0, height: 20.0, depth: 30.0 });
    doc.add("Shell", FeatureOp::Shell { thickness: 1.0, open_face_indices: vec![0] });
    assert_eq!(doc.feature_count(), 2);

    assert!(doc.undo());
    assert_eq!(doc.feature_count(), 1);

    assert!(doc.redo());
    assert_eq!(doc.feature_count(), 2);

    assert!(doc.undo());
    assert!(doc.undo());
    assert!(!doc.undo());
}

#[test]
fn reorder_features() {
    let mut doc = ModelDocument::new("test");
    doc.add("A", FeatureOp::Box { width: 10.0, height: 10.0, depth: 10.0 });
    doc.add("B", FeatureOp::Fillet { edge_indices: vec![0], radius: 1.0 });
    doc.add("C", FeatureOp::Shell { thickness: 1.0, open_face_indices: vec![] });

    assert_eq!(doc.feature_names(), vec!["A", "B", "C"]);
    doc.reorder(2, 1);
    assert_eq!(doc.feature_names(), vec!["A", "C", "B"]);
}

#[test]
fn insert_and_remove() {
    let mut doc = ModelDocument::new("test");
    doc.add("A", FeatureOp::Box { width: 10.0, height: 10.0, depth: 10.0 });
    doc.add("C", FeatureOp::Shell { thickness: 1.0, open_face_indices: vec![] });

    doc.insert_at(1, "B", FeatureOp::Fillet { edge_indices: vec![0], radius: 1.0 });
    assert_eq!(doc.feature_names(), vec!["A", "B", "C"]);

    let removed = doc.remove_at(1).unwrap();
    assert_eq!(removed.name, "B");
    assert_eq!(doc.feature_names(), vec!["A", "C"]);
}

#[test]
fn add_clears_redo() {
    let mut doc = ModelDocument::new("test");
    doc.add("A", FeatureOp::Box { width: 10.0, height: 10.0, depth: 10.0 });
    doc.add("B", FeatureOp::Shell { thickness: 1.0, open_face_indices: vec![] });
    doc.undo();
    doc.add("C", FeatureOp::Fillet { edge_indices: vec![0], radius: 1.0 });
    assert!(!doc.redo());
    assert_eq!(doc.feature_count(), 2);
}

#[test]
fn suppressed_features_are_not_replayed() {
    let mut doc = ModelDocument::new("test");
    doc.add("Base", FeatureOp::Box { width: 10.0, height: 20.0, depth: 30.0 });
    doc.add("Shell", FeatureOp::Shell { thickness: 1.0, open_face_indices: vec![] });
    assert_eq!(doc.active_ops().len(), 2);
    doc.set_suppressed(1, true);
    let ops = doc.active_ops();
    assert_eq!(ops.len(), 1);
    assert_eq!(*ops[0], FeatureOp::Box { width: 10.0, height: 20.0, depth: 30.0 });
    doc.set_suppressed(7, true);
    assert_eq!(doc.feature_count(), 2);
}

#[test]
fn active_ops_to_stops_at_index() {
    let mut doc = ModelDocument::new("test");
    doc.add("Base", FeatureOp::Box { width: 10.0, height: 20.0, depth: 30.0 });
    doc.add("Shell", FeatureOp::Shell { thickness: 1.0, open_face_indices: vec![] });
    assert_eq!(doc.active_ops_to(0).len(), 1);
    assert_eq!(doc.active_ops_to(1).len(), 2);
    assert_eq!(doc.active_ops_to(99).len(), 2);
}

#[test]
fn undo_then_redo_restores_tree() {
    let mut doc = ModelDocument::new("test");
    doc.add("A", FeatureOp::Box { width: 1.0, height: 1.0, depth: 1.0 });
    doc.add("B", FeatureOp::Fillet { edge_indices: vec![2], radius: 0.5 });
    let before = doc.feature_names().iter().map(|s| s.to_string()).collect::<Vec<_>>();
    assert!(doc.undo());
    assert!(doc.redo());
    assert_eq!(doc.feature_names(), before);
}

#[test]
fn reorder_out_of_range_is_ignored() {
    let mut doc = ModelDocument::new("test");
    doc.add("A", FeatureOp::Box { width: 1.0, height: 1.0, depth: 1.0 });
    doc.reorder(0, 5);
    assert_eq!(doc.feature_names(), vec!["A"]);
    assert!(doc.remove_at(3).is_none());
    doc.insert_at(10, "Z", FeatureOp::Box { width: 2.0, height: 2.0, depth: 2.0 });
    assert_eq!(doc.feature_names(), vec!["A", "Z"]);
    assert_eq!(doc.name, "test");
}
