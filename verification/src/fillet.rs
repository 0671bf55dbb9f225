//! The checks that decide whether an edge of a solid can be filleted
//! before any geometry is looked at: the edge must exist and lie between
//! exactly two faces. The radius check and the edge's convexity are
//! floating point and are made outside.
use vstd::prelude::*;
use crate::solid::{Solid, SolidView, solid_wf, NO_ID};
use crate::brep::FilletError;

verus! {

/// The two faces of an edge to be filleted, in the order of its
/// half-edges, or why there are not two.
pub open spec fn fillet_faces(s: SolidView, e: u64) -> Result<(u64, u64), FilletError> {
    if !s.edges.dom().contains(e) {
        Err(FilletError::EdgeNotFound)
    } else if s.edges[e].half_edges[1] == NO_ID {
        Err(FilletError::NonManifoldEdge)
    } else {
        Ok((s.half_edges[s.edges[e].half_edges[0]].face, s.half_edges[s.edges[e].half_edges[1]].face))
    }
}

/// The two faces the edge lies between: `EdgeNotFound` when the solid has
/// no such edge, `NonManifoldEdge` when the edge borders one face only.
/// Nothing is changed, whatever the answer.
pub fn fillet_edge_faces(solid: &Solid, edge_id: u64) -> (r: Result<(u64, u64), FilletError>)
    requires
        solid_wf(solid@),
    ensures
        r == fillet_faces(solid@, edge_id),
{
    let ids = solid.edge_ids();
    let mut i: usize = 0;
    while i < ids.len() && ids[i] != edge_id
        invariant
            i <= ids@.len(),
            forall|j: int| 0 <= j < i ==> ids@[j] != edge_id,
        decreases ids.len() - i,
    {
        i = i + 1;
    }
    if i == ids.len() {
        assert(!ids@.contains(edge_id));
        assert(!ids@.to_set().contains(edge_id));
        return Err(FilletError::EdgeNotFound);
    }
    assert(ids@[i as int] == edge_id);
    assert(ids@.to_set().contains(ids@[i as int]));
    let faces = solid.faces_of_edge(edge_id);
    if faces.len() != 2 {
        return Err(FilletError::NonManifoldEdge);
    }
    Ok((faces[0], faces[1]))
}

} // verus!
