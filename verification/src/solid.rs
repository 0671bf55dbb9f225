//! The topology of a B-rep solid: vertices, half-edges, edges and faces
//! kept in slot maps, faces built from vertex loops, and half-edges paired
//! with their twins across shared edges. Geometry stays outside: a vertex
//! refers to its point and a face to its surface by number, and an edge is
//! the straight segment between its end vertices.
use vstd::prelude::*;
use slotmap::{DefaultKey, Key, KeyData, SlotMap};

verus! {

/// The number of the null key, which no value in a map ever has; an edge
/// uses it for a missing second half-edge.
pub const NO_ID: u64 = 0x1_ffff_ffff;

/// A topological vertex: the number of its point.
#[derive(Clone, Copy, Debug)]
pub struct BRepVertex {
    pub point: u64,
}

/// A half-edge: a directed edge of one face's loop.
#[derive(Clone, Copy, Debug)]
pub struct HalfEdge {
    /// Origin vertex.
    pub origin: u64,
    /// Parent edge.
    pub edge: u64,
    /// Face this half-edge borders.
    pub face: u64,
    /// Next half-edge in the face loop.
    pub next: u64,
    /// Twin half-edge, on the adjacent face.
    pub twin: Option<u64>,
}

/// A topological edge: its two half-edges (the second `NO_ID` until a
/// twin is found) and its end vertices.
#[derive(Clone, Copy, Debug)]
pub struct BRepEdge {
    pub half_edges: [u64; 2],
    pub v_start: u64,
    pub v_end: u64,
}

/// A topological face: the number of its surface, its outer loop of
/// half-edges in order, its hole loops, and whether its normal points out.
#[derive(Clone, Debug)]
pub struct BRepFace {
    pub surface: u64,
    pub outer_loop: Vec<u64>,
    pub holes: Vec<Vec<u64>>,
    pub normal_outward: bool,
}

/// The slot a key number names: its low 32 bits (`KeyData::as_ffi` puts
/// the version above them).
pub open spec fn slot_index(k: u64) -> int {
    k as int % 0x1_0000_0000
}

/// Key numbers in the order of their slots: each slot after the one before.
pub open spec fn in_slot_order(ks: Seq<u64>) -> bool {
    forall|i: int, j: int| 0 <= i < j < ks.len() ==> slot_index(#[trigger] ks[i]) < slot_index(#[trigger] ks[j])
}

/// Slot order fixes the order of a set of keys: two lists that each hold
/// the same keys once, both in slot order, are the same list.
pub proof fn lemma_slot_order_unique(a: Seq<u64>, b: Seq<u64>)
    requires
        a.no_duplicates(),
        b.no_duplicates(),
        a.to_set() == b.to_set(),
        in_slot_order(a),
        in_slot_order(b),
    ensures
        a == b,
    decreases a.len(),
{
    if a.len() == 0 {
        if b.len() > 0 {
            assert(b.to_set().contains(b[0]));
            assert(a.to_set().contains(b[0]));
        }
        assert(a =~= b);
    } else {
        assert(a.to_set().contains(a[0]));
        assert(b.to_set().contains(a[0]));
        let m = choose|m: int| 0 <= m < b.len() && b[m] == a[0];
        assert(b.len() > 0);
        assert(b.to_set().contains(b[0]));
        assert(a.to_set().contains(b[0]));
        let k = choose|k: int| 0 <= k < a.len() && a[k] == b[0];
        if k > 0 && m > 0 {
            assert(slot_index(a[0]) < slot_index(a[k]));
            assert(slot_index(b[0]) < slot_index(b[m]));
        }
        assert(a[0] == b[0]);
        let a1 = a.drop_first();
        let b1 = b.drop_first();
        assert(in_slot_order(a1)) by {
            assert forall|i: int, j: int| 0 <= i < j < a1.len() implies slot_index(#[trigger] a1[i]) < slot_index(#[trigger] a1[j]) by {
                assert(a1[i] == a[i + 1] && a1[j] == a[j + 1]);
            }
        }
        assert(in_slot_order(b1)) by {
            assert forall|i: int, j: int| 0 <= i < j < b1.len() implies slot_index(#[trigger] b1[i]) < slot_index(#[trigger] b1[j]) by {
                assert(b1[i] == b[i + 1] && b1[j] == b[j + 1]);
            }
        }
        assert(a1.no_duplicates()) by {
            assert forall|i: int, j: int| 0 <= i < a1.len() && 0 <= j < a1.len() && i != j implies a1[i] != a1[j] by {
                assert(a1[i] == a[i + 1] && a1[j] == a[j + 1]);
            }
        }
        assert(b1.no_duplicates()) by {
            assert forall|i: int, j: int| 0 <= i < b1.len() && 0 <= j < b1.len() && i != j implies b1[i] != b1[j] by {
                assert(b1[i] == b[i + 1] && b1[j] == b[j + 1]);
            }
        }
        assert(a1.to_set() =~= b1.to_set()) by {
            assert forall|x: u64| a1.to_set().contains(x) implies b1.to_set().contains(x) by {
                let i = choose|i: int| 0 <= i < a1.len() && a1[i] == x;
                assert(a[i + 1] == x);
                assert(x != a[0]);
                assert(a.to_set().contains(x));
                assert(b.to_set().contains(x));
                let j = choose|j: int| 0 <= j < b.len() && b[j] == x;
                assert(j != 0);
                assert(b1[j - 1] == x);
            }
            assert forall|x: u64| b1.to_set().contains(x) implies a1.to_set().contains(x) by {
                let i = choose|i: int| 0 <= i < b1.len() && b1[i] == x;
                assert(b[i + 1] == x);
                assert(x != b[0]);
                assert(b.to_set().contains(x));
                assert(a.to_set().contains(x));
                let j = choose|j: int| 0 <= j < a.len() && a[j] == x;
                assert(j != 0);
                assert(a1[j - 1] == x);
            }
        }
        lemma_slot_order_unique(a1, b1);
        assert(a =~= b) by {
            assert forall|i: int| 0 <= i < a.len() implies a[i] == b[i] by {
                if i > 0 {
                    assert(a[i] == a1[i - 1] && b[i] == b1[i - 1]);
                }
            }
        }
    }
}

/// The vertices of a solid: a slot map (`slotmap::SlotMap<DefaultKey, _>`)
/// whose keys are known by their `KeyData::as_ffi` numbers; what it holds is
/// `vertex_slots`.
#[verifier::external_body]
pub struct VertexSlots {
    inner: SlotMap<DefaultKey, BRepVertex>,
}

/// What a map of vertices holds, by key number.
pub uninterp spec fn vertex_slots(m: VertexSlots) -> Map<u64, BRepVertex>;

impl VertexSlots {
    /// `SlotMap::with_key`: an empty map.
    #[verifier::external_body]
    pub(crate) fn new() -> (r: VertexSlots)
        ensures
            vertex_slots(r).dom().is_empty(),
    {
        VertexSlots { inner: SlotMap::with_key() }
    }

    /// `SlotMap::insert`: the value under a key that was not in the map and
    /// is not the null key; it panics when the map already holds `u32::MAX - 1`
    /// values, which `requires` leaves out.
    #[verifier::external_body]
    pub(crate) fn insert(&mut self, v: BRepVertex) -> (id: u64)
        requires
            vertex_slots(*old(self)).dom().finite(),
            vertex_slots(*old(self)).len() < u32::MAX - 1,
        ensures
            !vertex_slots(*old(self)).dom().contains(id),
            id != NO_ID,
            vertex_slots(*final(self)) == vertex_slots(*old(self)).insert(id, v),
    {
        self.inner.insert(v).data().as_ffi()
    }

    /// `SlotMap::get` on a key in the map: a copy of its value.
    #[verifier::external_body]
    pub(crate) fn get(&self, id: u64) -> (r: BRepVertex)
        requires
            vertex_slots(*self).dom().contains(id),
        ensures
            r == vertex_slots(*self)[id],
    {
        *self.inner.get(DefaultKey::from(KeyData::from_ffi(id))).unwrap()
    }

    /// `SlotMap::len`: the number of values.
    #[verifier::external_body]
    pub(crate) fn len(&self) -> (r: usize)
        requires
            vertex_slots(*self).dom().finite(),
        ensures
            r == vertex_slots(*self).len(),
    {
        self.inner.len()
    }

}

/// The half-edges of a solid: a slot map (`slotmap::SlotMap<DefaultKey, _>`)
/// whose keys are known by their `KeyData::as_ffi` numbers; what it holds is
/// `half_edge_slots`.
#[verifier::external_body]
pub struct HalfEdgeSlots {
    inner: SlotMap<DefaultKey, HalfEdge>,
}

/// What a map of half-edges holds, by key number.
pub uninterp spec fn half_edge_slots(m: HalfEdgeSlots) -> Map<u64, HalfEdge>;

impl HalfEdgeSlots {
    /// `SlotMap::with_key`: an empty map.
    #[verifier::external_body]
    pub(crate) fn new() -> (r: HalfEdgeSlots)
        ensures
            half_edge_slots(r).dom().is_empty(),
    {
        HalfEdgeSlots { inner: SlotMap::with_key() }
    }

    /// `SlotMap::insert`: the value under a key that was not in the map and
    /// is not the null key; it panics when the map already holds `u32::MAX - 1`
    /// values, which `requires` leaves out.
    #[verifier::external_body]
    pub(crate) fn insert(&mut self, v: HalfEdge) -> (id: u64)
        requires
            half_edge_slots(*old(self)).dom().finite(),
            half_edge_slots(*old(self)).len() < u32::MAX - 1,
        ensures
            !half_edge_slots(*old(self)).dom().contains(id),
            id != NO_ID,
            half_edge_slots(*final(self)) == half_edge_slots(*old(self)).insert(id, v),
    {
        self.inner.insert(v).data().as_ffi()
    }

    /// `SlotMap::get` on a key in the map: a copy of its value.
    #[verifier::external_body]
    pub(crate) fn get(&self, id: u64) -> (r: HalfEdge)
        requires
            half_edge_slots(*self).dom().contains(id),
        ensures
            r == half_edge_slots(*self)[id],
    {
        self.inner.get(DefaultKey::from(KeyData::from_ffi(id))).unwrap().clone()
    }

    /// `SlotMap::get_mut` on a key in the map, and a new value written there.
    #[verifier::external_body]
    pub(crate) fn set(&mut self, id: u64, v: HalfEdge)
        requires
            half_edge_slots(*old(self)).dom().contains(id),
        ensures
            half_edge_slots(*final(self)) == half_edge_slots(*old(self)).insert(id, v),
    {
        *self.inner.get_mut(DefaultKey::from(KeyData::from_ffi(id))).unwrap() = v;
    }

    /// `SlotMap::keys`: every key in the map once; the iterator walks the
    /// slots from the first to the last, so the keys come in slot order.
    #[verifier::external_body]
    pub(crate) fn keys(&self) -> (r: Vec<u64>)
        ensures
            r@.no_duplicates(),
            r@.to_set() == half_edge_slots(*self).dom(),
            in_slot_order(r@),
    {
        self.inner.keys().map(|k| k.data().as_ffi()).collect()
    }

}

/// The edges of a solid: a slot map (`slotmap::SlotMap<DefaultKey, _>`)
/// whose keys are known by their `KeyData::as_ffi` numbers; what it holds is
/// `edge_slots`.
#[verifier::external_body]
pub struct EdgeSlots {
    inner: SlotMap<DefaultKey, BRepEdge>,
}

/// What a map of edges holds, by key number.
pub uninterp spec fn edge_slots(m: EdgeSlots) -> Map<u64, BRepEdge>;

impl EdgeSlots {
    /// `SlotMap::with_key`: an empty map.
    #[verifier::external_body]
    pub(crate) fn new() -> (r: EdgeSlots)
        ensures
            edge_slots(r).dom().is_empty(),
    {
        EdgeSlots { inner: SlotMap::with_key() }
    }

    /// `SlotMap::insert`: the value under a key that was not in the map and
    /// is not the null key; it panics when the map already holds `u32::MAX - 1`
    /// values, which `requires` leaves out.
    #[verifier::external_body]
    pub(crate) fn insert(&mut self, v: BRepEdge) -> (id: u64)
        requires
            edge_slots(*old(self)).dom().finite(),
            edge_slots(*old(self)).len() < u32::MAX - 1,
        ensures
            !edge_slots(*old(self)).dom().contains(id),
            id != NO_ID,
            edge_slots(*final(self)) == edge_slots(*old(self)).insert(id, v),
    {
        self.inner.insert(v).data().as_ffi()
    }

    /// `SlotMap::get` on a key in the map: a copy of its value.
    #[verifier::external_body]
    pub(crate) fn get(&self, id: u64) -> (r: BRepEdge)
        requires
            edge_slots(*self).dom().contains(id),
        ensures
            r == edge_slots(*self)[id],
    {
        self.inner.get(DefaultKey::from(KeyData::from_ffi(id))).unwrap().clone()
    }

    /// `SlotMap::get_mut` on a key in the map, and a new value written there.
    #[verifier::external_body]
    pub(crate) fn set(&mut self, id: u64, v: BRepEdge)
        requires
            edge_slots(*old(self)).dom().contains(id),
        ensures
            edge_slots(*final(self)) == edge_slots(*old(self)).insert(id, v),
    {
        *self.inner.get_mut(DefaultKey::from(KeyData::from_ffi(id))).unwrap() = v;
    }

    /// `SlotMap::remove` on a key in the map.
    #[verifier::external_body]
    pub(crate) fn remove(&mut self, id: u64)
        requires
            edge_slots(*old(self)).dom().contains(id),
        ensures
            edge_slots(*final(self)) == edge_slots(*old(self)).remove(id),
    {
        self.inner.remove(DefaultKey::from(KeyData::from_ffi(id)));
    }

    /// `SlotMap::keys`: every key in the map once; the iterator walks the
    /// slots from the first to the last, so the keys come in slot order.
    #[verifier::external_body]
    pub(crate) fn keys(&self) -> (r: Vec<u64>)
        ensures
            r@.no_duplicates(),
            r@.to_set() == edge_slots(*self).dom(),
            in_slot_order(r@),
    {
        self.inner.keys().map(|k| k.data().as_ffi()).collect()
    }

    /// `SlotMap::len`: the number of values.
    #[verifier::external_body]
    pub(crate) fn len(&self) -> (r: usize)
        requires
            edge_slots(*self).dom().finite(),
        ensures
            r == edge_slots(*self).len(),
    {
        self.inner.len()
    }

}

/// The faces of a solid: a slot map (`slotmap::SlotMap<DefaultKey, _>`)
/// whose keys are known by their `KeyData::as_ffi` numbers; what it holds is
/// `face_slots`.
#[verifier::external_body]
pub struct FaceSlots {
    inner: SlotMap<DefaultKey, BRepFace>,
}

/// What a map of faces holds, by key number.
pub uninterp spec fn face_slots(m: FaceSlots) -> Map<u64, BRepFace>;

impl FaceSlots {
    /// `SlotMap::with_key`: an empty map.
    #[verifier::external_body]
    pub(crate) fn new() -> (r: FaceSlots)
        ensures
            face_slots(r).dom().is_empty(),
    {
        FaceSlots { inner: SlotMap::with_key() }
    }

    /// `SlotMap::insert`: the value under a key that was not in the map and
    /// is not the null key; it panics when the map already holds `u32::MAX - 1`
    /// values, which `requires` leaves out.
    #[verifier::external_body]
    pub(crate) fn insert(&mut self, v: BRepFace) -> (id: u64)
        requires
            face_slots(*old(self)).dom().finite(),
            face_slots(*old(self)).len() < u32::MAX - 1,
        ensures
            !face_slots(*old(self)).dom().contains(id),
            id != NO_ID,
            face_slots(*final(self)) == face_slots(*old(self)).insert(id, v),
    {
        self.inner.insert(v).data().as_ffi()
    }

    /// `SlotMap::get` on a key in the map: a copy of its value.
    #[verifier::external_body]
    pub(crate) fn get(&self, id: u64) -> (r: BRepFace)
        requires
            face_slots(*self).dom().contains(id),
        ensures
            r == face_slots(*self)[id],
    {
        self.inner.get(DefaultKey::from(KeyData::from_ffi(id))).unwrap().clone()
    }

    /// `SlotMap::get_mut` on a key in the map, and a new value written there.
    #[verifier::external_body]
    pub(crate) fn set(&mut self, id: u64, v: BRepFace)
        requires
            face_slots(*old(self)).dom().contains(id),
        ensures
            face_slots(*final(self)) == face_slots(*old(self)).insert(id, v),
    {
        *self.inner.get_mut(DefaultKey::from(KeyData::from_ffi(id))).unwrap() = v;
    }

    /// `SlotMap::keys`: every key in the map once; the iterator walks the
    /// slots from the first to the last, so the keys come in slot order.
    #[verifier::external_body]
    pub(crate) fn keys(&self) -> (r: Vec<u64>)
        ensures
            r@.no_duplicates(),
            r@.to_set() == face_slots(*self).dom(),
            in_slot_order(r@),
    {
        self.inner.keys().map(|k| k.data().as_ffi()).collect()
    }

    /// `SlotMap::len`: the number of values.
    #[verifier::external_body]
    pub(crate) fn len(&self) -> (r: usize)
        requires
            face_slots(*self).dom().finite(),
        ensures
            r == face_slots(*self).len(),
    {
        self.inner.len()
    }

}


/// A B-rep solid: its vertices, half-edges, edges and faces.
pub struct Solid {
    pub vertices: VertexSlots,
    pub half_edges: HalfEdgeSlots,
    pub edges: EdgeSlots,
    pub faces: FaceSlots,
}

/// The four maps of a solid.
#[verifier::ext_equal]
pub struct SolidView {
    pub vertices: Map<u64, BRepVertex>,
    pub half_edges: Map<u64, HalfEdge>,
    pub edges: Map<u64, BRepEdge>,
    pub faces: Map<u64, BRepFace>,
}

impl View for Solid {
    type V = SolidView;

    open spec fn view(&self) -> SolidView {
        SolidView {
            vertices: vertex_slots(self.vertices),
            half_edges: half_edge_slots(self.half_edges),
            edges: edge_slots(self.edges),
            faces: face_slots(self.faces),
        }
    }
}

/// A half-edge `k` fits the solid: its origin, face, next half-edge and
/// edge exist; its edge lists it; without a twin it is its edge's only
/// half-edge, and with a twin the twin exists, is another half-edge of the
/// same edge, has it as twin, and runs between the same two vertices the
/// other way.
pub open spec fn half_edge_fits(s: SolidView, k: u64) -> bool {
    let x = s.half_edges[k];
    &&& s.vertices.dom().contains(x.origin)
    &&& s.faces.dom().contains(x.face)
    &&& s.half_edges.dom().contains(x.next)
    &&& s.edges.dom().contains(x.edge)
    &&& (s.edges[x.edge].half_edges[0] == k || s.edges[x.edge].half_edges[1] == k)
    &&& match x.twin {
        None => s.edges[x.edge].half_edges[0] == k && s.edges[x.edge].half_edges[1] == NO_ID,
        Some(t) => {
            &&& s.half_edges.dom().contains(t)
            &&& t != k
            &&& s.half_edges[t].twin == Some(k)
            &&& s.half_edges[t].edge == x.edge
            &&& x.origin == s.half_edges[s.half_edges[t].next].origin
            &&& s.half_edges[x.next].origin == s.half_edges[t].origin
        },
    }
}

/// An edge fits the solid: its end vertices and first half-edge exist, and
/// its second half-edge is missing or exists.
pub open spec fn edge_fits(s: SolidView, e: u64) -> bool {
    let y = s.edges[e];
    &&& s.vertices.dom().contains(y.v_start)
    &&& s.vertices.dom().contains(y.v_end)
    &&& s.half_edges.dom().contains(y.half_edges[0])
    &&& (y.half_edges[1] == NO_ID || s.half_edges.dom().contains(y.half_edges[1]))
}

/// A face fits the solid: every half-edge of its loops exists.
pub open spec fn face_fits(s: SolidView, f: u64) -> bool {
    let z = s.faces[f];
    &&& forall|i: int| 0 <= i < z.outer_loop@.len() ==> s.half_edges.dom().contains(#[trigger] z.outer_loop@[i])
    &&& forall|i: int, j: int| 0 <= i < z.holes@.len() && 0 <= j < z.holes@[i]@.len() ==> s.half_edges.dom().contains(
        #[trigger] z.holes@[i]@[j],
    )
}

/// A solid is well formed: its maps are finite, no key is the null key,
/// and every half-edge, edge and face fits.
pub open spec fn solid_wf(s: SolidView) -> bool {
    &&& s.vertices.dom().finite()
    &&& s.half_edges.dom().finite()
    &&& s.edges.dom().finite()
    &&& s.faces.dom().finite()
    &&& !s.vertices.dom().contains(NO_ID)
    &&& !s.half_edges.dom().contains(NO_ID)
    &&& !s.edges.dom().contains(NO_ID)
    &&& !s.faces.dom().contains(NO_ID)
    &&& forall|k: u64| s.half_edges.dom().contains(k) ==> #[trigger] half_edge_fits(s, k)
    &&& forall|e: u64| s.edges.dom().contains(e) ==> #[trigger] edge_fits(s, e)
    &&& forall|f: u64| s.faces.dom().contains(f) ==> #[trigger] face_fits(s, f)
}

/// The vertex a half-edge ends at: the origin of the next one.
pub open spec fn half_edge_end(s: SolidView, k: u64) -> u64 {
    s.half_edges[s.half_edges[k].next].origin
}

/// The half-edge `i` of a face built from the vertex loop `vs`: it starts
/// at `vs[i]`, lies on edge `es[i]` and face `fid`, is followed by the
/// next half-edge of `hes` round the loop, and has no twin yet.
pub open spec fn loop_half_edge(vs: Seq<u64>, hes: Seq<u64>, es: Seq<u64>, fid: u64, i: int) -> HalfEdge {
    HalfEdge { origin: vs[i], edge: es[i], face: fid, next: hes[(i + 1) % vs.len() as int], twin: None }
}

/// The edge `i` of a face built from the vertex loop `vs`: from `vs[i]`
/// to the next vertex round the loop, with the half-edge `hes[i]` only.
pub open spec fn loop_edge(vs: Seq<u64>, hes: Seq<u64>, i: int) -> BRepEdge {
    BRepEdge { half_edges: [hes[i], NO_ID], v_start: vs[i], v_end: vs[(i + 1) % vs.len() as int] }
}

/// `new` is `old` with the face `fid` built on the vertex loop `vs`: the
/// face (with the surface, no holes, and the outward flag) has an outer
/// loop of new half-edges, one per vertex in order, each on a new edge of
/// its own; nothing else changes.
pub open spec fn face_added(old: SolidView, new: SolidView, fid: u64, surface: u64, vs: Seq<u64>, outward: bool) -> bool {
    let hes = new.faces[fid].outer_loop@;
    let es = hes.map_values(|h: u64| new.half_edges[h].edge);
    &&& !old.faces.dom().contains(fid)
    &&& new.faces.dom() == old.faces.dom().insert(fid)
    &&& forall|f: u64| old.faces.dom().contains(f) ==> new.faces[f] == old.faces[f]
    &&& new.faces[fid].surface == surface
    &&& new.faces[fid].holes@.len() == 0
    &&& new.faces[fid].normal_outward == outward
    &&& hes.len() == vs.len()
    &&& hes.no_duplicates()
    &&& es.no_duplicates()
    &&& forall|i: int| 0 <= i < hes.len() ==> !old.half_edges.dom().contains(#[trigger] hes[i])
    &&& forall|i: int| 0 <= i < es.len() ==> !old.edges.dom().contains(#[trigger] es[i])
    &&& new.half_edges.dom() == old.half_edges.dom() + hes.to_set()
    &&& new.edges.dom() == old.edges.dom() + es.to_set()
    &&& forall|k: u64| old.half_edges.dom().contains(k) ==> new.half_edges[k] == old.half_edges[k]
    &&& forall|e: u64| old.edges.dom().contains(e) ==> new.edges[e] == old.edges[e]
    &&& forall|i: int| 0 <= i < hes.len() ==> new.half_edges[#[trigger] hes[i]] == loop_half_edge(vs, hes, es, fid, i)
    &&& forall|i: int| 0 <= i < es.len() ==> new.edges[#[trigger] es[i]] == loop_edge(vs, hes, i)
    &&& new.vertices == old.vertices
}

/// Two half-edges run between the same vertices in opposite directions.
pub open spec fn opposite(s: SolidView, a: u64, b: u64) -> bool {
    s.half_edges[a].origin == half_edge_end(s, b) && half_edge_end(s, a) == s.half_edges[b].origin
}

/// `s` with the half-edges `a` and `b` made twins: `b` moves onto `a`'s
/// edge, which takes `b` as its second half-edge, and `b`'s own edge goes.
pub open spec fn paired(s: SolidView, a: u64, b: u64) -> SolidView {
    let ha = s.half_edges[a];
    let hb = s.half_edges[b];
    let ea = s.edges[ha.edge];
    SolidView {
        vertices: s.vertices,
        half_edges: s.half_edges.insert(a, HalfEdge { twin: Some(b), ..ha }).insert(
            b,
            HalfEdge { twin: Some(a), edge: ha.edge, ..hb },
        ),
        edges: s.edges.insert(ha.edge, BRepEdge { half_edges: [ea.half_edges[0], b], ..ea }).remove(hb.edge),
        faces: s.faces,
    }
}

/// The search for a twin of `ks[i]` among `ks[j..]`: the first half-edge
/// there without a twin that runs the other way between the same vertices
/// becomes its twin; if there is none, nothing changes.
pub open spec fn twin_search(s: SolidView, ks: Seq<u64>, i: int, j: int) -> SolidView
    decreases ks.len() - j,
{
    if j < 0 || j >= ks.len() {
        s
    } else if s.half_edges[ks[j]].twin is None && opposite(s, ks[i], ks[j]) {
        paired(s, ks[i], ks[j])
    } else {
        twin_search(s, ks, i, j + 1)
    }
}

/// Twin linking over the half-edges in the order `ks`, from position `i`:
/// each half-edge still without a twin searches the later ones for its
/// twin.
pub open spec fn link_from(s: SolidView, ks: Seq<u64>, i: int) -> SolidView
    decreases ks.len() - i,
{
    if i < 0 || i >= ks.len() {
        s
    } else if s.half_edges[ks[i]].twin is Some {
        link_from(s, ks, i + 1)
    } else {
        link_from(twin_search(s, ks, i, i + 1), ks, i + 1)
    }
}

/// Pairing two half-edges without twins that run opposite ways keeps a
/// solid well formed, and changes no vertex, face, or half-edge's origin,
/// next half-edge or face.
pub proof fn lemma_paired_wf(s: SolidView, a: u64, b: u64)
    requires
        solid_wf(s),
        s.half_edges.dom().contains(a),
        s.half_edges.dom().contains(b),
        a != b,
        s.half_edges[a].twin is None,
        s.half_edges[b].twin is None,
        opposite(s, a, b),
    ensures
        solid_wf(paired(s, a, b)),
        paired(s, a, b).half_edges.dom() == s.half_edges.dom(),
        forall|k: u64| s.half_edges.dom().contains(k) ==> {
            let x = #[trigger] paired(s, a, b).half_edges[k];
            x.origin == s.half_edges[k].origin && x.next == s.half_edges[k].next && x.face == s.half_edges[k].face
        },
{
    let p = paired(s, a, b);
    let ha = s.half_edges[a];
    let hb = s.half_edges[b];
    assert(half_edge_fits(s, a));
    assert(half_edge_fits(s, b));
    assert(ha.edge != hb.edge);
    assert(p.half_edges.dom() =~= s.half_edges.dom());
    assert(p.edges.dom() =~= s.edges.dom().remove(hb.edge));
    assert forall|k: u64| p.half_edges.dom().contains(k) implies #[trigger] half_edge_fits(p, k) by {
        assert(half_edge_fits(s, k));
        let x = s.half_edges[k];
        assert(p.half_edges[x.next].origin == s.half_edges[x.next].origin);
        if k != a && k != b {
            if x.edge == hb.edge {
                assert(false);
            }
            if x.edge == ha.edge {
                assert(false);
            }
            match x.twin {
                Some(t) => {
                    assert(t != a && t != b);
                    assert(half_edge_fits(s, t));
                    assert(p.half_edges[s.half_edges[t].next].origin == s.half_edges[s.half_edges[t].next].origin);
                },
                None => {},
            }
        } else {
            assert(p.half_edges[hb.next].origin == s.half_edges[hb.next].origin);
            assert(p.half_edges[ha.next].origin == s.half_edges[ha.next].origin);
        }
    }
    assert forall|e: u64| p.edges.dom().contains(e) implies #[trigger] edge_fits(p, e) by {
        assert(edge_fits(s, e));
    }
    assert forall|f: u64| p.faces.dom().contains(f) implies #[trigger] face_fits(p, f) by {
        assert(face_fits(s, f));
    }
}

/// A face's outer loop passes through a vertex.
pub open spec fn face_touches(s: SolidView, f: u64, v: u64) -> bool {
    exists|i: int| 0 <= i < s.faces[f].outer_loop@.len() && s.half_edges[#[trigger] s.faces[f].outer_loop@[i]].origin == v
}

/// The faces among `ks` whose outer loop passes through `v`, in order.
pub open spec fn faces_at_vertex(s: SolidView, ks: Seq<u64>, v: u64) -> Seq<u64> {
    ks.filter(|f: u64| face_touches(s, f, v))
}

/// The edges among `ks` that end at `v`, in order.
pub open spec fn edges_at_vertex(s: SolidView, ks: Seq<u64>, v: u64) -> Seq<u64> {
    ks.filter(|e: u64| edge_touches(s, e, v))
}

/// An edge ends at a vertex.
pub open spec fn edge_touches(s: SolidView, e: u64, v: u64) -> bool {
    s.edges[e].v_start == v || s.edges[e].v_end == v
}

impl Solid {
    /// An empty solid.
    pub fn new() -> (r: Self)
        ensures
            solid_wf(r@),
            r@.vertices.dom().is_empty(),
            r@.half_edges.dom().is_empty(),
            r@.edges.dom().is_empty(),
            r@.faces.dom().is_empty(),
    {
        Solid {
            vertices: VertexSlots::new(),
            half_edges: HalfEdgeSlots::new(),
            edges: EdgeSlots::new(),
            faces: FaceSlots::new(),
        }
    }

    /// Adds a vertex at the point numbered `point`; gives its id.
    pub fn add_vertex(&mut self, point: u64) -> (id: u64)
        requires
            solid_wf(old(self)@),
            old(self)@.vertices.len() < u32::MAX - 1,
        ensures
            solid_wf(final(self)@),
            !old(self)@.vertices.dom().contains(id),
            final(self)@.vertices == old(self)@.vertices.insert(id, BRepVertex { point }),
            final(self)@.half_edges == old(self)@.half_edges,
            final(self)@.edges == old(self)@.edges,
            final(self)@.faces == old(self)@.faces,
    {
        let id = self.vertices.insert(BRepVertex { point });
        proof {
            let s = self@;
            assert forall|k: u64| s.half_edges.dom().contains(k) implies #[trigger] half_edge_fits(s, k) by {
                assert(half_edge_fits(old(self)@, k));
            }
            assert forall|e: u64| s.edges.dom().contains(e) implies #[trigger] edge_fits(s, e) by {
                assert(edge_fits(old(self)@, e));
            }
            assert forall|f: u64| s.faces.dom().contains(f) implies #[trigger] face_fits(s, f) by {
                assert(face_fits(old(self)@, f));
            }
        }
        id
    }

    /// Adds a face on the surface numbered `surface` whose outer loop runs
    /// through `vertex_ids` in order, creating one edge and one half-edge
    /// per side; gives the face's id.
    #[verifier::rlimit(100)]
    pub fn add_face_from_vertices(&mut self, surface: u64, vertex_ids: &Vec<u64>, outward: bool) -> (fid: u64)
        requires
            solid_wf(old(self)@),
            forall|i: int| 0 <= i < vertex_ids@.len() ==> old(self)@.vertices.dom().contains(#[trigger] vertex_ids@[i]),
            old(self)@.faces.len() < u32::MAX - 1,
            old(self)@.half_edges.len() + vertex_ids@.len() < u32::MAX - 1,
            old(self)@.edges.len() + vertex_ids@.len() < u32::MAX - 1,
        ensures
            solid_wf(final(self)@),
            face_added(old(self)@, final(self)@, fid, surface, vertex_ids@, outward),
    {
        let ghost o = self@;
        let ghost vs = vertex_ids@;
        let fid = self.faces.insert(BRepFace { surface, outer_loop: Vec::new(), holes: Vec::new(), normal_outward: outward });
        let n = vertex_ids.len();
        let mut he_ids: Vec<u64> = Vec::new();
        let ghost mut es: Seq<u64> = Seq::empty();
        let mut i: usize = 0;
        while i < n
            invariant
                n == vs.len(),
                vs == vertex_ids@,
                i <= n,
                solid_wf(o),
                forall|j: int| 0 <= j < vs.len() ==> o.vertices.dom().contains(#[trigger] vs[j]),
                o.half_edges.len() + n < u32::MAX - 1,
                o.edges.len() + n < u32::MAX - 1,
                !o.faces.dom().contains(fid),
                fid != NO_ID,
                self@.vertices == o.vertices,
                self@.faces.dom() == o.faces.dom().insert(fid),
                forall|f: u64| o.faces.dom().contains(f) ==> self@.faces[f] == o.faces[f],
                self@.faces[fid].surface == surface,
                self@.faces[fid].holes@.len() == 0,
                self@.faces[fid].normal_outward == outward,
                self@.faces.dom().finite(),
                he_ids@.len() == i,
                es.len() == i,
                he_ids@.no_duplicates(),
                es.no_duplicates(),
                forall|j: int| 0 <= j < i ==> !o.half_edges.dom().contains(#[trigger] he_ids@[j]) && he_ids@[j] != NO_ID,
                forall|j: int| 0 <= j < i ==> !o.edges.dom().contains(#[trigger] es[j]) && es[j] != NO_ID,
                self@.half_edges.dom() == o.half_edges.dom() + he_ids@.to_set(),
                self@.edges.dom() == o.edges.dom() + es.to_set(),
                self@.half_edges.dom().finite(),
                self@.edges.dom().finite(),
                self@.half_edges.len() == o.half_edges.len() + i,
                self@.edges.len() == o.edges.len() + i,
                forall|k: u64| o.half_edges.dom().contains(k) ==> self@.half_edges[k] == o.half_edges[k],
                forall|e: u64| o.edges.dom().contains(e) ==> self@.edges[e] == o.edges[e],
                forall|j: int| 0 <= j < i ==> self@.half_edges[#[trigger] he_ids@[j]] == (HalfEdge {
                    origin: vs[j],
                    edge: es[j],
                    face: fid,
                    next: NO_ID,
                    twin: None,
                }),
                forall|j: int| 0 <= j < i ==> self@.edges[#[trigger] es[j]] == loop_edge(vs, he_ids@, j),
            decreases n - i,
        {
            let v_start = vertex_ids[i];
            let v_end = vertex_ids[(i + 1) % n];
            let ghost before_he = self@.half_edges;
            let ghost before_e = self@.edges;
            let edge_id = self.edges.insert(BRepEdge { half_edges: [NO_ID, NO_ID], v_start, v_end });
            let he_id = self.half_edges.insert(HalfEdge { origin: v_start, edge: edge_id, face: fid, next: NO_ID, twin: None });
            self.edges.set(edge_id, BRepEdge { half_edges: [he_id, NO_ID], v_start, v_end });
            proof {
                assert(!he_ids@.contains(he_id)) by {
                    if he_ids@.contains(he_id) {
                        let j = he_ids@.index_of(he_id);
                        assert(before_he.dom().contains(he_ids@[j]));
                    }
                }
                assert(!es.contains(edge_id)) by {
                    if es.contains(edge_id) {
                        let j = es.index_of(edge_id);
                        assert(before_e.dom().contains(es[j]));
                    }
                }
            }
            let ghost prev_he = he_ids@;
            let ghost prev_es = es;
            he_ids.push(he_id);
            proof {
                es = es.push(edge_id);
                prev_he.lemma_push_to_set_commute(he_id);
                prev_es.lemma_push_to_set_commute(edge_id);
                assert(self@.half_edges.dom() =~= o.half_edges.dom() + he_ids@.to_set());
                assert(self@.edges.dom() =~= o.edges.dom() + es.to_set());
                assert forall|j: int| 0 <= j < i + 1 implies self@.edges[#[trigger] es[j]] == loop_edge(vs, he_ids@, j) by {
                    if j < i {
                        assert(es[j] != edge_id);
                    }
                }
                assert forall|j: int| 0 <= j < i + 1 implies self@.half_edges[#[trigger] he_ids@[j]] == (HalfEdge {
                    origin: vs[j],
                    edge: es[j],
                    face: fid,
                    next: NO_ID,
                    twin: None,
                }) by {
                    if j < i {
                        assert(he_ids@[j] != he_id);
                    }
                }
            }
            i = i + 1;
        }
        let mut k: usize = 0;
        while k < n
            invariant
                n == vs.len() == he_ids@.len() == es.len(),
                vs == vertex_ids@,
                k <= n,
                solid_wf(o),
                forall|j: int| 0 <= j < vs.len() ==> o.vertices.dom().contains(#[trigger] vs[j]),
                !o.faces.dom().contains(fid),
                fid != NO_ID,
                self@.vertices == o.vertices,
                self@.faces.dom() == o.faces.dom().insert(fid),
                forall|f: u64| o.faces.dom().contains(f) ==> self@.faces[f] == o.faces[f],
                self@.faces[fid].surface == surface,
                self@.faces[fid].holes@.len() == 0,
                self@.faces[fid].normal_outward == outward,
                self@.faces.dom().finite(),
                he_ids@.no_duplicates(),
                es.no_duplicates(),
                forall|j: int| 0 <= j < n ==> !o.half_edges.dom().contains(#[trigger] he_ids@[j]) && he_ids@[j] != NO_ID,
                forall|j: int| 0 <= j < n ==> !o.edges.dom().contains(#[trigger] es[j]) && es[j] != NO_ID,
                self@.half_edges.dom() == o.half_edges.dom() + he_ids@.to_set(),
                self@.edges.dom() == o.edges.dom() + es.to_set(),
                self@.half_edges.dom().finite(),
                self@.edges.dom().finite(),
                forall|q: u64| o.half_edges.dom().contains(q) ==> self@.half_edges[q] == o.half_edges[q],
                forall|e: u64| o.edges.dom().contains(e) ==> self@.edges[e] == o.edges[e],
                forall|j: int| 0 <= j < k ==> self@.half_edges[#[trigger] he_ids@[j]] == loop_half_edge(vs, he_ids@, es, fid, j),
                forall|j: int| k <= j < n ==> self@.half_edges[#[trigger] he_ids@[j]] == (HalfEdge {
                    origin: vs[j],
                    edge: es[j],
                    face: fid,
                    next: NO_ID,
                    twin: None,
                }),
                forall|j: int| 0 <= j < n ==> self@.edges[#[trigger] es[j]] == loop_edge(vs, he_ids@, j),
            decreases n - k,
        {
            let h = self.half_edges.get(he_ids[k]);
            let nx = he_ids[(k + 1) % n];
            self.half_edges.set(he_ids[k], HalfEdge { next: nx, ..h });
            proof {
                assert(o.half_edges.dom().contains(he_ids@[k as int]) == false);
                assert forall|j: int| 0 <= j < k + 1 implies self@.half_edges[#[trigger] he_ids@[j]] == loop_half_edge(
                    vs,
                    he_ids@,
                    es,
                    fid,
                    j,
                ) by {
                    if j < k {
                        assert(he_ids@[j] != he_ids@[k as int]);
                    }
                }
                assert forall|j: int| k + 1 <= j < n implies self@.half_edges[#[trigger] he_ids@[j]] == (HalfEdge {
                    origin: vs[j],
                    edge: es[j],
                    face: fid,
                    next: NO_ID,
                    twin: None,
                }) by {
                    assert(he_ids@[j] != he_ids@[k as int]);
                }
                assert forall|q: u64| o.half_edges.dom().contains(q) implies self@.half_edges[q] == o.half_edges[q] by {
                    assert(q != he_ids@[k as int]);
                }
            }
            k = k + 1;
        }
        let f0 = self.faces.get(fid);
        let ghost hes = he_ids@;
        self.faces.set(fid, BRepFace { outer_loop: he_ids, ..f0 });
        proof {
            let s1 = self@;
            assert(s1.faces[fid].outer_loop@ == hes);
            assert(hes.map_values(|h: u64| s1.half_edges[h].edge) =~= es);
            assert forall|q: u64| s1.half_edges.dom().contains(q) implies #[trigger] half_edge_fits(s1, q) by {
                if o.half_edges.dom().contains(q) {
                    assert(half_edge_fits(o, q));
                    let x = o.half_edges[q];
                    assert(s1.edges[x.edge] == o.edges[x.edge]);
                    assert(s1.half_edges[x.next] == o.half_edges[x.next]);
                    if let Some(t) = x.twin {
                        assert(s1.half_edges[t] == o.half_edges[t]);
                        assert(half_edge_fits(o, t));
                        assert(s1.half_edges[o.half_edges[t].next] == o.half_edges[o.half_edges[t].next]);
                    }
                } else {
                    assert(hes.to_set().contains(q));
                    let j = hes.index_of(q);
                    assert(s1.half_edges[hes[j]] == loop_half_edge(vs, hes, es, fid, j));
                    assert(s1.half_edges.dom().contains(hes[(j + 1) % n as int]));
                    assert(s1.edges.dom().contains(es[j]));
                    assert(s1.edges[es[j]] == loop_edge(vs, hes, j));
                }
            }
            assert forall|e: u64| s1.edges.dom().contains(e) implies #[trigger] edge_fits(s1, e) by {
                if o.edges.dom().contains(e) {
                    assert(edge_fits(o, e));
                } else {
                    assert(es.to_set().contains(e));
                    let j = es.index_of(e);
                    assert(s1.edges[es[j]] == loop_edge(vs, hes, j));
                    assert(s1.half_edges.dom().contains(hes[j]));
                }
            }
            assert forall|f: u64| s1.faces.dom().contains(f) implies #[trigger] face_fits(s1, f) by {
                if f != fid {
                    assert(face_fits(o, f));
                    let z = s1.faces[f];
                    assert(z == o.faces[f]);
                    assert forall|i: int| 0 <= i < z.outer_loop@.len() implies s1.half_edges.dom().contains(
                        #[trigger] z.outer_loop@[i],
                    ) by {
                        assert(o.half_edges.dom().contains(z.outer_loop@[i]));
                    }
                    assert forall|i: int, j: int| 0 <= i < z.holes@.len() && 0 <= j < z.holes@[i]@.len()
                        implies s1.half_edges.dom().contains(#[trigger] z.holes@[i]@[j]) by {
                        assert(o.half_edges.dom().contains(z.holes@[i]@[j]));
                    }
                } else {
                    assert forall|i: int| 0 <= i < s1.faces[f].outer_loop@.len() implies s1.half_edges.dom().contains(
                        #[trigger] s1.faces[f].outer_loop@[i],
                    ) by {
                        assert(hes.to_set().contains(hes[i]));
                    }
                }
            }
            assert(!s1.faces.dom().contains(NO_ID));
            assert(!s1.half_edges.dom().contains(NO_ID));
            assert(!s1.edges.dom().contains(NO_ID));
            let es2 = hes.map_values(|h: u64| s1.half_edges[h].edge);
            assert(es2 == es);
            assert(s1.faces.dom() =~= o.faces.dom().insert(fid));
            assert forall|f: u64| o.faces.dom().contains(f) implies s1.faces[f] == o.faces[f] by {
                assert(f != fid);
            }
            assert(s1.faces[fid].surface == surface);
            assert(s1.faces[fid].holes@.len() == 0);
            assert(s1.faces[fid].normal_outward == outward);
            assert(hes.len() == vs.len());
            assert forall|i: int| 0 <= i < hes.len() implies s1.half_edges[#[trigger] hes[i]] == loop_half_edge(vs, hes, es2, fid, i) by {
            }
            assert forall|i: int| 0 <= i < es2.len() implies s1.edges[#[trigger] es2[i]] == loop_edge(vs, hes, i) by {
            }
            assert(s1.vertices == o.vertices);
        }
        fid
    }

    /// Makes twins of half-edges: in the map's key order, each half-edge
    /// still without a twin is paired with the first later one without a
    /// twin that runs between the same two vertices the other way; the
    /// second then shares the first one's edge, and its own edge is
    /// removed.
    pub fn link_twins(&mut self)
        requires
            solid_wf(old(self)@),
        ensures
            solid_wf(final(self)@),
            exists|ks: Seq<u64>|
                #![trigger link_from(old(self)@, ks, 0)]
                ks.no_duplicates() && ks.to_set() == old(self)@.half_edges.dom() && final(self)@ == link_from(
                    old(self)@,
                    ks,
                    0,
                ),
            final(self)@.vertices == old(self)@.vertices,
            final(self)@.faces == old(self)@.faces,
            final(self)@.half_edges.dom() == old(self)@.half_edges.dom(),
            forall|k: u64| old(self)@.half_edges.dom().contains(k) ==> {
                let x = #[trigger] final(self)@.half_edges[k];
                x.origin == old(self)@.half_edges[k].origin && x.next == old(self)@.half_edges[k].next && x.face
                    == old(self)@.half_edges[k].face
            },
    {
        let ghost o = self@;
        let ks = self.half_edges.keys();
        let n = ks.len();
        let mut i: usize = 0;
        while i < n
            invariant
                n == ks@.len(),
                i <= n,
                solid_wf(self@),
                ks@.no_duplicates(),
                ks@.to_set() == o.half_edges.dom(),
                self@.half_edges.dom() == o.half_edges.dom(),
                self@.vertices == o.vertices,
                self@.faces == o.faces,
                forall|k: u64| o.half_edges.dom().contains(k) ==> {
                    let x = #[trigger] self@.half_edges[k];
                    x.origin == o.half_edges[k].origin && x.next == o.half_edges[k].next && x.face == o.half_edges[k].face
                },
                link_from(self@, ks@, i as int) == link_from(o, ks@, 0),
            decreases n - i,
        {
            let a = ks[i];
            assert(ks@.to_set().contains(ks@[i as int]));
            let ha = self.half_edges.get(a);
            if ha.twin.is_none() {
                let vsa = ha.origin;
                proof {
                    assert(half_edge_fits(self@, a));
                }
                let vea = self.half_edges.get(ha.next).origin;
                let ghost si = self@;
                let mut j: usize = i + 1;
                let mut done = false;
                while j < n && !done
                    invariant
                        n == ks@.len(),
                        i < n,
                        i + 1 <= j <= n,
                        a == ks@[i as int],
                        ks@.no_duplicates(),
                        ks@.to_set() == o.half_edges.dom(),
                        si.half_edges.dom() == o.half_edges.dom(),
                        solid_wf(si),
                        si.half_edges[a] == ha,
                        ha.twin is None,
                        vsa == si.half_edges[a].origin,
                        vea == half_edge_end(si, a),
                        !done ==> self@ == si && twin_search(si, ks@, i as int, j as int) == twin_search(
                            si,
                            ks@,
                            i as int,
                            i + 1,
                        ),
                        done ==> self@ == twin_search(si, ks@, i as int, i + 1),
                        solid_wf(self@),
                        self@.half_edges.dom() == o.half_edges.dom(),
                        self@.vertices == si.vertices,
                        self@.faces == si.faces,
                        forall|k: u64| si.half_edges.dom().contains(k) ==> {
                            let x = #[trigger] self@.half_edges[k];
                            x.origin == si.half_edges[k].origin && x.next == si.half_edges[k].next && x.face
                                == si.half_edges[k].face
                        },
                    decreases n - j,
                {
                    let b = ks[j];
                    assert(ks@.to_set().contains(ks@[j as int]));
                    let hb = self.half_edges.get(b);
                    if hb.twin.is_none() {
                        let vsb = hb.origin;
                        proof {
                            assert(half_edge_fits(self@, b));
                        }
                        let veb = self.half_edges.get(hb.next).origin;
                        if vsa == veb && vea == vsb {
                            assert(a != b);
                            proof {
                                assert(half_edge_fits(si, a));
                                lemma_paired_wf(si, a, b);
                            }
                            self.half_edges.set(a, HalfEdge { twin: Some(b), ..ha });
                            self.half_edges.set(b, HalfEdge { twin: Some(a), edge: ha.edge, ..hb });
                            let ea = self.edges.get(ha.edge);
                            self.edges.set(ha.edge, BRepEdge { half_edges: [ea.half_edges[0], b], ..ea });
                            proof {
                                assert(half_edge_fits(si, b));
                                assert(hb.edge != ha.edge);
                            }
                            self.edges.remove(hb.edge);
                            proof {
                                let pr = paired(si, a, b);
                                assert(self@.half_edges =~= pr.half_edges);
                                assert(self@.edges =~= pr.edges);
                                assert(self@ =~= pr);
                            }
                            done = true;
                        }
                    }
                    j = j + 1;
                }
                proof {
                    if !done {
                        assert(twin_search(si, ks@, i as int, j as int) == si);
                    }
                }
            }
            i = i + 1;
        }
        proof {
            assert(link_from(self@, ks@, n as int) == self@);
        }
    }

    /// The vertices of a face's outer loop, in order.
    pub fn face_vertices(&self, face_id: u64) -> (r: Vec<u64>)
        requires
            solid_wf(self@),
            self@.faces.dom().contains(face_id),
        ensures
            r@ == self@.faces[face_id].outer_loop@.map_values(|h: u64| self@.half_edges[h].origin),
    {
        let face = self.faces.get(face_id);
        proof {
            assert(face_fits(self@, face_id));
        }
        let mut r: Vec<u64> = Vec::new();
        let mut i: usize = 0;
        while i < face.outer_loop.len()
            invariant
                face == self@.faces[face_id],
                forall|q: int| 0 <= q < face.outer_loop@.len() ==> self@.half_edges.dom().contains(#[trigger] face.outer_loop@[q]),
                i <= face.outer_loop@.len(),
                r@ == face.outer_loop@.take(i as int).map_values(|h: u64| self@.half_edges[h].origin),
            decreases face.outer_loop.len() - i,
        {
            let h = self.half_edges.get(face.outer_loop[i]);
            r.push(h.origin);
            assert(face.outer_loop@.take(i + 1).map_values(|h: u64| self@.half_edges[h].origin) =~= face.outer_loop@.take(
                i as int,
            ).map_values(|h: u64| self@.half_edges[h].origin).push(h.origin));
            i = i + 1;
        }
        assert(face.outer_loop@.take(face.outer_loop@.len() as int) =~= face.outer_loop@);
        r
    }

    /// The edges of a face's outer loop, in order.
    pub fn edges_of_face(&self, face_id: u64) -> (r: Vec<u64>)
        requires
            solid_wf(self@),
            self@.faces.dom().contains(face_id),
        ensures
            r@ == self@.faces[face_id].outer_loop@.map_values(|h: u64| self@.half_edges[h].edge),
    {
        let face = self.faces.get(face_id);
        proof {
            assert(face_fits(self@, face_id));
        }
        let mut r: Vec<u64> = Vec::new();
        let mut i: usize = 0;
        while i < face.outer_loop.len()
            invariant
                face == self@.faces[face_id],
                forall|q: int| 0 <= q < face.outer_loop@.len() ==> self@.half_edges.dom().contains(#[trigger] face.outer_loop@[q]),
                i <= face.outer_loop@.len(),
                r@ == face.outer_loop@.take(i as int).map_values(|h: u64| self@.half_edges[h].edge),
            decreases face.outer_loop.len() - i,
        {
            let h = self.half_edges.get(face.outer_loop[i]);
            r.push(h.edge);
            assert(face.outer_loop@.take(i + 1).map_values(|h: u64| self@.half_edges[h].edge) =~= face.outer_loop@.take(
                i as int,
            ).map_values(|h: u64| self@.half_edges[h].edge).push(h.edge));
            i = i + 1;
        }
        assert(face.outer_loop@.take(face.outer_loop@.len() as int) =~= face.outer_loop@);
        r
    }

    /// The two vertices of an edge: start and end.
    pub fn vertices_of_edge(&self, edge_id: u64) -> (r: (u64, u64))
        requires
            solid_wf(self@),
            self@.edges.dom().contains(edge_id),
        ensures
            r == (self@.edges[edge_id].v_start, self@.edges[edge_id].v_end),
    {
        let e = self.edges.get(edge_id);
        (e.v_start, e.v_end)
    }

    /// The faces on either side of an edge: that of its first half-edge, and
    /// that of its second when it has one.
    pub fn faces_of_edge(&self, edge_id: u64) -> (r: Vec<u64>)
        requires
            solid_wf(self@),
            self@.edges.dom().contains(edge_id),
        ensures
            ({
                let y = self@.edges[edge_id];
                r@ == if y.half_edges[1] != NO_ID {
                    seq![self@.half_edges[y.half_edges[0]].face, self@.half_edges[y.half_edges[1]].face]
                } else {
                    seq![self@.half_edges[y.half_edges[0]].face]
                }
            }),
    {
        let e = self.edges.get(edge_id);
        proof {
            assert(edge_fits(self@, edge_id));
        }
        let mut faces: Vec<u64> = Vec::new();
        faces.push(self.half_edges.get(e.half_edges[0]).face);
        if e.half_edges[1] != NO_ID {
            faces.push(self.half_edges.get(e.half_edges[1]).face);
        }
        assert(faces@ =~= if e.half_edges[1] != NO_ID {
            seq![self@.half_edges[e.half_edges[0]].face, self@.half_edges[e.half_edges[1]].face]
        } else {
            seq![self@.half_edges[e.half_edges[0]].face]
        });
        faces
    }

    /// The faces whose outer loop passes through a vertex, in the map's
    /// key order.
    pub fn faces_of_vertex(&self, vertex_id: u64) -> (r: Vec<u64>)
        requires
            solid_wf(self@),
        ensures
            exists|ks: Seq<u64>|
                #![trigger faces_at_vertex(self@, ks, vertex_id)]
                ks.no_duplicates() && ks.to_set() == self@.faces.dom() && r@ == faces_at_vertex(self@, ks, vertex_id),
    {
        let ks = self.faces.keys();
        let ghost pred = |f: u64| face_touches(self@, f, vertex_id);
        let mut result: Vec<u64> = Vec::new();
        let mut i: usize = 0;
        while i < ks.len()
            invariant
                i <= ks@.len(),
                ks@.to_set() == self@.faces.dom(),
                solid_wf(self@),
                pred == (|f: u64| face_touches(self@, f, vertex_id)),
                result@ == ks@.take(i as int).filter(pred),
            decreases ks.len() - i,
        {
            let fid = ks[i];
            assert(ks@.to_set().contains(ks@[i as int]));
            let face = self.faces.get(fid);
            proof {
                assert(face_fits(self@, fid));
            }
            let mut found = false;
            let mut q: usize = 0;
            while q < face.outer_loop.len() && !found
                invariant
                    face == self@.faces[fid],
                    forall|t: int| 0 <= t < face.outer_loop@.len() ==> self@.half_edges.dom().contains(#[trigger] face.outer_loop@[t]),
                    q <= face.outer_loop@.len(),
                    found ==> face_touches(self@, fid, vertex_id),
                    !found ==> forall|t: int| 0 <= t < q ==> self@.half_edges[#[trigger] face.outer_loop@[t]].origin != vertex_id,
                decreases face.outer_loop.len() - q,
            {
                if self.half_edges.get(face.outer_loop[q]).origin == vertex_id {
                    found = true;
                }
                q = q + 1;
            }
            assert(found == face_touches(self@, fid, vertex_id));
            if found {
                result.push(fid);
            }
            proof {
                reveal(Seq::filter);
                assert(ks@.take(i + 1).drop_last() =~= ks@.take(i as int));
                assert(ks@.take(i + 1).last() == ks@[i as int]);
            }
            i = i + 1;
        }
        assert(ks@.take(ks@.len() as int) =~= ks@);
        assert(result@ == faces_at_vertex(self@, ks@, vertex_id));
        result
    }

    /// The edges ending at a vertex, in the map's key order.
    pub fn edges_of_vertex(&self, vertex_id: u64) -> (r: Vec<u64>)
        requires
            solid_wf(self@),
        ensures
            exists|ks: Seq<u64>|
                #![trigger edges_at_vertex(self@, ks, vertex_id)]
                ks.no_duplicates() && ks.to_set() == self@.edges.dom() && r@ == edges_at_vertex(self@, ks, vertex_id),
    {
        let ks = self.edges.keys();
        let ghost pred = |e: u64| edge_touches(self@, e, vertex_id);
        let mut result: Vec<u64> = Vec::new();
        let mut i: usize = 0;
        while i < ks.len()
            invariant
                i <= ks@.len(),
                ks@.to_set() == self@.edges.dom(),
                pred == (|e: u64| edge_touches(self@, e, vertex_id)),
                result@ == ks@.take(i as int).filter(pred),
            decreases ks.len() - i,
        {
            let eid = ks[i];
            assert(ks@.to_set().contains(ks@[i as int]));
            let e = self.edges.get(eid);
            if e.v_start == vertex_id || e.v_end == vertex_id {
                result.push(eid);
            }
            proof {
                reveal(Seq::filter);
                assert(ks@.take(i + 1).drop_last() =~= ks@.take(i as int));
                assert(ks@.take(i + 1).last() == ks@[i as int]);
            }
            i = i + 1;
        }
        assert(ks@.take(ks@.len() as int) =~= ks@);
        assert(result@ == edges_at_vertex(self@, ks@, vertex_id));
        result
    }

    /// The number of vertices.
    pub fn vertex_count(&self) -> (r: usize)
        requires
            solid_wf(self@),
        ensures
            r == self@.vertices.len(),
    {
        self.vertices.len()
    }

    /// The number of edges.
    pub fn edge_count(&self) -> (r: usize)
        requires
            solid_wf(self@),
        ensures
            r == self@.edges.len(),
    {
        self.edges.len()
    }

    /// The number of faces.
    pub fn face_count(&self) -> (r: usize)
        requires
            solid_wf(self@),
        ensures
            r == self@.faces.len(),
    {
        self.faces.len()
    }

    /// The Euler characteristic V - E + F.
    pub fn euler_characteristic(&self) -> (r: i32)
        requires
            solid_wf(self@),
            self@.vertices.len() <= 0x3fff_ffff,
            self@.edges.len() <= 0x3fff_ffff,
            self@.faces.len() <= 0x3fff_ffff,
        ensures
            r == self@.vertices.len() - self@.edges.len() + self@.faces.len(),
    {
        self.vertices.len() as i32 - self.edges.len() as i32 + self.faces.len() as i32
    }

    /// A closed shell has Euler characteristic 2.
    pub fn is_valid_shell(&self) -> (r: bool)
        requires
            solid_wf(self@),
            self@.vertices.len() <= 0x3fff_ffff,
            self@.edges.len() <= 0x3fff_ffff,
            self@.faces.len() <= 0x3fff_ffff,
        ensures
            r == (self@.vertices.len() - self@.edges.len() + self@.faces.len() == 2),
    {
        self.euler_characteristic() == 2
    }

    /// The ids of all edges, each once, in slot order.
    pub fn edge_ids(&self) -> (r: Vec<u64>)
        requires
            solid_wf(self@),
        ensures
            r@.no_duplicates(),
            r@.to_set() == self@.edges.dom(),
            in_slot_order(r@),
    {
        self.edges.keys()
    }

    /// The ids of all faces, each once, in slot order.
    pub fn face_ids(&self) -> (r: Vec<u64>)
        requires
            solid_wf(self@),
        ensures
            r@.no_duplicates(),
            r@.to_set() == self@.faces.dom(),
            in_slot_order(r@),
    {
        self.faces.keys()
    }
}


/// In a well-formed solid twins come in pairs: a half-edge's twin has it
/// as twin, lies on the same edge, and runs between the same two vertices
/// the other way.
pub proof fn lemma_twins_pair_up(s: SolidView, k: u64)
    requires
        solid_wf(s),
        s.half_edges.dom().contains(k),
        s.half_edges[k].twin is Some,
    ensures
        ({
            let t = s.half_edges[k].twin->0;
            &&& s.half_edges.dom().contains(t)
            &&& t != k
            &&& s.half_edges[t].twin == Some(k)
            &&& s.half_edges[t].edge == s.half_edges[k].edge
            &&& opposite(s, k, t)
        }),
{
    assert(half_edge_fits(s, k));
}

/// A face built from a vertex loop gives that loop back: its outer loop's
/// origins are the vertices in order, and each half-edge's next one is the
/// following half-edge round the loop.
pub proof fn lemma_added_face_loop(
    old: SolidView,
    new: SolidView,
    fid: u64,
    surface: u64,
    vs: Seq<u64>,
    outward: bool,
)
    requires
        face_added(old, new, fid, surface, vs, outward),
    ensures
        new.faces[fid].outer_loop@.map_values(|h: u64| new.half_edges[h].origin) == vs,
        forall|i: int| 0 <= i < vs.len() ==> #[trigger] new.half_edges[new.faces[fid].outer_loop@[i]].next
            == new.faces[fid].outer_loop@[(i + 1) % vs.len() as int],
{
    let hes = new.faces[fid].outer_loop@;
    let es = hes.map_values(|h: u64| new.half_edges[h].edge);
    assert forall|i: int| 0 <= i < vs.len() implies #[trigger] new.half_edges[hes[i]].next == hes[(i + 1) % vs.len() as int] by {
        assert(new.half_edges[hes[i]] == loop_half_edge(vs, hes, es, fid, i));
    }
    assert forall|i: int| 0 <= i < vs.len() implies hes.map_values(|h: u64| new.half_edges[h].origin)[i] == vs[i] by {
        assert(new.half_edges[hes[i]] == loop_half_edge(vs, hes, es, fid, i));
    }
    assert(hes.map_values(|h: u64| new.half_edges[h].origin) =~= vs);
}

/// Building a face from a loop of `n` vertices adds one face, `n`
/// half-edges and `n` edges, and no vertex.
pub proof fn lemma_added_face_counts(
    old: SolidView,
    new: SolidView,
    fid: u64,
    surface: u64,
    vs: Seq<u64>,
    outward: bool,
)
    requires
        solid_wf(old),
        face_added(old, new, fid, surface, vs, outward),
    ensures
        new.faces.len() == old.faces.len() + 1,
        new.half_edges.len() == old.half_edges.len() + vs.len(),
        new.edges.len() == old.edges.len() + vs.len(),
        new.vertices.len() == old.vertices.len(),
{
    let hes = new.faces[fid].outer_loop@;
    let es = hes.map_values(|h: u64| new.half_edges[h].edge);
    hes.unique_seq_to_set();
    es.unique_seq_to_set();
    assert(old.half_edges.dom().disjoint(hes.to_set()));
    assert(old.edges.dom().disjoint(es.to_set()));
    vstd::set_lib::lemma_set_disjoint_lens(old.half_edges.dom(), hes.to_set());
    vstd::set_lib::lemma_set_disjoint_lens(old.edges.dom(), es.to_set());
}

} // verus!
