//! The bookkeeping of a boolean of two solids: which faces are kept and
//! which are flipped, given on which side of the other solid each face's
//! centroid lies (a floating-point test made outside), and the copying of
//! the kept faces, each with fresh vertices at its corners' points, into a
//! new solid whose twins are then linked.
use vstd::prelude::*;
use crate::brep::BooleanOp;
use crate::solid::{
    Solid, SolidView, solid_wf, face_fits, half_edge_fits, link_from, lemma_added_face_loop, lemma_added_face_counts,
};
use crate::shell::{loop_of, face_loops, loops_total};

verus! {

/// Whether a face is kept, and whether it is flipped: from the first solid
/// a face is kept outside the second for a union or a subtraction and
/// inside it for an intersection; from the second solid a face is kept
/// outside the first for a union, and inside it, flipped, for a
/// subtraction, and inside it for an intersection.
pub open spec fn keep_face(op: BooleanOp, from_first: bool, inside_other: bool) -> (bool, bool) {
    if from_first {
        match op {
            BooleanOp::Union => (!inside_other, false),
            BooleanOp::Subtract => (!inside_other, false),
            BooleanOp::Intersect => (inside_other, false),
        }
    } else {
        match op {
            BooleanOp::Union => (!inside_other, false),
            BooleanOp::Subtract => (inside_other, true),
            BooleanOp::Intersect => (inside_other, false),
        }
    }
}

/// Whether a face is kept, and whether it is flipped (see `keep_face`).
pub fn face_kept(op: BooleanOp, from_first: bool, inside_other: bool) -> (r: (bool, bool))
    ensures
        r == keep_face(op, from_first, inside_other),
{
    if from_first {
        match op {
            BooleanOp::Union => (!inside_other, false),
            BooleanOp::Subtract => (!inside_other, false),
            BooleanOp::Intersect => (inside_other, false),
        }
    } else {
        match op {
            BooleanOp::Union => (!inside_other, false),
            BooleanOp::Subtract => (inside_other, true),
            BooleanOp::Intersect => (inside_other, false),
        }
    }
}

/// Whether a point lies in the result of `op`, from whether it lies in the
/// first solid and in the second: either for a union, the first but not
/// the second for a subtraction, both for an intersection.
pub open spec fn in_result(op: BooleanOp, in_first: bool, in_second: bool) -> bool {
    match op {
        BooleanOp::Union => in_first || in_second,
        BooleanOp::Subtract => in_first && !in_second,
        BooleanOp::Intersect => in_first && in_second,
    }
}

/// The faces of a boolean's result are the faces that separate its
/// material from the outside. A face of one solid whose centroid lies
/// inside the other solid or not (`inside_other`) has that solid's
/// material on its inner side and none on its outer side; it is kept
/// exactly when the result holds material on one side of it and not on the
/// other, and a kept face is flipped exactly when the result's material
/// lies on its outer side, so that it faces out of the result. Only a
/// subtraction flips faces at all.
pub proof fn lemma_kept_faces_bound_result(op: BooleanOp, from_first: bool, inside_other: bool)
    ensures
        ({
            let inner = if from_first { in_result(op, true, inside_other) } else { in_result(op, inside_other, true) };
            let outer = if from_first { in_result(op, false, inside_other) } else { in_result(op, inside_other, false) };
            let (keep, flip) = keep_face(op, from_first, inside_other);
            &&& keep == (inner != outer)
            &&& keep ==> (flip == outer)
        }),
        op != BooleanOp::Subtract ==> !keep_face(op, from_first, inside_other).1,
{
}

/// The faces kept among the first `n` of `fs`, each with whether it is
/// flipped, in order.
pub open spec fn kept_faces(fs: Seq<u64>, inside: Seq<bool>, op: BooleanOp, from_first: bool, n: nat) -> Seq<(u64, bool)>
    decreases n,
{
    if n == 0 {
        Seq::empty()
    } else {
        let p = kept_faces(fs, inside, op, from_first, (n - 1) as nat);
        let (keep, flip) = keep_face(op, from_first, inside[n - 1]);
        if keep { p.push((fs[n - 1], flip)) } else { p }
    }
}

/// Face `f` of `d` copies face `sf` of `s`: its loop runs through vertices
/// at the points of the source loop (reversed when flipped), and it keeps
/// the source's surface and outward flag.
pub open spec fn copied(d: SolidView, f: u64, s: SolidView, sf: u64, flip: bool) -> bool {
    let l = loop_of(s, sf);
    let l2 = if flip { l.reverse() } else { l };
    &&& d.faces.dom().contains(f)
    &&& loop_of(d, f).len() == l2.len()
    &&& forall|j: int| 0 <= j < l2.len() ==> d.vertices.dom().contains(#[trigger] loop_of(d, f)[j])
        && d.vertices[loop_of(d, f)[j]].point == s.vertices[l2[j]].point
    &&& d.faces[f].surface == s.faces[sf].surface
    &&& d.faces[f].normal_outward == s.faces[sf].normal_outward
}

/// `d2` keeps what `d1` had: its faces and half-edges unchanged, and its
/// vertices kept.
pub open spec fn keeps(d1: SolidView, d2: SolidView) -> bool {
    &&& forall|f: u64| #[trigger] d1.faces.dom().contains(f) ==> d2.faces.dom().contains(f) && d2.faces[f] == d1.faces[f]
    &&& forall|h: u64| #[trigger] d1.half_edges.dom().contains(h) ==> d2.half_edges.dom().contains(h) && d2.half_edges[h]
        == d1.half_edges[h]
    &&& forall|v: u64| #[trigger] d1.vertices.dom().contains(v) ==> d2.vertices.dom().contains(v) && d2.vertices[v]
        == d1.vertices[v]
}

proof fn lemma_copied_kept(d1: SolidView, d2: SolidView, f: u64, s: SolidView, sf: u64, flip: bool)
    requires
        solid_wf(d1),
        copied(d1, f, s, sf, flip),
        keeps(d1, d2),
    ensures
        copied(d2, f, s, sf, flip),
{
    assert(face_fits(d1, f));
    assert(d2.faces[f] == d1.faces[f]);
    assert forall|q: int| 0 <= q < d1.faces[f].outer_loop@.len() implies d2.half_edges[#[trigger] d1.faces[f].outer_loop@[q]]
        == d1.half_edges[d1.faces[f].outer_loop@[q]] by {
        assert(d1.half_edges.dom().contains(d1.faces[f].outer_loop@[q]));
    }
    assert(loop_of(d2, f) =~= loop_of(d1, f));
    let l = loop_of(s, sf);
    let l2 = if flip { l.reverse() } else { l };
    assert forall|j: int| 0 <= j < l2.len() implies d2.vertices.dom().contains(#[trigger] loop_of(d2, f)[j])
        && d2.vertices[loop_of(d2, f)[j]].point == s.vertices[l2[j]].point by {
        assert(loop_of(d2, f)[j] == loop_of(d1, f)[j]);
        assert(d1.vertices.dom().contains(loop_of(d1, f)[j]));
        assert(d2.vertices[loop_of(d1, f)[j]] == d1.vertices[loop_of(d1, f)[j]]);
    }
}

/// The vertex paired with `v`, if any.
fn find_pair(map: &Vec<(u64, u64)>, v: u64) -> (r: Option<u64>)
    ensures
        r matches Some(x) ==> exists|mm: int| 0 <= mm < map@.len() && map@[mm] == (v, x),
{
    let mut m: usize = 0;
    while m < map.len()
        invariant
            m <= map@.len(),
        decreases map.len() - m,
    {
        if map[m].0 == v {
            assert(map@[m as int] == (v, map@[m as int].1));
            return Some(map[m].1);
        }
        m = m + 1;
    }
    None
}

/// Copies face `sf` of `src` into `dst`, reversed when `flip`, with fresh
/// vertices at its corners' points (one per distinct corner).
#[verifier::rlimit(60)]
fn copy_face_into(dst: &mut Solid, src: &Solid, sf: u64, flip: bool) -> (f: u64)
    requires
        solid_wf(old(dst)@),
        solid_wf(src@),
        src@.faces.dom().contains(sf),
        old(dst)@.vertices.len() + loop_of(src@, sf).len() < u32::MAX - 1,
        old(dst)@.faces.len() < u32::MAX - 1,
        old(dst)@.half_edges.len() + loop_of(src@, sf).len() < u32::MAX - 1,
        old(dst)@.edges.len() + loop_of(src@, sf).len() < u32::MAX - 1,
    ensures
        solid_wf(final(dst)@),
        !old(dst)@.faces.dom().contains(f),
        final(dst)@.faces.dom() == old(dst)@.faces.dom().insert(f),
        keeps(old(dst)@, final(dst)@),
        copied(final(dst)@, f, src@, sf, flip),
        final(dst)@.faces.len() == old(dst)@.faces.len() + 1,
        final(dst)@.half_edges.len() == old(dst)@.half_edges.len() + loop_of(src@, sf).len(),
        final(dst)@.edges.len() == old(dst)@.edges.len() + loop_of(src@, sf).len(),
        final(dst)@.vertices.len() <= old(dst)@.vertices.len() + loop_of(src@, sf).len(),
{
    let ghost d0 = dst@;
    let l = src.face_vertices(sf);
    let ghost sl = loop_of(src@, sf);
    assert(l@ == sl);
    let ghost l2 = if flip { sl.reverse() } else { sl };
    let mut lv: Vec<u64> = Vec::new();
    if flip {
        let mut k: usize = l.len();
        while k > 0
            invariant
                k <= l@.len(),
                lv@ == l@.skip(k as int).reverse(),
            decreases k,
        {
            lv.push(l[k - 1]);
            assert(l@.skip(k - 1).reverse() =~= l@.skip(k as int).reverse().push(l@[k - 1]));
            k = k - 1;
        }
        assert(l@.skip(0) =~= l@);
    } else {
        let mut k: usize = 0;
        while k < l.len()
            invariant
                k <= l@.len(),
                lv@ == l@.take(k as int),
            decreases l.len() - k,
        {
            lv.push(l[k]);
            assert(l@.take(k + 1) =~= l@.take(k as int).push(l@[k as int]));
            k = k + 1;
        }
        assert(l@.take(l@.len() as int) =~= l@);
    }
    assert(lv@ == l2);
    proof {
        assert forall|j: int| 0 <= j < l2.len() implies src@.vertices.dom().contains(#[trigger] l2[j]) by {
            let jj = if flip { sl.len() - 1 - j } else { j };
            assert(l2[j] == sl[jj]);
            assert(face_fits(src@, sf));
            let h = src@.faces[sf].outer_loop@[jj];
            assert(src@.half_edges.dom().contains(h));
            assert(half_edge_fits(src@, h));
        }
    }
    let mut map: Vec<(u64, u64)> = Vec::new();
    let mut nv: Vec<u64> = Vec::new();
    let mut j: usize = 0;
    while j < lv.len()
        invariant
            lv@ == l2,
            j <= l2.len(),
            l2.len() == sl.len(),
            forall|t: int| 0 <= t < l2.len() ==> src@.vertices.dom().contains(#[trigger] l2[t]),
            d0.vertices.len() + sl.len() < u32::MAX - 1,
            solid_wf(dst@),
            dst@.faces == d0.faces,
            dst@.half_edges == d0.half_edges,
            dst@.edges == d0.edges,
            forall|v: u64| #[trigger] d0.vertices.dom().contains(v) ==> dst@.vertices.dom().contains(v) && dst@.vertices[v]
                == d0.vertices[v],
            dst@.vertices.len() <= d0.vertices.len() + j,
            nv@.len() == j,
            forall|t: int| 0 <= t < j ==> dst@.vertices.dom().contains(#[trigger] nv@[t]) && dst@.vertices[nv@[t]].point
                == src@.vertices[l2[t]].point,
            forall|m: int| 0 <= m < map@.len() ==> dst@.vertices.dom().contains((#[trigger] map@[m]).1) && dst@.vertices[map@[m].1].point
                == src@.vertices[map@[m].0].point,
        decreases l2.len() - j,
    {
        let v = lv[j];
        let found = find_pair(&map, v);
        if let Some(x) = found {
            proof {
                let mm = choose|mm: int| 0 <= mm < map@.len() && map@[mm] == (v, x);
                assert(dst@.vertices.dom().contains(map@[mm].1));
            }
            nv.push(x);
        } else {
            let p = src.vertices.get(v).point;
            let ghost dv = dst@;
            let x = dst.add_vertex(p);
            proof {
                assert forall|t: int| 0 <= t < j implies dst@.vertices.dom().contains(#[trigger] nv@[t]) && dst@.vertices[nv@[t]].point
                    == src@.vertices[l2[t]].point by {
                    assert(dv.vertices.dom().contains(nv@[t]));
                }
                assert forall|mm: int| 0 <= mm < map@.len() implies dst@.vertices.dom().contains((#[trigger] map@[mm]).1)
                    && dst@.vertices[map@[mm].1].point == src@.vertices[map@[mm].0].point by {
                    assert(dv.vertices.dom().contains(map@[mm].1));
                }
                assert forall|w: u64| #[trigger] d0.vertices.dom().contains(w) implies dst@.vertices.dom().contains(w) && dst@.vertices[w]
                    == d0.vertices[w] by {
                    assert(dv.vertices.dom().contains(w));
                }
            }
            map.push((v, x));
            nv.push(x);
        }
        j = j + 1;
    }
    let face = src.faces.get(sf);
    let ghost d1 = dst@;
    proof {
        assert forall|i: int| 0 <= i < nv@.len() implies d1.vertices.dom().contains(#[trigger] nv@[i]) by {}
        assert(d1.half_edges.dom() == d0.half_edges.dom());
    }
    let f = dst.add_face_from_vertices(face.surface, &nv, face.normal_outward);
    proof {
        lemma_added_face_loop(d1, dst@, f, face.surface, nv@, face.normal_outward);
        lemma_added_face_counts(d1, dst@, f, face.surface, nv@, face.normal_outward);
        let d2 = dst@;
        assert(loop_of(d2, f) == nv@);
        assert forall|jj: int| 0 <= jj < l2.len() implies d2.vertices.dom().contains(#[trigger] loop_of(d2, f)[jj])
            && d2.vertices[loop_of(d2, f)[jj]].point == src@.vertices[l2[jj]].point by {
            assert(loop_of(d2, f)[jj] == nv@[jj]);
        }
        assert(copied(d2, f, src@, sf, flip));
        assert forall|g: u64| #[trigger] d0.faces.dom().contains(g) implies d2.faces.dom().contains(g) && d2.faces[g] == d0.faces[g] by {}
        assert forall|h: u64| #[trigger] d0.half_edges.dom().contains(h) implies d2.half_edges.dom().contains(h) && d2.half_edges[h]
            == d0.half_edges[h] by {}
        assert forall|w: u64| #[trigger] d0.vertices.dom().contains(w) implies d2.vertices.dom().contains(w) && d2.vertices[w]
            == d0.vertices[w] by {
            assert(d1.vertices.dom().contains(w));
        }
    }
    f
}

proof fn lemma_copied_linked(d1: SolidView, d2: SolidView, f: u64, s: SolidView, sf: u64, flip: bool)
    requires
        solid_wf(d1),
        copied(d1, f, s, sf, flip),
        d2.faces == d1.faces,
        d2.vertices == d1.vertices,
        d2.half_edges.dom() == d1.half_edges.dom(),
        forall|k: u64| d1.half_edges.dom().contains(k) ==> (#[trigger] d2.half_edges[k]).origin == d1.half_edges[k].origin,
    ensures
        copied(d2, f, s, sf, flip),
{
    assert(face_fits(d1, f));
    assert forall|q: int| 0 <= q < d1.faces[f].outer_loop@.len() implies d2.half_edges[#[trigger] d1.faces[f].outer_loop@[q]].origin
        == d1.half_edges[d1.faces[f].outer_loop@[q]].origin by {}
    assert(loop_of(d2, f) =~= loop_of(d1, f));
}

proof fn lemma_keeps_trans(d1: SolidView, d2: SolidView, d3: SolidView)
    requires
        keeps(d1, d2),
        keeps(d2, d3),
    ensures
        keeps(d1, d3),
{
    assert forall|f: u64| #[trigger] d1.faces.dom().contains(f) implies d3.faces.dom().contains(f) && d3.faces[f] == d1.faces[f] by {
        assert(d2.faces.dom().contains(f));
    }
    assert forall|h: u64| #[trigger] d1.half_edges.dom().contains(h) implies d3.half_edges.dom().contains(h) && d3.half_edges[h]
        == d1.half_edges[h] by {
        assert(d2.half_edges.dom().contains(h));
    }
    assert forall|v: u64| #[trigger] d1.vertices.dom().contains(v) implies d3.vertices.dom().contains(v) && d3.vertices[v]
        == d1.vertices[v] by {
        assert(d2.vertices.dom().contains(v));
    }
}

/// Copies the kept faces of `src` (numbered in `order`) into `dst` and
/// records their ids after `fids`.
#[verifier::rlimit(60)]
fn copy_kept(
    dst: &mut Solid,
    fids: &mut Vec<u64>,
    src: &Solid,
    order: &Vec<u64>,
    inside: &Vec<bool>,
    op: BooleanOp,
    from_first: bool,
)
    requires
        solid_wf(old(dst)@),
        solid_wf(src@),
        order@.no_duplicates(),
        order@.to_set() == src@.faces.dom(),
        inside@.len() == order@.len(),
        old(fids)@.no_duplicates(),
        old(fids)@.to_set() == old(dst)@.faces.dom(),
        old(dst)@.faces.len() == old(fids)@.len(),
        old(dst)@.vertices.len() + old(dst)@.half_edges.len() + old(dst)@.faces.len() + 2 * loops_total(face_loops(src@, order@))
            + order@.len() + 4 < u32::MAX - 1,
        old(dst)@.edges.len() == old(dst)@.half_edges.len(),
    ensures
        solid_wf(final(dst)@),
        keeps(old(dst)@, final(dst)@),
        final(fids)@.no_duplicates(),
        final(fids)@.to_set() == final(dst)@.faces.dom(),
        final(dst)@.faces.len() == final(fids)@.len(),
        final(fids)@.take(old(fids)@.len() as int) == old(fids)@,
        final(fids)@.len() == old(fids)@.len() + kept_faces(order@, inside@, op, from_first, order@.len() as nat).len(),
        forall|k: int| 0 <= k < kept_faces(order@, inside@, op, from_first, order@.len() as nat).len() ==> copied(
            final(dst)@,
            #[trigger] final(fids)@[old(fids)@.len() + k],
            src@,
            kept_faces(order@, inside@, op, from_first, order@.len() as nat)[k].0,
            kept_faces(order@, inside@, op, from_first, order@.len() as nat)[k].1,
        ),
        final(dst)@.vertices.len() + final(dst)@.half_edges.len() + final(dst)@.faces.len() <= old(dst)@.vertices.len()
            + old(dst)@.half_edges.len() + old(dst)@.faces.len() + 2 * loops_total(face_loops(src@, order@)) + order@.len(),
        final(dst)@.edges.len() == final(dst)@.half_edges.len(),
{
    let ghost d0 = dst@;
    let ghost f0 = fids@;
    let ghost ls = face_loops(src@, order@);
    let ghost base = d0.vertices.len() + d0.half_edges.len() + d0.faces.len();
    let mut i: usize = 0;
    while i < order.len()
        invariant
            i <= order@.len(),
            solid_wf(src@),
            order@.to_set() == src@.faces.dom(),
            inside@.len() == order@.len(),
            ls == face_loops(src@, order@),
            base + 2 * loops_total(ls) + order@.len() + 4 < u32::MAX - 1,
            solid_wf(dst@),
            keeps(d0, dst@),
            fids@.no_duplicates(),
            fids@.to_set() == dst@.faces.dom(),
            dst@.faces.len() == fids@.len(),
            fids@.take(f0.len() as int) == f0,
            fids@.len() == f0.len() + kept_faces(order@, inside@, op, from_first, i as nat).len(),
            forall|k: int| 0 <= k < kept_faces(order@, inside@, op, from_first, i as nat).len() ==> copied(
                dst@,
                #[trigger] fids@[f0.len() + k],
                src@,
                kept_faces(order@, inside@, op, from_first, i as nat)[k].0,
                kept_faces(order@, inside@, op, from_first, i as nat)[k].1,
            ),
            dst@.vertices.len() + dst@.half_edges.len() + dst@.faces.len() <= base + 2 * loops_total(ls.take(i as int)) + i,
            dst@.edges.len() == dst@.half_edges.len(),
        decreases order.len() - i,
    {
        proof {
            crate::shell::lemma_loops_total_prefix(ls, i + 1);
            assert(ls.take(i + 1).drop_last() =~= ls.take(i as int));
            assert(ls[i as int] == loop_of(src@, order@[i as int]));
        }
        let (keep, flip) = face_kept(op, from_first, inside[i]);
        let ghost kp = kept_faces(order@, inside@, op, from_first, i as nat);
        if keep {
            let sf = order[i];
            assert(order@.to_set().contains(sf));
            let ghost dprev = dst@;
            let ghost fprev = fids@;
            let f = copy_face_into(dst, src, sf, flip);
            fids.push(f);
            proof {
                lemma_keeps_trans(d0, dprev, dst@);
                fprev.lemma_push_to_set_commute(f);
                assert(fids@ == fprev.push(f));
                assert forall|a: int, b: int| 0 <= a < b < fids@.len() implies fids@[a] != fids@[b] by {
                    if b == fprev.len() {
                        assert(fprev.to_set().contains(fprev[a]));
                    }
                }
                assert(fids@.take(f0.len() as int) =~= fprev.take(f0.len() as int));
                let kn = kept_faces(order@, inside@, op, from_first, (i + 1) as nat);
                assert(kn == kp.push((sf, flip)));
                assert forall|k: int| 0 <= k < kn.len() implies copied(dst@, #[trigger] fids@[f0.len() + k], src@, kn[k].0, kn[k].1) by {
                    if k < kp.len() {
                        assert(fids@[f0.len() + k] == fprev[f0.len() + k]);
                        assert(copied(dprev, fprev[f0.len() + k], src@, kp[k].0, kp[k].1));
                        lemma_copied_kept(dprev, dst@, fprev[f0.len() + k], src@, kp[k].0, kp[k].1);
                    }
                }
            }
        } else {
            assert(kept_faces(order@, inside@, op, from_first, (i + 1) as nat) == kp);
        }
        i = i + 1;
    }
    proof {
        assert(ls.take(order@.len() as int) =~= ls);
    }
}

/// The solids are small enough: in any orders of their faces, the total
/// loop lengths, twice, and the face counts stay under the slot maps'
/// limit.
pub open spec fn boolean_fits(a: SolidView, b: SolidView) -> bool {
    forall|fa: Seq<u64>, fb: Seq<u64>|
        fa.no_duplicates() && fa.to_set() == a.faces.dom() && fb.no_duplicates() && fb.to_set() == b.faces.dom() ==> 2
            * loops_total(#[trigger] face_loops(a, fa)) + 2 * loops_total(#[trigger] face_loops(b, fb)) + fa.len() + fb.len() + 8
            < u32::MAX - 1
}

/// The topology of a boolean, with the face orders its inputs are numbered
/// in and the faces made, in order.
pub struct BooleanTopology {
    pub solid: Solid,
    pub first_order: Vec<u64>,
    pub second_order: Vec<u64>,
    pub faces: Vec<u64>,
}

/// The boolean of two solids' topologies: `first_inside[k]` says whether
/// face `k` of the first solid (in the order of its `face_ids`, returned
/// as `first_order`) lies inside the second, and `second_inside` the same
/// of the second's faces. The kept faces of the first, then those of the
/// second (see `keep_face`), are copied in order, flipped ones with their
/// loops reversed; then twins are linked.
#[verifier::rlimit(60)]
pub fn boolean_topology(
    a: &Solid,
    b: &Solid,
    op: BooleanOp,
    first_inside: &Vec<bool>,
    second_inside: &Vec<bool>,
) -> (r: BooleanTopology)
    requires
        solid_wf(a@),
        solid_wf(b@),
        boolean_fits(a@, b@),
        first_inside@.len() == a@.faces.len(),
        second_inside@.len() == b@.faces.len(),
    ensures
        r.first_order@.no_duplicates(),
        r.first_order@.to_set() == a@.faces.dom(),
        r.second_order@.no_duplicates(),
        r.second_order@.to_set() == b@.faces.dom(),
        solid_wf(r.solid@),
        r.faces@.no_duplicates(),
        r.faces@.to_set() == r.solid@.faces.dom(),
        r.faces@.len() == kept_faces(r.first_order@, first_inside@, op, true, r.first_order@.len() as nat).len()
            + kept_faces(r.second_order@, second_inside@, op, false, r.second_order@.len() as nat).len(),
        forall|k: int| 0 <= k < kept_faces(r.first_order@, first_inside@, op, true, r.first_order@.len() as nat).len()
            ==> copied(
            r.solid@,
            #[trigger] r.faces@[k],
            a@,
            kept_faces(r.first_order@, first_inside@, op, true, r.first_order@.len() as nat)[k].0,
            kept_faces(r.first_order@, first_inside@, op, true, r.first_order@.len() as nat)[k].1,
        ),
        forall|k: int| 0 <= k < kept_faces(r.second_order@, second_inside@, op, false, r.second_order@.len() as nat).len()
            ==> copied(
            r.solid@,
            #[trigger] r.faces@[kept_faces(r.first_order@, first_inside@, op, true, r.first_order@.len() as nat).len() + k],
            b@,
            kept_faces(r.second_order@, second_inside@, op, false, r.second_order@.len() as nat)[k].0,
            kept_faces(r.second_order@, second_inside@, op, false, r.second_order@.len() as nat)[k].1,
        ),
        exists|bb: SolidView, ks: Seq<u64>|
            #![trigger link_from(bb, ks, 0)]
            solid_wf(bb) && ks.no_duplicates() && ks.to_set() == bb.half_edges.dom() && r.solid@ == link_from(bb, ks, 0),
{
    let fa = a.face_ids();
    let fb = b.face_ids();
    proof {
        fa@.unique_seq_to_set();
        fb@.unique_seq_to_set();
        assert(2 * loops_total(face_loops(a@, fa@)) + 2 * loops_total(face_loops(b@, fb@)) + fa@.len() + fb@.len() + 8
            < u32::MAX - 1);
    }
    let mut s = Solid::new();
    let mut fids: Vec<u64> = Vec::new();
    proof {
        fids@.unique_seq_to_set();
        assert(fids@.to_set() =~= s@.faces.dom());
        assert(s@.vertices.dom() =~= Set::<u64>::empty());
        assert(s@.half_edges.dom() =~= Set::<u64>::empty());
        assert(s@.edges.dom() =~= Set::<u64>::empty());
        assert(s@.faces.dom() =~= Set::<u64>::empty());
    }
    let ghost s0 = s@;
    copy_kept(&mut s, &mut fids, a, &fa, first_inside, op, true);
    let ghost s1 = s@;
    let ghost f1 = fids@;
    let ghost ka = kept_faces(fa@, first_inside@, op, true, fa@.len() as nat);
    assert(f1.len() == ka.len()) by {
        assert(f1.take(0) =~= Seq::<u64>::empty());
    }
    copy_kept(&mut s, &mut fids, b, &fb, second_inside, op, false);
    let ghost kb = kept_faces(fb@, second_inside@, op, false, fb@.len() as nat);
    proof {
        assert forall|k: int| 0 <= k < ka.len() implies copied(s@, #[trigger] fids@[k], a@, ka[k].0, ka[k].1) by {
            assert(f1[0 + k] == f1[k]);
            assert(fids@.take(f1.len() as int)[k] == f1[k]);
            lemma_copied_kept(s1, s@, f1[k], a@, ka[k].0, ka[k].1);
        }
    }
    let ghost built = s@;
    s.link_twins();
    proof {
        let t = s@;
        assert forall|k: int| 0 <= k < ka.len() implies copied(t, #[trigger] fids@[k], a@, ka[k].0, ka[k].1) by {
            lemma_copied_linked(built, t, fids@[k], a@, ka[k].0, ka[k].1);
        }
        assert forall|k: int| 0 <= k < kb.len() implies copied(t, #[trigger] fids@[ka.len() + k], b@, kb[k].0, kb[k].1) by {
            lemma_copied_linked(built, t, fids@[ka.len() + k], b@, kb[k].0, kb[k].1);
        }
        let ks = choose|ks: Seq<u64>|
            #![trigger link_from(built, ks, 0)]
            ks.no_duplicates() && ks.to_set() == built.half_edges.dom() && t == link_from(built, ks, 0);
        assert(solid_wf(built) && ks.no_duplicates() && ks.to_set() == built.half_edges.dom() && t == link_from(built, ks, 0));
    }
    BooleanTopology { solid: s, first_order: fa, second_order: fb, faces: fids }
}

} // verus!
