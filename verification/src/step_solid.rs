//! The topology of a solid read from STEP: one vertex per Cartesian point,
//! numbered by the point's entity number; one face per ADVANCED_FACE whose
//! loop keeps three points or more, on the face's surface entity; then
//! twins are linked. Where the points stand and what the surfaces are is
//! floating point and stays outside.
use vstd::prelude::*;
use crate::solid::{Solid, SolidView, solid_wf, face_fits, link_from, NO_ID};
use crate::step_read::StepFace;
use crate::shell::{loop_of, faces_match};

verus! {

/// The vertex made for point `p`, from the pairs `(point, vertex)`.
pub open spec fn vertex_for(pairs: Seq<(u64, u64)>, p: u64) -> Option<u64>
    decreases pairs.len(),
{
    if pairs.len() == 0 {
        None
    } else if pairs.last().0 == p {
        Some(pairs.last().1)
    } else {
        vertex_for(pairs.drop_last(), p)
    }
}

/// The vertices of a loop of point references: those with a vertex, in
/// order.
pub open spec fn loop_vertices(pairs: Seq<(u64, u64)>, refs: Seq<u64>) -> Seq<u64>
    decreases refs.len(),
{
    if refs.len() == 0 {
        Seq::empty()
    } else {
        let p = loop_vertices(pairs, refs.drop_last());
        match vertex_for(pairs, refs.last()) {
            Some(v) => p.push(v),
            None => p,
        }
    }
}

/// The surface number a face is built on: its surface entity, or `NO_ID`
/// when it names none.
pub open spec fn surface_number(s: Option<u64>) -> u64 {
    match s {
        Some(x) => x,
        None => NO_ID,
    }
}

/// The faces built from the first `n` STEP faces: each whose loop keeps
/// three vertices or more, with its surface number.
pub open spec fn step_solid_faces(pairs: Seq<(u64, u64)>, fs: Seq<(Seq<u64>, Option<u64>)>, n: nat) -> Seq<(Seq<u64>, u64)>
    decreases n,
{
    if n == 0 {
        Seq::empty()
    } else {
        let p = step_solid_faces(pairs, fs, (n - 1) as nat);
        let vs = loop_vertices(pairs, fs[n - 1].0);
        if vs.len() >= 3 { p.push((vs, surface_number(fs[n - 1].1))) } else { p }
    }
}

/// The views of some STEP faces.
pub open spec fn step_face_views(v: Seq<StepFace>) -> Seq<(Seq<u64>, Option<u64>)> {
    v.map_values(|f: StepFace| f@)
}

/// The total length of the faces' loops.
pub open spec fn refs_total(fs: Seq<(Seq<u64>, Option<u64>)>) -> nat
    decreases fs.len(),
{
    if fs.len() == 0 { 0 } else { refs_total(fs.drop_last()) + fs.last().0.len() }
}

/// The pairs give each point its own vertex, at that point, and the solid
/// has no other vertex.
pub open spec fn vertices_placed(s: SolidView, pairs: Seq<(u64, u64)>, points: Seq<u64>) -> bool {
    &&& pairs.len() == points.len()
    &&& forall|k: int| 0 <= k < pairs.len() ==> (#[trigger] pairs[k]).0 == points[k] && s.vertices.dom().contains(pairs[k].1)
        && s.vertices[pairs[k].1].point == points[k]
    &&& forall|a: int, b: int| 0 <= a < b < pairs.len() ==> (#[trigger] pairs[a]).1 != (#[trigger] pairs[b]).1
    &&& forall|v: u64| #[trigger] s.vertices.dom().contains(v) ==> exists|k: int| 0 <= k < pairs.len() && (#[trigger] pairs[k]).1 == v
}

/// A STEP solid's topology with what relates it to the file: the vertex of
/// each point, and the faces made, in order.
pub struct StepSolid {
    pub solid: Solid,
    pub vertices: Vec<(u64, u64)>,
    pub faces: Vec<u64>,
}

proof fn lemma_vertex_in_prefix(s: SolidView, pairs: Seq<(u64, u64)>, points: Seq<u64>, p: u64)
    requires
        pairs.len() == points.len(),
        forall|k: int| 0 <= k < pairs.len() ==> s.vertices.dom().contains((#[trigger] pairs[k]).1),
        vertex_for(pairs, p) is Some,
    ensures
        s.vertices.dom().contains(vertex_for(pairs, p)->0),
    decreases pairs.len(),
{
    if pairs.last().0 == p {
        assert(pairs[pairs.len() - 1] == pairs.last());
    } else {
        let q = pairs.drop_last();
        assert forall|k: int| 0 <= k < q.len() implies s.vertices.dom().contains((#[trigger] q[k]).1) by {
            assert(q[k] == pairs[k]);
        }
        lemma_vertex_in_prefix(s, q, points.drop_last(), p);
    }
}

/// The vertex made for `p`, if any.
fn find_vertex(pairs: &Vec<(u64, u64)>, p: u64) -> (r: Option<u64>)
    ensures
        r == vertex_for(pairs@, p),
{
    let mut j: usize = pairs.len();
    assert(pairs@.take(j as int) =~= pairs@);
    while j > 0
        invariant
            j <= pairs@.len(),
            vertex_for(pairs@, p) == vertex_for(pairs@.take(j as int), p),
        decreases j,
    {
        assert(pairs@.take(j as int).drop_last() =~= pairs@.take(j - 1));
        if pairs[j - 1].0 == p {
            return Some(pairs[j - 1].1);
        }
        j = j - 1;
    }
    None
}

proof fn lemma_loop_vertices_len(pairs: Seq<(u64, u64)>, refs: Seq<u64>)
    ensures
        loop_vertices(pairs, refs).len() <= refs.len(),
    decreases refs.len(),
{
    if refs.len() > 0 {
        lemma_loop_vertices_len(pairs, refs.drop_last());
    }
}

proof fn lemma_refs_total_prefix(fs: Seq<(Seq<u64>, Option<u64>)>, i: int)
    requires
        0 <= i < fs.len(),
    ensures
        refs_total(fs.take(i)) + fs[i].0.len() == refs_total(fs.take(i + 1)),
        refs_total(fs.take(i + 1)) <= refs_total(fs),
    decreases fs.len() - i,
{
    assert(fs.take(i + 1).drop_last() =~= fs.take(i));
    if i + 1 < fs.len() {
        lemma_refs_total_prefix(fs, i + 1);
    } else {
        assert(fs.take(i + 1) =~= fs);
    }
}

/// The vertices of a loop of point references.
fn loop_vertex_ids(pairs: &Vec<(u64, u64)>, refs: &Vec<u64>) -> (r: Vec<u64>)
    ensures
        r@ == loop_vertices(pairs@, refs@),
{
    let mut r: Vec<u64> = Vec::new();
    let mut i: usize = 0;
    while i < refs.len()
        invariant
            i <= refs@.len(),
            r@ == loop_vertices(pairs@, refs@.take(i as int)),
        decreases refs.len() - i,
    {
        assert(refs@.take(i + 1).drop_last() =~= refs@.take(i as int));
        match find_vertex(pairs, refs[i]) {
            Some(v) => r.push(v),
            None => {},
        }
        i = i + 1;
    }
    assert(refs@.take(refs@.len() as int) =~= refs@);
    r
}

/// Builds a solid's topology from STEP: a vertex for each of `points` (the
/// numbers of the Cartesian points, each once, in order), then, for each
/// face in order, a face on its surface entity whose loop is its point
/// references that have a vertex, when three or more do; then twins are
/// linked.
#[verifier::rlimit(60)]
pub fn solid_from_step_faces(points: &Vec<u64>, faces: &Vec<StepFace>) -> (r: StepSolid)
    requires
        points@.no_duplicates(),
        points@.len() + faces@.len() + refs_total(step_face_views(faces@)) < u32::MAX - 1,
    ensures
        solid_wf(r.solid@),
        vertices_placed(r.solid@, r.vertices@, points@),
        faces_match(r.solid@, r.faces@, step_solid_faces(r.vertices@, step_face_views(faces@), faces@.len() as nat)),
        exists|b: SolidView, ks: Seq<u64>|
            #![trigger link_from(b, ks, 0)]
            solid_wf(b) && ks.no_duplicates() && ks.to_set() == b.half_edges.dom() && r.solid@ == link_from(b, ks, 0),
{
    let mut s = Solid::new();
    let mut pairs: Vec<(u64, u64)> = Vec::new();
    let mut i: usize = 0;
    while i < points.len()
        invariant
            i <= points@.len(),
            points@.len() + faces@.len() + refs_total(step_face_views(faces@)) < u32::MAX - 1,
            solid_wf(s@),
            s@.half_edges.dom().is_empty(),
            s@.edges.dom().is_empty(),
            s@.faces.dom().is_empty(),
            s@.vertices.len() == i,
            vertices_placed(s@, pairs@, points@.take(i as int)),
        decreases points.len() - i,
    {
        let ghost s0 = s@;
        let ghost p0 = pairs@;
        let v = s.add_vertex(points[i]);
        pairs.push((points[i], v));
        proof {
            let pts = points@.take(i + 1);
            assert forall|k: int| 0 <= k < pairs@.len() implies (#[trigger] pairs@[k]).0 == pts[k] && s@.vertices.dom().contains(
                pairs@[k].1,
            ) && s@.vertices[pairs@[k].1].point == pts[k] by {
                if k < p0.len() {
                    assert(pairs@[k] == p0[k]);
                    assert(s0.vertices.dom().contains(p0[k].1));
                }
            }
            assert forall|a: int, b: int| 0 <= a < b < pairs@.len() implies (#[trigger] pairs@[a]).1 != (#[trigger] pairs@[b]).1 by {
                assert(pairs@[a] == p0[a]);
                assert(s0.vertices.dom().contains(p0[a].1));
            }
            assert forall|x: u64| #[trigger] s@.vertices.dom().contains(x) implies exists|k: int| 0 <= k < pairs@.len()
                && (#[trigger] pairs@[k]).1 == x by {
                if x == v {
                    assert(pairs@[p0.len() as int].1 == v);
                } else {
                    assert(s0.vertices.dom().contains(x));
                    let k = choose|k: int| 0 <= k < p0.len() && (#[trigger] p0[k]).1 == x;
                    assert(pairs@[k] == p0[k]);
                }
            }
        }
        i = i + 1;
    }
    assert(points@.take(points@.len() as int) =~= points@);
    let ghost fv = step_face_views(faces@);
    let mut fids: Vec<u64> = Vec::new();
    let ghost mut exp: Seq<(Seq<u64>, u64)> = Seq::empty();
    proof {
        fids@.unique_seq_to_set();
        assert(fids@.to_set() =~= s@.faces.dom());
    }
    let mut k: usize = 0;
    while k < faces.len()
        invariant
            k <= faces@.len(),
            fv == step_face_views(faces@),
            points@.len() + faces@.len() + refs_total(fv) < u32::MAX - 1,
            solid_wf(s@),
            vertices_placed(s@, pairs@, points@),
            exp == step_solid_faces(pairs@, fv, k as nat),
            faces_match(s@, fids@, exp),
            s@.faces.len() == fids@.len(),
            fids@.len() <= k,
            s@.half_edges.len() <= refs_total(fv.take(k as int)),
            s@.edges.len() == s@.half_edges.len(),
        decreases faces.len() - k,
    {
        proof {
            lemma_refs_total_prefix(fv, k as int);
        }
        let f = &faces[k];
        assert(fv[k as int] == f@);
        let vs = loop_vertex_ids(&pairs, &f.point_refs);
        proof {
            lemma_loop_vertices_len(pairs@, f.point_refs@);
        }
        if vs.len() >= 3 {
            let sn: u64 = match f.surface_id {
                Some(x) => x,
                None => NO_ID,
            };
            proof {
                assert forall|j: int| 0 <= j < vs@.len() implies s@.vertices.dom().contains(#[trigger] vs@[j]) by {
                    lemma_vertices_of_loop(s@, pairs@, points@, f.point_refs@, j);
                }
            }
            crate::shell::add_face_tracked(&mut s, &mut fids, sn, &vs, Ghost(exp));
            proof {
                exp = exp.push((vs@, sn));
            }
        }
        k = k + 1;
    }
    let ghost built = s@;
    s.link_twins();
    proof {
        let t = s@;
        assert forall|q: int| 0 <= q < fids@.len() implies loop_of(t, #[trigger] fids@[q]) == exp[q].0
            && t.faces[fids@[q]].surface == exp[q].1 && t.faces[fids@[q]].normal_outward by {
            let f = fids@[q];
            assert(built.faces.dom().contains(f)) by {
                assert(fids@.to_set().contains(f));
            }
            assert(face_fits(built, f));
            assert forall|j: int| 0 <= j < built.faces[f].outer_loop@.len() implies t.half_edges[#[trigger] built.faces[f].outer_loop@[j]].origin
                == built.half_edges[built.faces[f].outer_loop@[j]].origin by {}
            assert(loop_of(t, f) =~= loop_of(built, f));
        }
        let ks = choose|ks: Seq<u64>|
            #![trigger link_from(built, ks, 0)]
            ks.no_duplicates() && ks.to_set() == built.half_edges.dom() && t == link_from(built, ks, 0);
        assert(solid_wf(built) && ks.no_duplicates() && ks.to_set() == built.half_edges.dom() && t == link_from(built, ks, 0));
    }
    StepSolid { solid: s, vertices: pairs, faces: fids }
}

proof fn lemma_vertices_of_loop(s: SolidView, pairs: Seq<(u64, u64)>, points: Seq<u64>, refs: Seq<u64>, j: int)
    requires
        vertices_placed(s, pairs, points),
        0 <= j < loop_vertices(pairs, refs).len(),
    ensures
        s.vertices.dom().contains(loop_vertices(pairs, refs)[j]),
    decreases refs.len(),
{
    let p = loop_vertices(pairs, refs.drop_last());
    match vertex_for(pairs, refs.last()) {
        Some(v) => {
            if j == p.len() {
                lemma_vertex_in_prefix(s, pairs, points, refs.last());
            } else {
                lemma_vertices_of_loop(s, pairs, points, refs.drop_last(), j);
            }
        },
        None => {
            lemma_vertices_of_loop(s, pairs, points, refs.drop_last(), j);
        },
    }
}

} // verus!
