//! The topology of hollowing a solid: every vertex used by a face gets an
//! outer and an inner copy; the faces that stay closed come back twice, as
//! outer faces on the outer copies and as inner faces on the inner copies
//! with their loops reversed; each edge of an open face becomes a rim quad
//! joining the outer and inner copies; then twins are linked. Where the
//! inner copies stand, and the surfaces of the inner and rim faces, are
//! geometry, computed outside from the face order given here.
use vstd::prelude::*;
use crate::solid::{
    Solid, SolidView, solid_wf, half_edge_fits, face_fits, face_added, link_from, lemma_added_face_loop,
    lemma_added_face_counts, NO_ID,
};

verus! {

/// The vertices of a face's outer loop, in order.
pub open spec fn loop_of(s: SolidView, f: u64) -> Seq<u64> {
    s.faces[f].outer_loop@.map_values(|h: u64| s.half_edges[h].origin)
}

/// The vertex loops of the faces `fs`, in order.
pub open spec fn face_loops(s: SolidView, fs: Seq<u64>) -> Seq<Seq<u64>> {
    fs.map_values(|f: u64| loop_of(s, f))
}

/// The surface numbers of the faces `fs`, in order.
pub open spec fn face_surfaces(s: SolidView, fs: Seq<u64>) -> Seq<u64> {
    fs.map_values(|f: u64| s.faces[f].surface)
}

/// The total length of some loops.
pub open spec fn loops_total(ls: Seq<Seq<u64>>) -> nat
    decreases ls.len(),
{
    if ls.len() == 0 { 0 } else { loops_total(ls.drop_last()) + ls.last().len() }
}

/// Face number `i` is among the open faces.
pub open spec fn is_open(open: Seq<usize>, i: int) -> bool {
    exists|j: int| 0 <= j < open.len() && open[j] as int == i
}

/// The total length of the loops among the first `n` that are open
/// (`want`) or closed (`!want`).
pub open spec fn part_total(ls: Seq<Seq<u64>>, open: Seq<usize>, n: nat, want: bool) -> nat
    decreases n,
{
    if n == 0 {
        0
    } else {
        part_total(ls, open, (n - 1) as nat, want) + if is_open(open, n - 1) == want { ls[n - 1].len() } else { 0 }
    }
}

/// The copies `(original, outer, inner)` of the vertex `v`: the outer and
/// inner copy of its entry in `c`.
pub open spec fn copy_of(c: Seq<(u64, u64, u64)>, v: u64) -> (u64, u64)
    decreases c.len(),
{
    if c.len() == 0 {
        (NO_ID, NO_ID)
    } else if c.last().0 == v {
        (c.last().1, c.last().2)
    } else {
        copy_of(c.drop_last(), v)
    }
}

/// `v` has an entry in `c`.
pub open spec fn has_copy(c: Seq<(u64, u64, u64)>, v: u64) -> bool {
    exists|k: int| 0 <= k < c.len() && (#[trigger] c[k]).0 == v
}

/// A loop on the outer copies.
pub open spec fn outer_loop_of(c: Seq<(u64, u64, u64)>, l: Seq<u64>) -> Seq<u64> {
    l.map_values(|v: u64| copy_of(c, v).0)
}

/// A loop on the inner copies, reversed.
pub open spec fn inner_loop_of(c: Seq<(u64, u64, u64)>, l: Seq<u64>) -> Seq<u64> {
    l.reverse().map_values(|v: u64| copy_of(c, v).1)
}

/// The rim quad on the edge of loop `l` from vertex `k` to the next one:
/// outer start, outer end, inner end, inner start.
pub open spec fn rim_quad(c: Seq<(u64, u64, u64)>, l: Seq<u64>, k: int) -> Seq<u64> {
    let a = l[k];
    let b = l[(k + 1) % l.len() as int];
    seq![copy_of(c, a).0, copy_of(c, b).0, copy_of(c, b).1, copy_of(c, a).1]
}

/// The outer faces of the first `n` faces: each closed one on the outer
/// copies, with its surface.
pub open spec fn outer_part(ls: Seq<Seq<u64>>, ss: Seq<u64>, open: Seq<usize>, c: Seq<(u64, u64, u64)>, n: nat) -> Seq<(Seq<u64>, u64)>
    decreases n,
{
    if n == 0 {
        Seq::empty()
    } else {
        let p = outer_part(ls, ss, open, c, (n - 1) as nat);
        if is_open(open, n - 1) { p } else { p.push((outer_loop_of(c, ls[n - 1]), ss[n - 1])) }
    }
}

/// The inner faces of the first `n` faces: each closed one reversed on the
/// inner copies, with its surface.
pub open spec fn inner_part(ls: Seq<Seq<u64>>, ss: Seq<u64>, open: Seq<usize>, c: Seq<(u64, u64, u64)>, n: nat) -> Seq<(Seq<u64>, u64)>
    decreases n,
{
    if n == 0 {
        Seq::empty()
    } else {
        let p = inner_part(ls, ss, open, c, (n - 1) as nat);
        if is_open(open, n - 1) { p } else { p.push((inner_loop_of(c, ls[n - 1]), ss[n - 1])) }
    }
}

/// The rim quads of one open face, one per edge in loop order, each with
/// the open face's surface.
pub open spec fn rim_quads(c: Seq<(u64, u64, u64)>, l: Seq<u64>, surface: u64) -> Seq<(Seq<u64>, u64)> {
    Seq::new(l.len(), |k: int| (rim_quad(c, l, k), surface))
}

/// The rim quads of the open faces among the first `n`, in face order.
pub open spec fn rim_part(ls: Seq<Seq<u64>>, ss: Seq<u64>, open: Seq<usize>, c: Seq<(u64, u64, u64)>, n: nat) -> Seq<(Seq<u64>, u64)>
    decreases n,
{
    if n == 0 {
        Seq::empty()
    } else {
        let p = rim_part(ls, ss, open, c, (n - 1) as nat);
        if is_open(open, n - 1) { p + rim_quads(c, ls[n - 1], ss[n - 1]) } else { p }
    }
}

/// The faces of the shelled solid, as vertex loops and surface numbers,
/// in the order they are made: outer faces, inner faces, rim quads.
pub open spec fn shelled_faces(ls: Seq<Seq<u64>>, ss: Seq<u64>, open: Seq<usize>, c: Seq<(u64, u64, u64)>) -> Seq<(Seq<u64>, u64)> {
    outer_part(ls, ss, open, c, ls.len()) + inner_part(ls, ss, open, c, ls.len()) + rim_part(ls, ss, open, c, ls.len())
}

/// The faces `fids` of `s`, in order, are exactly its faces, have the
/// loops and surfaces of `exp`, and face outward.
pub open spec fn faces_match(s: SolidView, fids: Seq<u64>, exp: Seq<(Seq<u64>, u64)>) -> bool {
    &&& fids.len() == exp.len()
    &&& fids.no_duplicates()
    &&& fids.to_set() == s.faces.dom()
    &&& forall|k: int| 0 <= k < fids.len() ==> loop_of(s, #[trigger] fids[k]) == exp[k].0 && s.faces[fids[k]].surface
        == exp[k].1 && s.faces[fids[k]].normal_outward
}

/// The copies cover the loops: one entry per vertex used by a loop, and
/// no other.
pub open spec fn copies_cover(c: Seq<(u64, u64, u64)>, ls: Seq<Seq<u64>>) -> bool {
    &&& forall|a: int, b: int| 0 <= a < b < c.len() ==> (#[trigger] c[a]).0 != (#[trigger] c[b]).0
    &&& forall|i: int, j: int| 0 <= i < ls.len() && 0 <= j < ls[i].len() ==> has_copy(c, #[trigger] ls[i][j])
    &&& forall|k: int| 0 <= k < c.len() ==> used_by(ls, (#[trigger] c[k]).0)
}

/// Some loop passes through `v`.
pub open spec fn used_by(ls: Seq<Seq<u64>>, v: u64) -> bool {
    exists|i: int, j: int| 0 <= i < ls.len() && 0 <= j < ls[i].len() && #[trigger] ls[i][j] == v
}

/// The copies stand in `s`: each is a vertex of `s` at its original's
/// point, no two are the same vertex, and `s` has no other vertex.
pub open spec fn copies_placed(s: SolidView, orig: SolidView, c: Seq<(u64, u64, u64)>) -> bool {
    &&& forall|k: int| 0 <= k < c.len() ==> {
        &&& s.vertices.dom().contains((#[trigger] c[k]).1)
        &&& s.vertices.dom().contains(c[k].2)
        &&& s.vertices[c[k].1].point == orig.vertices[c[k].0].point
        &&& s.vertices[c[k].2].point == orig.vertices[c[k].0].point
        &&& c[k].1 != c[k].2
    }
    &&& forall|a: int, b: int| 0 <= a < b < c.len() ==> {
        &&& (#[trigger] c[a]).1 != (#[trigger] c[b]).1
        &&& c[a].2 != c[b].2
        &&& c[a].1 != c[b].2
        &&& c[a].2 != c[b].1
    }
    &&& forall|v: u64| #[trigger] s.vertices.dom().contains(v) ==> exists|k: int| 0 <= k < c.len() && (
        (#[trigger] c[k]).1 == v || c[k].2 == v)
}

/// The solid is small enough to shell: in any order of its faces, four
/// times the total loop length plus twice the face count stays under the
/// slot maps' limit.
pub open spec fn shell_fits(s: SolidView) -> bool {
    forall|fs: Seq<u64>| fs.no_duplicates() && fs.to_set() == s.faces.dom() ==> 4 * loops_total(
        #[trigger] face_loops(s, fs),
    ) + 2 * fs.len() + 4 < u32::MAX - 1
}

proof fn lemma_copy_found(c: Seq<(u64, u64, u64)>, v: u64)
    requires
        has_copy(c, v),
    ensures
        exists|k: int| 0 <= k < c.len() && (#[trigger] c[k]).0 == v && copy_of(c, v) == (c[k].1, c[k].2),
    decreases c.len(),
{
    if c.last().0 == v {
        assert(c[c.len() - 1].0 == v);
    } else {
        let k0 = choose|k: int| 0 <= k < c.len() && (#[trigger] c[k]).0 == v;
        assert(c.drop_last()[k0] == c[k0]);
        lemma_copy_found(c.drop_last(), v);
        let k = choose|k: int| 0 <= k < c.drop_last().len() && (#[trigger] c.drop_last()[k]).0 == v && copy_of(
            c.drop_last(),
            v,
        ) == (c.drop_last()[k].1, c.drop_last()[k].2);
        assert(c[k] == c.drop_last()[k]);
    }
}

proof fn lemma_totals_prefix(ls: Seq<Seq<u64>>, open: Seq<usize>, i: nat, n: nat, want: bool)
    requires
        i <= n,
    ensures
        part_total(ls, open, i, want) <= part_total(ls, open, n, want),
    decreases n,
{
    if i < n {
        lemma_totals_prefix(ls, open, i, (n - 1) as nat, want);
    }
}

proof fn lemma_totals_split(ls: Seq<Seq<u64>>, open: Seq<usize>, n: nat)
    requires
        n <= ls.len(),
    ensures
        part_total(ls, open, n, true) + part_total(ls, open, n, false) == loops_total(ls.take(n as int)),
    decreases n,
{
    if n > 0 {
        lemma_totals_split(ls, open, (n - 1) as nat);
        assert(ls.take(n as int).drop_last() =~= ls.take(n - 1));
    }
}

pub(crate) proof fn lemma_loops_total_prefix(ls: Seq<Seq<u64>>, i: int)
    requires
        0 <= i <= ls.len(),
    ensures
        loops_total(ls.take(i)) <= loops_total(ls),
    decreases ls.len() - i,
{
    if i < ls.len() {
        lemma_loops_total_prefix(ls, i + 1);
        assert(ls.take(i + 1).drop_last() =~= ls.take(i));
    } else {
        assert(ls.take(i) =~= ls);
    }
}

/// The entry of `v` in `c`, if it has one.
fn find_copy(c: &Vec<(u64, u64, u64)>, v: u64) -> (r: Option<(u64, u64)>)
    ensures
        r is Some <==> has_copy(c@, v),
        r is Some ==> r->0 == copy_of(c@, v),
{
    let mut j: usize = c.len();
    assert(c@.take(j as int) =~= c@);
    while j > 0
        invariant
            j <= c@.len(),
            copy_of(c@, v) == copy_of(c@.take(j as int), v),
            forall|k: int| j <= k < c@.len() ==> (#[trigger] c@[k]).0 != v,
        decreases j,
    {
        assert(c@.take(j as int).drop_last() =~= c@.take(j - 1));
        if c[j - 1].0 == v {
            assert(c@[j - 1].0 == v);
            return Some((c[j - 1].1, c[j - 1].2));
        }
        j = j - 1;
    }
    None
}

/// A loop on the outer copies.
fn outer_ids(c: &Vec<(u64, u64, u64)>, l: &Vec<u64>) -> (r: Vec<u64>)
    requires
        forall|j: int| 0 <= j < l@.len() ==> has_copy(c@, #[trigger] l@[j]),
    ensures
        r@ == outer_loop_of(c@, l@),
{
    let mut r: Vec<u64> = Vec::new();
    let mut i: usize = 0;
    while i < l.len()
        invariant
            i <= l@.len(),
            forall|j: int| 0 <= j < l@.len() ==> has_copy(c@, #[trigger] l@[j]),
            r@ == outer_loop_of(c@, l@.take(i as int)),
        decreases l.len() - i,
    {
        assert(has_copy(c@, l@[i as int]));
        let p = find_copy(c, l[i]);
        let q = p.unwrap();
        r.push(q.0);
        assert(outer_loop_of(c@, l@.take(i + 1)) =~= outer_loop_of(c@, l@.take(i as int)).push(q.0));
        i = i + 1;
    }
    assert(l@.take(l@.len() as int) =~= l@);
    r
}

/// A loop reversed on the inner copies.
fn inner_ids(c: &Vec<(u64, u64, u64)>, l: &Vec<u64>) -> (r: Vec<u64>)
    requires
        forall|j: int| 0 <= j < l@.len() ==> has_copy(c@, #[trigger] l@[j]),
    ensures
        r@ == inner_loop_of(c@, l@),
{
    let mut r: Vec<u64> = Vec::new();
    let mut i: usize = l.len();
    while i > 0
        invariant
            i <= l@.len(),
            forall|j: int| 0 <= j < l@.len() ==> has_copy(c@, #[trigger] l@[j]),
            r@ == inner_loop_of(c@, l@.skip(i as int)),
        decreases i,
    {
        assert(has_copy(c@, l@[i - 1]));
        let p = find_copy(c, l[i - 1]);
        let q = p.unwrap();
        r.push(q.1);
        assert(l@.skip(i - 1).reverse() =~= l@.skip(i as int).reverse().push(l@[i - 1]));
        assert(inner_loop_of(c@, l@.skip(i - 1)) =~= inner_loop_of(c@, l@.skip(i as int)).push(q.1));
        i = i - 1;
    }
    assert(l@.skip(0) =~= l@);
    r
}

/// Adds a face on the loop `vs` and records its id after `fids`.
pub(crate) fn add_face_tracked(
    r: &mut Solid,
    fids: &mut Vec<u64>,
    surface: u64,
    vs: &Vec<u64>,
    Ghost(exp): Ghost<Seq<(Seq<u64>, u64)>>,
)
    requires
        solid_wf(old(r)@),
        faces_match(old(r)@, old(fids)@, exp),
        forall|i: int| 0 <= i < vs@.len() ==> old(r)@.vertices.dom().contains(#[trigger] vs@[i]),
        old(r)@.faces.len() < u32::MAX - 1,
        old(r)@.half_edges.len() + vs@.len() < u32::MAX - 1,
        old(r)@.edges.len() + vs@.len() < u32::MAX - 1,
    ensures
        solid_wf(final(r)@),
        faces_match(final(r)@, final(fids)@, exp.push((vs@, surface))),
        final(r)@.vertices == old(r)@.vertices,
        final(r)@.faces.len() == old(r)@.faces.len() + 1,
        final(r)@.half_edges.len() == old(r)@.half_edges.len() + vs@.len(),
        final(r)@.edges.len() == old(r)@.edges.len() + vs@.len(),
{
    let ghost o = r@;
    let fid = r.add_face_from_vertices(surface, vs, true);
    proof {
        lemma_added_face_loop(o, r@, fid, surface, vs@, true);
        lemma_added_face_counts(o, r@, fid, surface, vs@, true);
    }
    let ghost of = fids@;
    fids.push(fid);
    proof {
        let n = r@;
        assert forall|k: int| 0 <= k < fids@.len() implies loop_of(n, #[trigger] fids@[k]) == exp.push((vs@, surface))[k].0
            && n.faces[fids@[k]].surface == exp.push((vs@, surface))[k].1 && n.faces[fids@[k]].normal_outward by {
            if k < of.len() {
                let f = of[k];
                assert(of.to_set().contains(f));
                assert(face_fits(o, f));
                assert(n.faces[f] == o.faces[f]);
                assert forall|q: int| 0 <= q < o.faces[f].outer_loop@.len() implies n.half_edges[#[trigger] o.faces[f].outer_loop@[q]]
                    == o.half_edges[o.faces[f].outer_loop@[q]] by {}
                assert(loop_of(n, f) =~= loop_of(o, f));
            }
        }
        assert(!of.to_set().contains(fid));
        assert(fids@ == of.push(fid));
        of.lemma_push_to_set_commute(fid);
        assert forall|a: int, b: int| 0 <= a < b < fids@.len() implies fids@[a] != fids@[b] by {
            if b == of.len() {
                assert(of.to_set().contains(of[a]));
            }
        }
    }
}

/// Whether face number `i` is among the open faces.
fn is_open_index(open: &Vec<usize>, i: usize) -> (r: bool)
    ensures
        r == is_open(open@, i as int),
{
    let mut j: usize = 0;
    while j < open.len()
        invariant
            j <= open@.len(),
            forall|q: int| 0 <= q < j ==> open@[q] as int != i as int,
        decreases open.len() - j,
    {
        if open[j] == i {
            return true;
        }
        j = j + 1;
    }
    false
}

/// The topology of a shelled solid, with what relates it to the original:
/// the order of the original's faces that open face numbers count in, the
/// copies `(original, outer, inner)` of its vertices, and the new faces in
/// the order they were made.
pub struct ShellTopology {
    pub solid: Solid,
    pub face_order: Vec<u64>,
    pub copies: Vec<(u64, u64, u64)>,
    pub faces: Vec<u64>,
}

proof fn lemma_loop_in_dom(s: SolidView, f: u64, j: int)
    requires
        solid_wf(s),
        s.faces.dom().contains(f),
        0 <= j < loop_of(s, f).len(),
    ensures
        s.vertices.dom().contains(loop_of(s, f)[j]),
{
    assert(face_fits(s, f));
    let h = s.faces[f].outer_loop@[j];
    assert(s.half_edges.dom().contains(h));
    assert(half_edge_fits(s, h));
}

proof fn lemma_ids_in_dom(s: SolidView, c: Seq<(u64, u64, u64)>, orig: SolidView, v: u64)
    requires
        copies_placed(s, orig, c),
        has_copy(c, v),
    ensures
        s.vertices.dom().contains(copy_of(c, v).0),
        s.vertices.dom().contains(copy_of(c, v).1),
{
    lemma_copy_found(c, v);
    let k = choose|k: int| 0 <= k < c.len() && (#[trigger] c[k]).0 == v && copy_of(c, v) == (c[k].1, c[k].2);
    assert(s.vertices.dom().contains(c[k].1));
}

/// Hollows the topology of a solid: see the module's description. The
/// open faces are numbered in the order of `face_ids`, which is returned
/// as `face_order`; the outer faces, then the inner faces, then the rim
/// quads are made in the order of `shelled_faces`, each facing outward;
/// then twins are linked.
#[verifier::rlimit(100)]
pub fn shell_topology(solid: &Solid, open_faces: &Vec<usize>) -> (r: ShellTopology)
    requires
        solid_wf(solid@),
        shell_fits(solid@),
        forall|j: int| 0 <= j < open_faces@.len() ==> (#[trigger] open_faces@[j]) < solid@.faces.len(),
    ensures
        r.face_order@.no_duplicates(),
        r.face_order@.to_set() == solid@.faces.dom(),
        solid_wf(r.solid@),
        copies_cover(r.copies@, face_loops(solid@, r.face_order@)),
        copies_placed(r.solid@, solid@, r.copies@),
        faces_match(
            r.solid@,
            r.faces@,
            shelled_faces(face_loops(solid@, r.face_order@), face_surfaces(solid@, r.face_order@), open_faces@, r.copies@),
        ),
        exists|b: SolidView, ks: Seq<u64>|
            #![trigger link_from(b, ks, 0)]
            solid_wf(b) && ks.no_duplicates() && ks.to_set() == b.half_edges.dom() && r.solid@ == link_from(b, ks, 0),
{
    let ghost so = solid@;
    let fs = solid.face_ids();
    let nf = fs.len();
    let ghost ls = face_loops(so, fs@);
    let ghost ss = face_surfaces(so, fs@);
    proof {
        fs@.unique_seq_to_set();
        assert(4 * loops_total(face_loops(so, fs@)) + 2 * fs@.len() + 4 < u32::MAX - 1);
    }
    let ghost total = loops_total(ls);
    // The loops and surfaces of the faces, in order.
    let mut loops: Vec<Vec<u64>> = Vec::new();
    let mut surfs: Vec<u64> = Vec::new();
    let mut i: usize = 0;
    while i < nf
        invariant
            nf == fs@.len(),
            fs@.to_set() == so.faces.dom(),
            solid_wf(so),
            so == solid@,
            ls == face_loops(so, fs@),
            ss == face_surfaces(so, fs@),
            i <= nf,
            loops@.len() == i,
            surfs@.len() == i,
            forall|q: int| 0 <= q < i ==> (#[trigger] loops@[q])@ == ls[q] && surfs@[q] == ss[q],
        decreases nf - i,
    {
        assert(fs@.to_set().contains(fs@[i as int]));
        let l = solid.face_vertices(fs[i]);
        let f = solid.faces.get(fs[i]);
        loops.push(l);
        surfs.push(f.surface);
        i = i + 1;
    }
    // Two copies of each vertex, in order of first use.
    let mut r = Solid::new();
    let mut c: Vec<(u64, u64, u64)> = Vec::new();
    i = 0;
    while i < nf
        invariant
            nf == fs@.len() == ls.len(),
            fs@.to_set() == so.faces.dom(),
            solid_wf(so),
            so == solid@,
            ls == face_loops(so, fs@),
            total == loops_total(ls),
            4 * total + 2 * nf + 4 < u32::MAX - 1,
            i <= nf,
            loops@.len() == nf,
            forall|q: int| 0 <= q < nf ==> (#[trigger] loops@[q])@ == ls[q],
            solid_wf(r@),
            r@.half_edges.dom().is_empty(),
            r@.edges.dom().is_empty(),
            r@.faces.dom().is_empty(),
            r@.vertices.len() == 2 * c@.len(),
            c@.len() <= loops_total(ls.take(i as int)),
            copies_placed(r@, so, c@),
            forall|a: int, b: int| 0 <= a < b < c@.len() ==> (#[trigger] c@[a]).0 != (#[trigger] c@[b]).0,
            forall|p: int, q: int| 0 <= p < i && 0 <= q < ls[p].len() ==> has_copy(c@, #[trigger] ls[p][q]),
            forall|k: int| 0 <= k < c@.len() ==> used_by(ls, (#[trigger] c@[k]).0),
        decreases nf - i,
    {
        proof {
            lemma_loops_total_prefix(ls, i + 1);
            assert(ls.take(i + 1).drop_last() =~= ls.take(i as int));
        }
        let l = &loops[i];
        let m = l.len();
        let mut j: usize = 0;
        while j < m
            invariant
                nf == fs@.len() == ls.len(),
                fs@.to_set() == so.faces.dom(),
                solid_wf(so),
                so == solid@,
                ls == face_loops(so, fs@),
                total == loops_total(ls),
                4 * total + 2 * nf + 4 < u32::MAX - 1,
                i < nf,
                l@ == ls[i as int],
                m == l@.len(),
                j <= m,
                loops_total(ls.take(i + 1)) == loops_total(ls.take(i as int)) + m,
                loops_total(ls.take(i + 1)) <= total,
                solid_wf(r@),
                r@.half_edges.dom().is_empty(),
                r@.edges.dom().is_empty(),
                r@.faces.dom().is_empty(),
                r@.vertices.len() == 2 * c@.len(),
                c@.len() <= loops_total(ls.take(i as int)) + j,
                copies_placed(r@, so, c@),
                forall|a: int, b: int| 0 <= a < b < c@.len() ==> (#[trigger] c@[a]).0 != (#[trigger] c@[b]).0,
                forall|p: int, q: int| 0 <= p < i && 0 <= q < ls[p].len() ==> has_copy(c@, #[trigger] ls[p][q]),
                forall|q: int| 0 <= q < j ==> has_copy(c@, #[trigger] ls[i as int][q]),
                forall|k: int| 0 <= k < c@.len() ==> used_by(ls, (#[trigger] c@[k]).0),
            decreases m - j,
        {
            let v = l[j];
            if find_copy(&c, v).is_none() {
                proof {
                    assert(fs@.to_set().contains(fs@[i as int]));
                    assert(ls[i as int] == loop_of(so, fs@[i as int]));
                    lemma_loop_in_dom(so, fs@[i as int], j as int);
                }
                let p = solid.vertices.get(v).point;
                let ghost r0 = r@;
                let ghost c0 = c@;
                let o = r.add_vertex(p);
                let n = r.add_vertex(p);
                c.push((v, o, n));
                proof {
                    assert(c@.last() == (v, o, n));
                    assert forall|k: int| 0 <= k < c0.len() implies c@[k] == c0[k] by {}
                    assert(c@[c0.len() as int] == (v, o, n));
                    assert forall|k: int| 0 <= k < c@.len() implies used_by(ls, (#[trigger] c@[k]).0) by {
                        if k == c0.len() {
                            assert(ls[i as int][j as int] == c@[k].0);
                        } else {
                            assert(c@[k] == c0[k]);
                        }
                    }
                    assert forall|a: int, b: int| 0 <= a < b < c@.len() implies (#[trigger] c@[a]).0 != (#[trigger] c@[b]).0 by {
                        if b == c0.len() {
                            assert(c0[a] == c@[a]);
                        }
                    }
                    assert forall|x: u64| has_copy(c0, x) implies has_copy(c@, x) by {
                        let k = choose|k: int| 0 <= k < c0.len() && (#[trigger] c0[k]).0 == x;
                        assert(c@[k] == c0[k]);
                    }
                    assert(has_copy(c@, v)) by {
                        assert(c@[c0.len() as int].0 == v);
                    }
                    assert forall|k: int| 0 <= k < c@.len() implies {
                        &&& r@.vertices.dom().contains((#[trigger] c@[k]).1)
                        &&& r@.vertices.dom().contains(c@[k].2)
                        &&& r@.vertices[c@[k].1].point == so.vertices[c@[k].0].point
                        &&& r@.vertices[c@[k].2].point == so.vertices[c@[k].0].point
                        &&& c@[k].1 != c@[k].2
                    } by {
                        if k < c0.len() {
                            assert(c@[k] == c0[k]);
                            assert(r0.vertices.dom().contains(c0[k].1));
                            assert(r0.vertices.dom().contains(c0[k].2));
                        }
                    }
                    assert forall|a: int, b: int| 0 <= a < b < c@.len() implies {
                        &&& (#[trigger] c@[a]).1 != (#[trigger] c@[b]).1
                        &&& c@[a].2 != c@[b].2
                        &&& c@[a].1 != c@[b].2
                        &&& c@[a].2 != c@[b].1
                    } by {
                        assert(c@[a] == c0[a]);
                        if b < c0.len() {
                            assert(c@[b] == c0[b]);
                        } else {
                            assert(r0.vertices.dom().contains(c0[a].1));
                            assert(r0.vertices.dom().contains(c0[a].2));
                        }
                    }
                    assert forall|x: u64| #[trigger] r@.vertices.dom().contains(x) implies exists|k: int| 0 <= k < c@.len() && (
                        (#[trigger] c@[k]).1 == x || c@[k].2 == x) by {
                        if x == o || x == n {
                            assert(c@[c0.len() as int].1 == o);
                        } else {
                            assert(r0.vertices.dom().contains(x));
                            let k = choose|k: int| 0 <= k < c0.len() && ((#[trigger] c0[k]).1 == x || c0[k].2 == x);
                            assert(c@[k] == c0[k]);
                        }
                    }
                }
            }
            j = j + 1;
        }
        proof {
            assert forall|p: int, q: int| 0 <= p < i + 1 && 0 <= q < ls[p].len() implies has_copy(c@, #[trigger] ls[p][q]) by {
                if p == i {
                    assert(has_copy(c@, ls[i as int][q]));
                }
            }
        }
        i = i + 1;
    }
    proof {
        assert(ls.take(nf as int) =~= ls);
    }
    let ghost cs = c@;
    // The faces.
    let mut fids: Vec<u64> = Vec::new();
    let ghost mut exp: Seq<(Seq<u64>, u64)> = Seq::empty();
    proof {
        fids@.unique_seq_to_set();
        assert(fids@.to_set() =~= r@.faces.dom());
        lemma_totals_split(ls, open_faces@, nf as nat);
        lemma_totals_prefix(ls, open_faces@, 0, nf as nat, false);
    }
    let ghost n_closed = part_total(ls, open_faces@, nf as nat, false);
    let ghost n_open = part_total(ls, open_faces@, nf as nat, true);
    // Outer faces.
    i = 0;
    while i < nf
        invariant
            nf == fs@.len() == ls.len() == ss.len(),
            solid_wf(so),
            loops@.len() == nf,
            surfs@.len() == nf,
            forall|q: int| 0 <= q < nf ==> (#[trigger] loops@[q])@ == ls[q] && surfs@[q] == ss[q],
            cs == c@,
            forall|p: int, q: int| 0 <= p < nf && 0 <= q < ls[p].len() ==> has_copy(cs, #[trigger] ls[p][q]),
            copies_placed(r@, so, cs),
            solid_wf(r@),
            4 * total + 2 * nf + 4 < u32::MAX - 1,
            n_open + n_closed == total,
            n_closed == part_total(ls, open_faces@, nf as nat, false),
            i <= nf,
            exp == outer_part(ls, ss, open_faces@, cs, i as nat),
            faces_match(r@, fids@, exp),
            r@.faces.len() == fids@.len(),
            fids@.len() <= i,
            r@.half_edges.len() == part_total(ls, open_faces@, i as nat, false),
            r@.edges.len() == r@.half_edges.len(),
        decreases nf - i,
    {
        proof {
            lemma_totals_prefix(ls, open_faces@, (i + 1) as nat, nf as nat, false);
        }
        if !is_open_index(open_faces, i) {
            let vs = outer_ids(&c, &loops[i]);
            proof {
                assert forall|j: int| 0 <= j < vs@.len() implies r@.vertices.dom().contains(#[trigger] vs@[j]) by {
                    assert(has_copy(cs, ls[i as int][j]));
                    lemma_ids_in_dom(r@, cs, so, ls[i as int][j]);
                }
            }
            add_face_tracked(&mut r, &mut fids, surfs[i], &vs, Ghost(exp));
            proof {
                exp = exp.push((vs@, ss[i as int]));
            }
        }
        i = i + 1;
    }
    let ghost outer_all = exp;
    // Inner faces.
    i = 0;
    while i < nf
        invariant
            nf == fs@.len() == ls.len() == ss.len(),
            solid_wf(so),
            loops@.len() == nf,
            surfs@.len() == nf,
            forall|q: int| 0 <= q < nf ==> (#[trigger] loops@[q])@ == ls[q] && surfs@[q] == ss[q],
            cs == c@,
            forall|p: int, q: int| 0 <= p < nf && 0 <= q < ls[p].len() ==> has_copy(cs, #[trigger] ls[p][q]),
            copies_placed(r@, so, cs),
            solid_wf(r@),
            4 * total + 2 * nf + 4 < u32::MAX - 1,
            n_open + n_closed == total,
            n_closed == part_total(ls, open_faces@, nf as nat, false),
            i <= nf,
            outer_all == outer_part(ls, ss, open_faces@, cs, nf as nat),
            exp == outer_all + inner_part(ls, ss, open_faces@, cs, i as nat),
            faces_match(r@, fids@, exp),
            r@.faces.len() == fids@.len(),
            fids@.len() <= nf + i,
            r@.half_edges.len() == n_closed + part_total(ls, open_faces@, i as nat, false),
            r@.edges.len() == r@.half_edges.len(),
        decreases nf - i,
    {
        proof {
            lemma_totals_prefix(ls, open_faces@, (i + 1) as nat, nf as nat, false);
        }
        if !is_open_index(open_faces, i) {
            let vs = inner_ids(&c, &loops[i]);
            proof {
                assert forall|j: int| 0 <= j < vs@.len() implies r@.vertices.dom().contains(#[trigger] vs@[j]) by {
                    let l = ls[i as int];
                    assert(vs@[j] == copy_of(cs, l.reverse()[j]).1);
                    assert(l.reverse()[j] == l[l.len() - 1 - j]);
                    assert(has_copy(cs, l[l.len() - 1 - j]));
                    lemma_ids_in_dom(r@, cs, so, l[l.len() - 1 - j]);
                }
            }
            add_face_tracked(&mut r, &mut fids, surfs[i], &vs, Ghost(exp));
            proof {
                assert(outer_all + inner_part(ls, ss, open_faces@, cs, (i + 1) as nat) =~= exp.push((vs@, ss[i as int])));
                exp = exp.push((vs@, ss[i as int]));
            }
        } else {
            assert(outer_all + inner_part(ls, ss, open_faces@, cs, (i + 1) as nat) =~= exp);
        }
        i = i + 1;
    }
    let ghost closed_all = exp;
    // Rim quads.
    i = 0;
    while i < nf
        invariant
            nf == fs@.len() == ls.len() == ss.len(),
            solid_wf(so),
            loops@.len() == nf,
            surfs@.len() == nf,
            forall|q: int| 0 <= q < nf ==> (#[trigger] loops@[q])@ == ls[q] && surfs@[q] == ss[q],
            cs == c@,
            forall|p: int, q: int| 0 <= p < nf && 0 <= q < ls[p].len() ==> has_copy(cs, #[trigger] ls[p][q]),
            copies_placed(r@, so, cs),
            solid_wf(r@),
            4 * total + 2 * nf + 4 < u32::MAX - 1,
            n_open + n_closed == total,
            n_open == part_total(ls, open_faces@, nf as nat, true),
            i <= nf,
            closed_all == outer_part(ls, ss, open_faces@, cs, nf as nat) + inner_part(ls, ss, open_faces@, cs, nf as nat),
            exp == closed_all + rim_part(ls, ss, open_faces@, cs, i as nat),
            faces_match(r@, fids@, exp),
            r@.faces.len() == fids@.len(),
            fids@.len() <= 2 * nf + part_total(ls, open_faces@, i as nat, true),
            r@.half_edges.len() == 2 * n_closed + 4 * part_total(ls, open_faces@, i as nat, true),
            r@.edges.len() == r@.half_edges.len(),
        decreases nf - i,
    {
        proof {
            lemma_totals_prefix(ls, open_faces@, (i + 1) as nat, nf as nat, true);
        }
        if is_open_index(open_faces, i) {
            let l = &loops[i];
            let m = l.len();
            let ghost base = exp;
            let ghost lv = ls[i as int];
            let ghost sf = ss[i as int];
            let mut k: usize = 0;
            while k < m
                invariant
                    nf == fs@.len() == ls.len() == ss.len(),
                    i < nf,
                    l@ == lv,
                    lv == ls[i as int],
                    sf == ss[i as int],
                    surfs@[i as int] == sf,
                    surfs@.len() == nf,
                    m == lv.len(),
                    k <= m,
                    cs == c@,
                    forall|q: int| 0 <= q < m ==> has_copy(cs, #[trigger] lv[q]),
                    copies_placed(r@, so, cs),
                    solid_wf(r@),
                    4 * total + 2 * nf + 4 < u32::MAX - 1,
                    n_open + n_closed == total,
                    part_total(ls, open_faces@, (i + 1) as nat, true) == part_total(ls, open_faces@, i as nat, true) + m,
                    part_total(ls, open_faces@, (i + 1) as nat, true) <= n_open,
                    base == closed_all + rim_part(ls, ss, open_faces@, cs, i as nat),
                    exp == base + rim_quads(cs, lv, sf).take(k as int),
                    faces_match(r@, fids@, exp),
                    r@.faces.len() == fids@.len(),
                    fids@.len() <= 2 * nf + part_total(ls, open_faces@, i as nat, true) + k,
                    r@.half_edges.len() == 2 * n_closed + 4 * part_total(ls, open_faces@, i as nat, true) + 4 * k,
                    r@.edges.len() == r@.half_edges.len(),
                decreases m - k,
            {
                assert(has_copy(cs, lv[k as int]));
                let a = find_copy(&c, l[k]).unwrap();
                let kn: usize = if k + 1 == m { 0 } else { k + 1 };
                assert(kn as int == (k + 1) % (m as int)) by (nonlinear_arith)
                    requires
                        k < m,
                        kn == (if k + 1 == m { 0 } else { k + 1 }),
                ;
                assert(has_copy(cs, lv[kn as int]));
                let b = find_copy(&c, l[kn]).unwrap();
                let q: Vec<u64> = vec![a.0, b.0, b.1, a.1];
                proof {
                    assert(q@ =~= rim_quad(cs, lv, k as int));
                    lemma_ids_in_dom(r@, cs, so, lv[k as int]);
                    lemma_ids_in_dom(r@, cs, so, lv[kn as int]);
                }
                add_face_tracked(&mut r, &mut fids, surfs[i], &q, Ghost(exp));
                proof {
                    assert(rim_quads(cs, lv, sf).take(k + 1) =~= rim_quads(cs, lv, sf).take(k as int).push((q@, sf)));
                    assert(base + rim_quads(cs, lv, sf).take(k + 1) =~= exp.push((q@, sf)));
                    exp = exp.push((q@, sf));
                }
                k = k + 1;
            }
            proof {
                assert(rim_quads(cs, lv, sf).take(m as int) =~= rim_quads(cs, lv, sf));
                assert(closed_all + rim_part(ls, ss, open_faces@, cs, (i + 1) as nat) =~= exp);
            }
        } else {
            assert(closed_all + rim_part(ls, ss, open_faces@, cs, (i + 1) as nat) =~= exp);
        }
        i = i + 1;
    }
    proof {
        assert(exp =~= shelled_faces(ls, ss, open_faces@, cs));
    }
    let ghost built = r@;
    r.link_twins();
    proof {
        let t = r@;
        assert forall|k: int| 0 <= k < fids@.len() implies loop_of(t, #[trigger] fids@[k]) == exp[k].0
            && t.faces[fids@[k]].surface == exp[k].1 && t.faces[fids@[k]].normal_outward by {
            let f = fids@[k];
            assert(built.faces.dom().contains(f)) by {
                assert(fids@.to_set().contains(f));
            }
            assert(face_fits(built, f));
            assert forall|q: int| 0 <= q < built.faces[f].outer_loop@.len() implies t.half_edges[#[trigger] built.faces[f].outer_loop@[q]].origin
                == built.half_edges[built.faces[f].outer_loop@[q]].origin by {}
            assert(loop_of(t, f) =~= loop_of(built, f));
        }
        let ks = choose|ks: Seq<u64>|
            #![trigger link_from(built, ks, 0)]
            ks.no_duplicates() && ks.to_set() == built.half_edges.dom() && t == link_from(built, ks, 0);
        assert(solid_wf(built) && ks.no_duplicates() && ks.to_set() == built.half_edges.dom() && t == link_from(built, ks, 0));
    }
    ShellTopology { solid: r, face_order: fs, copies: c, faces: fids }
}

} // verus!
