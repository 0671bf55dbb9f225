//! The topology of a loft through sections of the same number of points:
//! one vertex per point, a bottom cap on the first section (its loop
//! reversed), a top cap on the last, and one quad per pair of neighbouring
//! points between adjacent sections; then twins are linked. Points and
//! surfaces are numbered here and computed outside.
use vstd::prelude::*;
use crate::solid::{Solid, SolidView, solid_wf, face_fits, link_from};
use crate::shell::{loop_of, faces_match, add_face_tracked};

verus! {

/// The side quad between sections `s` and `s + 1` at points `i` and the
/// next one round the section.
pub open spec fn side_quad(ids: Seq<Seq<u64>>, n: int, s: int, i: int) -> Seq<u64> {
    let j = (i + 1) % n;
    seq![ids[s][i], ids[s][j], ids[s + 1][j], ids[s + 1][i]]
}

/// The side quads between sections `s` and `s + 1`, for the first `i`
/// points, each on surface `2 + s * n + i`.
pub open spec fn row_quads(ids: Seq<Seq<u64>>, n: int, s: int, i: nat) -> Seq<(Seq<u64>, u64)>
    decreases i,
{
    if i == 0 {
        Seq::empty()
    } else {
        row_quads(ids, n, s, (i - 1) as nat).push((side_quad(ids, n, s, i - 1), (2 + s * n + i - 1) as u64))
    }
}

/// The side quads between the first `s + 1` sections.
pub open spec fn side_quads(ids: Seq<Seq<u64>>, n: int, s: nat) -> Seq<(Seq<u64>, u64)>
    decreases s,
{
    if s == 0 { Seq::empty() } else { side_quads(ids, n, (s - 1) as nat) + row_quads(ids, n, s - 1, n as nat) }
}

/// The faces of a loft, in the order they are made: the bottom cap on the
/// first section reversed (surface 0), the top cap on the last (surface 1),
/// then the side quads.
pub open spec fn loft_faces(ids: Seq<Seq<u64>>, n: int) -> Seq<(Seq<u64>, u64)> {
    seq![(ids[0].reverse(), 0u64), (ids.last(), 1u64)] + side_quads(ids, n, (ids.len() - 1) as nat)
}

/// The vertices: `ids[s][i]` is a vertex of its own at point `s * n + i`,
/// and there is no other.
pub open spec fn loft_vertices(v: SolidView, ids: Seq<Seq<u64>>, n: int) -> bool {
    &&& forall|s: int, i: int| 0 <= s < ids.len() && 0 <= i < ids[s].len() ==> v.vertices.dom().contains(
        #[trigger] ids[s][i],
    ) && v.vertices[ids[s][i]].point == s * n + i
    &&& forall|s: int| 0 <= s < ids.len() ==> (#[trigger] ids[s]).len() == n
    &&& forall|s1: int, i1: int, s2: int, i2: int|
        0 <= s1 < ids.len() && 0 <= i1 < n && 0 <= s2 < ids.len() && 0 <= i2 < n && (s1 != s2 || i1 != i2) ==> #[trigger] ids[s1][i1]
            != #[trigger] ids[s2][i2]
    &&& forall|x: u64| #[trigger] v.vertices.dom().contains(x) ==> exists|s: int, i: int| 0 <= s < ids.len() && 0 <= i < n
        && #[trigger] ids[s][i] == x
}

/// A loft's topology: the solid, the vertex of each point by section, and
/// the faces in the order they were made.
pub struct LoftTopology {
    pub solid: Solid,
    pub ids: Vec<Vec<u64>>,
    pub faces: Vec<u64>,
}

proof fn lemma_bound(s: int, i: int, n: int, m: int)
    requires
        0 <= s < m,
        0 <= i < n,
    ensures
        s * n + i + 1 <= m * n,
        s * n + n == (s + 1) * n,
{
    assert(s * n + i + 1 <= m * n) by (nonlinear_arith)
        requires
            0 <= s < m,
            0 <= i < n,
    ;
    assert(s * n + n == (s + 1) * n) by (nonlinear_arith);
}

/// Builds the topology of a loft through `sections` sections of
/// `vert_count` points each: see the module's description. Point `s *
/// vert_count + i` is point `i` of section `s`.
#[verifier::rlimit(100)]
pub fn loft_topology(sections: usize, vert_count: usize) -> (r: LoftTopology)
    requires
        sections >= 2,
        vert_count >= 3,
        6 * sections * vert_count + 8 < u32::MAX - 1,
    ensures
        solid_wf(r.solid@),
        r.ids@.len() == sections,
        loft_vertices(r.solid@, r.ids@.map_values(|row: Vec<u64>| row@), vert_count as int),
        faces_match(r.solid@, r.faces@, loft_faces(r.ids@.map_values(|row: Vec<u64>| row@), vert_count as int)),
        exists|b: SolidView, ks: Seq<u64>|
            #![trigger link_from(b, ks, 0)]
            solid_wf(b) && ks.no_duplicates() && ks.to_set() == b.half_edges.dom() && r.solid@ == link_from(b, ks, 0),
{
    let n = vert_count;
    let ghost ni = n as int;
    proof {
        assert(sections * n <= 6 * sections * n) by (nonlinear_arith);
    }
    let mut solid = Solid::new();
    let mut ids: Vec<Vec<u64>> = Vec::new();
    let mut p: u64 = 0;
    let mut s: usize = 0;
    while s < sections
        invariant
            n == vert_count,
            ni == n,
            sections >= 2,
            n >= 3,
            6 * sections * n + 8 < u32::MAX - 1,
            sections * n <= 6 * sections * n,
            s <= sections,
            ids@.len() == s,
            p == s * n,
            solid_wf(solid@),
            solid@.half_edges.dom().is_empty(),
            solid@.edges.dom().is_empty(),
            solid@.faces.dom().is_empty(),
            solid@.vertices.len() == p,
            loft_vertices(solid@, ids@.map_values(|row: Vec<u64>| row@), ni),
        decreases sections - s,
    {
        let ghost rows0 = ids@.map_values(|row: Vec<u64>| row@);
        let mut row: Vec<u64> = Vec::new();
        let mut i: usize = 0;
        while i < n
            invariant
                n == vert_count,
                ni == n,
                n >= 3,
                6 * sections * n + 8 < u32::MAX - 1,
                sections * n <= 6 * sections * n,
                s < sections,
                ids@.len() == s,
                rows0 == ids@.map_values(|row: Vec<u64>| row@),
                i <= n,
                row@.len() == i,
                p == s * n + i,
                solid_wf(solid@),
                solid@.half_edges.dom().is_empty(),
                solid@.edges.dom().is_empty(),
                solid@.faces.dom().is_empty(),
                solid@.vertices.len() == p,
                forall|a: int, b: int| 0 <= a < s && 0 <= b < ni ==> solid@.vertices.dom().contains(#[trigger] rows0[a][b])
                    && solid@.vertices[rows0[a][b]].point == a * ni + b,
                forall|a: int| 0 <= a < s ==> (#[trigger] rows0[a]).len() == ni,
                forall|b: int| 0 <= b < i ==> solid@.vertices.dom().contains(#[trigger] row@[b]) && solid@.vertices[row@[b]].point
                    == s * ni + b,
                forall|s1: int, i1: int, s2: int, i2: int|
                    0 <= s1 < s && 0 <= i1 < ni && 0 <= s2 < s && 0 <= i2 < ni && (s1 != s2 || i1 != i2) ==> #[trigger] rows0[s1][i1]
                        != #[trigger] rows0[s2][i2],
                forall|a: int, b: int, c: int| 0 <= a < s && 0 <= b < ni && 0 <= c < i ==> #[trigger] rows0[a][b] != #[trigger] row@[c],
                forall|b: int, c: int| 0 <= b < c < i ==> #[trigger] row@[b] != #[trigger] row@[c],
                forall|x: u64| #[trigger] solid@.vertices.dom().contains(x) ==> (exists|a: int, b: int| 0 <= a < s && 0 <= b < ni
                    && #[trigger] rows0[a][b] == x) || (exists|c: int| 0 <= c < i && #[trigger] row@[c] == x),
            decreases n - i,
        {
            proof {
                lemma_bound(s as int, i as int, ni, sections as int);
            }
            let ghost v0 = solid@;
            let ghost r0 = row@;
            let v = solid.add_vertex(p);
            row.push(v);
            proof {
                assert forall|b: int| 0 <= b < i + 1 implies solid@.vertices.dom().contains(#[trigger] row@[b])
                    && solid@.vertices[row@[b]].point == s * ni + b by {
                    if b < i {
                        assert(row@[b] == r0[b]);
                        assert(v0.vertices.dom().contains(r0[b]));
                    }
                }
                assert forall|a: int, b: int, c: int| 0 <= a < s && 0 <= b < ni && 0 <= c < i + 1 implies #[trigger] rows0[a][b]
                    != #[trigger] row@[c] by {
                    if c == i {
                        assert(v0.vertices.dom().contains(rows0[a][b]));
                    } else {
                        assert(row@[c] == r0[c]);
                    }
                }
                assert forall|b: int, c: int| 0 <= b < c < i + 1 implies #[trigger] row@[b] != #[trigger] row@[c] by {
                    assert(row@[b] == r0[b]);
                    assert(v0.vertices.dom().contains(r0[b]));
                    if c < i {
                        assert(row@[c] == r0[c]);
                    }
                }
                assert forall|x: u64| #[trigger] solid@.vertices.dom().contains(x) implies (exists|a: int, b: int| 0 <= a < s && 0
                    <= b < ni && #[trigger] rows0[a][b] == x) || (exists|c: int| 0 <= c < i + 1 && #[trigger] row@[c] == x) by {
                    if x == v {
                        assert(row@[i as int] == v);
                    } else {
                        assert(v0.vertices.dom().contains(x));
                        if exists|c: int| 0 <= c < i && #[trigger] r0[c] == x {
                            let c = choose|c: int| 0 <= c < i && #[trigger] r0[c] == x;
                            assert(row@[c] == r0[c]);
                        }
                    }
                }
            }
            p = p + 1;
            i = i + 1;
        }
        ids.push(row);
        proof {
            assert(s * ni + ni == (s + 1) * ni) by (nonlinear_arith);
            let rows = ids@.map_values(|row: Vec<u64>| row@);
            assert forall|a: int| 0 <= a < s ==> rows[a] == rows0[a] by {}
            assert(rows[s as int] == row@);
            assert(loft_vertices(solid@, rows, ni)) by {
                assert forall|s1: int, i1: int, s2: int, i2: int|
                    0 <= s1 < rows.len() && 0 <= i1 < ni && 0 <= s2 < rows.len() && 0 <= i2 < ni && (s1 != s2 || i1 != i2)
                        implies #[trigger] rows[s1][i1] != #[trigger] rows[s2][i2] by {
                    if s1 < s && s2 < s {
                    } else if s1 < s {
                        assert(rows0[s1][i1] != row@[i2]);
                    } else if s2 < s {
                        assert(rows0[s2][i2] != row@[i1]);
                    } else if i1 < i2 {
                        assert(row@[i1] != row@[i2]);
                    } else {
                        assert(row@[i2] != row@[i1]);
                    }
                }
                assert forall|x: u64| #[trigger] solid@.vertices.dom().contains(x) implies exists|a: int, b: int| 0 <= a
                    < rows.len() && 0 <= b < ni && #[trigger] rows[a][b] == x by {
                    if exists|c: int| 0 <= c < n && #[trigger] row@[c] == x {
                        let c = choose|c: int| 0 <= c < n && #[trigger] row@[c] == x;
                        assert(rows[s as int][c] == x);
                    } else {
                        let (a, b) = choose|a: int, b: int| 0 <= a < s && 0 <= b < ni && #[trigger] rows0[a][b] == x;
                        assert(rows[a][b] == x);
                    }
                }
            }
        }
        s = s + 1;
    }
    let ghost rows = ids@.map_values(|row: Vec<u64>| row@);
    assert(rows.len() == sections);
    let mut fids: Vec<u64> = Vec::new();
    let ghost mut exp: Seq<(Seq<u64>, u64)> = Seq::empty();
    proof {
        fids@.unique_seq_to_set();
        assert(fids@.to_set() =~= solid@.faces.dom());
        assert(rows[0] == ids@[0]@);
    }
    // Bottom cap.
    let mut bottom: Vec<u64> = Vec::new();
    let mut k: usize = n;
    while k > 0
        invariant
            k <= n,
            ids@.len() == sections >= 2,
            ids@[0]@.len() == n,
            bottom@ == ids@[0]@.skip(k as int).reverse(),
        decreases k,
    {
        bottom.push(ids[0][k - 1]);
        assert(ids@[0]@.skip(k - 1).reverse() =~= ids@[0]@.skip(k as int).reverse().push(ids@[0]@[k - 1]));
        k = k - 1;
    }
    assert(ids@[0]@.skip(0) =~= ids@[0]@);
    proof {
        assert forall|j: int| 0 <= j < bottom@.len() implies solid@.vertices.dom().contains(#[trigger] bottom@[j]) by {
            assert(bottom@[j] == rows[0][n - 1 - j]);
        }
        assert(solid@.vertices.len() == sections * n);
        assert(solid@.half_edges.dom() =~= Set::<u64>::empty());
        assert(solid@.edges.dom() =~= Set::<u64>::empty());
        assert(solid@.faces.dom() =~= Set::<u64>::empty());
        assert(ni <= sections * ni) by (nonlinear_arith)
            requires
                sections >= 1,
                ni >= 0,
        ;
        assert(6 * sections * ni == 6 * (sections * ni)) by (nonlinear_arith);
        assert(bottom@.len() == n);
    }
    add_face_tracked(&mut solid, &mut fids, 0, &bottom, Ghost(exp));
    proof {
        exp = exp.push((bottom@, 0u64));
    }
    // Top cap.
    let top = &ids[sections - 1];
    proof {
        assert(rows[sections - 1] == top@);
        assert forall|j: int| 0 <= j < top@.len() implies solid@.vertices.dom().contains(#[trigger] top@[j]) by {
            assert(top@[j] == rows[sections - 1][j]);
        }
    }
    add_face_tracked(&mut solid, &mut fids, 1, top, Ghost(exp));
    proof {
        exp = exp.push((top@, 1u64));
        assert(exp =~= seq![(rows[0].reverse(), 0u64), (rows.last(), 1u64)]);
    }
    let ghost caps = exp;
    // Side quads.
    let mut s: usize = 0;
    let mut q: u64 = 2;
    while s + 1 < sections
        invariant
            n == vert_count,
            ni == n,
            sections >= 2,
            n >= 3,
            6 * sections * n + 8 < u32::MAX - 1,
            rows == ids@.map_values(|row: Vec<u64>| row@),
            rows.len() == sections,
            loft_vertices(solid@, rows, ni),
            solid_wf(solid@),
            s + 1 <= sections,
            q == 2 + s * n,
            caps == seq![(rows[0].reverse(), 0u64), (rows.last(), 1u64)],
            exp == caps + side_quads(rows, ni, s as nat),
            faces_match(solid@, fids@, exp),
            solid@.faces.len() == fids@.len(),
            fids@.len() == q,
            solid@.half_edges.len() == 2 * n + 4 * (s * n),
            solid@.edges.len() == solid@.half_edges.len(),
            ni <= sections * ni,
        decreases sections - s,
    {
        let ghost base = exp;
        let mut i: usize = 0;
        while i < n
            invariant
                n == vert_count,
                ni == n,
                sections >= 2,
                n >= 3,
                6 * sections * n + 8 < u32::MAX - 1,
                rows == ids@.map_values(|row: Vec<u64>| row@),
                rows.len() == sections,
                loft_vertices(solid@, rows, ni),
                solid_wf(solid@),
                s + 1 < sections,
                i <= n,
                q == 2 + s * n + i,
                base == caps + side_quads(rows, ni, s as nat),
                exp == base + row_quads(rows, ni, s as int, i as nat),
                faces_match(solid@, fids@, exp),
                solid@.faces.len() == fids@.len(),
                fids@.len() == q,
                solid@.half_edges.len() == 2 * n + 4 * (s * n + i),
                solid@.edges.len() == solid@.half_edges.len(),
                ni <= sections * ni,
            decreases n - i,
        {
            proof {
                lemma_bound(s as int, i as int, ni, (sections - 1) as int);
                assert((sections - 1) * ni <= sections * ni) by (nonlinear_arith)
                    requires
                        sections >= 1,
                        ni >= 0,
                ;
                assert((sections - 1) * ni == sections * ni - ni) by (nonlinear_arith);
                assert(6 * sections * ni == 6 * (sections * ni)) by (nonlinear_arith);
            }
            let j: usize = if i + 1 == n { 0 } else { i + 1 };
            assert(j as int == (i + 1) % ni) by (nonlinear_arith)
                requires
                    i < ni,
                    j == (if i + 1 == ni { 0 } else { i + 1 }),
            ;
            let quad: Vec<u64> = vec![ids[s][i], ids[s][j], ids[s + 1][j], ids[s + 1][i]];
            proof {
                assert(rows[s as int] == ids@[s as int]@);
                assert(rows[s + 1] == ids@[s + 1]@);
                assert(quad@ =~= side_quad(rows, ni, s as int, i as int));
                assert forall|t: int| 0 <= t < 4 implies solid@.vertices.dom().contains(#[trigger] quad@[t]) by {
                    assert(solid@.vertices.dom().contains(rows[s as int][i as int]));
                    assert(solid@.vertices.dom().contains(rows[s as int][j as int]));
                    assert(solid@.vertices.dom().contains(rows[s + 1][j as int]));
                    assert(solid@.vertices.dom().contains(rows[s + 1][i as int]));
                }
            }
            add_face_tracked(&mut solid, &mut fids, q, &quad, Ghost(exp));
            proof {
                assert(row_quads(rows, ni, s as int, (i + 1) as nat) == row_quads(rows, ni, s as int, i as nat).push(
                    (side_quad(rows, ni, s as int, i as int), q),
                ));
                assert(base + row_quads(rows, ni, s as int, (i + 1) as nat) =~= exp.push((quad@, q)));
                exp = exp.push((quad@, q));
            }
            q = q + 1;
            i = i + 1;
        }
        proof {
            assert(caps + side_quads(rows, ni, (s + 1) as nat) =~= exp);
            assert(s * ni + ni == (s + 1) * ni) by (nonlinear_arith);
        }
        s = s + 1;
    }
    proof {
        assert(exp =~= loft_faces(rows, ni));
    }
    let ghost built = solid@;
    solid.link_twins();
    proof {
        let t = solid@;
        assert forall|z: int| 0 <= z < fids@.len() implies loop_of(t, #[trigger] fids@[z]) == exp[z].0
            && t.faces[fids@[z]].surface == exp[z].1 && t.faces[fids@[z]].normal_outward by {
            let f = fids@[z];
            assert(built.faces.dom().contains(f)) by {
                assert(fids@.to_set().contains(f));
            }
            assert(face_fits(built, f));
            assert forall|j: int| 0 <= j < built.faces[f].outer_loop@.len() implies t.half_edges[#[trigger] built.faces[f].outer_loop@[j]].origin
                == built.half_edges[built.faces[f].outer_loop@[j]].origin by {}
            assert(loop_of(t, f) =~= loop_of(built, f));
        }
        let ks = choose|ks: Seq<u64>|
            #![trigger link_from(built, ks, 0)]
            ks.no_duplicates() && ks.to_set() == built.half_edges.dom() && t == link_from(built, ks, 0);
        assert(solid_wf(built) && ks.no_duplicates() && ks.to_set() == built.half_edges.dom() && t == link_from(built, ks, 0));
    }
    LoftTopology { solid, ids, faces: fids }
}

} // verus!
