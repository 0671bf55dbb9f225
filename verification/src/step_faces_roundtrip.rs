//! Reading back the faces of a written AP203 file: every face the writer
//! writes is resolved by the reader, through its outer bound and edge loop,
//! to the numbers of its loop's points.
use vstd::prelude::*;
use crate::strs::{is_ws, trim, lemma_dec_parse};
use crate::text::{dec, lemma_dec_digits};
use crate::step::{is_ref_char, ref_pieces, piece_ref, pieces_refs, body_refs, entity_kind, entity_map};
use crate::step_read::{is_walk, face_bound_map, edge_loop_map, face_of, faces_in};
use crate::step_solid::{vertex_for, loop_vertices, step_solid_faces, vertices_placed};
use crate::shell::faces_match;
use crate::solid::SolidView;
use crate::step_roundtrip::{
    kind_word, lemma_kind, face_entities_at, faces_entities, product_entities, point_entities, closing_entities,
    ap203_entities, plain_text, plain_points, comment_summary, lemma_ap203_entity_map, lemma_ap203_entities_found,
    map_of, point_body, lemma_map_of_keys,
};
use crate::touchstone_roundtrip::lemma_trim_fixed;
use crate::step_write::{ref_text, refs_joined, loop_refs, face_id, face_ids, first_point_id, ap203_text};

verus! {

// ---------------------------------------------------------------------------
// References in a body
// ---------------------------------------------------------------------------

proof fn lemma_pieces_nonempty(s: Seq<char>)
    ensures
        ref_pieces(s).len() >= 1,
    decreases s.len(),
{
    if s.len() > 0 {
        lemma_pieces_nonempty(s.drop_last());
    }
}

/// After a separator, the pieces of what follows start afresh.
proof fn lemma_pieces_after_sep(a: Seq<char>, b: Seq<char>)
    requires
        a.len() > 0,
        !is_ref_char(a.last()),
    ensures
        ref_pieces(a + b) == ref_pieces(a).drop_last() + ref_pieces(b),
    decreases b.len(),
{
    lemma_pieces_nonempty(a.drop_last());
    assert(ref_pieces(a) == ref_pieces(a.drop_last()).push(Seq::<char>::empty()));
    if b.len() == 0 {
        assert(a + b =~= a);
        assert(ref_pieces(b) =~= seq![Seq::<char>::empty()]);
        assert(ref_pieces(a).drop_last() + ref_pieces(b) =~= ref_pieces(a));
    } else {
        lemma_pieces_after_sep(a, b.drop_last());
        lemma_pieces_nonempty(b.drop_last());
        let p = ref_pieces(a).drop_last();
        let q = ref_pieces(b.drop_last());
        assert((a + b).drop_last() =~= a + b.drop_last());
        assert((a + b).last() == b.last());
        if !is_ref_char(b.last()) {
            assert((p + q).push(Seq::<char>::empty()) =~= p + q.push(Seq::<char>::empty()));
        } else {
            let pq = p + q;
            assert(pq.last() == q.last());
            assert(pq.update(pq.len() - 1, pq.last().push(b.last())) =~= p + q.update(
                q.len() - 1,
                q.last().push(b.last()),
            ));
        }
    }
}

proof fn lemma_refs_concat(p: Seq<Seq<char>>, q: Seq<Seq<char>>)
    ensures
        pieces_refs(p + q) == pieces_refs(p) + pieces_refs(q),
    decreases q.len(),
{
    if q.len() == 0 {
        assert(p + q =~= p);
        assert(pieces_refs(p) + pieces_refs(q) =~= pieces_refs(p));
    } else {
        lemma_refs_concat(p, q.drop_last());
        assert((p + q).drop_last() =~= p + q.drop_last());
        assert((p + q).last() == q.last());
        match piece_ref(q.last()) {
            Some(v) => {
                assert((pieces_refs(p) + pieces_refs(q.drop_last())).push(v as u64) =~= pieces_refs(p) + pieces_refs(
                    q.drop_last(),
                ).push(v as u64));
            },
            None => {},
        }
    }
}

proof fn lemma_empty_piece()
    ensures
        piece_ref(Seq::<char>::empty()) is None,
{
    let e = Seq::<char>::empty();
    assert(crate::strs::trim_start(e) == e);
    assert(trim(e) == e);
}

/// The references of two texts joined at a separator are those of each.
pub proof fn lemma_body_refs_concat(a: Seq<char>, b: Seq<char>)
    requires
        (a.len() > 0 && !is_ref_char(a.last())) || (b.len() > 0 && !is_ref_char(b[0])),
    ensures
        body_refs(a + b) == body_refs(a) + body_refs(b),
    decreases b.len(),
{
    lemma_empty_piece();
    if a.len() > 0 && !is_ref_char(a.last()) {
        lemma_pieces_after_sep(a, b);
        lemma_pieces_nonempty(a.drop_last());
        let r = ref_pieces(a);
        assert(r == ref_pieces(a.drop_last()).push(Seq::<char>::empty()));
        assert(r.drop_last() =~= ref_pieces(a.drop_last()));
        assert(pieces_refs(r) == pieces_refs(r.drop_last()));
        lemma_refs_concat(r.drop_last(), ref_pieces(b));
    } else {
        let c = seq![b[0]];
        let rest = b.drop_first();
        assert(b =~= c + rest);
        assert(a + b =~= (a + c) + rest);
        lemma_body_refs_concat(a + c, rest);
        lemma_body_refs_concat(c, rest);
        // a + c ends with a separator, so it refers to what a does.
        lemma_pieces_nonempty(a);
        assert((a + c).drop_last() =~= a);
        assert(ref_pieces(a + c) == ref_pieces(a).push(Seq::<char>::empty()));
        assert(ref_pieces(a + c).drop_last() =~= ref_pieces(a));
        // c alone refers to nothing.
        assert(c.drop_last() =~= Seq::<char>::empty());
        assert(c.last() == b[0]);
        assert(ref_pieces(c.drop_last()) == seq![Seq::<char>::empty()]);
        assert(ref_pieces(c) =~= seq![Seq::<char>::empty(), Seq::<char>::empty()]);
        assert(pieces_refs(seq![Seq::<char>::empty()]) =~= Seq::<u64>::empty()) by {
            let one = seq![Seq::<char>::empty()];
            assert(one.drop_last() =~= Seq::<Seq<char>>::empty());
            assert(one.last() == Seq::<char>::empty());
            assert(pieces_refs(one.drop_last()) == Seq::<u64>::empty());
        }
        assert(ref_pieces(c).drop_last() =~= seq![Seq::<char>::empty()]);
        assert(body_refs(c) =~= Seq::<u64>::empty());
        assert(Seq::<u64>::empty() + body_refs(rest) =~= body_refs(rest));
    }
}

/// Every piece is made of digits only.
proof fn lemma_pieces_digits(s: Seq<char>)
    requires
        forall|j: int| 0 <= j < s.len() ==> #[trigger] s[j] != '#',
    ensures
        forall|i: int, j: int| 0 <= i < ref_pieces(s).len() && 0 <= j < ref_pieces(s)[i].len()
            ==> '0' <= #[trigger] ref_pieces(s)[i][j] <= '9',
    decreases s.len(),
{
    if s.len() > 0 {
        let d = s.drop_last();
        assert forall|j: int| 0 <= j < d.len() implies #[trigger] d[j] != '#' by {
            assert(d[j] == s[j]);
        }
        lemma_pieces_digits(d);
        lemma_pieces_nonempty(d);
        let p = ref_pieces(d);
        let c = s.last();
        assert(c == s[s.len() - 1]);
        if is_ref_char(c) {
            let q = p.update(p.len() - 1, p.last().push(c));
            assert forall|i: int, j: int| 0 <= i < q.len() && 0 <= j < q[i].len() implies '0' <= #[trigger] q[i][j] <= '9' by {
                if i == p.len() - 1 {
                    if j < p.last().len() {
                        assert(q[i][j] == p[i][j]);
                    }
                } else {
                    assert(q[i] == p[i]);
                }
            }
        } else {
            let q = p.push(Seq::<char>::empty());
            assert forall|i: int, j: int| 0 <= i < q.len() && 0 <= j < q[i].len() implies '0' <= #[trigger] q[i][j] <= '9' by {
                assert(q[i] == p[i]);
            }
        }
    }
}

proof fn lemma_digit_pieces_no_refs(ps: Seq<Seq<char>>)
    requires
        forall|i: int, j: int| 0 <= i < ps.len() && 0 <= j < ps[i].len() ==> '0' <= #[trigger] ps[i][j] <= '9',
    ensures
        pieces_refs(ps) == Seq::<u64>::empty(),
    decreases ps.len(),
{
    if ps.len() > 0 {
        let d = ps.drop_last();
        assert forall|i: int, j: int| 0 <= i < d.len() && 0 <= j < d[i].len() implies '0' <= #[trigger] d[i][j] <= '9' by {
            assert(d[i] == ps[i]);
        }
        lemma_digit_pieces_no_refs(d);
        let l = ps.last();
        assert(l == ps[ps.len() - 1]);
        if l.len() == 0 {
            lemma_empty_piece();
        } else {
            assert('0' <= l[0] <= '9');
            assert('0' <= l[l.len() - 1] <= '9');
            assert(!is_ws(l[0]) && !is_ws(l.last()));
            lemma_trim_fixed(l);
        }
    }
}

/// Text without `#` refers to nothing.
pub proof fn lemma_no_refs(s: Seq<char>)
    requires
        forall|j: int| 0 <= j < s.len() ==> #[trigger] s[j] != '#',
    ensures
        body_refs(s) == Seq::<u64>::empty(),
{
    lemma_pieces_digits(s);
    lemma_digit_pieces_no_refs(ref_pieces(s));
}

proof fn lemma_all_ref_chars(s: Seq<char>)
    requires
        forall|j: int| 0 <= j < s.len() ==> is_ref_char(#[trigger] s[j]),
    ensures
        ref_pieces(s) == seq![s],
    decreases s.len(),
{
    if s.len() > 0 {
        let d = s.drop_last();
        assert forall|j: int| 0 <= j < d.len() implies is_ref_char(#[trigger] d[j]) by {
            assert(d[j] == s[j]);
        }
        lemma_all_ref_chars(d);
        assert(is_ref_char(s[s.len() - 1]));
        assert(d.push(s.last()) =~= s);
        assert(seq![d].update(0, d.push(s.last())) =~= seq![s]);
    } else {
        assert(s =~= Seq::<char>::empty());
    }
}

/// A reference written as `#` and its number refers to that number.
pub proof fn lemma_ref_text_refs(n: nat)
    requires
        n <= u64::MAX,
    ensures
        body_refs(ref_text(n)) == seq![n as u64],
{
    let t = ref_text(n);
    lemma_dec_digits(n);
    assert forall|j: int| 0 <= j < t.len() implies is_ref_char(#[trigger] t[j]) by {
        if j > 0 {
            assert(t[j] == dec(n)[j - 1]);
        }
    }
    lemma_all_ref_chars(t);
    assert(t.last() == dec(n)[dec(n).len() - 1]);
    assert(!is_ws(t[0]) && !is_ws(t.last()));
    lemma_trim_fixed(t);
    assert(t.drop_first() =~= dec(n));
    lemma_dec_parse(n, u64::MAX as nat);
    assert(piece_ref(t) == Some(n));
    let one = seq![t];
    assert(one.drop_last() =~= Seq::<Seq<char>>::empty());
    assert(one.last() == t);
    assert(pieces_refs(one.drop_last()) == Seq::<u64>::empty());
    assert(pieces_refs(one) == pieces_refs(one.drop_last()).push(n as u64));
    assert(pieces_refs(one) =~= seq![n as u64]);
}

/// The numbers of a list of references.
pub open spec fn ref_numbers(ids: Seq<nat>) -> Seq<u64> {
    ids.map_values(|n: nat| n as u64)
}

/// References joined by commas refer to their numbers, in order.
pub proof fn lemma_refs_joined_refs(ids: Seq<nat>)
    requires
        forall|i: int| 0 <= i < ids.len() ==> #[trigger] ids[i] <= u64::MAX,
    ensures
        body_refs(refs_joined(ids)) == ref_numbers(ids),
    decreases ids.len(),
{
    if ids.len() == 0 {
        lemma_no_refs(Seq::<char>::empty());
        assert(ref_numbers(ids) =~= Seq::<u64>::empty());
    } else if ids.len() == 1 {
        lemma_ref_text_refs(ids[0]);
        assert(ref_numbers(ids) =~= seq![ids[0] as u64]);
    } else {
        let d = ids.drop_last();
        assert forall|i: int| 0 <= i < d.len() implies #[trigger] d[i] <= u64::MAX by {
            assert(d[i] == ids[i]);
        }
        lemma_refs_joined_refs(d);
        let a = refs_joined(d);
        let comma = seq![','];
        assert(ids.last() == ids[ids.len() - 1]);
        lemma_ref_text_refs(ids.last());
        lemma_body_refs_concat(a, comma);
        lemma_no_refs(comma);
        assert((a + comma).last() == ',');
        lemma_body_refs_concat(a + comma, ref_text(ids.last()));
        assert(ref_numbers(ids) =~= ref_numbers(d) + seq![ids.last() as u64]);
        assert(body_refs(a) + Seq::<u64>::empty() =~= body_refs(a));
    }
}

// ---------------------------------------------------------------------------
// The three entities of a written face
// ---------------------------------------------------------------------------

/// The edge loop the writer writes for a face: its type is `EDGE_LOOP`
/// and it refers to the face's point entities, in order.
pub proof fn lemma_edge_loop_body(f: nat, verts: Seq<usize>)
    requires
        forall|i: int| 0 <= i < verts.len() ==> 12 + #[trigger] verts[i] <= u64::MAX,
    ensures
        entity_kind(face_entities_at(f, verts)[0].1) == "EDGE_LOOP"@,
        body_refs(face_entities_at(f, verts)[0].1) == ref_numbers(loop_refs(verts)),
{
    reveal_strlit("EDGE_LOOP('', (");
    reveal_strlit(") )");
    reveal_strlit("EDGE_LOOP");
    let lit1 = "EDGE_LOOP('', ("@;
    let lit2 = ") )"@;
    let ids = loop_refs(verts);
    let j = refs_joined(ids);
    let b = lit1 + j + lit2;
    assert(face_entities_at(f, verts)[0].1 == b);
    // Its type.
    let head = "EDGE_LOOP"@;
    let rest = "'', ("@ + j + lit2;
    reveal_strlit("'', (");
    assert(b =~= head + seq!['('] + rest);
    assert(kind_word(head));
    assert(rest.last() == ')');
    lemma_kind(head, rest);
    // Its references.
    assert forall|i: int| 0 <= i < ids.len() implies #[trigger] ids[i] <= u64::MAX by {
        assert(ids[i] == 12 + verts[i]);
    }
    lemma_refs_joined_refs(ids);
    lemma_no_refs(lit1);
    lemma_no_refs(lit2);
    assert(lit1.last() == '(');
    lemma_body_refs_concat(lit1, j);
    assert(lit2[0] == ')');
    lemma_body_refs_concat(lit1 + j, lit2);
    assert(Seq::<u64>::empty() + ref_numbers(ids) + Seq::<u64>::empty() =~= ref_numbers(ids));
}

/// The outer bound the writer writes for face `f`: its type is
/// `FACE_OUTER_BOUND` and it refers to the loop `f + 2` alone.
pub proof fn lemma_outer_bound_body(f: nat, verts: Seq<usize>)
    requires
        f + 2 <= u64::MAX,
    ensures
        entity_kind(face_entities_at(f, verts)[1].1) == "FACE_OUTER_BOUND"@,
        body_refs(face_entities_at(f, verts)[1].1) == seq![(f + 2) as u64],
{
    reveal_strlit("FACE_OUTER_BOUND('',");
    reveal_strlit(", .T.)");
    reveal_strlit("FACE_OUTER_BOUND");
    reveal_strlit("'',");
    let lit1 = "FACE_OUTER_BOUND('',"@;
    let lit2 = ", .T.)"@;
    let r = ref_text((f + 2) as nat);
    let b = lit1 + r + lit2;
    assert(face_entities_at(f, verts)[1].1 == b);
    let head = "FACE_OUTER_BOUND"@;
    let rest = "'',"@ + r + lit2;
    assert(b =~= head + seq!['('] + rest);
    assert(kind_word(head));
    assert(rest.last() == ')');
    lemma_kind(head, rest);
    lemma_ref_text_refs((f + 2) as nat);
    lemma_no_refs(lit1);
    lemma_no_refs(lit2);
    assert(lit1.last() == ',');
    lemma_body_refs_concat(lit1, r);
    assert(lit2[0] == ',');
    lemma_body_refs_concat(lit1 + r, lit2);
    assert(Seq::<u64>::empty() + seq![(f + 2) as u64] + Seq::<u64>::empty() =~= seq![(f + 2) as u64]);
}

/// The face the writer writes as entity `f`: its type is `ADVANCED_FACE`
/// and it refers to its bound `f + 1`, then to the loop `f + 2`.
pub proof fn lemma_advanced_face_body(f: nat, verts: Seq<usize>)
    requires
        f + 2 <= u64::MAX,
    ensures
        entity_kind(face_entities_at(f, verts)[2].1) == "ADVANCED_FACE"@,
        body_refs(face_entities_at(f, verts)[2].1) == seq![(f + 1) as u64, (f + 2) as u64],
{
    reveal_strlit("ADVANCED_FACE('',(");
    reveal_strlit("),");
    reveal_strlit(",.T.)");
    reveal_strlit("ADVANCED_FACE");
    reveal_strlit("'',(");
    let lit1 = "ADVANCED_FACE('',("@;
    let lit2 = "),"@;
    let lit3 = ",.T.)"@;
    let r1 = ref_text((f + 1) as nat);
    let r2 = ref_text((f + 2) as nat);
    let b = lit1 + r1 + lit2 + r2 + lit3;
    assert(face_entities_at(f, verts)[2].1 == b);
    let head = "ADVANCED_FACE"@;
    let rest = "'',("@ + r1 + lit2 + r2 + lit3;
    assert(b =~= head + seq!['('] + rest);
    assert(kind_word(head));
    assert(rest.last() == ')');
    lemma_kind(head, rest);
    lemma_ref_text_refs((f + 1) as nat);
    lemma_ref_text_refs((f + 2) as nat);
    lemma_no_refs(lit1);
    lemma_no_refs(lit2);
    lemma_no_refs(lit3);
    assert(lit1.last() == '(');
    lemma_body_refs_concat(lit1, r1);
    assert(lit2[0] == ')');
    lemma_body_refs_concat(lit1 + r1, lit2);
    assert((lit1 + r1 + lit2).last() == ',');
    lemma_body_refs_concat(lit1 + r1 + lit2, r2);
    assert(lit3[0] == ',');
    lemma_body_refs_concat(lit1 + r1 + lit2 + r2, lit3);
    assert(Seq::<u64>::empty() + seq![(f + 1) as u64] + Seq::<u64>::empty() + seq![(f + 2) as u64]
        + Seq::<u64>::empty() =~= seq![(f + 1) as u64, (f + 2) as u64]);
}

// ---------------------------------------------------------------------------
// The faces found in the written file
// ---------------------------------------------------------------------------

proof fn lemma_face_entities_index(np: nat, faces: Seq<Seq<usize>>, k: int, j: int)
    requires
        0 <= k < faces.len(),
        0 <= j < 3,
    ensures
        faces_entities(np, faces).len() == 3 * faces.len(),
        faces_entities(np, faces)[3 * k + j] == face_entities_at(face_id(np, k as nat), faces[k])[j],
    decreases faces.len(),
{
    let n = faces.len() - 1;
    let d = faces.drop_last();
    let a = faces_entities(np, d);
    let b = face_entities_at(face_id(np, n as nat), faces.last());
    assert(faces_entities(np, faces) == a + b);
    if n > 0 {
        lemma_face_entities_index(np, d, 0, 0);
    }
    assert(a.len() == 3 * n);
    if k < n {
        lemma_face_entities_index(np, d, k, j);
        assert(d[k] == faces[k]);
        assert(3 * k + j < 3 * n) by (nonlinear_arith)
            requires
                k < n,
                0 <= j < 3,
        ;
    } else {
        assert(3 * k + j - 3 * n == j);
    }
}

/// Where face `k`'s entities stand among all the written entities.
proof fn lemma_face_entities_at_index(
    name: Seq<char>,
    pts: Seq<(Seq<char>, Seq<char>, Seq<char>)>,
    faces: Seq<Seq<usize>>,
    k: int,
    j: int,
)
    requires
        0 <= k < faces.len(),
        0 <= j < 3,
    ensures
        7 + pts.len() + 3 * k + j < ap203_entities(name, pts, faces).len(),
        ap203_entities(name, pts, faces)[7 + pts.len() + 3 * k + j]
            == face_entities_at(face_id(pts.len(), k as nat), faces[k])[j],
{
    lemma_face_entities_index(pts.len(), faces, k, j);
    lemma_point_count(pts, first_point_id());
    let a = product_entities(name);
    let p = point_entities(pts, first_point_id());
    let fe = faces_entities(pts.len(), faces);
    let c = closing_entities(name, pts.len(), faces.len());
    assert(ap203_entities(name, pts, faces) == a + p + fe + c);
    assert(3 * k + j < 3 * faces.len()) by (nonlinear_arith)
        requires
            k < faces.len(),
            0 <= j < 3,
    ;
    assert((a + p + fe + c)[7 + pts.len() + 3 * k + j] == fe[3 * k + j]);
}

proof fn lemma_point_count(pts: Seq<(Seq<char>, Seq<char>, Seq<char>)>, first: nat)
    ensures
        point_entities(pts, first).len() == pts.len(),
    decreases pts.len(),
{
    if pts.len() > 0 {
        lemma_point_count(pts.drop_last(), first);
    }
}

/// A face found at position `i` of a walk is among the faces of the walk.
proof fn lemma_faces_in_has(order: Seq<(u64, Seq<char>)>, fb: Map<u64, u64>, el: Map<u64, Seq<u64>>, i: int)
    requires
        0 <= i < order.len(),
        face_of(order[i].1, fb, el) is Some,
    ensures
        faces_in(order, fb, el).contains(face_of(order[i].1, fb, el)->0),
    decreases order.len(),
{
    let rest = faces_in(order.drop_last(), fb, el);
    if i < order.len() - 1 {
        lemma_faces_in_has(order.drop_last(), fb, el, i);
        assert(order.drop_last()[i] == order[i]);
        let x = face_of(order[i].1, fb, el)->0;
        let j = choose|j: int| 0 <= j < rest.len() && rest[j] == x;
        match face_of(order.last().1, fb, el) {
            Some(g) => {
                assert(rest.push(g)[j] == x);
            },
            None => {},
        }
    } else {
        assert(order.last() == order[i]);
        let x = face_of(order[i].1, fb, el)->0;
        assert(rest.push(x)[rest.len() as int] == x);
    }
}

/// Face `k` of the written entities resolves, through its bound and its
/// loop, to its loop's point numbers with its loop's number as surface.
proof fn lemma_written_face(
    name: Seq<char>,
    pts: Seq<(Seq<char>, Seq<char>, Seq<char>)>,
    faces: Seq<Seq<usize>>,
    k: int,
)
    requires
        12 + pts.len() + 3 * faces.len() <= u64::MAX,
        0 <= k < faces.len(),
        faces[k].len() > 0,
        forall|j: int| 0 <= j < faces[k].len() ==> #[trigger] faces[k][j] < pts.len(),
    ensures
        ({
            let m = map_of(ap203_entities(name, pts, faces));
            let f = face_id(pts.len(), k as nat) as u64;
            &&& m.contains_key(f)
            &&& face_of(m[f], face_bound_map(m), edge_loop_map(m))
                == Some((ref_numbers(loop_refs(faces[k])), Some((face_id(pts.len(), k as nat) + 2) as u64)))
        }),
{
    let es = ap203_entities(name, pts, faces);
    let m = map_of(es);
    let np = pts.len();
    let f = face_id(np, k as nat);
    let verts = faces[k];
    assert(f + 2 <= u64::MAX) by (nonlinear_arith)
        requires
            f == 12 + np + 3 * k,
            0 <= k < faces.len(),
            12 + np + 3 * faces.len() <= u64::MAX,
    ;
    let base = 7 + np + 3 * k;
    lemma_face_entities_at_index(name, pts, faces, k, 0);
    lemma_face_entities_at_index(name, pts, faces, k, 1);
    lemma_face_entities_at_index(name, pts, faces, k, 2);
    let fe = face_entities_at(f, verts);
    assert(fe[0].0 == f + 2 && fe[1].0 == f + 1 && fe[2].0 == f);
    lemma_ap203_entities_found(name, pts, faces);
    assert(es[base] == fe[0]);
    assert(es[base + 1] == fe[1]);
    assert(es[base + 2] == fe[2]);
    let key_l = (f + 2) as u64;
    let key_b = (f + 1) as u64;
    let key_f = f as u64;
    assert(m.contains_key(key_l) && m[key_l] == fe[0].1);
    assert(m.contains_key(key_b) && m[key_b] == fe[1].1);
    assert(m.contains_key(key_f) && m[key_f] == fe[2].1);
    assert forall|i: int| 0 <= i < verts.len() implies 12 + #[trigger] verts[i] <= u64::MAX by {
        assert(verts[i] == faces[k][i]);
    }
    lemma_edge_loop_body(f, verts);
    lemma_outer_bound_body(f, verts);
    lemma_advanced_face_body(f, verts);
    let fb = face_bound_map(m);
    let el = edge_loop_map(m);
    let ids = ref_numbers(loop_refs(verts));
    assert(ids.len() == verts.len());
    assert(el.contains_key(key_l) && el[key_l] == ids);
    assert(body_refs(m[key_b])[0] == key_l);
    assert(fb.contains_key(key_b) && fb[key_b] == key_l);
    let refs = body_refs(m[key_f]);
    assert(refs[0] == key_b && refs.last() == key_l);
}

/// The faces a walk finds, when every written face comes from an entry,
/// every entry that gives a face is a written face's (under that face's
/// number), and no number is listed twice: exactly the written faces, each
/// once.
proof fn lemma_found_exactly(
    order: Seq<(u64, Seq<char>)>,
    fb: Map<u64, u64>,
    el: Map<u64, Seq<u64>>,
    np: nat,
    faces: Seq<Seq<usize>>,
)
    requires
        12 + np + 3 * faces.len() <= u64::MAX,
        forall|i: int, j: int| 0 <= i < j < order.len() ==> #[trigger] order[i].0 != #[trigger] order[j].0,
        forall|k: int| 0 <= k < faces.len() ==> faces_in(order, fb, el).contains(#[trigger] written_face(np, faces, k)),
        forall|i: int| 0 <= i < order.len() && face_of(order[i].1, fb, el) is Some ==> exists|k: int|
            0 <= k < faces.len() && order[i].0 == face_id(np, k as nat) as u64
            && face_of(#[trigger] order[i].1, fb, el) == Some(written_face(np, faces, k)),
    ensures
        forall|y: (Seq<u64>, Option<u64>)| faces_in(order, fb, el).contains(y) ==> exists|k: int|
            0 <= k < faces.len() && y == #[trigger] written_face(np, faces, k),
        faces_in(order, fb, el).no_duplicates(),
        faces_in(order, fb, el).len() == faces.len(),
{
    let found = faces_in(order, fb, el);
    assert forall|y: (Seq<u64>, Option<u64>)| found.contains(y) implies exists|k: int|
        0 <= k < faces.len() && y == #[trigger] written_face(np, faces, k) by {
        let i = lemma_faces_in_from(order, fb, el, y);
        assert(face_of(order[i].1, fb, el) is Some);
    }
    assert forall|i: int, j: int| 0 <= i < j < order.len() && face_of(order[i].1, fb, el) is Some
        implies #[trigger] face_of(order[i].1, fb, el) != #[trigger] face_of(order[j].1, fb, el) by {
        if face_of(order[i].1, fb, el) == face_of(order[j].1, fb, el) {
            let a = choose|k: int| 0 <= k < faces.len() && order[i].0 == face_id(np, k as nat) as u64
                && face_of(order[i].1, fb, el) == Some(written_face(np, faces, k));
            let b = choose|k: int| 0 <= k < faces.len() && order[j].0 == face_id(np, k as nat) as u64
                && face_of(order[j].1, fb, el) == Some(written_face(np, faces, k));
            lemma_written_faces_distinct(np, faces, a, b);
        }
    }
    lemma_faces_in_distinct(order, fb, el);
    let w = Seq::new(faces.len(), |k: int| written_face(np, faces, k));
    assert(w.no_duplicates()) by {
        assert forall|a: int, b: int| 0 <= a < w.len() && 0 <= b < w.len() && a != b implies w[a] != w[b] by {
            if w[a] == w[b] {
                lemma_written_faces_distinct(np, faces, a, b);
            }
        }
    }
    assert(found.to_set() =~= w.to_set()) by {
        assert forall|y: (Seq<u64>, Option<u64>)| found.to_set().contains(y) implies w.to_set().contains(y) by {
            assert(found.contains(y));
            let k = choose|k: int| 0 <= k < faces.len() && y == #[trigger] written_face(np, faces, k);
            assert(w[k] == y);
        }
        assert forall|y: (Seq<u64>, Option<u64>)| w.to_set().contains(y) implies found.to_set().contains(y) by {
            let k = choose|k: int| 0 <= k < w.len() && w[k] == y;
            assert(found.contains(written_face(np, faces, k)));
        }
    }
    found.unique_seq_to_set();
    w.unique_seq_to_set();
}

/// Every written face is found by a walk of the written file's map.
proof fn lemma_found_all(
    name: Seq<char>,
    pts: Seq<(Seq<char>, Seq<char>, Seq<char>)>,
    faces: Seq<Seq<usize>>,
    order: Seq<(u64, Seq<char>)>,
)
    requires
        12 + pts.len() + 3 * faces.len() <= u64::MAX,
        forall|k: int| 0 <= k < faces.len() ==> (#[trigger] faces[k]).len() > 0,
        forall|k: int, j: int| 0 <= k < faces.len() && 0 <= j < faces[k].len() ==> #[trigger] faces[k][j] < pts.len(),
        is_walk(order, map_of(ap203_entities(name, pts, faces))),
    ensures
        forall|k: int| 0 <= k < faces.len() ==> faces_in(
            order,
            face_bound_map(map_of(ap203_entities(name, pts, faces))),
            edge_loop_map(map_of(ap203_entities(name, pts, faces))),
        ).contains(#[trigger] written_face(pts.len(), faces, k)),
{
    let np = pts.len();
    let m = map_of(ap203_entities(name, pts, faces));
    let fb = face_bound_map(m);
    let el = edge_loop_map(m);
    assert forall|k: int| 0 <= k < faces.len() implies faces_in(order, fb, el).contains(
        #[trigger] written_face(np, faces, k),
    ) by {
        assert forall|j: int| 0 <= j < faces[k].len() implies #[trigger] faces[k][j] < pts.len() by {}
        lemma_written_face(name, pts, faces, k);
        let key_f = face_id(np, k as nat) as u64;
        let i = choose|i: int| 0 <= i < order.len() && #[trigger] order[i].0 == key_f;
        assert(order[i].1 == m[key_f]);
        lemma_faces_in_has(order, fb, el, i);
    }
}

/// Every entry of a walk of the written file's map that gives a face is a
/// written face's entity.
proof fn lemma_found_only(
    name: Seq<char>,
    pts: Seq<(Seq<char>, Seq<char>, Seq<char>)>,
    faces: Seq<Seq<usize>>,
    order: Seq<(u64, Seq<char>)>,
)
    requires
        12 + pts.len() + 3 * faces.len() <= u64::MAX,
        forall|k: int| 0 <= k < faces.len() ==> (#[trigger] faces[k]).len() > 0,
        forall|k: int, j: int| 0 <= k < faces.len() && 0 <= j < faces[k].len() ==> #[trigger] faces[k][j] < pts.len(),
        is_walk(order, map_of(ap203_entities(name, pts, faces))),
    ensures
        forall|i: int| 0 <= i < order.len() && face_of(
            order[i].1,
            face_bound_map(map_of(ap203_entities(name, pts, faces))),
            edge_loop_map(map_of(ap203_entities(name, pts, faces))),
        ) is Some ==> exists|k: int|
            0 <= k < faces.len() && order[i].0 == face_id(pts.len(), k as nat) as u64 && face_of(
                #[trigger] order[i].1,
                face_bound_map(map_of(ap203_entities(name, pts, faces))),
                edge_loop_map(map_of(ap203_entities(name, pts, faces))),
            ) == Some(written_face(pts.len(), faces, k)),
{
    let np = pts.len();
    let m = map_of(ap203_entities(name, pts, faces));
    let fb = face_bound_map(m);
    let el = edge_loop_map(m);
    assert forall|i: int| 0 <= i < order.len() && face_of(order[i].1, fb, el) is Some implies exists|k: int|
        0 <= k < faces.len() && order[i].0 == face_id(np, k as nat) as u64
        && face_of(#[trigger] order[i].1, fb, el) == Some(written_face(np, faces, k)) by {
        let x = order[i].0;
        assert(m.contains_key(x) && m[x] == order[i].1);
        let k = lemma_found_face_written(name, pts, faces, x);
        assert forall|j: int| 0 <= j < faces[k].len() implies #[trigger] faces[k][j] < pts.len() by {}
        lemma_written_face(name, pts, faces, k);
        assert(face_of(order[i].1, fb, el) == Some(written_face(np, faces, k)));
        assert(order[i].0 == face_id(np, k as nat) as u64);
    }
}

/// The faces of a written AP203 file read back: walking the file's entity
/// map in any order, the reader finds exactly the faces written, each once
/// (so as many as were written), each with the numbers of its loop's point
/// entities in order and its loop's number as its surface; provided the
/// file reads back as its entities (see `lemma_ap203_entity_map`), every
/// face has a corner and every corner is one of the points.
pub proof fn lemma_ap203_faces_read_back(
    name: Seq<char>,
    pts: Seq<(Seq<char>, Seq<char>, Seq<char>)>,
    faces: Seq<Seq<usize>>,
    summary: Seq<char>,
    order: Seq<(u64, Seq<char>)>,
)
    requires
        plain_text(name),
        plain_points(pts),
        comment_summary(summary),
        12 + pts.len() + 3 * faces.len() <= u64::MAX,
        forall|k: int| 0 <= k < faces.len() ==> (#[trigger] faces[k]).len() > 0,
        forall|k: int, j: int| 0 <= k < faces.len() && 0 <= j < faces[k].len() ==> #[trigger] faces[k][j] < pts.len(),
        is_walk(order, entity_map(ap203_text(name, pts, faces, summary))),
    ensures
        ({
            let m = entity_map(ap203_text(name, pts, faces, summary));
            let found = faces_in(order, face_bound_map(m), edge_loop_map(m));
            &&& forall|k: int| 0 <= k < faces.len() ==> found.contains(#[trigger] written_face(pts.len(), faces, k))
            &&& forall|y: (Seq<u64>, Option<u64>)| found.contains(y) ==> exists|k: int|
                0 <= k < faces.len() && y == #[trigger] written_face(pts.len(), faces, k)
            &&& found.no_duplicates()
            &&& found.len() == faces.len()
        }),
{
    let m = entity_map(ap203_text(name, pts, faces, summary));
    lemma_ap203_entity_map(name, pts, faces, summary);
    assert(m == map_of(ap203_entities(name, pts, faces)));
    lemma_found_all(name, pts, faces, order);
    lemma_found_only(name, pts, faces, order);
    lemma_walk_distinct(order, m);
    lemma_found_exactly(order, face_bound_map(m), edge_loop_map(m), pts.len(), faces);
}

// ---------------------------------------------------------------------------
// No other entity is a face
// ---------------------------------------------------------------------------

proof fn lemma_kind_not_face(head: Seq<char>, rest: Seq<char>)
    requires
        kind_word(head),
        head.len() != 13,
        rest.len() > 0,
        rest.last() == ')',
    ensures
        entity_kind(head + seq!['('] + rest) != "ADVANCED_FACE"@,
        head.len() != 15 || head[0] != 'C' ==> entity_kind(head + seq!['('] + rest) != "CARTESIAN_POINT"@,
{
    reveal_strlit("ADVANCED_FACE");
    reveal_strlit("CARTESIAN_POINT");
    lemma_kind(head, rest);
    if head.len() == 15 && head[0] != 'C' {
        assert(head[0] != "CARTESIAN_POINT"@[0]);
    }
}

proof fn lemma_product_not_faces(name: Seq<char>, i: int)
    requires
        0 <= i < 7,
    ensures
        entity_kind(product_entities(name)[i].1) != "ADVANCED_FACE"@,
        entity_kind(product_entities(name)[i].1) != "CARTESIAN_POINT"@,
{
    let b = product_entities(name)[i].1;
    if i == 0 {
        reveal_strlit("APPLICATION_CONTEXT('automotive design')");
        reveal_strlit("APPLICATION_CONTEXT");
        reveal_strlit("'automotive design')");
        assert(b =~= "APPLICATION_CONTEXT"@ + seq!['('] + "'automotive design')"@);
        lemma_kind_not_face("APPLICATION_CONTEXT"@, "'automotive design')"@);
    } else if i == 1 {
        reveal_strlit("APPLICATION_PROTOCOL_DEFINITION('international standard','automotive_design',2001,#1)");
        reveal_strlit("APPLICATION_PROTOCOL_DEFINITION");
        reveal_strlit("'international standard','automotive_design',2001,#1)");
        assert(b =~= "APPLICATION_PROTOCOL_DEFINITION"@ + seq!['('] + "'international standard','automotive_design',2001,#1)"@);
        lemma_kind_not_face("APPLICATION_PROTOCOL_DEFINITION"@, "'international standard','automotive_design',2001,#1)"@);
    } else if i == 2 {
        reveal_strlit("PRODUCT('");
        reveal_strlit("PRODUCT");
        reveal_strlit("'");
        reveal_strlit("','");
        reveal_strlit("','',(#4))");
        let rest = "'"@ + name + "','"@ + name + "','',(#4))"@;
        assert(b =~= "PRODUCT"@ + seq!['('] + rest);
        lemma_kind_not_face("PRODUCT"@, rest);
    } else if i == 3 {
        reveal_strlit("PRODUCT_CONTEXT('',#1,'mechanical')");
        reveal_strlit("PRODUCT_CONTEXT");
        reveal_strlit("'',#1,'mechanical')");
        assert(b =~= "PRODUCT_CONTEXT"@ + seq!['('] + "'',#1,'mechanical')"@);
        lemma_kind_not_face("PRODUCT_CONTEXT"@, "'',#1,'mechanical')"@);
    } else if i == 4 {
        reveal_strlit("PRODUCT_DEFINITION_FORMATION('','',#3)");
        reveal_strlit("PRODUCT_DEFINITION_FORMATION");
        reveal_strlit("'','',#3)");
        assert(b =~= "PRODUCT_DEFINITION_FORMATION"@ + seq!['('] + "'','',#3)"@);
        lemma_kind_not_face("PRODUCT_DEFINITION_FORMATION"@, "'','',#3)"@);
    } else if i == 5 {
        reveal_strlit("PRODUCT_DEFINITION('design','',#5,#7)");
        reveal_strlit("PRODUCT_DEFINITION");
        reveal_strlit("'design','',#5,#7)");
        assert(b =~= "PRODUCT_DEFINITION"@ + seq!['('] + "'design','',#5,#7)"@);
        lemma_kind_not_face("PRODUCT_DEFINITION"@, "'design','',#5,#7)"@);
    } else {
        reveal_strlit("PRODUCT_DEFINITION_CONTEXT('part definition',#1,'design')");
        reveal_strlit("PRODUCT_DEFINITION_CONTEXT");
        reveal_strlit("'part definition',#1,'design')");
        assert(b =~= "PRODUCT_DEFINITION_CONTEXT"@ + seq!['('] + "'part definition',#1,'design')"@);
        lemma_kind_not_face("PRODUCT_DEFINITION_CONTEXT"@, "'part definition',#1,'design')"@);
    }
}

proof fn lemma_point_bodies(pts: Seq<(Seq<char>, Seq<char>, Seq<char>)>, first: nat, i: int)
    requires
        0 <= i < pts.len(),
    ensures
        point_entities(pts, first).len() == pts.len(),
        point_entities(pts, first)[i].1 == point_body(pts[i]),
        point_entities(pts, first)[i].0 == first + i,
    decreases pts.len(),
{
    lemma_point_count(pts.drop_last(), first);
    if i < pts.len() - 1 {
        lemma_point_bodies(pts.drop_last(), first, i);
        assert(pts.drop_last()[i] == pts[i]);
    }
}

proof fn lemma_point_not_face(p: (Seq<char>, Seq<char>, Seq<char>))
    ensures
        entity_kind(point_body(p)) != "ADVANCED_FACE"@,
        entity_kind(point_body(p)) == "CARTESIAN_POINT"@,
{
    reveal_strlit("CARTESIAN_POINT('',(");
    reveal_strlit("CARTESIAN_POINT");
    reveal_strlit("'',(");
    reveal_strlit("))");
    let rest = "'',("@ + p.0 + seq![','] + p.1 + seq![','] + p.2 + "))"@;
    assert(point_body(p) =~= "CARTESIAN_POINT"@ + seq!['('] + rest);
    lemma_kind_not_face("CARTESIAN_POINT"@, rest);
    lemma_kind("CARTESIAN_POINT"@, rest);
}

proof fn lemma_closing_not_faces(name: Seq<char>, np: nat, nf: nat, i: int)
    requires
        0 <= i < 2,
    ensures
        entity_kind(closing_entities(name, np, nf)[i].1) != "ADVANCED_FACE"@,
        entity_kind(closing_entities(name, np, nf)[i].1) != "CARTESIAN_POINT"@,
{
    let b = closing_entities(name, np, nf)[i].1;
    if i == 0 {
        reveal_strlit("CLOSED_SHELL('', (");
        reveal_strlit("CLOSED_SHELL");
        reveal_strlit("'', (");
        reveal_strlit(") )");
        let rest = "'', ("@ + refs_joined(face_ids(np, nf)) + ") )"@;
        assert(b =~= "CLOSED_SHELL"@ + seq!['('] + rest);
        lemma_kind_not_face("CLOSED_SHELL"@, rest);
    } else {
        reveal_strlit("MANIFOLD_SOLID_BREP('");
        reveal_strlit("MANIFOLD_SOLID_BREP");
        reveal_strlit("'");
        reveal_strlit("',#11)");
        let rest = "'"@ + name + "',#11)"@;
        assert(b =~= "MANIFOLD_SOLID_BREP"@ + seq!['('] + rest);
        lemma_kind_not_face("MANIFOLD_SOLID_BREP"@, rest);
    }
}

/// Among the written entities only the faces' ADVANCED_FACE entities
/// have that type.
proof fn lemma_face_kind_only(
    name: Seq<char>,
    pts: Seq<(Seq<char>, Seq<char>, Seq<char>)>,
    faces: Seq<Seq<usize>>,
    i: int,
) -> (k: int)
    requires
        0 <= i < ap203_entities(name, pts, faces).len(),
        entity_kind(ap203_entities(name, pts, faces)[i].1) == "ADVANCED_FACE"@,
    ensures
        0 <= k < faces.len(),
        i == 7 + pts.len() + 3 * k + 2,
{
    let np = pts.len() as int;
    let nf = faces.len() as int;
    let a = product_entities(name);
    let p = point_entities(pts, first_point_id());
    let fe = faces_entities(pts.len(), faces);
    let c = closing_entities(name, pts.len(), faces.len());
    let es = a + p + fe + c;
    assert(ap203_entities(name, pts, faces) == es);
    lemma_point_count(pts, first_point_id());
    if nf > 0 {
        lemma_face_entities_index(pts.len(), faces, 0, 0);
    } else {
        assert(fe =~= Seq::<(nat, Seq<char>)>::empty());
    }
    assert(fe.len() == 3 * nf);
    if i < 7 {
        assert(es[i] == a[i]);
        lemma_product_not_faces(name, i);
        0
    } else if i < 7 + np {
        assert(es[i] == p[i - 7]);
        lemma_point_bodies(pts, first_point_id(), i - 7);
        lemma_point_not_face(pts[i - 7]);
        0
    } else if i < 7 + np + 3 * nf {
        let r = i - 7 - np;
        let k = r / 3;
        let j = r % 3;
        assert(0 <= k < nf && 0 <= j < 3 && r == 3 * k + j) by (nonlinear_arith)
            requires
                0 <= r < 3 * nf,
                k == r / 3,
                j == r % 3,
        ;
        assert(es[i] == fe[r]);
        lemma_face_entities_index(pts.len(), faces, k, j);
        let f = face_id(pts.len(), k as nat);
        if j == 0 {
            reveal_strlit("EDGE_LOOP('', (");
            reveal_strlit("EDGE_LOOP");
            reveal_strlit("'', (");
            reveal_strlit(") )");
            let rest = "'', ("@ + refs_joined(loop_refs(faces[k])) + ") )"@;
            assert(es[i].1 =~= "EDGE_LOOP"@ + seq!['('] + rest);
            lemma_kind_not_face("EDGE_LOOP"@, rest);
        }
        if j == 1 {
            reveal_strlit("FACE_OUTER_BOUND('',");
            reveal_strlit("FACE_OUTER_BOUND");
            reveal_strlit("'',");
            reveal_strlit(", .T.)");
            let rest = "'',"@ + ref_text((f + 2) as nat) + ", .T.)"@;
            assert(es[i].1 =~= "FACE_OUTER_BOUND"@ + seq!['('] + rest);
            lemma_kind_not_face("FACE_OUTER_BOUND"@, rest);
        }
        k
    } else {
        assert(es[i] == c[i - 7 - np - 3 * nf]);
        lemma_closing_not_faces(name, pts.len(), faces.len(), i - 7 - np - 3 * nf);
        0
    }
}

/// The face written as face `k` of `faces` after `np` points, as the
/// reader gives it: its loop's point numbers, and its loop's number as
/// surface.
pub open spec fn written_face(np: nat, faces: Seq<Seq<usize>>, k: int) -> (Seq<u64>, Option<u64>) {
    (ref_numbers(loop_refs(faces[k])), Some((face_id(np, k as nat) + 2) as u64))
}

/// A face of a walk comes from one of its entries.
proof fn lemma_faces_in_from(order: Seq<(u64, Seq<char>)>, fb: Map<u64, u64>, el: Map<u64, Seq<u64>>, y: (Seq<u64>, Option<u64>)) -> (i: int)
    requires
        faces_in(order, fb, el).contains(y),
    ensures
        0 <= i < order.len(),
        face_of(order[i].1, fb, el) == Some(y),
    decreases order.len(),
{
    let rest = faces_in(order.drop_last(), fb, el);
    let g = face_of(order.last().1, fb, el);
    if g == Some(y) {
        order.len() - 1
    } else {
        assert(rest.contains(y)) by {
            let j = choose|j: int| 0 <= j < faces_in(order, fb, el).len() && faces_in(order, fb, el)[j] == y;
            match g {
                Some(v) => {
                    assert(faces_in(order, fb, el) == rest.push(v));
                    assert(j < rest.len());
                    assert(rest[j] == y);
                },
                None => {},
            }
        }
        let i = lemma_faces_in_from(order.drop_last(), fb, el, y);
        assert(order.drop_last()[i] == order[i]);
        i
    }
}

/// Entries that give pairwise different faces give a list of faces with
/// none twice.
proof fn lemma_faces_in_distinct(order: Seq<(u64, Seq<char>)>, fb: Map<u64, u64>, el: Map<u64, Seq<u64>>)
    requires
        forall|i: int, j: int| 0 <= i < j < order.len() && face_of(order[i].1, fb, el) is Some
            ==> #[trigger] face_of(order[i].1, fb, el) != #[trigger] face_of(order[j].1, fb, el),
    ensures
        faces_in(order, fb, el).no_duplicates(),
    decreases order.len(),
{
    if order.len() > 0 {
        let d = order.drop_last();
        assert forall|i: int, j: int| 0 <= i < j < d.len() && face_of(d[i].1, fb, el) is Some
            implies #[trigger] face_of(d[i].1, fb, el) != #[trigger] face_of(d[j].1, fb, el) by {
            assert(d[i] == order[i] && d[j] == order[j]);
        }
        lemma_faces_in_distinct(d, fb, el);
        let rest = faces_in(d, fb, el);
        match face_of(order.last().1, fb, el) {
            Some(g) => {
                if rest.contains(g) {
                    let i = lemma_faces_in_from(d, fb, el, g);
                    assert(d[i] == order[i]);
                    assert(order.last() == order[order.len() - 1]);
                }
                let r = rest.push(g);
                assert forall|a: int, b: int| 0 <= a < r.len() && 0 <= b < r.len() && a != b implies r[a] != r[b] by {
                    if a == rest.len() {
                        assert(rest[b] == r[b]);
                    } else if b == rest.len() {
                        assert(rest[a] == r[a]);
                    } else {
                        assert(rest[a] == r[a] && rest[b] == r[b]);
                    }
                }
            },
            None => {},
        }
    }
}

/// An entity of the written entities that the reader takes for a face is
/// one of the faces' ADVANCED_FACE entities.
proof fn lemma_found_face_written(
    name: Seq<char>,
    pts: Seq<(Seq<char>, Seq<char>, Seq<char>)>,
    faces: Seq<Seq<usize>>,
    x: u64,
) -> (k: int)
    requires
        12 + pts.len() + 3 * faces.len() <= u64::MAX,
        map_of(ap203_entities(name, pts, faces)).contains_key(x),
        face_of(
            map_of(ap203_entities(name, pts, faces))[x],
            face_bound_map(map_of(ap203_entities(name, pts, faces))),
            edge_loop_map(map_of(ap203_entities(name, pts, faces))),
        ) is Some,
    ensures
        0 <= k < faces.len(),
        x == face_id(pts.len(), k as nat) as u64,
{
    let es = ap203_entities(name, pts, faces);
    let m = map_of(es);
    lemma_map_of_keys(es, x);
    let i = choose|i: int| 0 <= i < es.len() && (#[trigger] es[i]).0 as u64 == x;
    lemma_ap203_entities_found(name, pts, faces);
    assert(m[x] == es[i].1);
    let k = lemma_face_kind_only(name, pts, faces, i);
    lemma_face_entities_at_index(name, pts, faces, k, 2);
    k
}

/// The written faces are told apart by their surfaces.
proof fn lemma_written_faces_distinct(np: nat, faces: Seq<Seq<usize>>, a: int, b: int)
    requires
        12 + np + 3 * faces.len() <= u64::MAX,
        0 <= a < faces.len(),
        0 <= b < faces.len(),
        written_face(np, faces, a) == written_face(np, faces, b),
    ensures
        a == b,
{
    assert(face_id(np, a as nat) + 2 <= u64::MAX && face_id(np, b as nat) + 2 <= u64::MAX) by (nonlinear_arith)
        requires
            0 <= a < faces.len(),
            0 <= b < faces.len(),
            face_id(np, a as nat) == 12 + np + 3 * a,
            face_id(np, b as nat) == 12 + np + 3 * b,
            12 + np + 3 * faces.len() <= u64::MAX,
    ;
}

/// The entries of a walk of a map have distinct numbers.
proof fn lemma_walk_distinct(order: Seq<(u64, Seq<char>)>, m: Map<u64, Seq<char>>)
    requires
        is_walk(order, m),
    ensures
        forall|i: int, j: int| 0 <= i < j < order.len() ==> #[trigger] order[i].0 != #[trigger] order[j].0,
{
    let keys = order.map_values(|e: (u64, Seq<char>)| e.0);
    assert(keys.to_set() =~= m.dom()) by {
        assert forall|x: u64| keys.to_set().contains(x) implies m.dom().contains(x) by {
            let i = choose|i: int| 0 <= i < keys.len() && keys[i] == x;
            assert(order[i].0 == x);
        }
        assert forall|x: u64| m.dom().contains(x) implies keys.to_set().contains(x) by {
            let i = choose|i: int| 0 <= i < order.len() && #[trigger] order[i].0 == x;
            assert(keys[i] == x);
        }
    }
    keys.lemma_no_dup_set_cardinality();
    assert forall|i: int, j: int| 0 <= i < j < order.len() implies #[trigger] order[i].0 != #[trigger] order[j].0 by {
        assert(keys[i] == order[i].0 && keys[j] == order[j].0);
    }
}

/// What the structural reader says of the faces of a written AP203 file
/// (the faces found by some walk of its entity map) pins them down: they
/// are exactly the faces written, each once, as many as were written.
pub proof fn lemma_ap203_read_faces(
    name: Seq<char>,
    pts: Seq<(Seq<char>, Seq<char>, Seq<char>)>,
    faces: Seq<Seq<usize>>,
    summary: Seq<char>,
    found: Seq<(Seq<u64>, Option<u64>)>,
)
    requires
        plain_text(name),
        plain_points(pts),
        comment_summary(summary),
        12 + pts.len() + 3 * faces.len() <= u64::MAX,
        forall|k: int| 0 <= k < faces.len() ==> (#[trigger] faces[k]).len() > 0,
        forall|k: int, j: int| 0 <= k < faces.len() && 0 <= j < faces[k].len() ==> #[trigger] faces[k][j] < pts.len(),
        exists|order: Seq<(u64, Seq<char>)>|
            #[trigger] is_walk(order, entity_map(ap203_text(name, pts, faces, summary))) && found == faces_in(
                order,
                face_bound_map(entity_map(ap203_text(name, pts, faces, summary))),
                edge_loop_map(entity_map(ap203_text(name, pts, faces, summary))),
            ),
    ensures
        forall|k: int| 0 <= k < faces.len() ==> found.contains(#[trigger] written_face(pts.len(), faces, k)),
        forall|y: (Seq<u64>, Option<u64>)| found.contains(y) ==> exists|k: int|
            0 <= k < faces.len() && y == #[trigger] written_face(pts.len(), faces, k),
        found.no_duplicates(),
        found.len() == faces.len(),
{
    let m = entity_map(ap203_text(name, pts, faces, summary));
    let order = choose|order: Seq<(u64, Seq<char>)>|
        is_walk(order, m) && found == faces_in(order, face_bound_map(m), edge_loop_map(m));
    lemma_ap203_faces_read_back(name, pts, faces, summary, order);
}

// ---------------------------------------------------------------------------
// The points found in the written file
// ---------------------------------------------------------------------------

/// No entity of a written face is a CARTESIAN_POINT.
proof fn lemma_face_entity_not_point(f: nat, verts: Seq<usize>, j: int)
    requires
        0 <= j < 3,
    ensures
        entity_kind(face_entities_at(f, verts)[j].1) != "CARTESIAN_POINT"@,
{
    let b = face_entities_at(f, verts)[j].1;
    reveal_strlit("CARTESIAN_POINT");
    if j == 0 {
        reveal_strlit("EDGE_LOOP('', (");
        reveal_strlit("EDGE_LOOP");
        reveal_strlit("'', (");
        reveal_strlit(") )");
        let rest = "'', ("@ + refs_joined(loop_refs(verts)) + ") )"@;
        assert(b =~= "EDGE_LOOP"@ + seq!['('] + rest);
        lemma_kind("EDGE_LOOP"@, rest);
    } else if j == 1 {
        reveal_strlit("FACE_OUTER_BOUND('',");
        reveal_strlit("FACE_OUTER_BOUND");
        reveal_strlit("'',");
        reveal_strlit(", .T.)");
        let rest = "'',"@ + ref_text((f + 2) as nat) + ", .T.)"@;
        assert(b =~= "FACE_OUTER_BOUND"@ + seq!['('] + rest);
        lemma_kind("FACE_OUTER_BOUND"@, rest);
    } else {
        reveal_strlit("ADVANCED_FACE('',(");
        reveal_strlit("ADVANCED_FACE");
        reveal_strlit("'',(");
        reveal_strlit("),");
        reveal_strlit(",.T.)");
        let rest = "'',("@ + ref_text((f + 1) as nat) + "),"@ + ref_text((f + 2) as nat) + ",.T.)"@;
        assert(b =~= "ADVANCED_FACE"@ + seq!['('] + rest);
        lemma_kind("ADVANCED_FACE"@, rest);
    }
}

/// Among the written entities only the points are CARTESIAN_POINTs.
proof fn lemma_point_kind_only(
    name: Seq<char>,
    pts: Seq<(Seq<char>, Seq<char>, Seq<char>)>,
    faces: Seq<Seq<usize>>,
    i: int,
)
    requires
        0 <= i < ap203_entities(name, pts, faces).len(),
        entity_kind(ap203_entities(name, pts, faces)[i].1) == "CARTESIAN_POINT"@,
    ensures
        7 <= i < 7 + pts.len(),
{
    let np = pts.len() as int;
    let nf = faces.len() as int;
    let a = product_entities(name);
    let p = point_entities(pts, first_point_id());
    let fe = faces_entities(pts.len(), faces);
    let c = closing_entities(name, pts.len(), faces.len());
    let es = a + p + fe + c;
    assert(ap203_entities(name, pts, faces) == es);
    lemma_point_count(pts, first_point_id());
    if nf > 0 {
        lemma_face_entities_index(pts.len(), faces, 0, 0);
    } else {
        assert(fe =~= Seq::<(nat, Seq<char>)>::empty());
    }
    assert(fe.len() == 3 * nf);
    if i < 7 {
        assert(es[i] == a[i]);
        lemma_product_not_faces(name, i);
    } else if i < 7 + np {
    } else if i < 7 + np + 3 * nf {
        let r = i - 7 - np;
        let k = r / 3;
        let j = r % 3;
        assert(0 <= k < nf && 0 <= j < 3 && r == 3 * k + j) by (nonlinear_arith)
            requires
                0 <= r < 3 * nf,
                k == r / 3,
                j == r % 3,
        ;
        assert(es[i] == fe[r]);
        lemma_face_entities_index(pts.len(), faces, k, j);
        lemma_face_entity_not_point(face_id(pts.len(), k as nat), faces[k], j);
    } else {
        assert(es[i] == c[i - 7 - np - 3 * nf]);
        lemma_closing_not_faces(name, pts.len(), faces.len(), i - 7 - np - 3 * nf);
    }
}

/// The CARTESIAN_POINT entities of the written entities are the points,
/// numbered from 12 on: the numbers `12 + i` for `i` below the number of
/// points.
pub proof fn lemma_written_points(
    name: Seq<char>,
    pts: Seq<(Seq<char>, Seq<char>, Seq<char>)>,
    faces: Seq<Seq<usize>>,
    x: u64,
)
    requires
        12 + pts.len() + 3 * faces.len() <= u64::MAX,
    ensures
        (map_of(ap203_entities(name, pts, faces)).contains_key(x) && entity_kind(
            map_of(ap203_entities(name, pts, faces))[x],
        ) == "CARTESIAN_POINT"@) <==> (12 <= x < 12 + pts.len()),
{
    let es = ap203_entities(name, pts, faces);
    let m = map_of(es);
    let np = pts.len() as int;
    lemma_ap203_entities_found(name, pts, faces);
    lemma_point_count(pts, first_point_id());
    let a = product_entities(name);
    let p = point_entities(pts, first_point_id());
    assert(es == a + p + faces_entities(pts.len(), faces) + closing_entities(name, pts.len(), faces.len()));
    if 12 <= x < 12 + np {
        let i = x - 12;
        lemma_point_bodies(pts, first_point_id(), i);
        assert(es[7 + i] == p[i]);
        assert(es[7 + i].0 as u64 == x);
        lemma_point_not_face(pts[i]);
    }
    if m.contains_key(x) && entity_kind(m[x]) == "CARTESIAN_POINT"@ {
        lemma_map_of_keys(es, x);
        let i = choose|i: int| 0 <= i < es.len() && (#[trigger] es[i]).0 as u64 == x;
        assert(m[x] == es[i].1);
        lemma_point_kind_only(name, pts, faces, i);
        lemma_point_bodies(pts, first_point_id(), i - 7);
        assert(es[i] == p[i - 7]);
    }
}

// ---------------------------------------------------------------------------
// The solid rebuilt from the written file
// ---------------------------------------------------------------------------

proof fn lemma_vertex_for_some(pairs: Seq<(u64, u64)>, p: u64, k: int)
    requires
        0 <= k < pairs.len(),
        pairs[k].0 == p,
    ensures
        vertex_for(pairs, p) is Some,
    decreases pairs.len(),
{
    if pairs.last().0 != p {
        assert(k < pairs.len() - 1);
        assert(pairs.drop_last()[k] == pairs[k]);
        lemma_vertex_for_some(pairs.drop_last(), p, k);
    }
}

proof fn lemma_loop_vertices_all(pairs: Seq<(u64, u64)>, refs: Seq<u64>)
    requires
        forall|j: int| 0 <= j < refs.len() ==> vertex_for(pairs, #[trigger] refs[j]) is Some,
    ensures
        loop_vertices(pairs, refs).len() == refs.len(),
    decreases refs.len(),
{
    if refs.len() > 0 {
        let d = refs.drop_last();
        assert forall|j: int| 0 <= j < d.len() implies vertex_for(pairs, #[trigger] d[j]) is Some by {
            assert(d[j] == refs[j]);
        }
        lemma_loop_vertices_all(pairs, d);
        assert(vertex_for(pairs, refs[refs.len() - 1]) is Some);
    }
}

proof fn lemma_step_solid_faces_all(pairs: Seq<(u64, u64)>, fs: Seq<(Seq<u64>, Option<u64>)>, n: nat)
    requires
        n <= fs.len(),
        forall|i: int| 0 <= i < n ==> loop_vertices(pairs, (#[trigger] fs[i]).0).len() >= 3,
    ensures
        step_solid_faces(pairs, fs, n).len() == n,
    decreases n,
{
    if n > 0 {
        lemma_step_solid_faces_all(pairs, fs, (n - 1) as nat);
        assert(loop_vertices(pairs, fs[n - 1].0).len() >= 3);
    }
}

proof fn lemma_range_card(np: nat)
    requires
        12 + np <= u64::MAX,
    ensures
        Seq::new(np, |i: int| (12 + i) as u64).no_duplicates(),
        Seq::new(np, |i: int| (12 + i) as u64).to_set().len() == np,
{
    let r = Seq::new(np, |i: int| (12 + i) as u64);
    assert forall|a: int, b: int| 0 <= a < r.len() && 0 <= b < r.len() && a != b implies r[a] != r[b] by {
        assert(r[a] == 12 + a && r[b] == 12 + b);
    }
    r.unique_seq_to_set();
}

/// The solid rebuilt from a written AP203 file has as many vertices as
/// points were written and as many faces as faces were written, when its
/// vertices are made for the file's CARTESIAN_POINT entities (each once)
/// and its faces from the faces the structural reader found, provided the
/// file reads back as its entities (see `lemma_ap203_entity_map`), every
/// face has three corners or more, and every corner is one of the points.
pub proof fn lemma_ap203_solid_counts(
    name: Seq<char>,
    pts: Seq<(Seq<char>, Seq<char>, Seq<char>)>,
    faces: Seq<Seq<usize>>,
    summary: Seq<char>,
    found: Seq<(Seq<u64>, Option<u64>)>,
    points: Seq<u64>,
    s: SolidView,
    pairs: Seq<(u64, u64)>,
    fids: Seq<u64>,
)
    requires
        plain_text(name),
        plain_points(pts),
        comment_summary(summary),
        12 + pts.len() + 3 * faces.len() <= u64::MAX,
        forall|k: int| 0 <= k < faces.len() ==> (#[trigger] faces[k]).len() >= 3,
        forall|k: int, j: int| 0 <= k < faces.len() && 0 <= j < faces[k].len() ==> #[trigger] faces[k][j] < pts.len(),
        exists|order: Seq<(u64, Seq<char>)>|
            #[trigger] is_walk(order, entity_map(ap203_text(name, pts, faces, summary))) && found == faces_in(
                order,
                face_bound_map(entity_map(ap203_text(name, pts, faces, summary))),
                edge_loop_map(entity_map(ap203_text(name, pts, faces, summary))),
            ),
        points.no_duplicates(),
        forall|x: u64| #[trigger] points.contains(x) <==> entity_map(ap203_text(name, pts, faces, summary)).contains_key(x)
            && entity_kind(entity_map(ap203_text(name, pts, faces, summary))[x]) == "CARTESIAN_POINT"@,
        vertices_placed(s, pairs, points),
        faces_match(s, fids, step_solid_faces(pairs, found, found.len())),
    ensures
        s.vertices.len() == pts.len(),
        s.faces.len() == faces.len(),
{
    let np = pts.len();
    let m = entity_map(ap203_text(name, pts, faces, summary));
    lemma_ap203_entity_map(name, pts, faces, summary);
    assert(m == map_of(ap203_entities(name, pts, faces)));
    lemma_ap203_read_faces(name, pts, faces, summary, found);
    // The points are the numbers 12 to 12 + np - 1.
    let r = Seq::new(np, |i: int| (12 + i) as u64);
    lemma_range_card(np);
    assert(points.to_set() =~= r.to_set()) by {
        assert forall|x: u64| points.to_set().contains(x) implies r.to_set().contains(x) by {
            assert(points.contains(x));
            lemma_written_points(name, pts, faces, x);
            assert(r[x - 12] == x);
        }
        assert forall|x: u64| r.to_set().contains(x) implies points.to_set().contains(x) by {
            let i = choose|i: int| 0 <= i < r.len() && r[i] == x;
            lemma_written_points(name, pts, faces, x);
            assert(points.contains(x));
        }
    }
    points.unique_seq_to_set();
    // One vertex per point.
    let vs = pairs.map_values(|q: (u64, u64)| q.1);
    assert(vs.no_duplicates()) by {
        assert forall|a: int, b: int| 0 <= a < vs.len() && 0 <= b < vs.len() && a != b implies vs[a] != vs[b] by {
            if a < b {
                assert(pairs[a].1 != pairs[b].1);
            } else {
                assert(pairs[b].1 != pairs[a].1);
            }
        }
    }
    assert(vs.to_set() =~= s.vertices.dom()) by {
        assert forall|v: u64| vs.to_set().contains(v) implies s.vertices.dom().contains(v) by {
            let k = choose|k: int| 0 <= k < vs.len() && vs[k] == v;
            assert(pairs[k].1 == v);
        }
        assert forall|v: u64| s.vertices.dom().contains(v) implies vs.to_set().contains(v) by {
            let k = choose|k: int| 0 <= k < pairs.len() && (#[trigger] pairs[k]).1 == v;
            assert(vs[k] == v);
        }
    }
    vs.unique_seq_to_set();
    // Every found face keeps all its corners.
    assert forall|i: int| 0 <= i < found.len() implies loop_vertices(pairs, (#[trigger] found[i]).0).len() >= 3 by {
        assert(found.contains(found[i]));
        let k = choose|k: int| 0 <= k < faces.len() && found[i] == #[trigger] written_face(np, faces, k);
        let refs = found[i].0;
        assert(refs == ref_numbers(loop_refs(faces[k])));
        assert forall|j: int| 0 <= j < refs.len() implies vertex_for(pairs, #[trigger] refs[j]) is Some by {
            let v = faces[k][j];
            assert(v < np);
            let x = refs[j];
            assert(x == (12 + v) as u64);
            assert(r[v as int] == x);
            assert(r.to_set().contains(x));
            assert(points.to_set().contains(x));
            let q = choose|q: int| 0 <= q < points.len() && points[q] == x;
            assert(pairs[q].0 == points[q]);
            lemma_vertex_for_some(pairs, x, q);
        }
        lemma_loop_vertices_all(pairs, refs);
    }
    lemma_step_solid_faces_all(pairs, found, found.len());
    fids.unique_seq_to_set();
}

} // verus!
