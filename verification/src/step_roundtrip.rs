//! What the STEP reader's entity map holds of a file the AP203 writer
//! wrote: every written entity under its number, with the text the writer
//! gave it.
use vstd::prelude::*;
use crate::strs::{is_ws, trim, trim_start, trim_end, trim_end_char, find, find_from, find_substr, starts_with, parse_unsigned, split_char, lemma_dec_parse};
use crate::text::{dec, lemma_dec_digits};
use crate::dxf::{join_lines, lemma_join_add};
use crate::dxf_roundtrip::no_line_feed;
use crate::step::{entity_step, entity_fold, entity_id_of, data_section, entity_map, entity_kind, first_quoted};
use crate::step_read::{product_name_of, part_name_is, lemma_part_name_unique};
use crate::strs::{upper_of, ascii_upper};
use crate::touchstone_roundtrip::lemma_trim_fixed;
use crate::step_write::{
    ap203_text, ap203_head, point_line, point_lines, face_lines_at, face_lines, faces_lines, face_id, face_ids,
    loop_refs, refs_joined, ref_text, first_point_id,
};

verus! {

// ---------------------------------------------------------------------------
// The first occurrence of a marker
// ---------------------------------------------------------------------------

/// Every `c` in `s` but at its start follows a character other than `b`.
pub open spec fn guarded(s: Seq<char>, b: char, c: char) -> bool {
    forall|k: int| 0 < k < s.len() && #[trigger] s[k] == c ==> s[k - 1] != b
}

proof fn lemma_no_window(pre: Seq<char>, pat: Seq<char>, post: Seq<char>, i: int)
    requires
        pat.len() >= 2,
        forall|j: int| 0 <= j < pat.len() - 1 ==> #[trigger] pat[j] != pat.last(),
        guarded(pre, pat[pat.len() - 2], pat.last()),
        0 <= i < pre.len(),
    ensures
        (pre + pat + post).subrange(i, i + pat.len()) != pat,
{
    let s = pre + pat + post;
    let n = pat.len() as int;
    let p = pre.len() as int;
    let e = i + n - 1;
    if s.subrange(i, i + n) == pat {
        assert(s.subrange(i, i + n)[n - 1] == s[e]);
        assert(s.subrange(i, i + n)[n - 2] == s[e - 1]);
        if e < p {
            assert(s[e] == pre[e]);
            assert(s[e - 1] == pre[e - 1]);
            assert(pre[e] == pat.last());
        } else {
            assert(s[e] == pat[e - p]);
            assert(pat[e - p] != pat.last());
        }
    }
}

/// The first occurrence in `s` is at `p` when it occurs there and at no
/// earlier place.
proof fn lemma_first_at(s: Seq<char>, pat: Seq<char>, p: int)
    requires
        0 <= p,
        p + pat.len() <= s.len(),
        s.subrange(p, p + pat.len()) == pat,
        forall|i: int| 0 <= i < p ==> #[trigger] s.subrange(i, i + pat.len()) != pat,
    ensures
        find_substr(s, pat) == Some(p),
{
    let n = pat.len() as int;
    let c = choose|i: int| 0 <= i && i + n <= s.len() && #[trigger] s.subrange(i, i + n) == pat
        && forall|j: int| 0 <= j < i ==> #[trigger] s.subrange(j, j + n) != pat;
    assert(0 <= p && p + n <= s.len() && s.subrange(p, p + n) == pat
        && forall|j: int| 0 <= j < p ==> #[trigger] s.subrange(j, j + n) != pat);
    if c < p {
        assert(s.subrange(c, c + n) != pat);
    } else if c > p {
        assert(s.subrange(p, p + n) != pat);
    }
}

/// A marker whose last character occurs nowhere else in it is found first
/// where it is placed, when no earlier occurrence of that character follows
/// the marker's second-to-last character.
pub proof fn lemma_first_occurrence(pre: Seq<char>, pat: Seq<char>, post: Seq<char>)
    requires
        pat.len() >= 2,
        forall|j: int| 0 <= j < pat.len() - 1 ==> #[trigger] pat[j] != pat.last(),
        guarded(pre, pat[pat.len() - 2], pat.last()),
    ensures
        find_substr(pre + pat + post, pat) == Some(pre.len() as int),
{
    let s = pre + pat + post;
    let n = pat.len() as int;
    let p = pre.len() as int;
    assert(s.subrange(p, p + n) =~= pat);
    assert forall|i: int| 0 <= i < p implies #[trigger] s.subrange(i, i + n) != pat by {
        lemma_no_window(pre, pat, post, i);
    }
    lemma_first_at(s, pat, p);
}

proof fn lemma_guarded_add(a: Seq<char>, b: Seq<char>, x: char, c: char)
    requires
        guarded(a, x, c),
        guarded(b, x, c),
        b.len() > 0 ==> (b[0] != c || (a.len() > 0 && a.last() != x)),
    ensures
        guarded(a + b, x, c),
{
    let s = a + b;
    assert forall|k: int| 0 < k < s.len() && #[trigger] s[k] == c implies s[k - 1] != x by {
        if k < a.len() {
            assert(s[k] == a[k] && s[k - 1] == a[k - 1]);
        } else if k == a.len() {
            assert(s[k] == b[0]);
            if a.len() > 0 {
                assert(s[k - 1] == a.last());
            }
        } else {
            assert(s[k] == b[k - a.len()] && s[k - 1] == b[k - a.len() - 1]);
        }
    }
}

/// A text without `c` is guarded.
proof fn lemma_guarded_free(s: Seq<char>, x: char, c: char)
    requires
        forall|k: int| 0 <= k < s.len() ==> #[trigger] s[k] != c,
    ensures
        guarded(s, x, c),
{
}

// ---------------------------------------------------------------------------
// Entity lines
// ---------------------------------------------------------------------------

/// An entity body the reader takes back whole: one line with no `;`, ending
/// in `)`.
pub open spec fn plain_body(b: Seq<char>) -> bool {
    &&& b.len() > 0
    &&& b.last() == ')'
    &&& forall|k: int| 0 <= k < b.len() ==> #[trigger] b[k] != '\n' && b[k] != ';'
}

/// A written entity line without its line feed.
pub open spec fn entity_line(id: nat, body: Seq<char>) -> Seq<char> {
    seq!['#'] + dec(id) + seq!['='] + body + seq![';']
}

proof fn lemma_find_eq(e: Seq<char>, d: Seq<char>, body: Seq<char>)
    requires
        e == seq!['#'] + d + seq!['='] + body,
        forall|k: int| 0 <= k < d.len() ==> '0' <= #[trigger] d[k] <= '9',
    ensures
        find(e, '=') == Some(d.len() as int + 1),
{
    let q = d.len() as int + 1;
    assert(e[q] == '=');
    assert forall|k: int| 0 <= k < q implies #[trigger] e[k] != '=' by {
        if k > 0 {
            assert(e[k] == d[k - 1]);
        }
    }
    lemma_find_from_at(e, '=', 0, q);
}

proof fn lemma_find_from_at(s: Seq<char>, c: char, from: int, q: int)
    requires
        0 <= from <= q < s.len(),
        s[q] == c,
        forall|k: int| from <= k < q ==> #[trigger] s[k] != c,
    ensures
        find_from(s, c, from) == Some(q),
    decreases q - from,
{
    if from < q {
        lemma_find_from_at(s, c, from + 1, q);
    }
}

/// A written entity line, read on an empty pending text, adds its body
/// under its number and leaves nothing pending.
pub proof fn lemma_entity_line(id: nat, body: Seq<char>, m: Map<u64, Seq<char>>)
    requires
        id <= u64::MAX,
        plain_body(body),
    ensures
        entity_step((Seq::empty(), m), entity_line(id, body)) == (Seq::<char>::empty(), m.insert(id as u64, body)),
        forall|k: int| 0 <= k < entity_line(id, body).len() ==> #[trigger] entity_line(id, body)[k] != '\n',
        guarded(entity_line(id, body), 'C', ';'),
        guarded(entity_line(id, body), 'A', ';'),
{
    let d = dec(id);
    lemma_dec_digits(id);
    let l = entity_line(id, body);
    let e = seq!['#'] + d + seq!['='] + body;
    assert(l =~= e + seq![';']);
    // the line is its own trim
    assert(!is_ws('#'));
    assert(!is_ws(';'));
    assert(trim_start(l) == l);
    assert(trim_end(l) == l);
    assert(trim(l) == l);
    assert(!starts_with(l, seq!['/', '*'])) by {
        if starts_with(l, seq!['/', '*']) {
            assert(l.take(2)[0] == l[0]);
        }
    }
    assert(Seq::<char>::empty() + l =~= l);
    // the trailing `;` goes
    assert(l.drop_last() =~= e);
    assert(e.last() == ')');
    assert(trim_end_char(l, ';') == trim_end_char(e, ';'));
    assert(trim_end_char(e, ';') == e);
    // the number
    assert(trim_start(e) == e);
    assert(!is_ws(')'));
    assert(trim_end(e) == e);
    lemma_find_eq(e, d, body);
    assert(e.subrange(1, d.len() as int + 1) =~= d);
    lemma_dec_parse(id, u64::MAX as nat);
    assert(entity_id_of(e) == Some(id));
    assert(e.skip(d.len() as int + 2) =~= body);
    // no line feed, and every `;` follows `)`
    assert forall|k: int| 0 <= k < l.len() implies #[trigger] l[k] != '\n' by {
        if k == 0 {
        } else if k <= d.len() {
            assert(l[k] == d[k - 1]);
        } else if k == d.len() + 1 {
        } else if k < l.len() - 1 {
            assert(l[k] == body[k - d.len() - 2]);
        }
    }
    assert forall|k: int| 0 < k < l.len() && #[trigger] l[k] == ';' implies l[k - 1] == ')' by {
        if k <= d.len() {
            assert(l[k] == d[k - 1]);
        } else if k == d.len() + 1 {
        } else if k < l.len() - 1 {
            assert(l[k] == body[k - d.len() - 2]);
        } else {
            assert(l[k - 1] == body.last());
        }
    }
}


// ---------------------------------------------------------------------------
// The entities the writer writes
// ---------------------------------------------------------------------------

/// The product entities #1 to #7 of a part named `name`.
pub open spec fn product_entities(name: Seq<char>) -> Seq<(nat, Seq<char>)> {
    seq![
        (1nat, "APPLICATION_CONTEXT('automotive design')"@),
        (2nat, "APPLICATION_PROTOCOL_DEFINITION('international standard','automotive_design',2001,#1)"@),
        (3nat, "PRODUCT('"@ + name + "','"@ + name + "','',(#4))"@),
        (4nat, "PRODUCT_CONTEXT('',#1,'mechanical')"@),
        (5nat, "PRODUCT_DEFINITION_FORMATION('','',#3)"@),
        (6nat, "PRODUCT_DEFINITION('design','',#5,#7)"@),
        (7nat, "PRODUCT_DEFINITION_CONTEXT('part definition',#1,'design')"@),
    ]
}

/// The body of a vertex's point entity.
pub open spec fn point_body(p: (Seq<char>, Seq<char>, Seq<char>)) -> Seq<char> {
    "CARTESIAN_POINT('',("@ + p.0 + seq![','] + p.1 + seq![','] + p.2 + "))"@
}

/// The point entities of the vertices, numbered from `first`.
pub open spec fn point_entities(pts: Seq<(Seq<char>, Seq<char>, Seq<char>)>, first: nat) -> Seq<(nat, Seq<char>)>
    decreases pts.len(),
{
    if pts.len() == 0 {
        Seq::empty()
    } else {
        point_entities(pts.drop_last(), first).push(((first + pts.len() - 1) as nat, point_body(pts.last())))
    }
}

/// The loop, bound and face entities of a face whose face entity is `f`.
pub open spec fn face_entities_at(f: nat, verts: Seq<usize>) -> Seq<(nat, Seq<char>)> {
    seq![
        ((f + 2) as nat, "EDGE_LOOP('', ("@ + refs_joined(loop_refs(verts)) + ") )"@),
        ((f + 1) as nat, "FACE_OUTER_BOUND('',"@ + ref_text((f + 2) as nat) + ", .T.)"@),
        (f, "ADVANCED_FACE('',("@ + ref_text((f + 1) as nat) + "),"@ + ref_text((f + 2) as nat) + ",.T.)"@),
    ]
}

/// The entities of the faces, in order.
pub open spec fn faces_entities(np: nat, faces: Seq<Seq<usize>>) -> Seq<(nat, Seq<char>)>
    decreases faces.len(),
{
    if faces.len() == 0 {
        Seq::empty()
    } else {
        faces_entities(np, faces.drop_last()) + face_entities_at(face_id(np, (faces.len() - 1) as nat), faces.last())
    }
}

/// The shell and solid entities.
pub open spec fn closing_entities(name: Seq<char>, np: nat, nf: nat) -> Seq<(nat, Seq<char>)> {
    seq![
        (11nat, "CLOSED_SHELL('', ("@ + refs_joined(face_ids(np, nf)) + ") )"@),
        (10nat, "MANIFOLD_SOLID_BREP('"@ + name + "',#11)"@),
    ]
}

/// Every entity the AP203 writer writes, in the order written: number
/// and body.
pub open spec fn ap203_entities(
    name: Seq<char>,
    pts: Seq<(Seq<char>, Seq<char>, Seq<char>)>,
    faces: Seq<Seq<usize>>,
) -> Seq<(nat, Seq<char>)> {
    product_entities(name) + point_entities(pts, first_point_id()) + faces_entities(pts.len(), faces)
        + closing_entities(name, pts.len(), faces.len())
}

/// The lines of entities, without their line feeds.
pub open spec fn entity_lines(es: Seq<(nat, Seq<char>)>) -> Seq<Seq<char>> {
    es.map_values(|e: (nat, Seq<char>)| entity_line(e.0, e.1))
}

/// The map `m` after the entities are put in, in order.
pub open spec fn map_over(m: Map<u64, Seq<char>>, es: Seq<(nat, Seq<char>)>) -> Map<u64, Seq<char>>
    decreases es.len(),
{
    if es.len() == 0 {
        m
    } else {
        map_over(m, es.drop_last()).insert(es.last().0 as u64, es.last().1)
    }
}

/// The entities keyed by number (a later one replacing an earlier).
pub open spec fn map_of(es: Seq<(nat, Seq<char>)>) -> Map<u64, Seq<char>> {
    map_over(Map::empty(), es)
}

proof fn lemma_entity_lines_add(a: Seq<(nat, Seq<char>)>, b: Seq<(nat, Seq<char>)>)
    ensures
        entity_lines(a + b) == entity_lines(a) + entity_lines(b),
{
    assert(entity_lines(a + b) =~= entity_lines(a) + entity_lines(b));
}

proof fn lemma_point_text(id: nat, p: (Seq<char>, Seq<char>, Seq<char>))
    ensures
        point_line(id, p) == entity_line(id, point_body(p)) + seq!['\n'],
{
    reveal_strlit("=CARTESIAN_POINT('',(");
    reveal_strlit("CARTESIAN_POINT('',(");
    reveal_strlit("));\n");
    reveal_strlit("))");
    assert(point_line(id, p) =~= entity_line(id, point_body(p)) + seq!['\n']);
}

proof fn lemma_points_text(pts: Seq<(Seq<char>, Seq<char>, Seq<char>)>, first: nat)
    ensures
        point_lines(pts, first) == join_lines(entity_lines(point_entities(pts, first))),
    decreases pts.len(),
{
    if pts.len() > 0 {
        lemma_points_text(pts.drop_last(), first);
        let id = (first + pts.len() - 1) as nat;
        lemma_point_text(id, pts.last());
        let d = entity_lines(point_entities(pts.drop_last(), first));
        assert(entity_lines(point_entities(pts, first)) =~= d.push(entity_line(id, point_body(pts.last()))));
        assert(d.push(entity_line(id, point_body(pts.last()))).drop_last() =~= d);
        assert(point_lines(pts, first) =~= join_lines(entity_lines(point_entities(pts, first))));
    }
}

proof fn lemma_join3(a: Seq<char>, b: Seq<char>, c: Seq<char>)
    ensures
        join_lines(seq![a, b, c]) == a + seq!['\n'] + b + seq!['\n'] + c + seq!['\n'],
{
    let s3 = seq![a, b, c];
    let s2 = seq![a, b];
    let s1 = seq![a];
    assert(s3.drop_last() =~= s2);
    assert(s2.drop_last() =~= s1);
    assert(s1.drop_last() =~= Seq::<Seq<char>>::empty());
    assert(join_lines(s1.drop_last()) == Seq::<char>::empty());
    assert(join_lines(s1) =~= a + seq!['\n']);
    assert(join_lines(s2) == join_lines(s1) + b + seq!['\n']);
    assert(join_lines(s3) == join_lines(s2) + c + seq!['\n']);
    assert(join_lines(s3) =~= a + seq!['\n'] + b + seq!['\n'] + c + seq!['\n']);
}

proof fn lemma_loop_line(f: nat, verts: Seq<usize>)
    ensures
        ref_text((f + 2) as nat) + "=EDGE_LOOP('', ("@ + refs_joined(loop_refs(verts)) + ") );\n"@
            == entity_line((f + 2) as nat, "EDGE_LOOP('', ("@ + refs_joined(loop_refs(verts)) + ") )"@) + seq!['\n'],
{
    reveal_strlit("=EDGE_LOOP('', (");
    reveal_strlit("EDGE_LOOP('', (");
    reveal_strlit(") );\n");
    reveal_strlit(") )");
    assert(ref_text((f + 2) as nat) + "=EDGE_LOOP('', ("@ + refs_joined(loop_refs(verts)) + ") );\n"@
        =~= entity_line((f + 2) as nat, "EDGE_LOOP('', ("@ + refs_joined(loop_refs(verts)) + ") )"@) + seq!['\n']);
}

proof fn lemma_bound_line(f: nat)
    ensures
        ref_text((f + 1) as nat) + "=FACE_OUTER_BOUND('',"@ + ref_text((f + 2) as nat) + ", .T.);\n"@
            == entity_line((f + 1) as nat, "FACE_OUTER_BOUND('',"@ + ref_text((f + 2) as nat) + ", .T.)"@) + seq!['\n'],
{
    reveal_strlit("=FACE_OUTER_BOUND('',");
    reveal_strlit("FACE_OUTER_BOUND('',");
    reveal_strlit(", .T.);\n");
    reveal_strlit(", .T.)");
    assert(ref_text((f + 1) as nat) + "=FACE_OUTER_BOUND('',"@ + ref_text((f + 2) as nat) + ", .T.);\n"@
        =~= entity_line((f + 1) as nat, "FACE_OUTER_BOUND('',"@ + ref_text((f + 2) as nat) + ", .T.)"@) + seq!['\n']);
}

proof fn lemma_face_line(f: nat)
    ensures
        ref_text(f) + "=ADVANCED_FACE('',("@ + ref_text((f + 1) as nat) + "),"@ + ref_text((f + 2) as nat) + ",.T.);\n"@
            == entity_line(f, "ADVANCED_FACE('',("@ + ref_text((f + 1) as nat) + "),"@ + ref_text((f + 2) as nat) + ",.T.)"@)
            + seq!['\n'],
{
    reveal_strlit("=ADVANCED_FACE('',(");
    reveal_strlit("ADVANCED_FACE('',(");
    reveal_strlit(",.T.);\n");
    reveal_strlit(",.T.)");
    assert(ref_text(f) + "=ADVANCED_FACE('',("@ + ref_text((f + 1) as nat) + "),"@ + ref_text((f + 2) as nat) + ",.T.);\n"@
        =~= entity_line(f, "ADVANCED_FACE('',("@ + ref_text((f + 1) as nat) + "),"@ + ref_text((f + 2) as nat) + ",.T.)"@)
        + seq!['\n']);
}

proof fn lemma_face_text(f: nat, verts: Seq<usize>)
    ensures
        face_lines_at(f, verts) == join_lines(entity_lines(face_entities_at(f, verts))),
{
    let es = face_entities_at(f, verts);
    let ls = entity_lines(es);
    assert(ls =~= seq![entity_line(es[0].0, es[0].1), entity_line(es[1].0, es[1].1), entity_line(es[2].0, es[2].1)]);
    lemma_join3(ls[0], ls[1], ls[2]);
    lemma_loop_line(f, verts);
    lemma_bound_line(f);
    lemma_face_line(f);
    let a = ref_text((f + 2) as nat) + "=EDGE_LOOP('', ("@ + refs_joined(loop_refs(verts)) + ") );\n"@;
    let b = ref_text((f + 1) as nat) + "=FACE_OUTER_BOUND('',"@ + ref_text((f + 2) as nat) + ", .T.);\n"@;
    let c = ref_text(f) + "=ADVANCED_FACE('',("@ + ref_text((f + 1) as nat) + "),"@ + ref_text((f + 2) as nat) + ",.T.);\n"@;
    assert(face_lines_at(f, verts) =~= a + b + c);
    assert(a + b + c =~= ls[0] + seq!['\n'] + ls[1] + seq!['\n'] + ls[2] + seq!['\n']);
}

proof fn lemma_faces_text(np: nat, faces: Seq<Seq<usize>>)
    ensures
        faces_lines(np, faces) == join_lines(entity_lines(faces_entities(np, faces))),
    decreases faces.len(),
{
    if faces.len() > 0 {
        lemma_faces_text(np, faces.drop_last());
        let f = face_id(np, (faces.len() - 1) as nat);
        lemma_face_text(f, faces.last());
        let a = faces_entities(np, faces.drop_last());
        let b = face_entities_at(f, faces.last());
        lemma_entity_lines_add(a, b);
        lemma_join_add(entity_lines(a), entity_lines(b));
    }
}

// ---------------------------------------------------------------------------
// The header
// ---------------------------------------------------------------------------

/// The header text before the part name.
pub open spec fn head_a() -> Seq<char> {
    "ISO-10303-21;\nHEADER;\nFILE_DESCRIPTION(('Physical CAD export'),'2;1');\nFILE_NAME('"@
}

/// The header text after the part name, up to the data section.
pub open spec fn head_b() -> Seq<char> {
    ".step','2025-01-01',('Physical'),('OpenIE'),'physical-emit-step','Physical CAD','');\nFILE_SCHEMA(('AUTOMOTIVE_DESIGN'));\nENDSEC;\n"@
}

/// Everything before `DATA;`.
pub open spec fn before_data(name: Seq<char>) -> Seq<char> {
    head_a() + name + head_b()
}

proof fn lemma_join2(a: Seq<char>, b: Seq<char>)
    ensures
        join_lines(seq![a, b]) == a + seq!['\n'] + b + seq!['\n'],
{
    let s2 = seq![a, b];
    let s1 = seq![a];
    assert(s2.drop_last() =~= s1);
    assert(s1.drop_last() =~= Seq::<Seq<char>>::empty());
    assert(join_lines(s1.drop_last()) == Seq::<char>::empty());
    assert(join_lines(s1) =~= a + seq!['\n']);
    assert(join_lines(s2) =~= a + seq!['\n'] + b + seq!['\n']);
}

#[verifier::spinoff_prover]
proof fn lemma_head_b_split()
    ensures
        ".step','2025-01-01',('Physical'),('OpenIE'),'physical-emit-step','Physical CAD','');\nFILE_SCHEMA(('AUTOMOTIVE_DESIGN'));\nENDSEC;\nDATA;\n#1=APPLICATION_CONTEXT('automotive design');\n#2=APPLICATION_PROTOCOL_DEFINITION('international standard','automotive_design',2001,#1);\n#3=PRODUCT('"@
            == head_b() + "DATA;"@ + seq!['\n'] + join_lines(seq![
                entity_line(1, "APPLICATION_CONTEXT('automotive design')"@),
                entity_line(2, "APPLICATION_PROTOCOL_DEFINITION('international standard','automotive_design',2001,#1)"@),
            ]) + "#3=PRODUCT('"@,
{
    reveal_strlit(".step','2025-01-01',('Physical'),('OpenIE'),'physical-emit-step','Physical CAD','');\nFILE_SCHEMA(('AUTOMOTIVE_DESIGN'));\nENDSEC;\nDATA;\n#1=APPLICATION_CONTEXT('automotive design');\n#2=APPLICATION_PROTOCOL_DEFINITION('international standard','automotive_design',2001,#1);\n#3=PRODUCT('");
    reveal_strlit(".step','2025-01-01',('Physical'),('OpenIE'),'physical-emit-step','Physical CAD','');\nFILE_SCHEMA(('AUTOMOTIVE_DESIGN'));\nENDSEC;\n");
    reveal_strlit("DATA;");
    reveal_strlit("APPLICATION_CONTEXT('automotive design')");
    reveal_strlit("APPLICATION_PROTOCOL_DEFINITION('international standard','automotive_design',2001,#1)");
    reveal_strlit("#3=PRODUCT('");
    let l1 = entity_line(1, "APPLICATION_CONTEXT('automotive design')"@);
    let l2 = entity_line(2, "APPLICATION_PROTOCOL_DEFINITION('international standard','automotive_design',2001,#1)"@);
    assert(dec(1) == seq!['1']);
    assert(dec(2) == seq!['2']);
    lemma_join2(l1, l2);
    assert(".step','2025-01-01',('Physical'),('OpenIE'),'physical-emit-step','Physical CAD','');\nFILE_SCHEMA(('AUTOMOTIVE_DESIGN'));\nENDSEC;\nDATA;\n#1=APPLICATION_CONTEXT('automotive design');\n#2=APPLICATION_PROTOCOL_DEFINITION('international standard','automotive_design',2001,#1);\n#3=PRODUCT('"@
        =~= head_b() + "DATA;"@ + seq!['\n'] + join_lines(seq![l1, l2]) + "#3=PRODUCT('"@);
}

#[verifier::spinoff_prover]
proof fn lemma_head_d_split()
    ensures
        "','',(#4));\n#4=PRODUCT_CONTEXT('',#1,'mechanical');\n#5=PRODUCT_DEFINITION_FORMATION('','',#3);\n#6=PRODUCT_DEFINITION('design','',#5,#7);\n#7=PRODUCT_DEFINITION_CONTEXT('part definition',#1,'design');\n"@
            == "','',(#4))"@ + seq![';', '\n'] + join_lines(seq![
                entity_line(4, "PRODUCT_CONTEXT('',#1,'mechanical')"@),
                entity_line(5, "PRODUCT_DEFINITION_FORMATION('','',#3)"@),
                entity_line(6, "PRODUCT_DEFINITION('design','',#5,#7)"@),
                entity_line(7, "PRODUCT_DEFINITION_CONTEXT('part definition',#1,'design')"@),
            ]),
{
    reveal_strlit("','',(#4));\n#4=PRODUCT_CONTEXT('',#1,'mechanical');\n#5=PRODUCT_DEFINITION_FORMATION('','',#3);\n#6=PRODUCT_DEFINITION('design','',#5,#7);\n#7=PRODUCT_DEFINITION_CONTEXT('part definition',#1,'design');\n");
    reveal_strlit("','',(#4))");
    reveal_strlit("PRODUCT_CONTEXT('',#1,'mechanical')");
    reveal_strlit("PRODUCT_DEFINITION_FORMATION('','',#3)");
    reveal_strlit("PRODUCT_DEFINITION('design','',#5,#7)");
    reveal_strlit("PRODUCT_DEFINITION_CONTEXT('part definition',#1,'design')");
    let l4 = entity_line(4, "PRODUCT_CONTEXT('',#1,'mechanical')"@);
    let l5 = entity_line(5, "PRODUCT_DEFINITION_FORMATION('','',#3)"@);
    let l6 = entity_line(6, "PRODUCT_DEFINITION('design','',#5,#7)"@);
    let l7 = entity_line(7, "PRODUCT_DEFINITION_CONTEXT('part definition',#1,'design')"@);
    assert(dec(4) == seq!['4']);
    assert(dec(5) == seq!['5']);
    assert(dec(6) == seq!['6']);
    assert(dec(7) == seq!['7']);
    lemma_join2(l4, l5);
    lemma_join2(l6, l7);
    lemma_join_add(seq![l4, l5], seq![l6, l7]);
    assert(seq![l4, l5] + seq![l6, l7] =~= seq![l4, l5, l6, l7]);
    assert("','',(#4));\n#4=PRODUCT_CONTEXT('',#1,'mechanical');\n#5=PRODUCT_DEFINITION_FORMATION('','',#3);\n#6=PRODUCT_DEFINITION('design','',#5,#7);\n#7=PRODUCT_DEFINITION_CONTEXT('part definition',#1,'design');\n"@
        =~= "','',(#4))"@ + seq![';', '\n'] + join_lines(seq![l4, l5, l6, l7]));
}

/// The header is what comes before `DATA;`, the marker, and the product
/// entities.
#[verifier::spinoff_prover]
proof fn lemma_head_text(name: Seq<char>)
    ensures
        ap203_head(name) == before_data(name) + "DATA;"@ + seq!['\n'] + join_lines(entity_lines(product_entities(name))),
{
    lemma_head_b_split();
    lemma_head_d_split();
    reveal_strlit("#3=PRODUCT('");
    reveal_strlit("PRODUCT('");
    reveal_strlit("ISO-10303-21;\nHEADER;\nFILE_DESCRIPTION(('Physical CAD export'),'2;1');\nFILE_NAME('");
    let es = product_entities(name);
    let ls = entity_lines(es);
    let l3 = entity_line(3, "PRODUCT('"@ + name + "','"@ + name + "','',(#4))"@);
    assert(dec(3) == seq!['3']);
    assert(l3 =~= "#3=PRODUCT('"@ + name + "','"@ + name + "','',(#4))"@ + seq![';']);
    let a = seq![ls[0], ls[1]];
    let b = seq![ls[3], ls[4], ls[5], ls[6]];
    assert(ls =~= a + seq![l3] + b);
    lemma_join_add(a + seq![l3], b);
    lemma_join_add(a, seq![l3]);
    assert(seq![l3].drop_last() =~= Seq::<Seq<char>>::empty());
    assert(join_lines(seq![l3].drop_last()) == Seq::<char>::empty());
    assert(join_lines(seq![l3]) =~= l3 + seq!['\n']);
    assert(ap203_head(name) =~= before_data(name) + "DATA;"@ + seq!['\n'] + join_lines(ls));
}

// ---------------------------------------------------------------------------
// The whole text
// ---------------------------------------------------------------------------

/// The text after `DATA;` up to `ENDSEC;`.
pub open spec fn data_text(
    name: Seq<char>,
    pts: Seq<(Seq<char>, Seq<char>, Seq<char>)>,
    faces: Seq<Seq<usize>>,
    summary: Seq<char>,
) -> Seq<char> {
    seq!['\n'] + join_lines(entity_lines(ap203_entities(name, pts, faces))) + summary
}

#[verifier::spinoff_prover]
proof fn lemma_closing_text(name: Seq<char>, np: nat, nf: nat)
    ensures
        "#11=CLOSED_SHELL('', ("@ + refs_joined(face_ids(np, nf)) + ") );\n"@ + "#10=MANIFOLD_SOLID_BREP('"@ + name
            + "',#11);\n"@ == join_lines(entity_lines(closing_entities(name, np, nf))),
{
    reveal_strlit("#11=CLOSED_SHELL('', (");
    reveal_strlit("CLOSED_SHELL('', (");
    reveal_strlit(") );\n");
    reveal_strlit(") )");
    reveal_strlit("#10=MANIFOLD_SOLID_BREP('");
    reveal_strlit("MANIFOLD_SOLID_BREP('");
    reveal_strlit("',#11);\n");
    reveal_strlit("',#11)");
    let es = closing_entities(name, np, nf);
    let ls = entity_lines(es);
    assert(dec(11) =~= seq!['1', '1']) by {
        assert(dec(1) == seq!['1']);
    }
    assert(dec(10) =~= seq!['1', '0']) by {
        assert(dec(1) == seq!['1']);
    }
    assert(ls =~= seq![entity_line(11, es[0].1), entity_line(10, es[1].1)]);
    lemma_join2(ls[0], ls[1]);
    assert("#11=CLOSED_SHELL('', ("@ + refs_joined(face_ids(np, nf)) + ") );\n"@ + "#10=MANIFOLD_SOLID_BREP('"@ + name
        + "',#11);\n"@ =~= ls[0] + seq!['\n'] + ls[1] + seq!['\n']);
}

proof fn lemma_entities_join(
    name: Seq<char>,
    pts: Seq<(Seq<char>, Seq<char>, Seq<char>)>,
    faces: Seq<Seq<usize>>,
)
    ensures
        join_lines(entity_lines(ap203_entities(name, pts, faces))) == join_lines(entity_lines(product_entities(name)))
            + join_lines(entity_lines(point_entities(pts, first_point_id())))
            + join_lines(entity_lines(faces_entities(pts.len(), faces)))
            + join_lines(entity_lines(closing_entities(name, pts.len(), faces.len()))),
{
    let a = product_entities(name);
    let b = point_entities(pts, first_point_id());
    let c = faces_entities(pts.len(), faces);
    let d = closing_entities(name, pts.len(), faces.len());
    lemma_entity_lines_add(a + b + c, d);
    lemma_entity_lines_add(a + b, c);
    lemma_entity_lines_add(a, b);
    lemma_join_add(entity_lines(a + b + c), entity_lines(d));
    lemma_join_add(entity_lines(a + b), entity_lines(c));
    lemma_join_add(entity_lines(a), entity_lines(b));
}

/// A written file is what comes before `DATA;`, the marker, the data, and
/// the end of the file.
#[verifier::spinoff_prover]
#[verifier::rlimit(50)]
proof fn lemma_ap203_text(
    name: Seq<char>,
    pts: Seq<(Seq<char>, Seq<char>, Seq<char>)>,
    faces: Seq<Seq<usize>>,
    summary: Seq<char>,
)
    ensures
        ap203_text(name, pts, faces, summary) == before_data(name) + "DATA;"@ + data_text(name, pts, faces, summary)
            + "ENDSEC;\nEND-ISO-10303-21;\n"@,
{
    lemma_head_text(name);
    lemma_points_text(pts, first_point_id());
    lemma_faces_text(pts.len(), faces);
    lemma_closing_text(name, pts.len(), faces.len());
    lemma_entities_join(name, pts, faces);
    let h = ap203_head(name);
    let pl = point_lines(pts, first_point_id());
    let fl = faces_lines(pts.len(), faces);
    let cl = "#11=CLOSED_SHELL('', ("@ + refs_joined(face_ids(pts.len(), faces.len())) + ") );\n"@
        + "#10=MANIFOLD_SOLID_BREP('"@ + name + "',#11);\n"@;
    let e = "ENDSEC;\nEND-ISO-10303-21;\n"@;
    assert(ap203_text(name, pts, faces, summary) =~= h + pl + fl + cl + summary + e);
    let jp = join_lines(entity_lines(product_entities(name)));
    assert(h == before_data(name) + "DATA;"@ + seq!['\n'] + jp);
    assert(data_text(name, pts, faces, summary) == seq!['\n'] + (jp + pl + fl + cl) + summary);
    assert(h + pl + fl + cl + summary + e =~= before_data(name) + "DATA;"@ + (seq!['\n'] + (jp + pl + fl + cl) + summary) + e);
}

// ---------------------------------------------------------------------------
// Plain texts
// ---------------------------------------------------------------------------

/// A text with no line feed and no `;`.
pub open spec fn plain_text(s: Seq<char>) -> bool {
    forall|k: int| 0 <= k < s.len() ==> #[trigger] s[k] != '\n' && s[k] != ';'
}

proof fn lemma_plain_add(a: Seq<char>, b: Seq<char>)
    requires
        plain_text(a),
        plain_text(b),
    ensures
        plain_text(a + b),
{
    assert forall|k: int| 0 <= k < (a + b).len() implies #[trigger] (a + b)[k] != '\n' && (a + b)[k] != ';' by {
        if k < a.len() {
            assert((a + b)[k] == a[k]);
        } else {
            assert((a + b)[k] == b[k - a.len()]);
        }
    }
}

proof fn lemma_ref_plain(id: nat)
    ensures
        plain_text(ref_text(id)),
{
    lemma_dec_digits(id);
    assert forall|k: int| 0 <= k < ref_text(id).len() implies #[trigger] ref_text(id)[k] != '\n' && ref_text(id)[k] != ';' by {
        if k > 0 {
            assert(ref_text(id)[k] == dec(id)[k - 1]);
        }
    }
}

proof fn lemma_refs_plain(ids: Seq<nat>)
    ensures
        plain_text(refs_joined(ids)),
    decreases ids.len(),
{
    if ids.len() == 1 {
        lemma_ref_plain(ids[0]);
    } else if ids.len() > 1 {
        lemma_refs_plain(ids.drop_last());
        lemma_ref_plain(ids.last());
        assert(plain_text(seq![',']));
        lemma_plain_add(refs_joined(ids.drop_last()), seq![',']);
        lemma_plain_add(refs_joined(ids.drop_last()) + seq![','], ref_text(ids.last()));
    }
}

/// The coordinates of every point are plain.
pub open spec fn plain_points(pts: Seq<(Seq<char>, Seq<char>, Seq<char>)>) -> bool {
    forall|i: int| 0 <= i < pts.len() ==> plain_text((#[trigger] pts[i]).0) && plain_text(pts[i].1) && plain_text(pts[i].2)
}

/// Every entity has a plain body and a number within `u64`.
pub open spec fn plain_entities(es: Seq<(nat, Seq<char>)>) -> bool {
    forall|i: int| 0 <= i < es.len() ==> plain_body((#[trigger] es[i]).1) && es[i].0 <= u64::MAX
}

proof fn lemma_plain_entities_add(a: Seq<(nat, Seq<char>)>, b: Seq<(nat, Seq<char>)>)
    requires
        plain_entities(a),
        plain_entities(b),
    ensures
        plain_entities(a + b),
{
    assert forall|i: int| 0 <= i < (a + b).len() implies plain_body((#[trigger] (a + b)[i]).1) && (a + b)[i].0 <= u64::MAX by {
        if i < a.len() {
            assert((a + b)[i] == a[i]);
        } else {
            assert((a + b)[i] == b[i - a.len()]);
        }
    }
}

#[verifier::spinoff_prover]
proof fn lemma_product_plain(name: Seq<char>)
    requires
        plain_text(name),
    ensures
        plain_entities(product_entities(name)),
{
    reveal_strlit("APPLICATION_CONTEXT('automotive design')");
    reveal_strlit("APPLICATION_PROTOCOL_DEFINITION('international standard','automotive_design',2001,#1)");
    reveal_strlit("PRODUCT('");
    reveal_strlit("','");
    reveal_strlit("','',(#4))");
    reveal_strlit("PRODUCT_CONTEXT('',#1,'mechanical')");
    reveal_strlit("PRODUCT_DEFINITION_FORMATION('','',#3)");
    reveal_strlit("PRODUCT_DEFINITION('design','',#5,#7)");
    reveal_strlit("PRODUCT_DEFINITION_CONTEXT('part definition',#1,'design')");
    let es = product_entities(name);
    assert(plain_text("PRODUCT('"@));
    assert(plain_text("','"@));
    assert(plain_text("','',(#4))"@));
    lemma_plain_add("PRODUCT('"@, name);
    lemma_plain_add("PRODUCT('"@ + name, "','"@);
    lemma_plain_add("PRODUCT('"@ + name + "','"@, name);
    lemma_plain_add("PRODUCT('"@ + name + "','"@ + name, "','',(#4))"@);
    assert(plain_body(es[0].1));
    assert(plain_body(es[1].1));
    assert(plain_body(es[2].1));
    assert(plain_body(es[3].1));
    assert(plain_body(es[4].1));
    assert(plain_body(es[5].1));
    assert(plain_body(es[6].1));
}

#[verifier::spinoff_prover]
proof fn lemma_point_body_plain(p: (Seq<char>, Seq<char>, Seq<char>))
    requires
        plain_text(p.0),
        plain_text(p.1),
        plain_text(p.2),
    ensures
        plain_body(point_body(p)),
{
    reveal_strlit("CARTESIAN_POINT('',(");
    reveal_strlit("))");
    let o = "CARTESIAN_POINT('',("@;
    let c = seq![','];
    assert(plain_text(o));
    assert(plain_text(c));
    assert(plain_text("))"@));
    lemma_plain_add(o, p.0);
    lemma_plain_add(o + p.0, c);
    lemma_plain_add(o + p.0 + c, p.1);
    lemma_plain_add(o + p.0 + c + p.1, c);
    lemma_plain_add(o + p.0 + c + p.1 + c, p.2);
    lemma_plain_add(o + p.0 + c + p.1 + c + p.2, "))"@);
}

proof fn lemma_points_plain(pts: Seq<(Seq<char>, Seq<char>, Seq<char>)>, first: nat)
    requires
        plain_points(pts),
        first + pts.len() <= u64::MAX + 1,
    ensures
        plain_entities(point_entities(pts, first)),
    decreases pts.len(),
{
    if pts.len() > 0 {
        let d = pts.drop_last();
        assert(plain_points(d)) by {
            assert forall|i: int| 0 <= i < d.len() implies plain_text((#[trigger] d[i]).0) && plain_text(d[i].1) && plain_text(d[i].2) by {
                assert(d[i] == pts[i]);
            }
        }
        lemma_points_plain(d, first);
        assert(plain_text(pts[pts.len() - 1].0) && plain_text(pts[pts.len() - 1].1) && plain_text(pts[pts.len() - 1].2));
        lemma_point_body_plain(pts.last());
        let es = point_entities(pts, first);
        assert forall|i: int| 0 <= i < es.len() implies plain_body((#[trigger] es[i]).1) && es[i].0 <= u64::MAX by {
            if i < es.len() - 1 {
                assert(es[i] == point_entities(d, first)[i]);
            }
        }
    }
}

#[verifier::spinoff_prover]
proof fn lemma_face_plain(f: nat, verts: Seq<usize>)
    requires
        f + 2 <= u64::MAX,
    ensures
        plain_entities(face_entities_at(f, verts)),
{
    reveal_strlit("EDGE_LOOP('', (");
    reveal_strlit(") )");
    reveal_strlit("FACE_OUTER_BOUND('',");
    reveal_strlit(", .T.)");
    reveal_strlit("ADVANCED_FACE('',(");
    reveal_strlit("),");
    reveal_strlit(",.T.)");
    lemma_refs_plain(loop_refs(verts));
    lemma_ref_plain((f + 1) as nat);
    lemma_ref_plain((f + 2) as nat);
    assert(plain_text("EDGE_LOOP('', ("@));
    assert(plain_text(") )"@));
    assert(plain_text("FACE_OUTER_BOUND('',"@));
    assert(plain_text(", .T.)"@));
    assert(plain_text("ADVANCED_FACE('',("@));
    assert(plain_text("),"@));
    assert(plain_text(",.T.)"@));
    lemma_plain_add("EDGE_LOOP('', ("@, refs_joined(loop_refs(verts)));
    lemma_plain_add("EDGE_LOOP('', ("@ + refs_joined(loop_refs(verts)), ") )"@);
    lemma_plain_add("FACE_OUTER_BOUND('',"@, ref_text((f + 2) as nat));
    lemma_plain_add("FACE_OUTER_BOUND('',"@ + ref_text((f + 2) as nat), ", .T.)"@);
    lemma_plain_add("ADVANCED_FACE('',("@, ref_text((f + 1) as nat));
    lemma_plain_add("ADVANCED_FACE('',("@ + ref_text((f + 1) as nat), "),"@);
    lemma_plain_add("ADVANCED_FACE('',("@ + ref_text((f + 1) as nat) + "),"@, ref_text((f + 2) as nat));
    lemma_plain_add("ADVANCED_FACE('',("@ + ref_text((f + 1) as nat) + "),"@ + ref_text((f + 2) as nat), ",.T.)"@);
    let es = face_entities_at(f, verts);
    assert(plain_body(es[0].1));
    assert(plain_body(es[1].1));
    assert(plain_body(es[2].1));
}

proof fn lemma_faces_plain(np: nat, faces: Seq<Seq<usize>>)
    requires
        12 + np + 3 * faces.len() <= u64::MAX,
    ensures
        plain_entities(faces_entities(np, faces)),
    decreases faces.len(),
{
    if faces.len() > 0 {
        lemma_faces_plain(np, faces.drop_last());
        let f = face_id(np, (faces.len() - 1) as nat);
        lemma_face_plain(f, faces.last());
        lemma_plain_entities_add(faces_entities(np, faces.drop_last()), face_entities_at(f, faces.last()));
    }
}

#[verifier::spinoff_prover]
proof fn lemma_closing_plain(name: Seq<char>, np: nat, nf: nat)
    requires
        plain_text(name),
    ensures
        plain_entities(closing_entities(name, np, nf)),
{
    reveal_strlit("CLOSED_SHELL('', (");
    reveal_strlit(") )");
    reveal_strlit("MANIFOLD_SOLID_BREP('");
    reveal_strlit("',#11)");
    lemma_refs_plain(face_ids(np, nf));
    assert(plain_text("CLOSED_SHELL('', ("@));
    assert(plain_text(") )"@));
    assert(plain_text("MANIFOLD_SOLID_BREP('"@));
    assert(plain_text("',#11)"@));
    lemma_plain_add("CLOSED_SHELL('', ("@, refs_joined(face_ids(np, nf)));
    lemma_plain_add("CLOSED_SHELL('', ("@ + refs_joined(face_ids(np, nf)), ") )"@);
    lemma_plain_add("MANIFOLD_SOLID_BREP('"@, name);
    lemma_plain_add("MANIFOLD_SOLID_BREP('"@ + name, "',#11)"@);
    let es = closing_entities(name, np, nf);
    assert(plain_body(es[0].1));
    assert(plain_body(es[1].1));
}

proof fn lemma_ap203_plain(
    name: Seq<char>,
    pts: Seq<(Seq<char>, Seq<char>, Seq<char>)>,
    faces: Seq<Seq<usize>>,
)
    requires
        plain_text(name),
        plain_points(pts),
        12 + pts.len() + 3 * faces.len() <= u64::MAX,
    ensures
        plain_entities(ap203_entities(name, pts, faces)),
{
    lemma_product_plain(name);
    lemma_points_plain(pts, first_point_id());
    lemma_faces_plain(pts.len(), faces);
    lemma_closing_plain(name, pts.len(), faces.len());
    let a = product_entities(name);
    let b = point_entities(pts, first_point_id());
    let c = faces_entities(pts.len(), faces);
    let d = closing_entities(name, pts.len(), faces.len());
    lemma_plain_entities_add(a, b);
    lemma_plain_entities_add(a + b, c);
    lemma_plain_entities_add(a + b + c, d);
}

// ---------------------------------------------------------------------------
// Reading the data section
// ---------------------------------------------------------------------------

proof fn lemma_join_guarded(es: Seq<(nat, Seq<char>)>)
    requires
        plain_entities(es),
    ensures
        no_line_feed(entity_lines(es)),
        guarded(join_lines(entity_lines(es)), 'C', ';'),
        join_lines(entity_lines(es)).len() > 0 ==> join_lines(entity_lines(es))[0] == '#',
    decreases es.len(),
{
    let ls = entity_lines(es);
    if es.len() == 0 {
        assert(join_lines(ls) =~= Seq::<char>::empty());
        assert(no_line_feed(ls));
    } else {
        let d = es.drop_last();
        assert(plain_entities(d)) by {
            assert forall|i: int| 0 <= i < d.len() implies plain_body((#[trigger] d[i]).1) && d[i].0 <= u64::MAX by {
                assert(d[i] == es[i]);
            }
        }
        lemma_join_guarded(d);
        assert(plain_body(es[es.len() - 1].1) && es[es.len() - 1].0 <= u64::MAX);
        let e = es.last();
        lemma_entity_line(e.0, e.1, Map::empty());
        let l = entity_line(e.0, e.1);
        assert(ls =~= entity_lines(d).push(l));
        assert(ls.drop_last() =~= entity_lines(d));
        let j = join_lines(entity_lines(d));
        assert(join_lines(ls) == j + l + seq!['\n']);
        assert(l[0] == '#');
        lemma_guarded_add(j, l, 'C', ';');
        lemma_guarded_free(seq!['\n'], 'C', ';');
        lemma_guarded_add(j + l, seq!['\n'], 'C', ';');
        if j.len() > 0 {
            assert((j + l + seq!['\n'])[0] == j[0]);
        } else {
            assert((j + l + seq!['\n'])[0] == l[0]);
        }
        assert forall|i: int, k: int| 0 <= i < ls.len() && 0 <= k < ls[i].len() implies #[trigger] ls[i][k] != '\n' by {
            if i < ls.len() - 1 {
                assert(ls[i] == entity_lines(d)[i]);
            } else {
                assert(ls[i] == l);
            }
        }
    }
}

proof fn lemma_fold_push(ls: Seq<Seq<char>>, l: Seq<char>)
    ensures
        entity_fold(ls.push(l)) == entity_step(entity_fold(ls), l),
{
    assert(ls.push(l).drop_last() =~= ls);
}

proof fn lemma_fold_entities(pre: Seq<Seq<char>>, es: Seq<(nat, Seq<char>)>)
    requires
        entity_fold(pre).0 == Seq::<char>::empty(),
        plain_entities(es),
    ensures
        entity_fold(pre + entity_lines(es)) == (Seq::<char>::empty(), map_over(entity_fold(pre).1, es)),
    decreases es.len(),
{
    if es.len() == 0 {
        assert(pre + entity_lines(es) =~= pre);
    } else {
        let d = es.drop_last();
        assert(plain_entities(d)) by {
            assert forall|i: int| 0 <= i < d.len() implies plain_body((#[trigger] d[i]).1) && d[i].0 <= u64::MAX by {
                assert(d[i] == es[i]);
            }
        }
        lemma_fold_entities(pre, d);
        let e = es.last();
        assert(plain_body(es[es.len() - 1].1) && es[es.len() - 1].0 <= u64::MAX);
        let l = entity_line(e.0, e.1);
        assert(pre + entity_lines(es) =~= (pre + entity_lines(d)).push(l));
        lemma_fold_push(pre + entity_lines(d), l);
        lemma_entity_line(e.0, e.1, map_over(entity_fold(pre).1, d));
    }
}

/// A comment line for the end of the data section: `/*` first, then text
/// with no line feed or `;`, ending in a character other than whitespace,
/// then a line feed.
pub open spec fn comment_summary(summary: Seq<char>) -> bool {
    &&& summary.len() >= 3
    &&& summary.last() == '\n'
    &&& summary[0] == '/'
    &&& summary[1] == '*'
    &&& !is_ws(summary[summary.len() - 2])
    &&& plain_text(summary.drop_last())
}

proof fn lemma_summary_read(summary: Seq<char>, st: (Seq<char>, Map<u64, Seq<char>>))
    requires
        comment_summary(summary),
    ensures
        entity_step(st, summary.drop_last()) == st,
        forall|k: int| 0 <= k < summary.drop_last().len() ==> #[trigger] summary.drop_last()[k] != '\n',
        guarded(summary, 'C', ';'),
{
    let c = summary.drop_last();
    assert(c[0] == '/');
    assert(!is_ws('/'));
    assert(c.last() == summary[summary.len() - 2]);
    assert(trim_start(c) == c);
    assert(trim_end(c) == c);
    assert(trim(c) == c);
    assert(c.take(2) =~= seq!['/', '*']);
    assert(starts_with(c, seq!['/', '*']));
    assert forall|k: int| 0 < k < summary.len() && #[trigger] summary[k] == ';' implies summary[k - 1] != 'C' by {
        if k < summary.len() - 1 {
            assert(summary[k] == c[k]);
        }
    }
}

#[verifier::spinoff_prover]
proof fn lemma_before_data_guarded(name: Seq<char>)
    requires
        plain_text(name),
    ensures
        guarded(before_data(name), 'A', ';'),
{
    reveal_strlit("ISO-10303-21;\nHEADER;\nFILE_DESCRIPTION(('Physical CAD export'),'2;1');\nFILE_NAME('");
    reveal_strlit(".step','2025-01-01',('Physical'),('OpenIE'),'physical-emit-step','Physical CAD','');\nFILE_SCHEMA(('AUTOMOTIVE_DESIGN'));\nENDSEC;\n");
    assert(guarded(head_a(), 'A', ';'));
    assert(guarded(head_b(), 'A', ';'));
    lemma_guarded_free(name, 'A', ';');
    lemma_guarded_add(head_a(), name, 'A', ';');
    assert(head_b()[0] == '.');
    lemma_guarded_add(head_a() + name, head_b(), 'A', ';');
}

/// Every `;` of the data text follows `)`.
#[verifier::spinoff_prover]
proof fn lemma_data_guarded(
    name: Seq<char>,
    pts: Seq<(Seq<char>, Seq<char>, Seq<char>)>,
    faces: Seq<Seq<usize>>,
    summary: Seq<char>,
)
    requires
        plain_entities(ap203_entities(name, pts, faces)),
        comment_summary(summary),
    ensures
        guarded(data_text(name, pts, faces, summary), 'C', ';'),
{
    let es = ap203_entities(name, pts, faces);
    lemma_join_guarded(es);
    lemma_summary_read(summary, (Seq::empty(), Map::empty()));
    let j = join_lines(entity_lines(es));
    lemma_guarded_free(seq!['\n'], 'C', ';');
    lemma_guarded_add(seq!['\n'], j, 'C', ';');
    lemma_guarded_add(seq!['\n'] + j, summary, 'C', ';');
}

/// The data section of a text made of a header, `DATA;`, the data and the
/// end is the data, when no `;` in the header follows `A` and none in the
/// data follows `C`.
#[verifier::spinoff_prover]
proof fn lemma_data_section_of(t: Seq<char>, b: Seq<char>, d: Seq<char>)
    requires
        t == b + "DATA;"@ + d + "ENDSEC;\nEND-ISO-10303-21;\n"@,
        guarded(b, 'A', ';'),
        guarded(d, 'C', ';'),
    ensures
        data_section(t) == Some(d),
{
    reveal_strlit("DATA;");
    reveal_strlit("ENDSEC;");
    reveal_strlit("ENDSEC;\nEND-ISO-10303-21;\n");
    reveal_strlit("\nEND-ISO-10303-21;\n");
    let end = "ENDSEC;\nEND-ISO-10303-21;\n"@;
    assert(t =~= b + "DATA;"@ + (d + end));
    lemma_first_occurrence(b, "DATA;"@, d + end);
    let p = b.len() as int;
    let u = t.skip(p + 5);
    assert(u =~= d + "ENDSEC;"@ + "\nEND-ISO-10303-21;\n"@);
    lemma_first_occurrence(d, "ENDSEC;"@, "\nEND-ISO-10303-21;\n"@);
    assert(t.subrange(p + 5, p + 5 + d.len()) =~= d);
}

/// The entity map of a text whose data section is a line feed, entity
/// lines and a comment line is the map of those entities.
#[verifier::spinoff_prover]
proof fn lemma_entity_map_of(t: Seq<char>, es: Seq<(nat, Seq<char>)>, summary: Seq<char>)
    requires
        data_section(t) == Some(seq!['\n'] + join_lines(entity_lines(es)) + summary),
        plain_entities(es),
        comment_summary(summary),
    ensures
        entity_map(t) == map_of(es),
{
    lemma_join_guarded(es);
    let c = summary.drop_last();
    lemma_summary_read(summary, (Seq::empty(), map_of(es)));
    let e = Seq::<char>::empty();
    let ls = seq![e] + entity_lines(es) + seq![c];
    let j1 = seq![e];
    assert(j1.drop_last() =~= Seq::<Seq<char>>::empty());
    assert(join_lines(j1.drop_last()) == Seq::<char>::empty());
    assert(join_lines(j1) =~= seq!['\n']);
    let jc = seq![c];
    assert(jc.drop_last() =~= Seq::<Seq<char>>::empty());
    assert(join_lines(jc.drop_last()) == Seq::<char>::empty());
    assert(summary =~= c + seq!['\n']);
    assert(join_lines(jc) =~= summary);
    lemma_join_add(j1 + entity_lines(es), jc);
    lemma_join_add(j1, entity_lines(es));
    assert(join_lines(ls) == seq!['\n'] + join_lines(entity_lines(es)) + summary);
    assert(no_line_feed(ls)) by {
        assert forall|i: int, k: int| 0 <= i < ls.len() && 0 <= k < ls[i].len() implies #[trigger] ls[i][k] != '\n' by {
            if i == 0 {
            } else if i < ls.len() - 1 {
                assert(ls[i] == entity_lines(es)[i - 1]);
            } else {
                assert(ls[i] == c);
            }
        }
    }
    crate::dxf_roundtrip::lemma_split_join(ls);
    lemma_fold_push(Seq::<Seq<char>>::empty(), e);
    assert(Seq::<Seq<char>>::empty().push(e) =~= j1);
    assert(entity_fold(Seq::<Seq<char>>::empty()) == (e, Map::<u64, Seq<char>>::empty()));
    assert(entity_fold(j1) == (e, Map::<u64, Seq<char>>::empty()));
    lemma_fold_entities(j1, es);
    assert(ls =~= (j1 + entity_lines(es)).push(c));
    lemma_fold_push(j1 + entity_lines(es), c);
    lemma_fold_push(ls, e);
}

/// Reading back a written AP203 file gives the entity map of the written
/// entities: each written number maps to the body the writer gave it,
/// provided the part name and the coordinate texts hold no line feed or
/// `;`, the summary is one `/*` comment line, and the entity numbers fit in
/// `u64`.
pub proof fn lemma_ap203_entity_map(
    name: Seq<char>,
    pts: Seq<(Seq<char>, Seq<char>, Seq<char>)>,
    faces: Seq<Seq<usize>>,
    summary: Seq<char>,
)
    requires
        plain_text(name),
        plain_points(pts),
        comment_summary(summary),
        12 + pts.len() + 3 * faces.len() <= u64::MAX,
    ensures
        entity_map(ap203_text(name, pts, faces, summary)) == map_of(ap203_entities(name, pts, faces)),
{
    let es = ap203_entities(name, pts, faces);
    let t = ap203_text(name, pts, faces, summary);
    let d = data_text(name, pts, faces, summary);
    lemma_ap203_plain(name, pts, faces);
    lemma_ap203_text(name, pts, faces, summary);
    lemma_before_data_guarded(name);
    lemma_data_guarded(name, pts, faces, summary);
    lemma_data_section_of(t, before_data(name), d);
    lemma_entity_map_of(t, es, summary);
}

// ---------------------------------------------------------------------------
// Every written entity is found under its number
// ---------------------------------------------------------------------------

/// Entities with distinct numbers are each found under their number.
proof fn lemma_map_of_distinct(es: Seq<(nat, Seq<char>)>)
    requires
        forall|i: int| 0 <= i < es.len() ==> (#[trigger] es[i]).0 <= u64::MAX,
        forall|i: int, j: int| 0 <= i < j < es.len() ==> (#[trigger] es[i]).0 != (#[trigger] es[j]).0,
    ensures
        forall|i: int| 0 <= i < es.len() ==> map_of(es).contains_key((#[trigger] es[i]).0 as u64)
            && map_of(es)[es[i].0 as u64] == es[i].1,
    decreases es.len(),
{
    if es.len() > 0 {
        let d = es.drop_last();
        assert forall|i: int, j: int| 0 <= i < j < d.len() implies (#[trigger] d[i]).0 != (#[trigger] d[j]).0 by {
            assert(d[i] == es[i] && d[j] == es[j]);
        }
        assert forall|i: int| 0 <= i < d.len() implies (#[trigger] d[i]).0 <= u64::MAX by {
            assert(d[i] == es[i]);
        }
        lemma_map_of_distinct(d);
        let l = es.last();
        assert(map_of(es) == map_of(d).insert(l.0 as u64, l.1));
        assert forall|i: int| 0 <= i < es.len() implies map_of(es).contains_key((#[trigger] es[i]).0 as u64)
            && map_of(es)[es[i].0 as u64] == es[i].1 by {
            if i < es.len() - 1 {
                assert(es[i] == d[i]);
                assert(es[i].0 != es[es.len() - 1].0);
                assert(es[i].0 <= u64::MAX && l.0 <= u64::MAX);
                assert(es[i].0 as u64 != l.0 as u64);
            }
        }
    }
}

proof fn lemma_point_ids(pts: Seq<(Seq<char>, Seq<char>, Seq<char>)>, first: nat)
    ensures
        point_entities(pts, first).len() == pts.len(),
        forall|i: int| 0 <= i < pts.len() ==> (#[trigger] point_entities(pts, first)[i]).0 == first + i,
    decreases pts.len(),
{
    if pts.len() > 0 {
        lemma_point_ids(pts.drop_last(), first);
        let es = point_entities(pts, first);
        assert forall|i: int| 0 <= i < pts.len() implies (#[trigger] es[i]).0 == first + i by {
            if i < pts.len() - 1 {
                assert(es[i] == point_entities(pts.drop_last(), first)[i]);
            }
        }
    }
}

proof fn lemma_face_ids(np: nat, faces: Seq<Seq<usize>>)
    ensures
        faces_entities(np, faces).len() == 3 * faces.len(),
        forall|i: int| 0 <= i < 3 * faces.len() ==> #[trigger] faces_entities(np, faces)[i].0 >= 12 + np
            && faces_entities(np, faces)[i].0 < 12 + np + 3 * faces.len()
            && faces_entities(np, faces)[i].0 == 12 + np + 3 * (i / 3) + 2 - i % 3,
    decreases faces.len(),
{
    if faces.len() > 0 {
        let n = faces.len() - 1;
        lemma_face_ids(np, faces.drop_last());
        let a = faces_entities(np, faces.drop_last());
        let f = face_id(np, n as nat);
        let b = face_entities_at(f, faces.last());
        let es = faces_entities(np, faces);
        assert(es == a + b);
        assert forall|i: int| 0 <= i < 3 * faces.len() implies #[trigger] es[i].0 >= 12 + np
            && es[i].0 < 12 + np + 3 * faces.len() && es[i].0 == 12 + np + 3 * (i / 3) + 2 - i % 3 by {
            if i < 3 * n {
                assert(es[i] == a[i]);
            } else {
                let r = i - 3 * n;
                assert(es[i] == b[r]);
                assert(i / 3 == n && i % 3 == r) by (nonlinear_arith)
                    requires
                        i == 3 * n + r,
                        0 <= r < 3,
                        n >= 0,
                ;
            }
        }
    }
}

/// The entities of a written file have distinct numbers, so each is found
/// under its number.
pub proof fn lemma_ap203_entities_found(
    name: Seq<char>,
    pts: Seq<(Seq<char>, Seq<char>, Seq<char>)>,
    faces: Seq<Seq<usize>>,
)
    requires
        12 + pts.len() + 3 * faces.len() <= u64::MAX,
    ensures
        forall|i: int| 0 <= i < ap203_entities(name, pts, faces).len() ==>
            map_of(ap203_entities(name, pts, faces)).contains_key((#[trigger] ap203_entities(name, pts, faces)[i]).0 as u64)
            && map_of(ap203_entities(name, pts, faces))[ap203_entities(name, pts, faces)[i].0 as u64]
                == ap203_entities(name, pts, faces)[i].1,
        forall|i: int| 0 <= i < ap203_entities(name, pts, faces).len() ==> (#[trigger] ap203_entities(name, pts, faces)[i]).0
            >= 1 && ap203_entities(name, pts, faces)[i].0 <= u64::MAX,
{
    let es = ap203_entities(name, pts, faces);
    let np = pts.len();
    let nf = faces.len();
    let a = product_entities(name);
    let b = point_entities(pts, first_point_id());
    let c = faces_entities(np, faces);
    let d = closing_entities(name, np, nf);
    lemma_point_ids(pts, first_point_id());
    lemma_face_ids(np, faces);
    assert(es == a + b + c + d);
    let na = 7int;
    let nb = np as int;
    let nc = 3 * nf as int;
    assert(es.len() == na + nb + nc + 2);
    // the number of each entity, by position
    assert forall|i: int| 0 <= i < es.len() implies #[trigger] es[i].0 == (if i < na {
        i + 1
    } else if i < na + nb {
        12 + (i - na)
    } else if i < na + nb + nc {
        12 + np + 3 * ((i - na - nb) / 3) + 2 - (i - na - nb) % 3
    } else if i == na + nb + nc {
        11
    } else {
        10
    }) by {
        if i < na {
            assert(es[i] == a[i]);
        } else if i < na + nb {
            assert(es[i] == b[i - na]);
        } else if i < na + nb + nc {
            assert(es[i] == c[i - na - nb]);
        } else {
            assert(es[i] == d[i - na - nb - nc]);
        }
    }
    assert forall|i: int| 0 <= i < es.len() implies (#[trigger] es[i]).0 <= u64::MAX by {
        if na + nb <= i < na + nb + nc {
            assert(es[i] == c[i - na - nb]);
        }
    }
    assert forall|i: int, j: int| 0 <= i < j < es.len() implies (#[trigger] es[i]).0 != (#[trigger] es[j]).0 by {
        if na + nb <= i < na + nb + nc && na + nb <= j < na + nb + nc {
            let x = i - na - nb;
            let y = j - na - nb;
            assert(3 * (x / 3) + 2 - x % 3 != 3 * (y / 3) + 2 - y % 3) by (nonlinear_arith)
                requires
                    0 <= x < y,
            ;
        }
        if na + nb <= i < na + nb + nc {
            assert(es[i] == c[i - na - nb]);
        }
        if na + nb <= j < na + nb + nc {
            assert(es[j] == c[j - na - nb]);
        }
    }
    lemma_map_of_distinct(es);
}

/// Every key of the map of some entities is the number of one of them.
pub proof fn lemma_map_of_keys(es: Seq<(nat, Seq<char>)>, k: u64)
    requires
        map_of(es).contains_key(k),
    ensures
        exists|i: int| 0 <= i < es.len() && (#[trigger] es[i]).0 as u64 == k,
    decreases es.len(),
{
    if es.last().0 as u64 == k {
        assert(es[es.len() - 1].0 as u64 == k);
    } else {
        lemma_map_of_keys(es.drop_last(), k);
        let i = choose|i: int| 0 <= i < es.drop_last().len() && (#[trigger] es.drop_last()[i]).0 as u64 == k;
        assert(es[i] == es.drop_last()[i]);
    }
}

// ---------------------------------------------------------------------------
// The part name read back
// ---------------------------------------------------------------------------

proof fn lemma_find_at(s: Seq<char>, c: char, f: int, k: int)
    requires
        0 <= f <= k < s.len(),
        s[k] == c,
        forall|j: int| f <= j < k ==> #[trigger] s[j] != c,
    ensures
        find_from(s, c, f) == Some(k),
    decreases k - f,
{
    if f < k {
        lemma_find_at(s, c, f + 1, k);
    }
}

/// A name made of capital letters and underscores.
pub open spec fn kind_word(w: Seq<char>) -> bool {
    w.len() > 0 && forall|i: int| 0 <= i < w.len() ==> ('A' <= #[trigger] w[i] && w[i] <= 'Z') || w[i] == '_'
}

pub(crate) proof fn lemma_kind(head: Seq<char>, rest: Seq<char>)
    requires
        kind_word(head),
        rest.len() > 0,
        rest.last() == ')',
    ensures
        entity_kind(head + seq!['('] + rest) == head,
{
    let b = head + seq!['('] + rest;
    assert(b[0] == head[0]);
    assert(b.last() == ')');
    lemma_trim_fixed(b);
    assert forall|j: int| 0 <= j < head.len() implies #[trigger] b[j] != '(' by {
        assert(b[j] == head[j]);
    }
    lemma_find_at(b, '(', 0, head.len() as int);
    assert(b.take(head.len() as int) =~= head);
    assert(head.last() == head[head.len() - 1]);
    lemma_trim_fixed(head);
    assert(head.map_values(|c: char| ascii_upper(c)) =~= head);
    assert(upper_of(head) == head);
}

proof fn lemma_product_quoted(name: Seq<char>)
    requires
        forall|i: int| 0 <= i < name.len() ==> #[trigger] name[i] != '\'',
    ensures
        first_quoted("PRODUCT('"@ + name + "','"@ + name + "','',(#4))"@) == Some(name),
{
    reveal_strlit("PRODUCT('");
    reveal_strlit("','");
    reveal_strlit("','',(#4))");
    let p = "PRODUCT('"@ + name + "','"@ + name + "','',(#4))"@;
    let n = name.len() as int;
    assert(p[8] == '\'');
    assert forall|j: int| 0 <= j < 8 implies #[trigger] p[j] != '\'' by {}
    lemma_find_at(p, '\'', 0, 8);
    assert(p[9 + n] == '\'');
    assert forall|j: int| 9 <= j < 9 + n implies #[trigger] p[j] != '\'' by {
        assert(p[j] == name[j - 9]);
    }
    lemma_find_at(p, '\'', 9, 9 + n);
    assert(p.subrange(9, 9 + n) =~= name);
}

proof fn lemma_product_bodies(name: Seq<char>)
    requires
        name.len() > 0,
        forall|i: int| 0 <= i < name.len() ==> #[trigger] name[i] != '\'',
    ensures
        product_name_of(product_entities(name)[0].1) is None,
        product_name_of(product_entities(name)[1].1) is None,
        product_name_of(product_entities(name)[2].1) == Some(name),
{
    reveal_strlit("APPLICATION_CONTEXT('automotive design')");
    reveal_strlit("APPLICATION_CONTEXT");
    reveal_strlit("'automotive design')");
    reveal_strlit("APPLICATION_PROTOCOL_DEFINITION('international standard','automotive_design',2001,#1)");
    reveal_strlit("APPLICATION_PROTOCOL_DEFINITION");
    reveal_strlit("'international standard','automotive_design',2001,#1)");
    reveal_strlit("PRODUCT('");
    reveal_strlit("PRODUCT");
    reveal_strlit("'");
    reveal_strlit("','");
    reveal_strlit("','',(#4))");
    let b1 = "APPLICATION_CONTEXT('automotive design')"@;
    let b2 = "APPLICATION_PROTOCOL_DEFINITION('international standard','automotive_design',2001,#1)"@;
    let b3 = "PRODUCT('"@ + name + "','"@ + name + "','',(#4))"@;
    assert(b1 =~= "APPLICATION_CONTEXT"@ + seq!['('] + "'automotive design')"@);
    assert(b2 =~= "APPLICATION_PROTOCOL_DEFINITION"@ + seq!['('] + "'international standard','automotive_design',2001,#1)"@);
    let r3 = "'"@ + name + "','"@ + name + "','',(#4))"@;
    assert(b3 =~= "PRODUCT"@ + seq!['('] + r3);
    assert(kind_word("APPLICATION_CONTEXT"@));
    assert(kind_word("APPLICATION_PROTOCOL_DEFINITION"@));
    assert(kind_word("PRODUCT"@));
    lemma_kind("APPLICATION_CONTEXT"@, "'automotive design')"@);
    lemma_kind("APPLICATION_PROTOCOL_DEFINITION"@, "'international standard','automotive_design',2001,#1)"@);
    lemma_kind("PRODUCT"@, r3);
    assert("APPLICATION_CONTEXT"@ != "PRODUCT"@) by {
        assert("APPLICATION_CONTEXT"@.len() != "PRODUCT"@.len());
    }
    assert("APPLICATION_PROTOCOL_DEFINITION"@ != "PRODUCT"@) by {
        assert("APPLICATION_PROTOCOL_DEFINITION"@.len() != "PRODUCT"@.len());
    }
    lemma_product_quoted(name);
}

proof fn lemma_product_first(
    name: Seq<char>,
    pts: Seq<(Seq<char>, Seq<char>, Seq<char>)>,
    faces: Seq<Seq<usize>>,
)
    ensures
        ap203_entities(name, pts, faces).len() >= 3,
        ap203_entities(name, pts, faces)[0] == product_entities(name)[0],
        ap203_entities(name, pts, faces)[1] == product_entities(name)[1],
        ap203_entities(name, pts, faces)[2] == product_entities(name)[2],
{
    let a = product_entities(name);
    let rest = point_entities(pts, first_point_id()) + faces_entities(pts.len(), faces) + closing_entities(
        name,
        pts.len(),
        faces.len(),
    );
    assert(ap203_entities(name, pts, faces) =~= a + rest);
}

proof fn lemma_name_from_map(es: Seq<(nat, Seq<char>)>, name: Seq<char>)
    requires
        es.len() >= 3,
        es[0] == product_entities(name)[0],
        es[1] == product_entities(name)[1],
        es[2] == product_entities(name)[2],
        forall|i: int| 0 <= i < es.len() ==> map_of(es).contains_key((#[trigger] es[i]).0 as u64)
            && map_of(es)[es[i].0 as u64] == es[i].1,
        forall|i: int| 0 <= i < es.len() ==> (#[trigger] es[i]).0 >= 1 && es[i].0 <= u64::MAX,
        product_name_of(product_entities(name)[0].1) is None,
        product_name_of(product_entities(name)[1].1) is None,
        product_name_of(product_entities(name)[2].1) == Some(name),
    ensures
        part_name_is(map_of(es), name),
{
    let m = map_of(es);
    assert(es[0].0 == 1 && es[1].0 == 2 && es[2].0 == 3);
    assert(m[1] == es[0].1);
    assert(m[2] == es[1].1);
    assert(m[3] == es[2].1);
    reveal(part_name_is);
    assert(m.contains_key(3) && product_name_of(m[3]) == Some(name));
    assert forall|j: u64| #[trigger] m.contains_key(j) && product_name_of(m[j]) is Some implies 3 <= j by {
        lemma_map_of_keys(es, j);
        let i = choose|i: int| 0 <= i < es.len() && (#[trigger] es[i]).0 as u64 == j;
        assert(es[i].0 >= 1 && es[i].0 <= u64::MAX);
        assert(j >= 1);
        if j == 1 {
            assert(m[j] == es[0].1);
        } else if j == 2 {
            assert(m[j] == es[1].1);
        }
    }
}

/// Reading back a written AP203 file gives its part name: the name the
/// writer gave the product, provided it is not empty, holds no `'`, and the
/// conditions of `lemma_ap203_entity_map` hold.
pub proof fn lemma_ap203_part_name(
    name: Seq<char>,
    pts: Seq<(Seq<char>, Seq<char>, Seq<char>)>,
    faces: Seq<Seq<usize>>,
    summary: Seq<char>,
)
    requires
        plain_text(name),
        plain_points(pts),
        comment_summary(summary),
        12 + pts.len() + 3 * faces.len() <= u64::MAX,
        name.len() > 0,
        forall|i: int| 0 <= i < name.len() ==> #[trigger] name[i] != '\'',
    ensures
        part_name_is(entity_map(ap203_text(name, pts, faces, summary)), name),
{
    let es = ap203_entities(name, pts, faces);
    lemma_ap203_entity_map(name, pts, faces, summary);
    lemma_ap203_entities_found(name, pts, faces);
    lemma_product_first(name, pts, faces);
    lemma_product_bodies(name);
    lemma_name_from_map(es, name);
}


/// The part name that `read_step_structure` gives back for a written AP203
/// file (any name its contract allows for that text) is the name written,
/// under the conditions of `lemma_ap203_part_name`.
pub proof fn lemma_ap203_name_read_back(
    name: Seq<char>,
    pts: Seq<(Seq<char>, Seq<char>, Seq<char>)>,
    faces: Seq<Seq<usize>>,
    summary: Seq<char>,
    read: Seq<char>,
)
    requires
        plain_text(name),
        plain_points(pts),
        comment_summary(summary),
        12 + pts.len() + 3 * faces.len() <= u64::MAX,
        name.len() > 0,
        forall|i: int| 0 <= i < name.len() ==> #[trigger] name[i] != '\'',
        part_name_is(entity_map(ap203_text(name, pts, faces, summary)), read),
    ensures
        read == name,
{
    lemma_ap203_part_name(name, pts, faces, summary);
    lemma_part_name_unique(entity_map(ap203_text(name, pts, faces, summary)), read, name);
}
/// When entities are numbered in the order they are listed, the part name
/// of their map is the name of the first PRODUCT listed with a non-empty
/// name: the lowest number is the earliest entity.
pub proof fn lemma_part_name_first_listed(es: Seq<(nat, Seq<char>)>, i: int)
    requires
        forall|a: int| 0 <= a < es.len() ==> (#[trigger] es[a]).0 <= u64::MAX,
        forall|a: int, b: int| 0 <= a < b < es.len() ==> (#[trigger] es[a]).0 < (#[trigger] es[b]).0,
        0 <= i < es.len(),
        product_name_of(es[i].1) is Some,
        forall|a: int| 0 <= a < i ==> product_name_of((#[trigger] es[a]).1) is None,
    ensures
        part_name_is(map_of(es), product_name_of(es[i].1)->0),
{
    let m = map_of(es);
    assert forall|a: int, b: int| 0 <= a < b < es.len() implies (#[trigger] es[a]).0 != (#[trigger] es[b]).0 by {}
    lemma_map_of_distinct(es);
    let id = es[i].0 as u64;
    assert(m.contains_key(id) && m[id] == es[i].1);
    assert forall|j: u64| #[trigger] m.contains_key(j) && product_name_of(m[j]) is Some implies id <= j by {
        lemma_map_of_keys(es, j);
        let b = choose|b: int| 0 <= b < es.len() && (#[trigger] es[b]).0 as u64 == j;
        assert(m[j] == es[b].1);
        if b < i {
            assert(product_name_of(es[b].1) is None);
        } else if b > i {
            assert(es[i].0 < es[b].0);
        }
    }
    reveal(part_name_is);
}

} // verus!
