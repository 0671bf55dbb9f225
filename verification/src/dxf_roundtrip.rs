//! What the DXF reader gives back of what the writer wrote: every non-empty
//! contour, in order, with each vertex's x and y text.
use vstd::prelude::*;
use crate::strs::{split_char, trim, trim_start, trim_end, is_ws, lemma_split_char_len};
use crate::dxf::{
    join_lines, dxf_lines, dxf_text, header_lines, entities_open_lines, file_end_lines, vertex_lines,
    vertices_lines, polyline_open_lines, polyline_close_lines, polyline_lines, polylines_lines, text_lines,
    trimmed_lines, dxf_contour_texts, contours_from, poly_from, vertex_from, VertexText,
};

verus! {

// ---------------------------------------------------------------------------
// Lines of a joined text
// ---------------------------------------------------------------------------

/// No line holds a line feed.
pub open spec fn no_line_feed(ls: Seq<Seq<char>>) -> bool {
    forall|i: int, k: int| 0 <= i < ls.len() && 0 <= k < ls[i].len() ==> #[trigger] ls[i][k] != '\n'
}

pub proof fn lemma_split_add_plain(s: Seq<char>, t: Seq<char>, c: char)
    requires
        forall|k: int| 0 <= k < t.len() ==> t[k] != c,
    ensures
        split_char(s + t, c) == split_char(s, c).update(split_char(s, c).len() - 1, split_char(s, c).last() + t),
    decreases t.len(),
{
    lemma_split_char_len(s, c);
    let p = split_char(s, c);
    if t.len() == 0 {
        assert(s + t =~= s);
        assert(p.update(p.len() - 1, p.last() + t) =~= p);
    } else {
        lemma_split_add_plain(s, t.drop_last(), c);
        assert((s + t).drop_last() =~= s + t.drop_last());
        assert((s + t).last() == t.last());
        let q = split_char(s + t.drop_last(), c);
        lemma_split_char_len(s + t.drop_last(), c);
        assert(q.last() == p.last() + t.drop_last());
        assert((p.last() + t.drop_last()).push(t.last()) =~= p.last() + t);
        assert(split_char(s + t, c) =~= p.update(p.len() - 1, p.last() + t));
    }
}

pub proof fn lemma_split_join(ls: Seq<Seq<char>>)
    requires
        no_line_feed(ls),
    ensures
        split_char(join_lines(ls), '\n') == ls.push(Seq::<char>::empty()),
    decreases ls.len(),
{
    if ls.len() == 0 {
        assert(split_char(Seq::<char>::empty(), '\n') =~= ls.push(Seq::<char>::empty()));
    } else {
        let d = ls.drop_last();
        let l = ls.last();
        assert(no_line_feed(d)) by {
            assert forall|i: int, k: int| 0 <= i < d.len() && 0 <= k < d[i].len() implies #[trigger] d[i][k] != '\n' by {
                assert(d[i] == ls[i]);
            }
        }
        lemma_split_join(d);
        let s1 = join_lines(d) + l;
        assert(join_lines(ls) == s1 + seq!['\n']);
        assert((s1 + seq!['\n']).drop_last() =~= s1);
        assert(forall|k: int| 0 <= k < l.len() ==> l[k] != '\n') by {
            assert forall|k: int| 0 <= k < l.len() implies l[k] != '\n' by {
                assert(ls[ls.len() - 1][k] != '\n');
            }
        }
        lemma_split_add_plain(join_lines(d), l, '\n');
        let p = d.push(Seq::<char>::empty());
        assert(p.update(p.len() - 1, p.last() + l) =~= ls);
        assert(split_char(s1 + seq!['\n'], '\n') == split_char(s1, '\n').push(Seq::<char>::empty()));
    }
}

/// The trimmed lines of joined lines are the lines trimmed.
pub proof fn lemma_trimmed_join(ls: Seq<Seq<char>>)
    requires
        no_line_feed(ls),
    ensures
        trimmed_lines(join_lines(ls)) == ls.map_values(|l: Seq<char>| trim(l)),
{
    lemma_split_join(ls);
    assert(ls.push(Seq::<char>::empty()).drop_last() =~= ls);
    assert(text_lines(join_lines(ls)) == ls);
}

// ---------------------------------------------------------------------------
// The lines after trimming
// ---------------------------------------------------------------------------

proof fn lemma_trim_lead(s: Seq<char>, k: int)
    requires
        0 <= k < s.len(),
        forall|j: int| 0 <= j < k ==> s[j] == ' ',
        !is_ws(s[k]),
        !is_ws(s.last()),
    ensures
        trim(s) == s.skip(k),
    decreases k,
{
    if k == 0 {
        assert(trim_start(s) == s);
        assert(trim_end(s) == s);
        assert(s.skip(0) =~= s);
    } else {
        let t = s.drop_first();
        assert forall|j: int| 0 <= j < k - 1 implies t[j] == ' ' by {
            assert(t[j] == s[j + 1]);
        }
        assert(t.last() == s.last());
        lemma_trim_lead(t, k - 1);
        assert(is_ws(s[0]));
        assert(trim_start(s) == trim_start(t));
        assert(t.skip(k - 1) =~= s.skip(k));
    }
}

/// The trimmed vertex lines.
pub open spec fn t_vertex(x: Seq<char>, y: Seq<char>) -> Seq<Seq<char>> {
    seq!["0"@, "VERTEX"@, "8"@, "0"@, "10"@, x, "20"@, y, "30"@, "0.000000"@]
}

/// The trimmed lines of the vertices.
pub open spec fn t_vertices(pts: Seq<(Seq<char>, Seq<char>)>) -> Seq<Seq<char>>
    decreases pts.len(),
{
    if pts.len() == 0 {
        Seq::empty()
    } else {
        t_vertices(pts.drop_last()) + t_vertex(pts.last().0, pts.last().1)
    }
}

/// The trimmed lines that open a polyline.
pub open spec fn t_poly_open() -> Seq<Seq<char>> {
    seq!["0"@, "POLYLINE"@, "8"@, "0"@, "66"@, "1"@, "70"@, "1"@]
}

/// The trimmed lines that close a polyline.
pub open spec fn t_poly_close() -> Seq<Seq<char>> {
    seq!["0"@, "SEQEND"@, "8"@, "0"@]
}

/// The trimmed lines of a polyline.
pub open spec fn t_poly(pts: Seq<(Seq<char>, Seq<char>)>) -> Seq<Seq<char>> {
    t_poly_open() + t_vertices(pts) + t_poly_close()
}

/// The trimmed lines of the polylines.
pub open spec fn t_polys(cs: Seq<Seq<(Seq<char>, Seq<char>)>>) -> Seq<Seq<char>>
    decreases cs.len(),
{
    if cs.len() == 0 {
        Seq::empty()
    } else {
        t_polys(cs.drop_last()) + if cs.last().len() == 0 { Seq::empty() } else { t_poly(cs.last()) }
    }
}

/// The trimmed lines of the header and of the opening of ENTITIES.
pub open spec fn t_head() -> Seq<Seq<char>> {
    seq![
        "0"@, "SECTION"@, "2"@, "HEADER"@, "9"@, "$ACADVER"@, "1"@, "AC1009"@, "0"@, "ENDSEC"@,
        "0"@, "SECTION"@, "2"@, "ENTITIES"@
    ]
}

/// The trimmed lines that close the file.
pub open spec fn t_end() -> Seq<Seq<char>> {
    seq!["0"@, "ENDSEC"@, "0"@, "EOF"@]
}

/// The trimmed lines of a DXF file of contours.
pub open spec fn t_dxf(cs: Seq<Seq<(Seq<char>, Seq<char>)>>) -> Seq<Seq<char>> {
    t_head() + t_polys(cs) + t_end()
}

/// Every coordinate text is one trimmed line.
pub open spec fn plain_texts(cs: Seq<Seq<(Seq<char>, Seq<char>)>>) -> bool {
    forall|k: int, i: int| 0 <= k < cs.len() && 0 <= i < cs[k].len() ==> {
        &&& trim(#[trigger] cs[k][i].0) == cs[k][i].0
        &&& trim(cs[k][i].1) == cs[k][i].1
        &&& forall|j: int| 0 <= j < cs[k][i].0.len() ==> cs[k][i].0[j] != '\n'
        &&& forall|j: int| 0 <= j < cs[k][i].1.len() ==> cs[k][i].1[j] != '\n'
    }
}

proof fn lemma_code_trims()
    ensures
        trim("  0"@) == "0"@,
        trim("  2"@) == "2"@,
        trim("  9"@) == "9"@,
        trim("  1"@) == "1"@,
        trim("  8"@) == "8"@,
        trim(" 10"@) == "10"@,
        trim(" 20"@) == "20"@,
        trim(" 30"@) == "30"@,
        trim(" 66"@) == "66"@,
        trim(" 70"@) == "70"@,
        trim("     1"@) == "1"@,
        trim("0"@) == "0"@,
        trim("SECTION"@) == "SECTION"@,
        trim("HEADER"@) == "HEADER"@,
        trim("$ACADVER"@) == "$ACADVER"@,
        trim("AC1009"@) == "AC1009"@,
        trim("ENDSEC"@) == "ENDSEC"@,
        trim("ENTITIES"@) == "ENTITIES"@,
        trim("EOF"@) == "EOF"@,
        trim("POLYLINE"@) == "POLYLINE"@,
        trim("SEQEND"@) == "SEQEND"@,
        trim("VERTEX"@) == "VERTEX"@,
        trim("0.000000"@) == "0.000000"@,
{
    reveal_strlit("  0"); reveal_strlit("0"); lemma_trim_lead("  0"@, 2); assert("  0"@.skip(2) =~= "0"@);
    reveal_strlit("  2"); reveal_strlit("2"); lemma_trim_lead("  2"@, 2); assert("  2"@.skip(2) =~= "2"@);
    reveal_strlit("  9"); reveal_strlit("9"); lemma_trim_lead("  9"@, 2); assert("  9"@.skip(2) =~= "9"@);
    reveal_strlit("  1"); reveal_strlit("1"); lemma_trim_lead("  1"@, 2); assert("  1"@.skip(2) =~= "1"@);
    reveal_strlit("  8"); reveal_strlit("8"); lemma_trim_lead("  8"@, 2); assert("  8"@.skip(2) =~= "8"@);
    reveal_strlit(" 10"); reveal_strlit("10"); lemma_trim_lead(" 10"@, 1); assert(" 10"@.skip(1) =~= "10"@);
    reveal_strlit(" 20"); reveal_strlit("20"); lemma_trim_lead(" 20"@, 1); assert(" 20"@.skip(1) =~= "20"@);
    reveal_strlit(" 30"); reveal_strlit("30"); lemma_trim_lead(" 30"@, 1); assert(" 30"@.skip(1) =~= "30"@);
    reveal_strlit(" 66"); reveal_strlit("66"); lemma_trim_lead(" 66"@, 1); assert(" 66"@.skip(1) =~= "66"@);
    reveal_strlit(" 70"); reveal_strlit("70"); lemma_trim_lead(" 70"@, 1); assert(" 70"@.skip(1) =~= "70"@);
    reveal_strlit("     1"); lemma_trim_lead("     1"@, 5); assert("     1"@.skip(5) =~= "1"@);
    lemma_trim_lead("0"@, 0); assert("0"@.skip(0) =~= "0"@);
    reveal_strlit("SECTION"); lemma_trim_lead("SECTION"@, 0); assert("SECTION"@.skip(0) =~= "SECTION"@);
    reveal_strlit("HEADER"); lemma_trim_lead("HEADER"@, 0); assert("HEADER"@.skip(0) =~= "HEADER"@);
    reveal_strlit("$ACADVER"); lemma_trim_lead("$ACADVER"@, 0); assert("$ACADVER"@.skip(0) =~= "$ACADVER"@);
    reveal_strlit("AC1009"); lemma_trim_lead("AC1009"@, 0); assert("AC1009"@.skip(0) =~= "AC1009"@);
    reveal_strlit("ENDSEC"); lemma_trim_lead("ENDSEC"@, 0); assert("ENDSEC"@.skip(0) =~= "ENDSEC"@);
    reveal_strlit("ENTITIES"); lemma_trim_lead("ENTITIES"@, 0); assert("ENTITIES"@.skip(0) =~= "ENTITIES"@);
    reveal_strlit("EOF"); lemma_trim_lead("EOF"@, 0); assert("EOF"@.skip(0) =~= "EOF"@);
    reveal_strlit("POLYLINE"); lemma_trim_lead("POLYLINE"@, 0); assert("POLYLINE"@.skip(0) =~= "POLYLINE"@);
    reveal_strlit("SEQEND"); lemma_trim_lead("SEQEND"@, 0); assert("SEQEND"@.skip(0) =~= "SEQEND"@);
    reveal_strlit("VERTEX"); lemma_trim_lead("VERTEX"@, 0); assert("VERTEX"@.skip(0) =~= "VERTEX"@);
    reveal_strlit("0.000000"); lemma_trim_lead("0.000000"@, 0); assert("0.000000"@.skip(0) =~= "0.000000"@);
}

proof fn lemma_map_trim_add(a: Seq<Seq<char>>, b: Seq<Seq<char>>)
    ensures
        (a + b).map_values(|l: Seq<char>| trim(l)) == a.map_values(|l: Seq<char>| trim(l)) + b.map_values(|l: Seq<char>| trim(l)),
{
    assert((a + b).map_values(|l: Seq<char>| trim(l)) =~= a.map_values(|l: Seq<char>| trim(l)) + b.map_values(|l: Seq<char>| trim(l)));
}

proof fn lemma_trim_vertices(pts: Seq<(Seq<char>, Seq<char>)>)
    requires
        forall|i: int| 0 <= i < pts.len() ==> trim(#[trigger] pts[i].0) == pts[i].0 && trim(pts[i].1) == pts[i].1,
    ensures
        vertices_lines(pts).map_values(|l: Seq<char>| trim(l)) == t_vertices(pts),
    decreases pts.len(),
{
    if pts.len() > 0 {
        let d = pts.drop_last();
        assert forall|i: int| 0 <= i < d.len() implies trim(#[trigger] d[i].0) == d[i].0 && trim(d[i].1) == d[i].1 by {
            assert(d[i] == pts[i]);
        }
        lemma_trim_vertices(d);
        let x = pts.last().0;
        let y = pts.last().1;
        assert(trim(x) == x && trim(y) == y) by { assert(pts.last() == pts[pts.len() - 1]); }
        lemma_map_trim_add(vertices_lines(d), vertex_lines(x, y));
        lemma_code_trims();
        assert(vertex_lines(x, y).map_values(|l: Seq<char>| trim(l)) =~= t_vertex(x, y));
    }
}

proof fn lemma_trim_polys(cs: Seq<Seq<(Seq<char>, Seq<char>)>>)
    requires
        plain_texts(cs),
    ensures
        polylines_lines(cs).map_values(|l: Seq<char>| trim(l)) == t_polys(cs),
    decreases cs.len(),
{
    if cs.len() > 0 {
        let d = cs.drop_last();
        assert(plain_texts(d)) by {
            assert forall|k: int, i: int| 0 <= k < d.len() && 0 <= i < d[k].len() implies {
                &&& trim(#[trigger] d[k][i].0) == d[k][i].0
                &&& trim(d[k][i].1) == d[k][i].1
                &&& forall|j: int| 0 <= j < d[k][i].0.len() ==> d[k][i].0[j] != '\n'
                &&& forall|j: int| 0 <= j < d[k][i].1.len() ==> d[k][i].1[j] != '\n'
            } by {
                assert(d[k] == cs[k]);
                assert(cs[k][i].0 == d[k][i].0);
            }
        }
        lemma_trim_polys(d);
        let c = cs.last();
        if c.len() == 0 {
            assert(polylines_lines(d) + Seq::<Seq<char>>::empty() =~= polylines_lines(d));
            assert(t_polys(d) + Seq::<Seq<char>>::empty() =~= t_polys(d));
        } else {
            assert forall|i: int| 0 <= i < c.len() implies trim(#[trigger] c[i].0) == c[i].0 && trim(c[i].1) == c[i].1 by {
                assert(c == cs[cs.len() - 1]);
            }
            lemma_trim_vertices(c);
            lemma_code_trims();
            lemma_map_trim_add(polylines_lines(d), polyline_lines(c));
            lemma_map_trim_add(polyline_open_lines() + vertices_lines(c), polyline_close_lines());
            lemma_map_trim_add(polyline_open_lines(), vertices_lines(c));
            assert(polyline_open_lines().map_values(|l: Seq<char>| trim(l)) =~= t_poly_open());
            assert(polyline_close_lines().map_values(|l: Seq<char>| trim(l)) =~= t_poly_close());
        }
    }
}

proof fn lemma_no_line_feed_vertices(pts: Seq<(Seq<char>, Seq<char>)>)
    requires
        forall|i: int| 0 <= i < pts.len() ==> (forall|j: int| 0 <= j < (#[trigger] pts[i]).0.len() ==> pts[i].0[j] != '\n')
            && (forall|j: int| 0 <= j < pts[i].1.len() ==> pts[i].1[j] != '\n'),
    ensures
        no_line_feed(vertices_lines(pts)),
    decreases pts.len(),
{
    if pts.len() > 0 {
        let d = pts.drop_last();
        assert forall|i: int| 0 <= i < d.len() implies (forall|j: int| 0 <= j < (#[trigger] d[i]).0.len() ==> d[i].0[j] != '\n')
            && (forall|j: int| 0 <= j < d[i].1.len() ==> d[i].1[j] != '\n') by {
            assert(d[i] == pts[i]);
        }
        lemma_no_line_feed_vertices(d);
        let v = vertex_lines(pts.last().0, pts.last().1);
        let a = vertices_lines(d);
        let all = a + v;
        proof_no_lf_literals();
        assert forall|i: int, k: int| 0 <= i < all.len() && 0 <= k < all[i].len() implies #[trigger] all[i][k] != '\n' by {
            if i < a.len() {
                assert(all[i] == a[i]);
            } else {
                assert(all[i] == v[i - a.len()]);
                assert(pts.last() == pts[pts.len() - 1]);
            }
        }
    }
}

proof fn proof_no_lf_literals()
    ensures
        forall|k: int| 0 <= k < "  0"@.len() ==> "  0"@[k] != '\n',
        forall|k: int| 0 <= k < "VERTEX"@.len() ==> "VERTEX"@[k] != '\n',
        forall|k: int| 0 <= k < "  8"@.len() ==> "  8"@[k] != '\n',
        forall|k: int| 0 <= k < "0"@.len() ==> "0"@[k] != '\n',
        forall|k: int| 0 <= k < " 10"@.len() ==> " 10"@[k] != '\n',
        forall|k: int| 0 <= k < " 20"@.len() ==> " 20"@[k] != '\n',
        forall|k: int| 0 <= k < " 30"@.len() ==> " 30"@[k] != '\n',
        forall|k: int| 0 <= k < "0.000000"@.len() ==> "0.000000"@[k] != '\n',
        forall|k: int| 0 <= k < "POLYLINE"@.len() ==> "POLYLINE"@[k] != '\n',
        forall|k: int| 0 <= k < " 66"@.len() ==> " 66"@[k] != '\n',
        forall|k: int| 0 <= k < "     1"@.len() ==> "     1"@[k] != '\n',
        forall|k: int| 0 <= k < " 70"@.len() ==> " 70"@[k] != '\n',
        forall|k: int| 0 <= k < "SEQEND"@.len() ==> "SEQEND"@[k] != '\n',
        forall|k: int| 0 <= k < "SECTION"@.len() ==> "SECTION"@[k] != '\n',
        forall|k: int| 0 <= k < "  2"@.len() ==> "  2"@[k] != '\n',
        forall|k: int| 0 <= k < "HEADER"@.len() ==> "HEADER"@[k] != '\n',
        forall|k: int| 0 <= k < "  9"@.len() ==> "  9"@[k] != '\n',
        forall|k: int| 0 <= k < "$ACADVER"@.len() ==> "$ACADVER"@[k] != '\n',
        forall|k: int| 0 <= k < "  1"@.len() ==> "  1"@[k] != '\n',
        forall|k: int| 0 <= k < "AC1009"@.len() ==> "AC1009"@[k] != '\n',
        forall|k: int| 0 <= k < "ENDSEC"@.len() ==> "ENDSEC"@[k] != '\n',
        forall|k: int| 0 <= k < "ENTITIES"@.len() ==> "ENTITIES"@[k] != '\n',
        forall|k: int| 0 <= k < "EOF"@.len() ==> "EOF"@[k] != '\n',
{
    reveal_strlit("  0"); reveal_strlit("VERTEX"); reveal_strlit("  8"); reveal_strlit("0");
    reveal_strlit(" 10"); reveal_strlit(" 20"); reveal_strlit(" 30"); reveal_strlit("0.000000");
    reveal_strlit("POLYLINE"); reveal_strlit(" 66"); reveal_strlit("     1"); reveal_strlit(" 70");
    reveal_strlit("SEQEND"); reveal_strlit("SECTION"); reveal_strlit("  2"); reveal_strlit("HEADER");
    reveal_strlit("  9"); reveal_strlit("$ACADVER"); reveal_strlit("  1"); reveal_strlit("AC1009");
    reveal_strlit("ENDSEC"); reveal_strlit("ENTITIES"); reveal_strlit("EOF");
}

proof fn lemma_no_line_feed_add(a: Seq<Seq<char>>, b: Seq<Seq<char>>)
    requires
        no_line_feed(a),
        no_line_feed(b),
    ensures
        no_line_feed(a + b),
{
    assert forall|i: int, k: int| 0 <= i < (a + b).len() && 0 <= k < (a + b)[i].len() implies #[trigger] (a + b)[i][k] != '\n' by {
        if i < a.len() {
            assert((a + b)[i] == a[i]);
        } else {
            assert((a + b)[i] == b[i - a.len()]);
        }
    }
}

proof fn lemma_no_line_feed_polys(cs: Seq<Seq<(Seq<char>, Seq<char>)>>)
    requires
        plain_texts(cs),
    ensures
        no_line_feed(polylines_lines(cs)),
    decreases cs.len(),
{
    if cs.len() == 0 {
        assert(no_line_feed(polylines_lines(cs)));
    } else {
        let d = cs.drop_last();
        assert(plain_texts(d)) by {
            assert forall|k: int, i: int| 0 <= k < d.len() && 0 <= i < d[k].len() implies {
                &&& trim(#[trigger] d[k][i].0) == d[k][i].0
                &&& trim(d[k][i].1) == d[k][i].1
                &&& forall|j: int| 0 <= j < d[k][i].0.len() ==> d[k][i].0[j] != '\n'
                &&& forall|j: int| 0 <= j < d[k][i].1.len() ==> d[k][i].1[j] != '\n'
            } by {
                assert(d[k] == cs[k]);
                assert(cs[k][i].0 == d[k][i].0);
            }
        }
        lemma_no_line_feed_polys(d);
        let c = cs.last();
        proof_no_lf_literals();
        if c.len() == 0 {
            assert(polylines_lines(d) + Seq::<Seq<char>>::empty() =~= polylines_lines(d));
        } else {
            assert forall|i: int| 0 <= i < c.len() implies (forall|j: int| 0 <= j < (#[trigger] c[i]).0.len() ==> c[i].0[j] != '\n')
                && (forall|j: int| 0 <= j < c[i].1.len() ==> c[i].1[j] != '\n') by {
                assert(c == cs[cs.len() - 1]);
                assert(cs[cs.len() - 1][i].0 == c[i].0);
            }
            lemma_no_line_feed_vertices(c);
            assert(no_line_feed(polyline_open_lines()));
            assert(no_line_feed(polyline_close_lines()));
            lemma_no_line_feed_add(polyline_open_lines(), vertices_lines(c));
            lemma_no_line_feed_add(polyline_open_lines() + vertices_lines(c), polyline_close_lines());
            lemma_no_line_feed_add(polylines_lines(d), polyline_lines(c));
        }
    }
}

/// The trimmed lines of a written file.
proof fn lemma_written_lines(cs: Seq<Seq<(Seq<char>, Seq<char>)>>)
    requires
        plain_texts(cs),
    ensures
        trimmed_lines(dxf_text(cs)) == t_dxf(cs),
{
    proof_no_lf_literals();
    lemma_no_line_feed_polys(cs);
    assert(no_line_feed(header_lines()));
    assert(no_line_feed(entities_open_lines()));
    assert(no_line_feed(file_end_lines()));
    lemma_no_line_feed_add(header_lines(), entities_open_lines());
    lemma_no_line_feed_add(header_lines() + entities_open_lines(), polylines_lines(cs));
    lemma_no_line_feed_add(header_lines() + entities_open_lines() + polylines_lines(cs), file_end_lines());
    lemma_trimmed_join(dxf_lines(cs));
    lemma_trim_polys(cs);
    lemma_code_trims();
    lemma_map_trim_add(header_lines(), entities_open_lines());
    lemma_map_trim_add(header_lines() + entities_open_lines(), polylines_lines(cs));
    lemma_map_trim_add(header_lines() + entities_open_lines() + polylines_lines(cs), file_end_lines());
    assert((header_lines() + entities_open_lines()).map_values(|l: Seq<char>| trim(l)) =~= t_head());
    assert(file_end_lines().map_values(|l: Seq<char>| trim(l)) =~= t_end());
}

// ---------------------------------------------------------------------------
// Reading the trimmed lines
// ---------------------------------------------------------------------------

/// What the reader gives for the vertices of a written contour.
pub open spec fn read_back_points(pts: Seq<(Seq<char>, Seq<char>)>) -> Seq<VertexText> {
    pts.map_values(|p: (Seq<char>, Seq<char>)| (Some(p.0), Some(p.1)))
}

/// What the reader gives for written contours: each non-empty contour, in
/// order, with every vertex's x and y text.
pub open spec fn read_back(cs: Seq<Seq<(Seq<char>, Seq<char>)>>) -> Seq<Seq<VertexText>>
    decreases cs.len(),
{
    if cs.len() == 0 {
        Seq::empty()
    } else {
        (if cs[0].len() == 0 { Seq::empty() } else { seq![read_back_points(cs[0])] }) + read_back(cs.drop_first())
    }
}

proof fn lemma_literals_differ()
    ensures
        "8"@ != "0"@, "8"@ != "10"@, "8"@ != "20"@,
        "10"@ != "0"@, "20"@ != "0"@, "20"@ != "10"@,
        "30"@ != "0"@, "30"@ != "10"@, "30"@ != "20"@,
        "66"@ != "0"@, "70"@ != "0"@, "2"@ != "0"@, "9"@ != "0"@, "1"@ != "0"@,
        "VERTEX"@ != "SEQEND"@, "SECTION"@ != "POLYLINE"@, "ENDSEC"@ != "POLYLINE"@,
        "EOF"@ != "POLYLINE"@,
{
    reveal_strlit("8"); reveal_strlit("0"); reveal_strlit("10"); reveal_strlit("20"); reveal_strlit("30");
    reveal_strlit("66"); reveal_strlit("70"); reveal_strlit("2"); reveal_strlit("9"); reveal_strlit("1");
    reveal_strlit("VERTEX"); reveal_strlit("SEQEND"); reveal_strlit("SECTION"); reveal_strlit("POLYLINE");
    reveal_strlit("ENDSEC"); reveal_strlit("EOF");
    assert("8"@[0] != "0"@[0]);
    assert("8"@.len() != "10"@.len());
    assert("8"@.len() != "20"@.len());
    assert("10"@.len() != "0"@.len());
    assert("20"@.len() != "0"@.len());
    assert("20"@[0] != "10"@[0]);
    assert("30"@.len() != "0"@.len());
    assert("30"@[0] != "10"@[0]);
    assert("30"@[0] != "20"@[0]);
    assert("66"@.len() != "0"@.len());
    assert("70"@.len() != "0"@.len());
    assert("2"@[0] != "0"@[0]);
    assert("9"@[0] != "0"@[0]);
    assert("1"@[0] != "0"@[0]);
    assert("VERTEX"@[0] != "SEQEND"@[0]);
    assert("SECTION"@.len() != "POLYLINE"@.len());
    assert("ENDSEC"@.len() != "POLYLINE"@.len());
    assert("EOF"@.len() != "POLYLINE"@.len());
}

proof fn lemma_tv_len(pts: Seq<(Seq<char>, Seq<char>)>)
    ensures
        t_vertices(pts).len() == 10 * pts.len(),
    decreases pts.len(),
{
    if pts.len() > 0 {
        lemma_tv_len(pts.drop_last());
    }
}

proof fn lemma_tv_index(pts: Seq<(Seq<char>, Seq<char>)>, m: int, r: int)
    requires
        0 <= m < pts.len(),
        0 <= r < 10,
    ensures
        t_vertices(pts)[10 * m + r] == t_vertex(pts[m].0, pts[m].1)[r],
    decreases pts.len(),
{
    let d = pts.drop_last();
    lemma_tv_len(d);
    if m == pts.len() - 1 {
        assert(pts.last() == pts[m]);
    } else {
        lemma_tv_index(d, m, r);
        assert(d[m] == pts[m]);
    }
}

proof fn lemma_vertex_read(ls: Seq<Seq<char>>, j: int, x: Seq<char>, y: Seq<char>)
    requires
        0 <= j,
        j + 10 < ls.len(),
        ls.subrange(j, j + 10) == t_vertex(x, y),
        ls[j + 10] == "0"@,
    ensures
        vertex_from(ls, j + 2, (None, None)) == ((Some(x), Some(y)), j + 10),
{
    lemma_literals_differ();
    let t = t_vertex(x, y);
    assert(ls[j + 2] == t[2]);
    assert(ls[j + 4] == t[4]);
    assert(ls[j + 5] == t[5]);
    assert(ls[j + 6] == t[6]);
    assert(ls[j + 7] == t[7]);
    assert(ls[j + 8] == t[8]);
    let n: Option<Seq<char>> = None;
    assert(vertex_from(ls, j + 10, (Some(x), Some(y))) == ((Some(x), Some(y)), j + 10));
    assert(vertex_from(ls, j + 8, (Some(x), Some(y))) == ((Some(x), Some(y)), j + 10));
    assert(vertex_from(ls, j + 6, (Some(x), n)) == ((Some(x), Some(y)), j + 10));
    assert(vertex_from(ls, j + 4, (n, n)) == ((Some(x), Some(y)), j + 10));
}

proof fn lemma_vertices_read(ls: Seq<Seq<char>>, q: int, pts: Seq<(Seq<char>, Seq<char>)>, m: int)
    requires
        0 <= q,
        0 <= m <= pts.len(),
        q + 10 * pts.len() + 1 < ls.len(),
        ls.subrange(q, q + 10 * pts.len()) == t_vertices(pts),
        ls[q + 10 * pts.len()] == "0"@,
        ls[q + 10 * pts.len() + 1] == "SEQEND"@,
    ensures
        poly_from(ls, q + 10 * m, read_back_points(pts.take(m))) == (read_back_points(pts), q + 10 * pts.len() + 2),
    decreases pts.len() - m,
{
    lemma_literals_differ();
    lemma_tv_len(pts);
    if m == pts.len() {
        assert(pts.take(m) =~= pts);
    } else {
        let i = q + 10 * m;
        lemma_tv_index(pts, m, 0);
        lemma_tv_index(pts, m, 1);
        assert(ls[i] == t_vertices(pts)[10 * m]);
        assert(ls[i + 1] == t_vertices(pts)[10 * m + 1]);
        assert(ls.subrange(i, i + 10) =~= t_vertex(pts[m].0, pts[m].1)) by {
            assert forall|r: int| 0 <= r < 10 implies ls.subrange(i, i + 10)[r] == t_vertex(pts[m].0, pts[m].1)[r] by {
                lemma_tv_index(pts, m, r);
                assert(ls[i + r] == t_vertices(pts)[10 * m + r]);
            }
        }
        if m + 1 < pts.len() {
            lemma_tv_index(pts, m + 1, 0);
            assert(ls[i + 10] == t_vertices(pts)[10 * (m + 1)]);
        }
        lemma_vertex_read(ls, i, pts[m].0, pts[m].1);
        lemma_vertices_read(ls, q, pts, m + 1);
        assert(read_back_points(pts.take(m)).push((Some(pts[m].0), Some(pts[m].1))) =~= read_back_points(pts.take(m + 1)));
        assert(i + 10 == q + 10 * (m + 1));
    }
}

proof fn lemma_poly_read(ls: Seq<Seq<char>>, p: int, c: Seq<(Seq<char>, Seq<char>)>)
    requires
        0 <= p,
        c.len() > 0,
        p + t_poly(c).len() <= ls.len(),
        ls.subrange(p, p + t_poly(c).len()) == t_poly(c),
    ensures
        contours_from(ls, p) == seq![read_back_points(c)] + contours_from(ls, p + t_poly(c).len()),
{
    lemma_literals_differ();
    lemma_tv_len(c);
    let tp = t_poly(c);
    let n: int = (10 * c.len()) as int;
    assert(tp.len() == 12 + n);
    assert forall|r: int| 0 <= r < tp.len() implies ls[p + r] == tp[r] by {
        assert(ls.subrange(p, p + tp.len())[r] == tp[r]);
    }
    assert(ls[p] == tp[0] && ls[p + 1] == tp[1]);
    assert(ls[p + 2] == tp[2] && ls[p + 4] == tp[4] && ls[p + 6] == tp[6]);
    assert(ls[p + 8 + n] == tp[8 + n] && ls[p + 9 + n] == tp[9 + n]);
    assert(ls[p + 10 + n] == tp[10 + n] && ls[p + 11 + n] == tp[11 + n]);
    assert(ls.subrange(p + 8, p + 8 + n) =~= t_vertices(c)) by {
        assert forall|r: int| 0 <= r < n implies ls.subrange(p + 8, p + 8 + n)[r] == t_vertices(c)[r] by {
            assert(ls[p + 8 + r] == tp[8 + r]);
        }
    }
    assert(c.take(0) =~= Seq::<(Seq<char>, Seq<char>)>::empty());
    assert(read_back_points(c.take(0)) =~= Seq::<VertexText>::empty());
    lemma_vertices_read(ls, p + 8, c, 0);
    let e: Seq<VertexText> = Seq::empty();
    assert(poly_from(ls, p + 6, e) == poly_from(ls, p + 8, e));
    assert(poly_from(ls, p + 4, e) == poly_from(ls, p + 8, e));
    assert(poly_from(ls, p + 2, e) == (read_back_points(c), p + 10 + n));
    assert(read_back_points(c).len() > 0);
    assert(contours_from(ls, p + 10 + n) == contours_from(ls, p + 12 + n));
}

proof fn lemma_tp_add(a: Seq<Seq<(Seq<char>, Seq<char>)>>, b: Seq<Seq<(Seq<char>, Seq<char>)>>)
    ensures
        t_polys(a + b) == t_polys(a) + t_polys(b),
    decreases b.len(),
{
    if b.len() == 0 {
        assert(a + b =~= a);
        assert(t_polys(a) + t_polys(b) =~= t_polys(a));
    } else {
        lemma_tp_add(a, b.drop_last());
        assert((a + b).drop_last() =~= a + b.drop_last());
        assert((a + b).last() == b.last());
        assert(t_polys(a + b) =~= t_polys(a) + t_polys(b));
    }
}

proof fn lemma_subrange_split(ls: Seq<Seq<char>>, p: int, a: Seq<Seq<char>>, b: Seq<Seq<char>>)
    requires
        0 <= p <= ls.len(),
        ls.subrange(p, ls.len() as int) == a + b,
    ensures
        p + a.len() <= ls.len(),
        ls.subrange(p, p + a.len()) == a,
        ls.subrange(p + a.len(), ls.len() as int) == b,
{
    let tail = ls.subrange(p, ls.len() as int);
    assert(tail.len() == a.len() + b.len());
    assert forall|r: int| 0 <= r < a.len() implies ls.subrange(p, p + a.len())[r] == a[r] by {
        assert(tail[r] == ls[p + r]);
        assert((a + b)[r] == a[r]);
    }
    assert(ls.subrange(p, p + a.len()) =~= a);
    assert forall|r: int| 0 <= r < b.len() implies ls.subrange(p + a.len(), ls.len() as int)[r] == b[r] by {
        assert(tail[a.len() + r] == ls[p + a.len() + r]);
        assert((a + b)[a.len() + r] == b[r]);
    }
    assert(ls.subrange(p + a.len(), ls.len() as int) =~= b);
}

proof fn lemma_tp_front(rest: Seq<Seq<(Seq<char>, Seq<char>)>>)
    requires
        rest.len() > 0,
    ensures
        t_polys(rest) == (if rest[0].len() == 0 { Seq::<Seq<char>>::empty() } else { t_poly(rest[0]) })
            + t_polys(rest.drop_first()),
{
    let c = rest[0];
    let more = rest.drop_first();
    assert(rest =~= seq![c] + more);
    lemma_tp_add(seq![c], more);
    let one = seq![c];
    assert(one.drop_last() =~= Seq::<Seq<(Seq<char>, Seq<char>)>>::empty());
    assert(one.last() == c);
    assert(t_polys(Seq::<Seq<(Seq<char>, Seq<char>)>>::empty()) == Seq::<Seq<char>>::empty());
    let piece = if c.len() == 0 { Seq::<Seq<char>>::empty() } else { t_poly(c) };
    assert(t_polys(one) == t_polys(one.drop_last()) + piece);
    assert(Seq::<Seq<char>>::empty() + piece =~= piece);
}

proof fn lemma_read_rest(ls: Seq<Seq<char>>, p: int, rest: Seq<Seq<(Seq<char>, Seq<char>)>>)
    requires
        0 <= p <= ls.len(),
        ls.subrange(p, ls.len() as int) == t_polys(rest) + t_end(),
    ensures
        contours_from(ls, p) == read_back(rest),
    decreases rest.len(),
{
    lemma_literals_differ();
    if rest.len() == 0 {
        let tail = ls.subrange(p, ls.len() as int);
        assert(tail =~= t_end());
        assert(ls[p] == tail[0] && ls[p + 1] == tail[1] && ls[p + 2] == tail[2] && ls[p + 3] == tail[3]);
        assert(contours_from(ls, p + 4) == Seq::<Seq<VertexText>>::empty());
        assert(contours_from(ls, p + 2) == Seq::<Seq<VertexText>>::empty());
    } else {
        let c = rest[0];
        let more = rest.drop_first();
        lemma_tp_front(rest);
        let piece = if c.len() == 0 { Seq::<Seq<char>>::empty() } else { t_poly(c) };
        assert(t_polys(rest) + t_end() =~= piece + (t_polys(more) + t_end()));
        lemma_subrange_split(ls, p, piece, t_polys(more) + t_end());
        lemma_read_rest(ls, p + piece.len(), more);
        if c.len() == 0 {
            assert(read_back(rest) =~= read_back(more));
        } else {
            lemma_poly_read(ls, p, c);
            assert(read_back(rest) == seq![read_back_points(c)] + read_back(more));
        }
    }
}

/// What the reader gives back of what the writer wrote: reading the DXF
/// text of contours gives every non-empty contour, in order, with each
/// vertex's x and y text, provided each coordinate text is a single line
/// without surrounding whitespace.
pub proof fn lemma_dxf_roundtrip(cs: Seq<Seq<(Seq<char>, Seq<char>)>>)
    requires
        plain_texts(cs),
    ensures
        dxf_contour_texts(dxf_text(cs)) == read_back(cs),
{
    lemma_written_lines(cs);
    lemma_literals_differ();
    let ls = t_dxf(cs);
    let h = t_head();
    assert forall|r: int| 0 <= r < 14 implies ls[r] == h[r] by {}
    assert(ls.subrange(14, ls.len() as int) =~= t_polys(cs) + t_end());
    lemma_read_rest(ls, 14, cs);
    assert(contours_from(ls, 12) == contours_from(ls, 14));
    assert(contours_from(ls, 10) == contours_from(ls, 14));
    assert(contours_from(ls, 8) == contours_from(ls, 14));
    assert(contours_from(ls, 6) == contours_from(ls, 14));
    assert(contours_from(ls, 4) == contours_from(ls, 14));
    assert(contours_from(ls, 2) == contours_from(ls, 14));
    assert(contours_from(ls, 0) == contours_from(ls, 14));
}

} // verus!
