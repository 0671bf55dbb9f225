//! DXF R12 (AC1009): the group-code/value line pairs of the header and of
//! 2D polylines, and the reader that finds polylines and their vertices
//! again. Coordinates travel as their decimal text.
use vstd::prelude::*;
use crate::text::chars_of;
use crate::strs::{split_char, split_ranges, trim, trim_range, range_string, text_eq};
use crate::iges::views;

verus! {

/// Appends one line: the text and a line feed.
pub fn w(out: &mut String, line: &str)
    ensures
        final(out)@ == old(out)@ + line@ + seq!['\n'],
{
    out.append(line);
    crate::text::push_char(out, '\n');
}

/// Lines joined with a line feed after each.
pub open spec fn join_lines(ls: Seq<Seq<char>>) -> Seq<char>
    decreases ls.len(),
{
    if ls.len() == 0 {
        Seq::empty()
    } else {
        join_lines(ls.drop_last()) + ls.last() + seq!['\n']
    }
}

proof fn lemma_join_push(ls: Seq<Seq<char>>, l: Seq<char>)
    ensures
        join_lines(ls.push(l)) == join_lines(ls) + l + seq!['\n'],
{
    assert(ls.push(l).drop_last() =~= ls);
}

/// The lines of the HEADER section: the version variable set to AC1009.
pub open spec fn header_lines() -> Seq<Seq<char>> {
    seq!["  0"@, "SECTION"@, "  2"@, "HEADER"@, "  9"@, "$ACADVER"@, "  1"@, "AC1009"@, "  0"@, "ENDSEC"@]
}

/// The HEADER section.
pub open spec fn dxf_header() -> Seq<char> {
    join_lines(header_lines())
}

/// The lines that open the ENTITIES section.
pub open spec fn entities_open_lines() -> Seq<Seq<char>> {
    seq!["  0"@, "SECTION"@, "  2"@, "ENTITIES"@]
}

/// The lines that close the ENTITIES section and the file.
pub open spec fn file_end_lines() -> Seq<Seq<char>> {
    seq!["  0"@, "ENDSEC"@, "  0"@, "EOF"@]
}

/// The lines of one vertex on layer 0, its coordinates given as text and z
/// written as zero.
pub open spec fn vertex_lines(x: Seq<char>, y: Seq<char>) -> Seq<Seq<char>> {
    seq!["  0"@, "VERTEX"@, "  8"@, "0"@, " 10"@, x, " 20"@, y, " 30"@, "0.000000"@]
}

/// The lines of the vertices of a polyline.
pub open spec fn vertices_lines(pts: Seq<(Seq<char>, Seq<char>)>) -> Seq<Seq<char>>
    decreases pts.len(),
{
    if pts.len() == 0 {
        Seq::empty()
    } else {
        vertices_lines(pts.drop_last()) + vertex_lines(pts.last().0, pts.last().1)
    }
}

/// The lines that open a closed polyline on layer 0.
pub open spec fn polyline_open_lines() -> Seq<Seq<char>> {
    seq!["  0"@, "POLYLINE"@, "  8"@, "0"@, " 66"@, "     1"@, " 70"@, "     1"@]
}

/// The lines that close a polyline.
pub open spec fn polyline_close_lines() -> Seq<Seq<char>> {
    seq!["  0"@, "SEQEND"@, "  8"@, "0"@]
}

/// The lines of a closed polyline with its vertices.
pub open spec fn polyline_lines(pts: Seq<(Seq<char>, Seq<char>)>) -> Seq<Seq<char>> {
    polyline_open_lines() + vertices_lines(pts) + polyline_close_lines()
}

/// The lines of the polylines of the contours that are not empty.
pub open spec fn polylines_lines(cs: Seq<Seq<(Seq<char>, Seq<char>)>>) -> Seq<Seq<char>>
    decreases cs.len(),
{
    if cs.len() == 0 {
        Seq::empty()
    } else {
        polylines_lines(cs.drop_last()) + if cs.last().len() == 0 { Seq::empty() } else { polyline_lines(cs.last()) }
    }
}

/// The lines of a DXF file of 2D contours: the header, then an ENTITIES
/// section with one polyline per non-empty contour, then EOF.
pub open spec fn dxf_lines(cs: Seq<Seq<(Seq<char>, Seq<char>)>>) -> Seq<Seq<char>> {
    header_lines() + entities_open_lines() + polylines_lines(cs) + file_end_lines()
}

/// The text of a DXF file of 2D contours.
pub open spec fn dxf_text(cs: Seq<Seq<(Seq<char>, Seq<char>)>>) -> Seq<char> {
    join_lines(dxf_lines(cs))
}

/// The coordinate texts of a contour.
pub open spec fn point_texts(c: Seq<(String, String)>) -> Seq<(Seq<char>, Seq<char>)> {
    c.map_values(|p: (String, String)| (p.0@, p.1@))
}

/// The coordinate texts of contours.
pub open spec fn contour_texts(cs: Seq<Vec<(String, String)>>) -> Seq<Seq<(Seq<char>, Seq<char>)>> {
    cs.map_values(|c: Vec<(String, String)>| point_texts(c@))
}

/// Writes the lines of `ls` one after another.
fn w_all(out: &mut String, ls: &Vec<&str>)
    ensures
        final(out)@ == old(out)@ + join_lines(ls@.map_values(|l: &str| l@)),
{
    let ghost o = out@;
    let ghost v = ls@.map_values(|l: &str| l@);
    let mut i: usize = 0;
    while i < ls.len()
        invariant
            i <= ls@.len(),
            v == ls@.map_values(|l: &str| l@),
            out@ == o + join_lines(v.take(i as int)),
        decreases ls.len() - i,
    {
        let ghost before = out@;
        w(out, ls[i]);
        proof {
            lemma_join_push(v.take(i as int), v[i as int]);
            assert(v.take(i + 1) =~= v.take(i as int).push(v[i as int]));
        }
        assert(out@ =~= o + join_lines(v.take(i + 1)));
        i = i + 1;
    }
    assert(v.take(v.len() as int) =~= v);
}

/// Writes the HEADER section.
pub fn write_header(out: &mut String)
    ensures
        final(out)@ == old(out)@ + dxf_header(),
{
    let ls = vec!["  0", "SECTION", "  2", "HEADER", "  9", "$ACADVER", "  1", "AC1009", "  0", "ENDSEC"];
    w_all(out, &ls);
    assert(ls@.map_values(|l: &str| l@) =~= header_lines());
}

fn write_vertex(out: &mut String, x: &str, y: &str)
    ensures
        final(out)@ == old(out)@ + join_lines(vertex_lines(x@, y@)),
{
    let ls = vec!["  0", "VERTEX", "  8", "0", " 10", x, " 20", y, " 30", "0.000000"];
    w_all(out, &ls);
    assert(ls@.map_values(|l: &str| l@) =~= vertex_lines(x@, y@));
}

pub proof fn lemma_join_add(a: Seq<Seq<char>>, b: Seq<Seq<char>>)
    ensures
        join_lines(a + b) == join_lines(a) + join_lines(b),
    decreases b.len(),
{
    if b.len() == 0 {
        assert(a + b =~= a);
        assert(join_lines(a) + join_lines(b) =~= join_lines(a));
    } else {
        lemma_join_add(a, b.drop_last());
        assert((a + b).drop_last() =~= a + b.drop_last());
        assert((a + b).last() == b.last());
        assert(join_lines(a + b) =~= join_lines(a) + join_lines(b));
    }
}

fn write_polyline(out: &mut String, contour: &Vec<(String, String)>)
    ensures
        final(out)@ == old(out)@ + join_lines(polyline_lines(point_texts(contour@))),
{
    let ghost o = out@;
    let ghost pts = point_texts(contour@);
    let open = vec!["  0", "POLYLINE", "  8", "0", " 66", "     1", " 70", "     1"];
    w_all(out, &open);
    assert(open@.map_values(|l: &str| l@) =~= polyline_open_lines());
    let ghost head = out@;
    let mut i: usize = 0;
    while i < contour.len()
        invariant
            i <= contour@.len(),
            pts == point_texts(contour@),
            out@ == head + join_lines(vertices_lines(pts.take(i as int))),
        decreases contour.len() - i,
    {
        assert(pts.take(i + 1).drop_last() =~= pts.take(i as int));
        assert(pts[i as int] == (contour@[i as int].0@, contour@[i as int].1@));
        write_vertex(out, contour[i].0.as_str(), contour[i].1.as_str());
        proof {
            lemma_join_add(vertices_lines(pts.take(i as int)), vertex_lines(pts[i as int].0, pts[i as int].1));
        }
        assert(out@ =~= head + join_lines(vertices_lines(pts.take(i + 1))));
        i = i + 1;
    }
    assert(pts.take(pts.len() as int) =~= pts);
    let close = vec!["  0", "SEQEND", "  8", "0"];
    w_all(out, &close);
    assert(close@.map_values(|l: &str| l@) =~= polyline_close_lines());
    proof {
        lemma_join_add(polyline_open_lines(), vertices_lines(pts));
        lemma_join_add(polyline_open_lines() + vertices_lines(pts), polyline_close_lines());
    }
    assert(out@ =~= o + join_lines(polyline_lines(pts)));
}

/// Writes 2D contours as DXF R12 polylines, one per non-empty contour;
/// each point is given as the text of its x and y.
pub fn write_dxf(contours: &Vec<Vec<(String, String)>>) -> (r: String)
    ensures
        r@ == dxf_text(contour_texts(contours@)),
{
    let ghost cs = contour_texts(contours@);
    let mut out = String::new();
    write_header(&mut out);
    let open = vec!["  0", "SECTION", "  2", "ENTITIES"];
    w_all(&mut out, &open);
    assert(open@.map_values(|l: &str| l@) =~= entities_open_lines());
    let ghost head = out@;
    let mut k: usize = 0;
    while k < contours.len()
        invariant
            k <= contours@.len(),
            cs == contour_texts(contours@),
            out@ == head + join_lines(polylines_lines(cs.take(k as int))),
        decreases contours.len() - k,
    {
        assert(cs.take(k + 1).drop_last() =~= cs.take(k as int));
        assert(cs[k as int] == point_texts(contours@[k as int]@));
        let ghost before = polylines_lines(cs.take(k as int));
        if contours[k].len() > 0 {
            write_polyline(&mut out, &contours[k]);
            proof { lemma_join_add(before, polyline_lines(cs[k as int])); }
        } else {
            assert(before + Seq::<Seq<char>>::empty() =~= before);
        }
        assert(out@ =~= head + join_lines(polylines_lines(cs.take(k + 1))));
        k = k + 1;
    }
    assert(cs.take(cs.len() as int) =~= cs);
    let end = vec!["  0", "ENDSEC", "  0", "EOF"];
    w_all(&mut out, &end);
    assert(end@.map_values(|l: &str| l@) =~= file_end_lines());
    proof {
        lemma_join_add(header_lines(), entities_open_lines());
        lemma_join_add(header_lines() + entities_open_lines(), polylines_lines(cs));
        lemma_join_add(header_lines() + entities_open_lines() + polylines_lines(cs), file_end_lines());
    }
    assert(out@ =~= dxf_text(cs));
    out
}

// ---------------------------------------------------------------------------
// Reader
// ---------------------------------------------------------------------------

/// The lines of a text as `str::lines` gives them: split at line feeds,
/// without the empty piece after a final line feed.
pub open spec fn text_lines(s: Seq<char>) -> Seq<Seq<char>> {
    let p = split_char(s, '\n');
    if p.last().len() == 0 { p.drop_last() } else { p }
}

/// Every line of the text, trimmed.
pub open spec fn trimmed_lines(s: Seq<char>) -> Seq<Seq<char>> {
    text_lines(s).map_values(|l: Seq<char>| trim(l))
}

/// The text of the x and y values of a vertex read so far.
pub type VertexText = (Option<Seq<char>>, Option<Seq<char>>);

/// The group pairs of a VERTEX from line `i` up to the next code `0`: the
/// value of the last `10` is the x, that of the last `20` the y.
pub open spec fn vertex_from(ls: Seq<Seq<char>>, i: int, v: VertexText) -> (VertexText, int)
    decreases ls.len() - i,
{
    if i < 0 || i + 1 >= ls.len() || ls[i] == "0"@ {
        (v, i)
    } else {
        let v2 = if ls[i] == "10"@ {
            (Some(ls[i + 1]), v.1)
        } else if ls[i] == "20"@ {
            (v.0, Some(ls[i + 1]))
        } else {
            v
        };
        vertex_from(ls, i + 2, v2)
    }
}

/// The vertices of a POLYLINE from line `i` up to its SEQEND (or the end of
/// the lines), and the line after.
pub open spec fn poly_from(ls: Seq<Seq<char>>, i: int, acc: Seq<VertexText>) -> (Seq<VertexText>, int)
    decreases ls.len() - i,
{
    if i < 0 || i + 1 >= ls.len() {
        (acc, i)
    } else if ls[i] == "0"@ && ls[i + 1] == "SEQEND"@ {
        (acc, i + 2)
    } else if ls[i] == "0"@ && ls[i + 1] == "VERTEX"@ {
        let (v, j) = vertex_from(ls, i + 2, (None, None));
        if i < j <= ls.len() { poly_from(ls, j, acc.push(v)) } else { (acc, i) }
    } else {
        poly_from(ls, i + 2, acc)
    }
}

/// The contours of the POLYLINE entities from line `i` on; pairs are read
/// two lines at a time, and a polyline without vertices is left out.
pub open spec fn contours_from(ls: Seq<Seq<char>>, i: int) -> Seq<Seq<VertexText>>
    decreases ls.len() - i,
{
    if i < 0 || i + 1 >= ls.len() {
        Seq::empty()
    } else if ls[i] == "0"@ && ls[i + 1] == "POLYLINE"@ {
        let (c, j) = poly_from(ls, i + 2, Seq::empty());
        if i < j <= ls.len() {
            (if c.len() > 0 { seq![c] } else { Seq::empty() }) + contours_from(ls, j)
        } else {
            Seq::empty()
        }
    } else {
        contours_from(ls, i + 2)
    }
}

/// The vertex texts of the polylines of a DXF text.
pub open spec fn dxf_contour_texts(s: Seq<char>) -> Seq<Seq<VertexText>> {
    contours_from(trimmed_lines(s), 0)
}

/// The views of optional strings.
pub open spec fn opt_view(o: Option<String>) -> Option<Seq<char>> {
    match o {
        Some(s) => Some(s@),
        None => None,
    }
}

/// The views of read vertices.
pub open spec fn read_views(c: Seq<(Option<String>, Option<String>)>) -> Seq<VertexText> {
    c.map_values(|v: (Option<String>, Option<String>)| (opt_view(v.0), opt_view(v.1)))
}

/// The views of read contours.
pub open spec fn read_contour_views(cs: Seq<Vec<(Option<String>, Option<String>)>>) -> Seq<Seq<VertexText>> {
    cs.map_values(|c: Vec<(Option<String>, Option<String>)>| read_views(c@))
}

/// The lines of a text, each trimmed.
pub fn lines_of(text: &str) -> (r: Vec<String>)
    ensures
        views(r@) == trimmed_lines(text@),
{
    let cs = chars_of(text);
    assert(cs@.subrange(0, cs@.len() as int) =~= text@);
    let parts = split_ranges(&cs, 0, cs.len(), '\n');
    let ghost ps = split_char(text@, '\n');
    let mut n = parts.len();
    if n > 0 && parts[n - 1].0 == parts[n - 1].1 {
        n = n - 1;
    }
    proof {
        crate::strs::lemma_split_char_len(text@, '\n');
        assert(ps.last().len() == 0 <==> parts@[ps.len() - 1].0 == parts@[ps.len() - 1].1) by {
            assert(cs@.subrange(parts@[ps.len() - 1].0 as int, parts@[ps.len() - 1].1 as int) == ps[ps.len() - 1]);
        }
    }
    let ghost tl = text_lines(text@);
    assert(tl.len() == n);
    let mut r: Vec<String> = Vec::new();
    let mut i: usize = 0;
    while i < n
        invariant
            i <= n <= parts@.len(),
            n == tl.len(),
            tl == text_lines(text@),
            ps == split_char(text@, '\n'),
            cs@ == text@,
            forall|j: int| 0 <= j < parts@.len() ==> {
                &&& (#[trigger] parts@[j]).0 <= parts@[j].1 <= cs@.len()
                &&& cs@.subrange(parts@[j].0 as int, parts@[j].1 as int) == ps[j]
            },
            forall|j: int| 0 <= j < n ==> tl[j] == ps[j],
            views(r@) == tl.take(i as int).map_values(|l: Seq<char>| trim(l)),
        decreases n - i,
    {
        let (a, b) = parts[i];
        let (x, y) = trim_range(&cs, a, b);
        let line = range_string(&cs, x, y);
        let ghost before = r@;
        assert(line@ == trim(tl[i as int]));
        r.push(line);
        assert(views(r@) =~= views(before).push(line@));
        assert(tl.take(i + 1).map_values(|l: Seq<char>| trim(l)) =~= tl.take(i as int).map_values(|l: Seq<char>| trim(l)).push(trim(tl[i as int])));
        i = i + 1;
    }
    assert(tl.take(n as int) =~= tl);
    r
}

fn is_line(ls: &Vec<String>, i: usize, s: &str) -> (r: bool)
    requires
        i < ls@.len(),
    ensures
        r == (ls@[i as int]@ == s@),
{
    text_eq(ls[i].as_str(), s)
}

/// Parses DXF text back to the vertex texts of its polylines (the values
/// of the `10` and `20` groups of each VERTEX, when present).
pub fn read_dxf_contour_texts(text: &str) -> (r: Vec<Vec<(Option<String>, Option<String>)>>)
    ensures
        read_contour_views(r@) == dxf_contour_texts(text@),
{
    let lines = lines_of(text);
    let ghost ls = views(lines@);
    let mut contours: Vec<Vec<(Option<String>, Option<String>)>> = Vec::new();
    let mut i: usize = 0;
    proof {
        reveal_strlit("0");
        reveal_strlit("POLYLINE");
    }
    assert(read_contour_views(contours@) + contours_from(ls, 0) =~= contours_from(ls, 0));
    while i < lines.len() && i + 1 < lines.len()
        invariant
            ls == views(lines@),
            i <= lines@.len(),
            contours_from(ls, 0) == read_contour_views(contours@) + contours_from(ls, i as int),
        decreases lines.len() - i,
    {
        assert(ls[i as int] == lines@[i as int]@ && ls[i + 1] == lines@[i + 1]@);
        if is_line(&lines, i, "0") && is_line(&lines, i + 1, "POLYLINE") {
            let (contour, j) = read_polyline(&lines, i + 2);
            let ghost before = contours@;
            if contour.len() > 0 {
                contours.push(contour);
                assert(read_contour_views(contours@) =~= read_contour_views(before) + seq![read_views(contours@.last()@)]);
            }
            proof {
                let c = poly_from(ls, i + 2, Seq::empty()).0;
                assert(contours_from(ls, i as int) == (if c.len() > 0 { seq![c] } else { Seq::empty() }) + contours_from(ls, j as int));
                if c.len() > 0 {
                    assert(read_contour_views(contours@) + contours_from(ls, j as int) =~= read_contour_views(before)
                        + (seq![c] + contours_from(ls, j as int)));
                } else {
                    assert(Seq::<Seq<VertexText>>::empty() + contours_from(ls, j as int) =~= contours_from(ls, j as int));
                }
            }
            i = j;
        } else {
            i = i + 2;
        }
    }
    assert(contours_from(ls, i as int) =~= Seq::<Seq<VertexText>>::empty());
    assert(read_contour_views(contours@) + Seq::<Seq<VertexText>>::empty() =~= read_contour_views(contours@));
    contours
}

fn read_polyline(lines: &Vec<String>, start: usize) -> (r: (Vec<(Option<String>, Option<String>)>, usize))
    requires
        start <= lines@.len(),
        start >= 2,
    ensures
        (read_views(r.0@), r.1 as int) == poly_from(views(lines@), start as int, Seq::empty()),
        start <= r.1 <= lines@.len(),
{
    let ghost ls = views(lines@);
    let mut contour: Vec<(Option<String>, Option<String>)> = Vec::new();
    let mut i = start;
    proof {
        reveal_strlit("0");
        reveal_strlit("SEQEND");
        reveal_strlit("VERTEX");
    }
    assert(read_views(contour@) =~= Seq::<VertexText>::empty());
    while i < lines.len() && i + 1 < lines.len()
        invariant_except_break
            ls == views(lines@),
            start <= i <= lines@.len(),
            poly_from(ls, start as int, Seq::empty()) == poly_from(ls, i as int, read_views(contour@)),
        ensures
            ls == views(lines@),
            start <= i <= lines@.len(),
            poly_from(ls, start as int, Seq::empty()) == (read_views(contour@), i as int),
        decreases lines.len() - i,
    {
        assert(ls[i as int] == lines@[i as int]@ && ls[i + 1] == lines@[i + 1]@);
        if is_line(lines, i, "0") && is_line(lines, i + 1, "SEQEND") {
            i = i + 2;
            break;
        }
        if is_line(lines, i, "0") && is_line(lines, i + 1, "VERTEX") {
            let (v, j) = read_vertex(lines, i + 2);
            let ghost before = contour@;
            contour.push(v);
            assert(read_views(contour@) =~= read_views(before).push((opt_view(v.0), opt_view(v.1))));
            i = j;
        } else {
            i = i + 2;
        }
    }
    (contour, i)
}

fn read_vertex(lines: &Vec<String>, start: usize) -> (r: ((Option<String>, Option<String>), usize))
    requires
        start <= lines@.len(),
    ensures
        ((opt_view(r.0.0), opt_view(r.0.1)), r.1 as int) == vertex_from(views(lines@), start as int, (None, None)),
        start <= r.1 <= lines@.len(),
{
    let ghost ls = views(lines@);
    let mut x: Option<String> = None;
    let mut y: Option<String> = None;
    let mut i = start;
    proof {
        reveal_strlit("0");
        reveal_strlit("10");
        reveal_strlit("20");
    }
    while i < lines.len() && i + 1 < lines.len() && !is_line(lines, i, "0")
        invariant
            ls == views(lines@),
            start <= i <= lines@.len(),
            vertex_from(ls, start as int, (None, None)) == vertex_from(ls, i as int, (opt_view(x), opt_view(y))),
        decreases lines.len() - i,
    {
        assert(ls[i as int] == lines@[i as int]@ && ls[i + 1] == lines@[i + 1]@);
        if is_line(lines, i, "10") {
            x = Some(lines[i + 1].clone());
        } else if is_line(lines, i, "20") {
            y = Some(lines[i + 1].clone());
        }
        i = i + 2;
    }
    proof {
        if (i as int) < ls.len() {
            assert(ls[i as int] == lines@[i as int]@);
        }
    }
    ((x, y), i)
}

} // verus!
