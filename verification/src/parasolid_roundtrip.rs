//! What the XT reader gives back of what the writer wrote: every point
//! with its number and coordinates, and every plane, cylinder and sphere
//! surface with its number and parameters, in order.
use vstd::prelude::*;
use crate::strs::{is_ws, trim, words, find_substr, starts_with, parse_unsigned, lemma_dec_parse};
use crate::text::{dec, lemma_dec_digits};
use crate::dxf::{join_lines, trimmed_lines, lemma_join_add};
use crate::dxf_roundtrip::{no_line_feed, lemma_trimmed_join};
use crate::touchstone_roundtrip::{
    is_word, is_gap, one_line, lemma_words_gap_word, lemma_words_word, lemma_trim_fixed, lemma_one_line_add,
    lemma_word_one_line,
};
use crate::parasolid::{
    XtKind, XtView, XtSurfaceText, xt_read, xt_text, xt_step, xt_fold, line_records, kind_record, all_kinds,
    kind_lower, kind_upper, kind_words, xyz, surface_words, point_lines, surface_lines,
};
use crate::step_entities::c3;

verus! {

// ---------------------------------------------------------------------------
// Characters
// ---------------------------------------------------------------------------

/// A character of a number as Rust prints a float: digits, signs, the
/// point, exponent marks, and the letters of `inf` and `NaN`.
pub open spec fn numeric_char(c: char) -> bool {
    ('0' <= c <= '9') || c == '+' || c == '-' || c == '.' || c == 'e' || c == 'E' || c == 'i' || c == 'n'
        || c == 'f' || c == 'N' || c == 'a'
}

/// A non-empty text of such characters.
pub open spec fn numeric(w: Seq<char>) -> bool {
    w.len() > 0 && forall|k: int| 0 <= k < w.len() ==> numeric_char(#[trigger] w[k])
}

/// Every character of `s` satisfies `p`.
pub open spec fn made_of(s: Seq<char>, p: spec_fn(char) -> bool) -> bool {
    forall|k: int| 0 <= k < s.len() ==> p(#[trigger] s[k])
}

proof fn lemma_made_of_add(a: Seq<char>, b: Seq<char>, p: spec_fn(char) -> bool)
    requires
        made_of(a, p),
        made_of(b, p),
    ensures
        made_of(a + b, p),
{
    assert forall|k: int| 0 <= k < (a + b).len() implies p(#[trigger] (a + b)[k]) by {
        if k < a.len() {
            assert((a + b)[k] == a[k]);
        } else {
            assert((a + b)[k] == b[k - a.len()]);
        }
    }
}

proof fn lemma_numeric_made_of(w: Seq<char>, p: spec_fn(char) -> bool)
    requires
        numeric(w),
        forall|c: char| numeric_char(c) ==> #[trigger] p(c),
    ensures
        made_of(w, p),
{
    assert forall|k: int| 0 <= k < w.len() implies p(#[trigger] w[k]) by {
        assert(numeric_char(w[k]));
    }
}

proof fn lemma_numeric_word(w: Seq<char>)
    requires
        numeric(w),
    ensures
        is_word(w),
        one_line(w),
{
    assert forall|k: int| 0 <= k < w.len() implies !is_ws(#[trigger] w[k]) by {
        assert(numeric_char(w[k]));
    }
    lemma_word_one_line(w);
}

proof fn lemma_dec_numeric(n: nat)
    ensures
        numeric(dec(n)),
        '0' <= dec(n)[0] <= '9',
{
    lemma_dec_digits(n);
}

/// A pattern one of whose characters the text lacks does not occur in it.
proof fn lemma_not_found(s: Seq<char>, pat: Seq<char>, j: int)
    requires
        0 <= j < pat.len(),
        forall|k: int| 0 <= k < s.len() ==> #[trigger] s[k] != pat[j],
    ensures
        find_substr(s, pat) is None,
{
    if exists|i: int| 0 <= i && i + pat.len() <= s.len() && #[trigger] s.subrange(i, i + pat.len()) == pat {
        let i = choose|i: int| 0 <= i && i + pat.len() <= s.len() && #[trigger] s.subrange(i, i + pat.len()) == pat;
        assert(s.subrange(i, i + pat.len())[j] == s[i + j]);
    }
}

/// A pattern at a known place occurs.
proof fn lemma_found(s: Seq<char>, pat: Seq<char>, i: int)
    requires
        0 <= i,
        i + pat.len() <= s.len(),
        s.subrange(i, i + pat.len()) == pat,
    ensures
        find_substr(s, pat) is Some,
{
}

/// The records of a line, kind by kind.
pub open spec fn opt_record(k: XtKind, r: Option<(nat, Seq<Seq<char>>)>) -> Seq<(XtKind, nat, Seq<Seq<char>>)> {
    match r {
        Some((id, nums)) => seq![(k, id, nums)],
        None => Seq::empty(),
    }
}

proof fn lemma_line_records(l: Seq<char>)
    ensures
        line_records(l, all_kinds()) == opt_record(XtKind::Point, kind_record(l, XtKind::Point))
            + opt_record(XtKind::Plane, kind_record(l, XtKind::Plane))
            + opt_record(XtKind::Cylinder, kind_record(l, XtKind::Cylinder))
            + opt_record(XtKind::Sphere, kind_record(l, XtKind::Sphere)),
{
    let ks = all_kinds();
    let k3 = ks.drop_last();
    let k2 = k3.drop_last();
    let k1 = k2.drop_last();
    let k0 = k1.drop_last();
    assert(k3 =~= seq![XtKind::Point, XtKind::Plane, XtKind::Cylinder]);
    assert(k2 =~= seq![XtKind::Point, XtKind::Plane]);
    assert(k1 =~= seq![XtKind::Point]);
    assert(k0 =~= Seq::<XtKind>::empty());
    assert(line_records(l, k0) =~= Seq::<(XtKind, nat, Seq<Seq<char>>)>::empty());
    let e = Seq::<(XtKind, nat, Seq<Seq<char>>)>::empty();
    assert(line_records(l, k1) =~= e + opt_record(XtKind::Point, kind_record(l, XtKind::Point)));
    assert(line_records(l, k2) =~= e + opt_record(XtKind::Point, kind_record(l, XtKind::Point))
        + opt_record(XtKind::Plane, kind_record(l, XtKind::Plane)));
    assert(line_records(l, k3) =~= e + opt_record(XtKind::Point, kind_record(l, XtKind::Point))
        + opt_record(XtKind::Plane, kind_record(l, XtKind::Plane))
        + opt_record(XtKind::Cylinder, kind_record(l, XtKind::Cylinder)));
    assert(line_records(l, ks) =~= opt_record(XtKind::Point, kind_record(l, XtKind::Point))
        + opt_record(XtKind::Plane, kind_record(l, XtKind::Plane))
        + opt_record(XtKind::Cylinder, kind_record(l, XtKind::Cylinder))
        + opt_record(XtKind::Sphere, kind_record(l, XtKind::Sphere)));
}

/// A line that names no kind is no record.
proof fn lemma_no_mention(l: Seq<char>, k: XtKind, jl: int, ju: int)
    requires
        0 <= jl < kind_lower(k).len(),
        0 <= ju < kind_upper(k).len(),
        forall|i: int| 0 <= i < l.len() ==> #[trigger] l[i] != kind_lower(k)[jl],
        forall|i: int| 0 <= i < l.len() ==> #[trigger] l[i] != kind_upper(k)[ju],
    ensures
        kind_record(l, k) is None,
{
    lemma_not_found(l, kind_lower(k), jl);
    lemma_not_found(l, kind_upper(k), ju);
}

/// A line that begins with a digit sets no schema version.
proof fn lemma_no_schema(l: Seq<char>)
    requires
        l.len() > 0,
        l[0] != '*',
        l[0] != 'S',
    ensures
        !starts_with(l, "**PART"@),
        !starts_with(l, "SCH"@),
{
    reveal_strlit("**PART");
    reveal_strlit("SCH");
    if starts_with(l, "**PART"@) {
        assert(l.take(6)[0] == l[0]);
    }
    if starts_with(l, "SCH"@) {
        assert(l.take(3)[0] == l[0]);
    }
}


// ---------------------------------------------------------------------------
// Point lines
// ---------------------------------------------------------------------------

pub open spec fn numeric3(c: (Seq<char>, Seq<char>, Seq<char>)) -> bool {
    numeric(c.0) && numeric(c.1) && numeric(c.2)
}

proof fn lemma_made_of_one_line(s: Seq<char>, p: spec_fn(char) -> bool)
    requires
        made_of(s, p),
        !p('\n'),
    ensures
        one_line(s),
{
    assert forall|k: int| 0 <= k < s.len() implies #[trigger] s[k] != '\n' by {
        assert(p(s[k]));
    }
}

proof fn lemma_absent(s: Seq<char>, p: spec_fn(char) -> bool, c: char)
    requires
        made_of(s, p),
        !p(c),
    ensures
        forall|i: int| 0 <= i < s.len() ==> #[trigger] s[i] != c,
{
    assert forall|i: int| 0 <= i < s.len() implies #[trigger] s[i] != c by {
        assert(p(s[i]));
    }
}

/// Three numbers after a gap are the next three words.
#[verifier::spinoff_prover]
proof fn lemma_xyz(pre: Seq<char>, c: (Seq<char>, Seq<char>, Seq<char>), p: spec_fn(char) -> bool)
    requires
        numeric3(c),
        forall|x: char| numeric_char(x) ==> #[trigger] p(x),
        p(' '),
    ensures
        words(pre + " "@ + xyz(c)) == words(pre).push(c.0).push(c.1).push(c.2),
        made_of(xyz(c), p),
        xyz(c).len() > 0,
        !is_ws(xyz(c).last()),
        xyz(c).last() == c.2.last(),
{
    reveal_strlit(" ");
    let sp = " "@;
    assert(is_gap(sp));
    lemma_numeric_word(c.0);
    lemma_numeric_word(c.1);
    lemma_numeric_word(c.2);
    assert(pre + sp + xyz(c) =~= pre + sp + c.0 + sp + c.1 + sp + c.2);
    lemma_words_gap_word(pre, sp, c.0);
    lemma_words_gap_word(pre + sp + c.0, sp, c.1);
    lemma_words_gap_word(pre + sp + c.0 + sp + c.1, sp, c.2);
    assert(made_of(sp, p));
    lemma_numeric_made_of(c.0, p);
    lemma_numeric_made_of(c.1, p);
    lemma_numeric_made_of(c.2, p);
    lemma_made_of_add(c.0, sp, p);
    lemma_made_of_add(c.0 + sp, c.1, p);
    lemma_made_of_add(c.0 + sp + c.1, sp, p);
    lemma_made_of_add(c.0 + sp + c.1 + sp, c.2, p);
    assert(xyz(c).last() == c.2.last());
    assert(!is_ws(c.2[c.2.len() - 1]));
}

/// The characters of a point line.
pub open spec fn point_char(c: char) -> bool {
    numeric_char(c) || c == ' ' || c == 'p' || c == 'o' || c == 'i' || c == 'n' || c == 't'
}

/// A point line without its line feed.
pub open spec fn point_line_text(k: nat, c: (Seq<char>, Seq<char>, Seq<char>)) -> Seq<char> {
    dec(k) + " point "@ + xyz(c)
}

#[verifier::spinoff_prover]
proof fn lemma_point_chars(k: nat, c: (Seq<char>, Seq<char>, Seq<char>))
    requires
        numeric3(c),
    ensures
        made_of(point_line_text(k, c), |x: char| point_char(x)),
        one_line(point_line_text(k, c)),
        trim(point_line_text(k, c)) == point_line_text(k, c),
        point_line_text(k, c)[0] == dec(k)[0],
        '0' <= dec(k)[0] <= '9',
{
    reveal_strlit(" point ");
    reveal_strlit(" ");
    reveal_strlit("point");
    let p = |x: char| point_char(x);
    let l = point_line_text(k, c);
    let d = dec(k);
    lemma_dec_numeric(k);
    lemma_numeric_made_of(d, p);
    let sp = " "@;
    let pw = "point"@;
    assert(" point "@ =~= sp + pw + sp);
    assert(made_of(" point "@, p));
    lemma_xyz(d + sp + pw, c, p);
    lemma_made_of_add(d, " point "@, p);
    lemma_made_of_add(d + " point "@, xyz(c), p);
    lemma_made_of_one_line(l, p);
    assert(l[0] == d[0]);
    assert(l.last() == c.2.last());
    lemma_trim_fixed(l);
}

#[verifier::spinoff_prover]
proof fn lemma_point_words(k: nat, c: (Seq<char>, Seq<char>, Seq<char>))
    requires
        numeric3(c),
    ensures
        words(point_line_text(k, c)) == seq![dec(k), "point"@, c.0, c.1, c.2],
        point_line_text(k, c).len() >= dec(k).len() + 6,
        point_line_text(k, c).subrange(dec(k).len() as int + 1, dec(k).len() as int + 6) == "point"@,
{
    reveal_strlit(" point ");
    reveal_strlit(" ");
    reveal_strlit("point");
    let p = |x: char| point_char(x);
    let l = point_line_text(k, c);
    let d = dec(k);
    let sp = " "@;
    let pw = "point"@;
    lemma_dec_numeric(k);
    lemma_numeric_word(d);
    assert(is_word(pw));
    lemma_words_word(d);
    lemma_words_gap_word(d, sp, pw);
    lemma_xyz(d + sp + pw, c, p);
    assert(l =~= d + sp + pw + sp + xyz(c));
    assert(words(l) =~= seq![d, pw, c.0, c.1, c.2]);
    assert(l.subrange(d.len() as int + 1, d.len() as int + 6) =~= pw);
}

#[verifier::spinoff_prover]
proof fn lemma_point_no_other(k: nat, c: (Seq<char>, Seq<char>, Seq<char>))
    requires
        numeric3(c),
    ensures
        kind_record(point_line_text(k, c), XtKind::Plane) is None,
        kind_record(point_line_text(k, c), XtKind::Cylinder) is None,
        kind_record(point_line_text(k, c), XtKind::Sphere) is None,
{
    let p = |x: char| point_char(x);
    let l = point_line_text(k, c);
    lemma_point_chars(k, c);
    reveal_strlit("plane");
    reveal_strlit("PLANE");
    reveal_strlit("cylinder");
    reveal_strlit("CYLINDER");
    reveal_strlit("sphere");
    reveal_strlit("SPHERE");
    lemma_absent(l, p, 'l');
    lemma_absent(l, p, 'P');
    lemma_absent(l, p, 'c');
    lemma_absent(l, p, 'C');
    lemma_absent(l, p, 's');
    lemma_absent(l, p, 'S');
    lemma_no_mention(l, XtKind::Plane, 1, 0);
    lemma_no_mention(l, XtKind::Cylinder, 0, 0);
    lemma_no_mention(l, XtKind::Sphere, 0, 0);
}

#[verifier::spinoff_prover]
#[verifier::rlimit(40)]
proof fn lemma_point_record(k: nat, c: (Seq<char>, Seq<char>, Seq<char>))
    requires
        k <= u32::MAX,
        numeric3(c),
    ensures
        kind_record(point_line_text(k, c), XtKind::Point) == Some((k, seq![c.0, c.1, c.2])),
{
    let l = point_line_text(k, c);
    let d = dec(k);
    lemma_point_words(k, c);
    reveal_strlit("point");
    lemma_found(l, "point"@, d.len() as int + 1);
    assert(words(l).subrange(2, 5) =~= seq![c.0, c.1, c.2]);
    lemma_kind_found(l, XtKind::Point, k, seq![c.0, c.1, c.2]);
}

/// A written line read: the schema is unchanged and the line's records
/// are added.
proof fn lemma_step_records(v: XtView, l: Seq<char>, recs: Seq<(XtKind, nat, Seq<Seq<char>>)>)
    requires
        l.len() > 0,
        l[0] != '*',
        l[0] != 'S',
        line_records(l, all_kinds()) == recs,
    ensures
        xt_step(v, l) == (XtView { schema: v.schema, records: v.records + recs }),
{
    lemma_no_schema(l);
}

/// A point line reads as the point's record.
#[verifier::spinoff_prover]
proof fn lemma_point_line(k: nat, c: (Seq<char>, Seq<char>, Seq<char>), v: XtView)
    requires
        k <= u32::MAX,
        numeric3(c),
    ensures
        one_line(point_line_text(k, c)),
        trim(point_line_text(k, c)) == point_line_text(k, c),
        xt_step(v, point_line_text(k, c)) == (XtView {
            schema: v.schema,
            records: v.records.push((XtKind::Point, k, seq![c.0, c.1, c.2])),
        }),
{
    let l = point_line_text(k, c);
    lemma_point_chars(k, c);
    lemma_point_no_other(k, c);
    lemma_point_record(k, c);
    lemma_line_records(l);
    let r = seq![(XtKind::Point, k, seq![c.0, c.1, c.2])];
    assert(line_records(l, all_kinds()) =~= r);
    lemma_step_records(v, l, r);
    assert(v.records + r =~= v.records.push((XtKind::Point, k, seq![c.0, c.1, c.2])));
}

// ---------------------------------------------------------------------------
// Surface lines
// ---------------------------------------------------------------------------

/// Every number text of a surface is a number as Rust prints one.
pub open spec fn surface_numeric(s: XtSurfaceText) -> bool {
    match s {
        XtSurfaceText::Plane { normal } => numeric3(c3(normal)),
        XtSurfaceText::Cylinder { origin, axis, radius } => numeric3(c3(origin)) && numeric3(c3(axis)) && numeric(radius@),
        XtSurfaceText::Sphere { center, radius } => numeric3(c3(center)) && numeric(radius@),
        XtSurfaceText::Cone { apex, axis, half_angle } => numeric3(c3(apex)) && numeric3(c3(axis)) && numeric(half_angle@),
        XtSurfaceText::Torus { center, axis, major_radius, minor_radius } =>
            numeric3(c3(center)) && numeric3(c3(axis)) && numeric(major_radius@) && numeric(minor_radius@),
        XtSurfaceText::Nurbs => true,
    }
}

/// The record a written surface line reads as: planes, cylinders and
/// spheres give one with their numbers; the other kinds give none.
pub open spec fn surface_record(k: nat, s: XtSurfaceText) -> Seq<(XtKind, nat, Seq<Seq<char>>)> {
    match s {
        XtSurfaceText::Plane { normal } =>
            seq![(XtKind::Plane, k, seq!["0"@, "0"@, "0"@, normal.0@, normal.1@, normal.2@])],
        XtSurfaceText::Cylinder { origin, axis, radius } =>
            seq![(XtKind::Cylinder, k, seq![origin.0@, origin.1@, origin.2@, axis.0@, axis.1@, axis.2@, radius@])],
        XtSurfaceText::Sphere { center, radius } =>
            seq![(XtKind::Sphere, k, seq![center.0@, center.1@, center.2@, radius@])],
        _ => Seq::empty(),
    }
}

/// A surface line without its line feed.
pub open spec fn surface_line_text(k: nat, s: XtSurfaceText) -> Seq<char> {
    dec(k) + " "@ + surface_words(s)
}

proof fn lemma_kind_absent(l: Seq<char>, p: spec_fn(char) -> bool, k: XtKind, jl: int, ju: int)
    requires
        made_of(l, p),
        0 <= jl < kind_lower(k).len(),
        0 <= ju < kind_upper(k).len(),
        !p(kind_lower(k)[jl]),
        !p(kind_upper(k)[ju]),
    ensures
        kind_record(l, k) is None,
{
    lemma_absent(l, p, kind_lower(k)[jl]);
    lemma_absent(l, p, kind_upper(k)[ju]);
    lemma_no_mention(l, k, jl, ju);
}

/// A number after a gap is the next word.
proof fn lemma_num(pre: Seq<char>, w: Seq<char>, p: spec_fn(char) -> bool)
    requires
        numeric(w),
        forall|x: char| numeric_char(x) ==> #[trigger] p(x),
    ensures
        words(pre + " "@ + w) == words(pre).push(w),
        made_of(w, p),
        !is_ws(w.last()),
{
    reveal_strlit(" ");
    assert(is_gap(" "@));
    lemma_numeric_word(w);
    lemma_words_gap_word(pre, " "@, w);
    lemma_numeric_made_of(w, p);
    assert(!is_ws(w[w.len() - 1]));
}

pub open spec fn plane_char(c: char) -> bool {
    numeric_char(c) || c == ' ' || c == 'p' || c == 'l' || c == 'a' || c == 'n' || c == 'e'
}

pub open spec fn cylinder_char(c: char) -> bool {
    numeric_char(c) || c == ' ' || c == 'c' || c == 'y' || c == 'l' || c == 'i' || c == 'n' || c == 'd' || c == 'e'
        || c == 'r'
}

pub open spec fn sphere_char(c: char) -> bool {
    numeric_char(c) || c == ' ' || c == 's' || c == 'p' || c == 'h' || c == 'e' || c == 'r'
}

pub open spec fn cone_char(c: char) -> bool {
    numeric_char(c) || c == ' ' || c == 'c' || c == 'o' || c == 'n' || c == 'e'
}

pub open spec fn torus_char(c: char) -> bool {
    numeric_char(c) || c == ' ' || c == 't' || c == 'o' || c == 'r' || c == 'u' || c == 's'
}

pub open spec fn bsurface_char(c: char) -> bool {
    numeric_char(c) || c == ' ' || c == 'b' || c == 's' || c == 'u' || c == 'r' || c == 'f' || c == 'a' || c == 'c'
        || c == 'e'
}

#[verifier::spinoff_prover]
proof fn lemma_plane_line(k: nat, n: (Seq<char>, Seq<char>, Seq<char>))
    requires
        numeric3(n),
    ensures
        made_of(dec(k) + " "@ + ("plane 0 0 0 "@ + xyz(n)), |x: char| plane_char(x)),
        (dec(k) + " "@ + ("plane 0 0 0 "@ + xyz(n))).last() == n.2.last(),
        words(dec(k) + " "@ + ("plane 0 0 0 "@ + xyz(n))) == seq![dec(k), "plane"@, "0"@, "0"@, "0"@, n.0, n.1, n.2],
        (dec(k) + " "@ + ("plane 0 0 0 "@ + xyz(n))).len() >= dec(k).len() + 6,
        (dec(k) + " "@ + ("plane 0 0 0 "@ + xyz(n))).subrange(dec(k).len() as int + 1, dec(k).len() as int + 6)
            == "plane"@,
{
    reveal_strlit(" ");
    reveal_strlit("plane 0 0 0 ");
    reveal_strlit("plane");
    reveal_strlit("0");
    let p = |x: char| plane_char(x);
    let d = dec(k);
    let sp = " "@;
    let z = "0"@;
    let w = "plane"@;
    let l = d + sp + ("plane 0 0 0 "@ + xyz(n));
    lemma_dec_numeric(k);
    lemma_numeric_word(d);
    lemma_numeric_made_of(d, p);
    assert(made_of(sp, p));
    assert(made_of("plane 0 0 0 "@, p));
    let pre = d + sp + w + sp + z + sp + z + sp + z;
    lemma_xyz(pre, n, p);
    lemma_made_of_add(d, sp, p);
    lemma_made_of_add(d + sp, "plane 0 0 0 "@, p);
    lemma_made_of_add(d + sp + "plane 0 0 0 "@, xyz(n), p);
    assert(l =~= d + sp + "plane 0 0 0 "@ + xyz(n));
    assert(l =~= pre + sp + xyz(n));
    assert(is_gap(sp));
    assert(is_word(w));
    assert(is_word(z));
    lemma_words_word(d);
    lemma_words_gap_word(d, sp, w);
    lemma_words_gap_word(d + sp + w, sp, z);
    lemma_words_gap_word(d + sp + w + sp + z, sp, z);
    lemma_words_gap_word(d + sp + w + sp + z + sp + z, sp, z);
    assert(words(l) =~= seq![d, w, z, z, z, n.0, n.1, n.2]);
    assert(l.subrange(d.len() as int + 1, d.len() as int + 6) =~= w);
}

#[verifier::spinoff_prover]
proof fn lemma_cylinder_line(k: nat, o: (Seq<char>, Seq<char>, Seq<char>), a: (Seq<char>, Seq<char>, Seq<char>), r: Seq<char>)
    requires
        numeric3(o),
        numeric3(a),
        numeric(r),
    ensures
        made_of(dec(k) + " "@ + ("cylinder "@ + xyz(o) + " "@ + xyz(a) + " "@ + r), |x: char| cylinder_char(x)),
        (dec(k) + " "@ + ("cylinder "@ + xyz(o) + " "@ + xyz(a) + " "@ + r)).last() == r.last(),
        words(dec(k) + " "@ + ("cylinder "@ + xyz(o) + " "@ + xyz(a) + " "@ + r))
            == seq![dec(k), "cylinder"@, o.0, o.1, o.2, a.0, a.1, a.2, r],
        (dec(k) + " "@ + ("cylinder "@ + xyz(o) + " "@ + xyz(a) + " "@ + r)).len() >= dec(k).len() + 9,
        (dec(k) + " "@ + ("cylinder "@ + xyz(o) + " "@ + xyz(a) + " "@ + r)).subrange(
            dec(k).len() as int + 1,
            dec(k).len() as int + 9,
        ) == "cylinder"@,
{
    reveal_strlit(" ");
    reveal_strlit("cylinder ");
    reveal_strlit("cylinder");
    let p = |x: char| cylinder_char(x);
    let d = dec(k);
    let sp = " "@;
    let w = "cylinder"@;
    let l = d + sp + ("cylinder "@ + xyz(o) + sp + xyz(a) + sp + r);
    lemma_dec_numeric(k);
    lemma_numeric_word(d);
    lemma_numeric_made_of(d, p);
    assert(made_of(sp, p));
    assert("cylinder "@ =~= w + sp);
    assert(made_of(w + sp, p));
    lemma_xyz(d + sp + w, o, p);
    lemma_xyz(d + sp + w + sp + xyz(o), a, p);
    lemma_num(d + sp + w + sp + xyz(o) + sp + xyz(a), r, p);
    lemma_made_of_add(d, sp, p);
    lemma_made_of_add(d + sp, w + sp, p);
    lemma_made_of_add(d + sp + (w + sp), xyz(o), p);
    lemma_made_of_add(d + sp + (w + sp) + xyz(o), sp, p);
    lemma_made_of_add(d + sp + (w + sp) + xyz(o) + sp, xyz(a), p);
    lemma_made_of_add(d + sp + (w + sp) + xyz(o) + sp + xyz(a), sp, p);
    lemma_made_of_add(d + sp + (w + sp) + xyz(o) + sp + xyz(a) + sp, r, p);
    assert(l =~= d + sp + (w + sp) + xyz(o) + sp + xyz(a) + sp + r);
    assert(l =~= d + sp + w + sp + xyz(o) + sp + xyz(a) + sp + r);
    assert(is_word(w));
    lemma_words_word(d);
    lemma_words_gap_word(d, sp, w);
    assert(words(l) =~= seq![d, w, o.0, o.1, o.2, a.0, a.1, a.2, r]);
    assert(l.subrange(d.len() as int + 1, d.len() as int + 9) =~= w);
}

#[verifier::spinoff_prover]
proof fn lemma_sphere_line(k: nat, c: (Seq<char>, Seq<char>, Seq<char>), r: Seq<char>)
    requires
        numeric3(c),
        numeric(r),
    ensures
        made_of(dec(k) + " "@ + ("sphere "@ + xyz(c) + " "@ + r), |x: char| sphere_char(x)),
        (dec(k) + " "@ + ("sphere "@ + xyz(c) + " "@ + r)).last() == r.last(),
        words(dec(k) + " "@ + ("sphere "@ + xyz(c) + " "@ + r)) == seq![dec(k), "sphere"@, c.0, c.1, c.2, r],
        (dec(k) + " "@ + ("sphere "@ + xyz(c) + " "@ + r)).len() >= dec(k).len() + 7,
        (dec(k) + " "@ + ("sphere "@ + xyz(c) + " "@ + r)).subrange(dec(k).len() as int + 1, dec(k).len() as int + 7)
            == "sphere"@,
{
    reveal_strlit(" ");
    reveal_strlit("sphere ");
    reveal_strlit("sphere");
    let p = |x: char| sphere_char(x);
    let d = dec(k);
    let sp = " "@;
    let w = "sphere"@;
    let l = d + sp + ("sphere "@ + xyz(c) + sp + r);
    lemma_dec_numeric(k);
    lemma_numeric_word(d);
    lemma_numeric_made_of(d, p);
    assert(made_of(sp, p));
    assert("sphere "@ =~= w + sp);
    assert(made_of(w + sp, p));
    lemma_xyz(d + sp + w, c, p);
    lemma_num(d + sp + w + sp + xyz(c), r, p);
    lemma_made_of_add(d, sp, p);
    lemma_made_of_add(d + sp, w + sp, p);
    lemma_made_of_add(d + sp + (w + sp), xyz(c), p);
    lemma_made_of_add(d + sp + (w + sp) + xyz(c), sp, p);
    lemma_made_of_add(d + sp + (w + sp) + xyz(c) + sp, r, p);
    assert(l =~= d + sp + (w + sp) + xyz(c) + sp + r);
    assert(l =~= d + sp + w + sp + xyz(c) + sp + r);
    assert(is_word(w));
    lemma_words_word(d);
    lemma_words_gap_word(d, sp, w);
    assert(words(l) =~= seq![d, w, c.0, c.1, c.2, r]);
    assert(l.subrange(d.len() as int + 1, d.len() as int + 7) =~= w);
}

proof fn lemma_line_basics(l: Seq<char>, d: Seq<char>, p: spec_fn(char) -> bool)
    requires
        made_of(l, p),
        !p('\n'),
        l.len() > 0,
        l[0] == d[0],
        d.len() > 0,
        '0' <= d[0] <= '9',
        !is_ws(l.last()),
    ensures
        one_line(l),
        trim(l) == l,
        l[0] != '*',
        l[0] != 'S',
{
    lemma_made_of_one_line(l, p);
    lemma_trim_fixed(l);
}

proof fn lemma_kind_found(l: Seq<char>, kind: XtKind, k: nat, nums: Seq<Seq<char>>)
    requires
        k <= u32::MAX,
        words(l).len() >= kind_words(kind),
        words(l)[0] == dec(k),
        find_substr(l, kind_lower(kind)) is Some,
        words(l).subrange(2, kind_words(kind) as int) == nums,
    ensures
        kind_record(l, kind) == Some((k, nums)),
{
    lemma_dec_parse(k, u32::MAX as nat);
}

#[verifier::spinoff_prover]
proof fn lemma_plane_record(k: nat, n: (Seq<char>, Seq<char>, Seq<char>))
    requires
        k <= u32::MAX,
        numeric3(n),
    ensures
        kind_record(dec(k) + " "@ + ("plane 0 0 0 "@ + xyz(n)), XtKind::Plane)
            == Some((k, seq!["0"@, "0"@, "0"@, n.0, n.1, n.2])),
{
    let d = dec(k);
    let l = d + " "@ + ("plane 0 0 0 "@ + xyz(n));
    lemma_plane_line(k, n);
    reveal_strlit("plane");
    lemma_found(l, "plane"@, d.len() as int + 1);
    assert(words(l).subrange(2, 8) =~= seq!["0"@, "0"@, "0"@, n.0, n.1, n.2]);
    lemma_kind_found(l, XtKind::Plane, k, seq!["0"@, "0"@, "0"@, n.0, n.1, n.2]);
}

#[verifier::spinoff_prover]
proof fn lemma_plane_others(k: nat, n: (Seq<char>, Seq<char>, Seq<char>))
    requires
        numeric3(n),
    ensures
        kind_record(dec(k) + " "@ + ("plane 0 0 0 "@ + xyz(n)), XtKind::Point) is None,
        kind_record(dec(k) + " "@ + ("plane 0 0 0 "@ + xyz(n)), XtKind::Cylinder) is None,
        kind_record(dec(k) + " "@ + ("plane 0 0 0 "@ + xyz(n)), XtKind::Sphere) is None,
{
    let p = |x: char| plane_char(x);
    let l = dec(k) + " "@ + ("plane 0 0 0 "@ + xyz(n));
    lemma_plane_line(k, n);
    reveal_strlit("point");
    reveal_strlit("POINT");
    reveal_strlit("cylinder");
    reveal_strlit("CYLINDER");
    reveal_strlit("sphere");
    reveal_strlit("SPHERE");
    lemma_kind_absent(l, p, XtKind::Point, 1, 0);
    lemma_kind_absent(l, p, XtKind::Cylinder, 0, 0);
    lemma_kind_absent(l, p, XtKind::Sphere, 0, 0);
}

#[verifier::spinoff_prover]
proof fn lemma_plane_step(k: nat, n: (Seq<char>, Seq<char>, Seq<char>), v: XtView)
    requires
        k <= u32::MAX,
        numeric3(n),
    ensures
        one_line(dec(k) + " "@ + ("plane 0 0 0 "@ + xyz(n))),
        trim(dec(k) + " "@ + ("plane 0 0 0 "@ + xyz(n))) == dec(k) + " "@ + ("plane 0 0 0 "@ + xyz(n)),
        xt_step(v, dec(k) + " "@ + ("plane 0 0 0 "@ + xyz(n))) == (XtView {
            schema: v.schema,
            records: v.records + seq![(XtKind::Plane, k, seq!["0"@, "0"@, "0"@, n.0, n.1, n.2])],
        }),
{
    let p = |x: char| plane_char(x);
    let d = dec(k);
    let l = d + " "@ + ("plane 0 0 0 "@ + xyz(n));
    lemma_plane_line(k, n);
    lemma_dec_numeric(k);
    assert(l[0] == d[0]);
    assert(!is_ws(n.2[n.2.len() - 1]));
    lemma_line_basics(l, d, p);
    lemma_plane_record(k, n);
    lemma_plane_others(k, n);
    lemma_line_records(l);
    let r = seq![(XtKind::Plane, k, seq!["0"@, "0"@, "0"@, n.0, n.1, n.2])];
    assert(line_records(l, all_kinds()) =~= r);
    lemma_step_records(v, l, r);
}

#[verifier::spinoff_prover]
proof fn lemma_cylinder_record(
    k: nat,
    o: (Seq<char>, Seq<char>, Seq<char>),
    a: (Seq<char>, Seq<char>, Seq<char>),
    r: Seq<char>,
)
    requires
        k <= u32::MAX,
        numeric3(o),
        numeric3(a),
        numeric(r),
    ensures
        kind_record(dec(k) + " "@ + ("cylinder "@ + xyz(o) + " "@ + xyz(a) + " "@ + r), XtKind::Cylinder)
            == Some((k, seq![o.0, o.1, o.2, a.0, a.1, a.2, r])),
{
    let d = dec(k);
    let l = d + " "@ + ("cylinder "@ + xyz(o) + " "@ + xyz(a) + " "@ + r);
    lemma_cylinder_line(k, o, a, r);
    reveal_strlit("cylinder");
    lemma_found(l, "cylinder"@, d.len() as int + 1);
    assert(words(l).subrange(2, 9) =~= seq![o.0, o.1, o.2, a.0, a.1, a.2, r]);
    lemma_kind_found(l, XtKind::Cylinder, k, seq![o.0, o.1, o.2, a.0, a.1, a.2, r]);
}

#[verifier::spinoff_prover]
proof fn lemma_cylinder_others(
    k: nat,
    o: (Seq<char>, Seq<char>, Seq<char>),
    a: (Seq<char>, Seq<char>, Seq<char>),
    r: Seq<char>,
)
    requires
        numeric3(o),
        numeric3(a),
        numeric(r),
    ensures
        kind_record(dec(k) + " "@ + ("cylinder "@ + xyz(o) + " "@ + xyz(a) + " "@ + r), XtKind::Point) is None,
        kind_record(dec(k) + " "@ + ("cylinder "@ + xyz(o) + " "@ + xyz(a) + " "@ + r), XtKind::Plane) is None,
        kind_record(dec(k) + " "@ + ("cylinder "@ + xyz(o) + " "@ + xyz(a) + " "@ + r), XtKind::Sphere) is None,
{
    let p = |x: char| cylinder_char(x);
    let l = dec(k) + " "@ + ("cylinder "@ + xyz(o) + " "@ + xyz(a) + " "@ + r);
    lemma_cylinder_line(k, o, a, r);
    reveal_strlit("point");
    reveal_strlit("POINT");
    reveal_strlit("plane");
    reveal_strlit("PLANE");
    reveal_strlit("sphere");
    reveal_strlit("SPHERE");
    lemma_kind_absent(l, p, XtKind::Point, 0, 0);
    lemma_kind_absent(l, p, XtKind::Plane, 0, 0);
    lemma_kind_absent(l, p, XtKind::Sphere, 0, 0);
}

#[verifier::spinoff_prover]
proof fn lemma_cylinder_step(
    k: nat,
    o: (Seq<char>, Seq<char>, Seq<char>),
    a: (Seq<char>, Seq<char>, Seq<char>),
    r: Seq<char>,
    v: XtView,
)
    requires
        k <= u32::MAX,
        numeric3(o),
        numeric3(a),
        numeric(r),
    ensures
        one_line(dec(k) + " "@ + ("cylinder "@ + xyz(o) + " "@ + xyz(a) + " "@ + r)),
        trim(dec(k) + " "@ + ("cylinder "@ + xyz(o) + " "@ + xyz(a) + " "@ + r))
            == dec(k) + " "@ + ("cylinder "@ + xyz(o) + " "@ + xyz(a) + " "@ + r),
        xt_step(v, dec(k) + " "@ + ("cylinder "@ + xyz(o) + " "@ + xyz(a) + " "@ + r)) == (XtView {
            schema: v.schema,
            records: v.records + seq![(XtKind::Cylinder, k, seq![o.0, o.1, o.2, a.0, a.1, a.2, r])],
        }),
{
    let p = |x: char| cylinder_char(x);
    let d = dec(k);
    let l = d + " "@ + ("cylinder "@ + xyz(o) + " "@ + xyz(a) + " "@ + r);
    lemma_cylinder_line(k, o, a, r);
    lemma_dec_numeric(k);
    assert(l[0] == d[0]);
    assert(!is_ws(r[r.len() - 1]));
    lemma_line_basics(l, d, p);
    lemma_cylinder_record(k, o, a, r);
    lemma_cylinder_others(k, o, a, r);
    lemma_line_records(l);
    let rs = seq![(XtKind::Cylinder, k, seq![o.0, o.1, o.2, a.0, a.1, a.2, r])];
    assert(line_records(l, all_kinds()) =~= rs);
    lemma_step_records(v, l, rs);
}

#[verifier::spinoff_prover]
proof fn lemma_sphere_record(k: nat, c: (Seq<char>, Seq<char>, Seq<char>), r: Seq<char>)
    requires
        k <= u32::MAX,
        numeric3(c),
        numeric(r),
    ensures
        kind_record(dec(k) + " "@ + ("sphere "@ + xyz(c) + " "@ + r), XtKind::Sphere)
            == Some((k, seq![c.0, c.1, c.2, r])),
{
    let d = dec(k);
    let l = d + " "@ + ("sphere "@ + xyz(c) + " "@ + r);
    lemma_sphere_line(k, c, r);
    reveal_strlit("sphere");
    lemma_found(l, "sphere"@, d.len() as int + 1);
    assert(words(l).subrange(2, 6) =~= seq![c.0, c.1, c.2, r]);
    lemma_kind_found(l, XtKind::Sphere, k, seq![c.0, c.1, c.2, r]);
}

#[verifier::spinoff_prover]
proof fn lemma_sphere_others(k: nat, c: (Seq<char>, Seq<char>, Seq<char>), r: Seq<char>)
    requires
        numeric3(c),
        numeric(r),
    ensures
        kind_record(dec(k) + " "@ + ("sphere "@ + xyz(c) + " "@ + r), XtKind::Point) is None,
        kind_record(dec(k) + " "@ + ("sphere "@ + xyz(c) + " "@ + r), XtKind::Plane) is None,
        kind_record(dec(k) + " "@ + ("sphere "@ + xyz(c) + " "@ + r), XtKind::Cylinder) is None,
{
    let p = |x: char| sphere_char(x);
    let l = dec(k) + " "@ + ("sphere "@ + xyz(c) + " "@ + r);
    lemma_sphere_line(k, c, r);
    reveal_strlit("point");
    reveal_strlit("POINT");
    reveal_strlit("plane");
    reveal_strlit("PLANE");
    reveal_strlit("cylinder");
    reveal_strlit("CYLINDER");
    lemma_kind_absent(l, p, XtKind::Point, 1, 0);
    lemma_kind_absent(l, p, XtKind::Plane, 1, 0);
    lemma_kind_absent(l, p, XtKind::Cylinder, 0, 0);
}

#[verifier::spinoff_prover]
proof fn lemma_sphere_step(k: nat, c: (Seq<char>, Seq<char>, Seq<char>), r: Seq<char>, v: XtView)
    requires
        k <= u32::MAX,
        numeric3(c),
        numeric(r),
    ensures
        one_line(dec(k) + " "@ + ("sphere "@ + xyz(c) + " "@ + r)),
        trim(dec(k) + " "@ + ("sphere "@ + xyz(c) + " "@ + r)) == dec(k) + " "@ + ("sphere "@ + xyz(c) + " "@ + r),
        xt_step(v, dec(k) + " "@ + ("sphere "@ + xyz(c) + " "@ + r)) == (XtView {
            schema: v.schema,
            records: v.records + seq![(XtKind::Sphere, k, seq![c.0, c.1, c.2, r])],
        }),
{
    let p = |x: char| sphere_char(x);
    let d = dec(k);
    let l = d + " "@ + ("sphere "@ + xyz(c) + " "@ + r);
    lemma_sphere_line(k, c, r);
    lemma_dec_numeric(k);
    assert(l[0] == d[0]);
    assert(!is_ws(r[r.len() - 1]));
    lemma_line_basics(l, d, p);
    lemma_sphere_record(k, c, r);
    lemma_sphere_others(k, c, r);
    lemma_line_records(l);
    let rs = seq![(XtKind::Sphere, k, seq![c.0, c.1, c.2, r])];
    assert(line_records(l, all_kinds()) =~= rs);
    lemma_step_records(v, l, rs);
}

/// A line that is no record of any kind adds nothing.
proof fn lemma_silent_step(l: Seq<char>, d: Seq<char>, p: spec_fn(char) -> bool, v: XtView)
    requires
        made_of(l, p),
        !p('\n'),
        l.len() > 0,
        l[0] == d[0],
        d.len() > 0,
        '0' <= d[0] <= '9',
        !is_ws(l.last()),
        kind_record(l, XtKind::Point) is None,
        kind_record(l, XtKind::Plane) is None,
        kind_record(l, XtKind::Cylinder) is None,
        kind_record(l, XtKind::Sphere) is None,
    ensures
        one_line(l),
        trim(l) == l,
        xt_step(v, l) == v,
{
    lemma_line_basics(l, d, p);
    lemma_line_records(l);
    let e = Seq::<(XtKind, nat, Seq<Seq<char>>)>::empty();
    assert(line_records(l, all_kinds()) =~= e);
    lemma_step_records(v, l, e);
    assert(v.records + e =~= v.records);
}

#[verifier::spinoff_prover]
proof fn lemma_cone_chars(k: nat, c: (Seq<char>, Seq<char>, Seq<char>), a: (Seq<char>, Seq<char>, Seq<char>), h: Seq<char>)
    requires
        numeric3(c),
        numeric3(a),
        numeric(h),
    ensures
        made_of(dec(k) + " "@ + ("cone "@ + xyz(c) + " "@ + xyz(a) + " "@ + h), |x: char| cone_char(x)),
        (dec(k) + " "@ + ("cone "@ + xyz(c) + " "@ + xyz(a) + " "@ + h)).last() == h.last(),
        (dec(k) + " "@ + ("cone "@ + xyz(c) + " "@ + xyz(a) + " "@ + h))[0] == dec(k)[0],
{
    reveal_strlit(" ");
    reveal_strlit("cone ");
    let p = |x: char| cone_char(x);
    let d = dec(k);
    let sp = " "@;
    lemma_dec_numeric(k);
    lemma_numeric_made_of(d, p);
    assert(made_of(sp, p));
    assert(made_of("cone "@, p));
    lemma_xyz(Seq::<char>::empty(), c, p);
    lemma_xyz(Seq::<char>::empty(), a, p);
    lemma_numeric_made_of(h, p);
    lemma_made_of_add(d, sp, p);
    lemma_made_of_add(d + sp, "cone "@, p);
    lemma_made_of_add(d + sp + "cone "@, xyz(c), p);
    lemma_made_of_add(d + sp + "cone "@ + xyz(c), sp, p);
    lemma_made_of_add(d + sp + "cone "@ + xyz(c) + sp, xyz(a), p);
    lemma_made_of_add(d + sp + "cone "@ + xyz(c) + sp + xyz(a), sp, p);
    lemma_made_of_add(d + sp + "cone "@ + xyz(c) + sp + xyz(a) + sp, h, p);
    assert(d + sp + ("cone "@ + xyz(c) + sp + xyz(a) + sp + h) =~= d + sp + "cone "@ + xyz(c) + sp + xyz(a) + sp + h);
}

#[verifier::spinoff_prover]
proof fn lemma_cone_step(k: nat, c: (Seq<char>, Seq<char>, Seq<char>), a: (Seq<char>, Seq<char>, Seq<char>), h: Seq<char>, v: XtView)
    requires
        numeric3(c),
        numeric3(a),
        numeric(h),
    ensures
        one_line(dec(k) + " "@ + ("cone "@ + xyz(c) + " "@ + xyz(a) + " "@ + h)),
        trim(dec(k) + " "@ + ("cone "@ + xyz(c) + " "@ + xyz(a) + " "@ + h))
            == dec(k) + " "@ + ("cone "@ + xyz(c) + " "@ + xyz(a) + " "@ + h),
        xt_step(v, dec(k) + " "@ + ("cone "@ + xyz(c) + " "@ + xyz(a) + " "@ + h)) == v,
{
    let p = |x: char| cone_char(x);
    let l = dec(k) + " "@ + ("cone "@ + xyz(c) + " "@ + xyz(a) + " "@ + h);
    lemma_cone_chars(k, c, a, h);
    lemma_dec_numeric(k);
    assert(!is_ws(h[h.len() - 1]));
    reveal_strlit("point");
    reveal_strlit("POINT");
    reveal_strlit("plane");
    reveal_strlit("PLANE");
    reveal_strlit("cylinder");
    reveal_strlit("CYLINDER");
    reveal_strlit("sphere");
    reveal_strlit("SPHERE");
    lemma_kind_absent(l, p, XtKind::Point, 0, 0);
    lemma_kind_absent(l, p, XtKind::Plane, 0, 0);
    lemma_kind_absent(l, p, XtKind::Cylinder, 1, 0);
    lemma_kind_absent(l, p, XtKind::Sphere, 0, 0);
    lemma_silent_step(l, dec(k), p, v);
}

#[verifier::spinoff_prover]
proof fn lemma_torus_chars(
    k: nat,
    c: (Seq<char>, Seq<char>, Seq<char>),
    a: (Seq<char>, Seq<char>, Seq<char>),
    r1: Seq<char>,
    r2: Seq<char>,
)
    requires
        numeric3(c),
        numeric3(a),
        numeric(r1),
        numeric(r2),
    ensures
        made_of(dec(k) + " "@ + ("torus "@ + xyz(c) + " "@ + xyz(a) + " "@ + r1 + " "@ + r2), |x: char| torus_char(x)),
        (dec(k) + " "@ + ("torus "@ + xyz(c) + " "@ + xyz(a) + " "@ + r1 + " "@ + r2)).last() == r2.last(),
        (dec(k) + " "@ + ("torus "@ + xyz(c) + " "@ + xyz(a) + " "@ + r1 + " "@ + r2))[0] == dec(k)[0],
{
    reveal_strlit(" ");
    reveal_strlit("torus ");
    let p = |x: char| torus_char(x);
    let d = dec(k);
    let sp = " "@;
    lemma_dec_numeric(k);
    lemma_numeric_made_of(d, p);
    assert(made_of(sp, p));
    assert(made_of("torus "@, p));
    lemma_xyz(Seq::<char>::empty(), c, p);
    lemma_xyz(Seq::<char>::empty(), a, p);
    lemma_numeric_made_of(r1, p);
    lemma_numeric_made_of(r2, p);
    lemma_made_of_add(d, sp, p);
    lemma_made_of_add(d + sp, "torus "@, p);
    lemma_made_of_add(d + sp + "torus "@, xyz(c), p);
    lemma_made_of_add(d + sp + "torus "@ + xyz(c), sp, p);
    lemma_made_of_add(d + sp + "torus "@ + xyz(c) + sp, xyz(a), p);
    lemma_made_of_add(d + sp + "torus "@ + xyz(c) + sp + xyz(a), sp, p);
    lemma_made_of_add(d + sp + "torus "@ + xyz(c) + sp + xyz(a) + sp, r1, p);
    lemma_made_of_add(d + sp + "torus "@ + xyz(c) + sp + xyz(a) + sp + r1, sp, p);
    lemma_made_of_add(d + sp + "torus "@ + xyz(c) + sp + xyz(a) + sp + r1 + sp, r2, p);
    assert(d + sp + ("torus "@ + xyz(c) + sp + xyz(a) + sp + r1 + sp + r2)
        =~= d + sp + "torus "@ + xyz(c) + sp + xyz(a) + sp + r1 + sp + r2);
}

#[verifier::spinoff_prover]
proof fn lemma_torus_step(
    k: nat,
    c: (Seq<char>, Seq<char>, Seq<char>),
    a: (Seq<char>, Seq<char>, Seq<char>),
    r1: Seq<char>,
    r2: Seq<char>,
    v: XtView,
)
    requires
        numeric3(c),
        numeric3(a),
        numeric(r1),
        numeric(r2),
    ensures
        one_line(dec(k) + " "@ + ("torus "@ + xyz(c) + " "@ + xyz(a) + " "@ + r1 + " "@ + r2)),
        trim(dec(k) + " "@ + ("torus "@ + xyz(c) + " "@ + xyz(a) + " "@ + r1 + " "@ + r2))
            == dec(k) + " "@ + ("torus "@ + xyz(c) + " "@ + xyz(a) + " "@ + r1 + " "@ + r2),
        xt_step(v, dec(k) + " "@ + ("torus "@ + xyz(c) + " "@ + xyz(a) + " "@ + r1 + " "@ + r2)) == v,
{
    let p = |x: char| torus_char(x);
    let l = dec(k) + " "@ + ("torus "@ + xyz(c) + " "@ + xyz(a) + " "@ + r1 + " "@ + r2);
    lemma_torus_chars(k, c, a, r1, r2);
    lemma_dec_numeric(k);
    assert(!is_ws(r2[r2.len() - 1]));
    reveal_strlit("point");
    reveal_strlit("POINT");
    reveal_strlit("plane");
    reveal_strlit("PLANE");
    reveal_strlit("cylinder");
    reveal_strlit("CYLINDER");
    reveal_strlit("sphere");
    reveal_strlit("SPHERE");
    lemma_kind_absent(l, p, XtKind::Point, 0, 0);
    lemma_kind_absent(l, p, XtKind::Plane, 0, 0);
    lemma_kind_absent(l, p, XtKind::Cylinder, 0, 0);
    lemma_kind_absent(l, p, XtKind::Sphere, 1, 0);
    lemma_silent_step(l, dec(k), p, v);
}

#[verifier::spinoff_prover]
proof fn lemma_nurbs_step(k: nat, v: XtView)
    ensures
        one_line(dec(k) + " "@ + "bsurface"@),
        trim(dec(k) + " "@ + "bsurface"@) == dec(k) + " "@ + "bsurface"@,
        xt_step(v, dec(k) + " "@ + "bsurface"@) == v,
{
    reveal_strlit(" ");
    reveal_strlit("bsurface");
    let p = |x: char| bsurface_char(x);
    let d = dec(k);
    let sp = " "@;
    let l = d + sp + "bsurface"@;
    lemma_dec_numeric(k);
    lemma_numeric_made_of(d, p);
    assert(made_of(sp, p));
    assert(made_of("bsurface"@, p));
    lemma_made_of_add(d, sp, p);
    lemma_made_of_add(d + sp, "bsurface"@, p);
    assert(l[0] == d[0]);
    assert(l.last() == 'e');
    reveal_strlit("point");
    reveal_strlit("POINT");
    reveal_strlit("plane");
    reveal_strlit("PLANE");
    reveal_strlit("cylinder");
    reveal_strlit("CYLINDER");
    reveal_strlit("sphere");
    reveal_strlit("SPHERE");
    lemma_kind_absent(l, p, XtKind::Point, 0, 0);
    lemma_kind_absent(l, p, XtKind::Plane, 0, 0);
    lemma_kind_absent(l, p, XtKind::Cylinder, 1, 0);
    lemma_kind_absent(l, p, XtKind::Sphere, 1, 0);
    lemma_silent_step(l, d, p, v);
}

/// A surface line reads as its record, if its kind gives one.
proof fn lemma_surface_step(k: nat, s: XtSurfaceText, v: XtView)
    requires
        k <= u32::MAX,
        surface_numeric(s),
    ensures
        one_line(surface_line_text(k, s)),
        trim(surface_line_text(k, s)) == surface_line_text(k, s),
        xt_step(v, surface_line_text(k, s)) == (XtView { schema: v.schema, records: v.records + surface_record(k, s) }),
{
    let e = Seq::<(XtKind, nat, Seq<Seq<char>>)>::empty();
    match s {
        XtSurfaceText::Plane { normal } => {
            lemma_plane_step(k, c3(normal), v);
        },
        XtSurfaceText::Cylinder { origin, axis, radius } => {
            lemma_cylinder_step(k, c3(origin), c3(axis), radius@, v);
        },
        XtSurfaceText::Sphere { center, radius } => {
            lemma_sphere_step(k, c3(center), radius@, v);
        },
        XtSurfaceText::Cone { apex, axis, half_angle } => {
            lemma_cone_step(k, c3(apex), c3(axis), half_angle@, v);
            assert(v.records + e =~= v.records);
        },
        XtSurfaceText::Torus { center, axis, major_radius, minor_radius } => {
            lemma_torus_step(k, c3(center), c3(axis), major_radius@, minor_radius@, v);
            assert(v.records + e =~= v.records);
        },
        XtSurfaceText::Nurbs => {
            lemma_nurbs_step(k, v);
            assert(v.records + e =~= v.records);
        },
    }
}

// ---------------------------------------------------------------------------
// Header lines
// ---------------------------------------------------------------------------

/// The first word of a text that begins with a character other than
/// whitespace begins with that character.
proof fn lemma_first_word(s: Seq<char>)
    requires
        s.len() > 0,
        !is_ws(s[0]),
    ensures
        words(s).len() > 0,
        words(s)[0].len() > 0,
        words(s)[0][0] == s[0],
{
    lemma_first_fold(s);
}

proof fn lemma_first_fold(s: Seq<char>)
    requires
        s.len() > 0,
        !is_ws(s[0]),
    ensures
        words_fold_first(s),
    decreases s.len(),
{
    let t = s.drop_last();
    if s.len() > 1 {
        assert(t[0] == s[0]);
        lemma_first_fold(t);
    } else {
        assert(t =~= Seq::<char>::empty());
        assert(crate::strs::words_fold(t) == (Seq::<Seq<char>>::empty(), Seq::<char>::empty()));
        assert(s.last() == s[0]);
    }
    let (ws, cur) = crate::strs::words_fold(t);
    assert(crate::strs::words_fold(s) == (if is_ws(s.last()) {
        (if cur.len() > 0 { ws.push(cur) } else { ws }, Seq::<char>::empty())
    } else {
        (ws, cur.push(s.last()))
    }));
    if is_ws(s.last()) {
        if cur.len() > 0 && ws.len() == 0 {
            assert(ws.push(cur)[0] == cur);
        } else if cur.len() > 0 {
            assert(ws.push(cur)[0] == ws[0]);
        }
    } else if ws.len() == 0 {
        if s.len() > 1 {
            assert(cur.push(s.last())[0] == cur[0]);
        } else {
            assert(cur.push(s.last()) =~= seq![s[0]]);
        }
    }
}

/// What a fold has read of `s` begins with `s`'s first character.
pub open spec fn words_fold_first(s: Seq<char>) -> bool {
    let (ws, cur) = crate::strs::words_fold(s);
    &&& (ws.len() > 0 ==> ws[0].len() > 0 && ws[0][0] == s[0])
    &&& (ws.len() == 0 ==> cur.len() > 0 && cur[0] == s[0])
}

/// A line that begins with `**` and is not `**PART` followed by a word
/// changes nothing.
#[verifier::spinoff_prover]
proof fn lemma_star_step(l: Seq<char>, v: XtView)
    requires
        l.len() >= 3,
        l[0] == '*',
        l[1] == '*',
        l[2] != 'P' || words(l).len() < 2,
    ensures
        xt_step(v, l) == v,
{
    reveal_strlit("**PART");
    reveal_strlit("SCH");
    assert(!is_ws('*'));
    lemma_first_word(l);
    let w = words(l)[0];
    assert(w[0] == '*');
    assert(parse_unsigned(w, u32::MAX as nat) is None) by {
        assert(!('0' <= w[0] <= '9'));
    }
    if starts_with(l, "SCH"@) {
        assert(l.take(3)[0] == l[0]);
    }
    if l[2] != 'P' && starts_with(l, "**PART"@) {
        assert(l.take(6)[2] == l[2]);
    }
    lemma_line_records(l);
    let e = Seq::<(XtKind, nat, Seq<Seq<char>>)>::empty();
    assert(line_records(l, all_kinds()) =~= e);
    assert(v.records + e =~= v.records);
    assert(xt_step(v, l) =~= v);
}

/// The header lines the writer writes.
pub open spec fn header_lines(name: Seq<char>) -> Seq<Seq<char>> {
    seq!["**PART"@, "** "@ + name + " - Parasolid XT generated by OpenIE"@, "**SCH 30.0"@, "**HEADER"@]
}

#[verifier::spinoff_prover]
proof fn lemma_header_lines(name: Seq<char>, v: XtView)
    requires
        one_line(name),
    ensures
        forall|i: int| 0 <= i < 4 ==> one_line(#[trigger] header_lines(name)[i]),
        forall|i: int| 0 <= i < 4 ==> trim(#[trigger] header_lines(name)[i]) == header_lines(name)[i],
        forall|i: int| 0 <= i < 4 ==> xt_step(v, #[trigger] header_lines(name)[i]) == v,
        one_line("**END"@),
        trim("**END"@) == "**END"@,
        xt_step(v, "**END"@) == v,
{
    reveal_strlit("**PART");
    reveal_strlit("** ");
    reveal_strlit(" - Parasolid XT generated by OpenIE");
    reveal_strlit("**SCH 30.0");
    reveal_strlit("**HEADER");
    reveal_strlit("**END");
    let h = header_lines(name);
    let tail = " - Parasolid XT generated by OpenIE"@;
    assert(is_word("**PART"@));
    lemma_words_word("**PART"@);
    lemma_star_step("**PART"@, v);
    let l1 = "** "@ + name + tail;
    assert(l1[2] == ' ');
    lemma_star_step(l1, v);
    lemma_star_step("**SCH 30.0"@, v);
    lemma_star_step("**HEADER"@, v);
    lemma_star_step("**END"@, v);
    assert(one_line("**PART"@));
    assert(one_line("** "@));
    assert(one_line(tail));
    lemma_one_line_add("** "@, name);
    lemma_one_line_add("** "@ + name, tail);
    assert(one_line("**SCH 30.0"@));
    assert(one_line("**HEADER"@));
    assert(one_line("**END"@));
    lemma_trim_fixed("**PART"@);
    assert(l1.last() == tail.last());
    lemma_trim_fixed(l1);
    lemma_trim_fixed("**SCH 30.0"@);
    lemma_trim_fixed("**HEADER"@);
    lemma_trim_fixed("**END"@);
    assert(h[0] == "**PART"@ && h[1] == l1 && h[2] == "**SCH 30.0"@ && h[3] == "**HEADER"@);
}

// ---------------------------------------------------------------------------
// The whole text
// ---------------------------------------------------------------------------

/// The point lines, numbered from `first`, without their line feeds.
pub open spec fn point_line_seq(pts: Seq<(Seq<char>, Seq<char>, Seq<char>)>, first: nat) -> Seq<Seq<char>>
    decreases pts.len(),
{
    if pts.len() == 0 {
        Seq::empty()
    } else {
        point_line_seq(pts.drop_last(), first).push(point_line_text((first + pts.len() - 1) as nat, pts.last()))
    }
}

/// The surface lines, numbered from `first`, without their line feeds.
pub open spec fn surface_line_seq(ss: Seq<XtSurfaceText>, first: nat) -> Seq<Seq<char>>
    decreases ss.len(),
{
    if ss.len() == 0 {
        Seq::empty()
    } else {
        surface_line_seq(ss.drop_last(), first).push(surface_line_text((first + ss.len() - 1) as nat, ss.last()))
    }
}

/// The lines the writer writes.
pub open spec fn xt_lines(name: Seq<char>, pts: Seq<(Seq<char>, Seq<char>, Seq<char>)>, ss: Seq<XtSurfaceText>) -> Seq<Seq<char>> {
    header_lines(name) + point_line_seq(pts, 1) + surface_line_seq(ss, 1 + pts.len()) + seq!["**END"@]
}

/// The records of the points, numbered from `first`.
pub open spec fn point_records(pts: Seq<(Seq<char>, Seq<char>, Seq<char>)>, first: nat) -> Seq<(XtKind, nat, Seq<Seq<char>>)>
    decreases pts.len(),
{
    if pts.len() == 0 {
        Seq::empty()
    } else {
        point_records(pts.drop_last(), first).push(
            (XtKind::Point, (first + pts.len() - 1) as nat, seq![pts.last().0, pts.last().1, pts.last().2]),
        )
    }
}

/// The records of the surfaces, numbered from `first`.
pub open spec fn surface_records(ss: Seq<XtSurfaceText>, first: nat) -> Seq<(XtKind, nat, Seq<Seq<char>>)>
    decreases ss.len(),
{
    if ss.len() == 0 {
        Seq::empty()
    } else {
        surface_records(ss.drop_last(), first) + surface_record((first + ss.len() - 1) as nat, ss.last())
    }
}

proof fn lemma_point_join(pts: Seq<(Seq<char>, Seq<char>, Seq<char>)>, first: nat)
    ensures
        point_lines(pts, first) == join_lines(point_line_seq(pts, first)),
    decreases pts.len(),
{
    if pts.len() > 0 {
        lemma_point_join(pts.drop_last(), first);
        let q = point_line_seq(pts.drop_last(), first);
        let l = point_line_text((first + pts.len() - 1) as nat, pts.last());
        assert(q.push(l).drop_last() =~= q);
        reveal_strlit("\n");
        assert(point_lines(pts, first) =~= join_lines(point_line_seq(pts, first)));
    }
}

proof fn lemma_surface_join(ss: Seq<XtSurfaceText>, first: nat)
    ensures
        surface_lines(ss, first) == join_lines(surface_line_seq(ss, first)),
    decreases ss.len(),
{
    if ss.len() > 0 {
        lemma_surface_join(ss.drop_last(), first);
        let q = surface_line_seq(ss.drop_last(), first);
        let l = surface_line_text((first + ss.len() - 1) as nat, ss.last());
        assert(q.push(l).drop_last() =~= q);
        reveal_strlit("\n");
        assert(surface_lines(ss, first) =~= join_lines(surface_line_seq(ss, first)));
    }
}

proof fn lemma_join4(a: Seq<char>, b: Seq<char>, c: Seq<char>, d: Seq<char>)
    ensures
        join_lines(seq![a, b, c, d]) == a + seq!['\n'] + b + seq!['\n'] + c + seq!['\n'] + d + seq!['\n'],
{
    let s4 = seq![a, b, c, d];
    let s3 = seq![a, b, c];
    let s2 = seq![a, b];
    let s1 = seq![a];
    assert(s4.drop_last() =~= s3);
    assert(s3.drop_last() =~= s2);
    assert(s2.drop_last() =~= s1);
    assert(s1.drop_last() =~= Seq::<Seq<char>>::empty());
    assert(join_lines(s1.drop_last()) == Seq::<char>::empty());
    assert(join_lines(s1) =~= a + seq!['\n']);
    assert(join_lines(s2) == join_lines(s1) + b + seq!['\n']);
    assert(join_lines(s3) == join_lines(s2) + c + seq!['\n']);
    assert(join_lines(s4) == join_lines(s3) + d + seq!['\n']);
    assert(join_lines(s4) =~= a + seq!['\n'] + b + seq!['\n'] + c + seq!['\n'] + d + seq!['\n']);
}

proof fn lemma_xt_text_lines(name: Seq<char>, pts: Seq<(Seq<char>, Seq<char>, Seq<char>)>, ss: Seq<XtSurfaceText>)
    ensures
        xt_text(name, pts, ss) == join_lines(xt_lines(name, pts, ss)),
{
    let h = header_lines(name);
    let pl = point_line_seq(pts, 1);
    let sl = surface_line_seq(ss, 1 + pts.len());
    let e = seq!["**END"@];
    lemma_join_add(h + pl + sl, e);
    lemma_join_add(h + pl, sl);
    lemma_join_add(h, pl);
    lemma_point_join(pts, 1);
    lemma_surface_join(ss, 1 + pts.len());
    lemma_join4(h[0], h[1], h[2], h[3]);
    assert(h =~= seq![h[0], h[1], h[2], h[3]]);
    assert(e.drop_last() =~= Seq::<Seq<char>>::empty());
    reveal_strlit("**PART");
    reveal_strlit("** ");
    reveal_strlit(" - Parasolid XT generated by OpenIE");
    reveal_strlit("**SCH 30.0");
    reveal_strlit("**HEADER");
    reveal_strlit("**END");
    reveal_strlit("**END\n");
    reveal_strlit("**PART\n** ");
    reveal_strlit(" - Parasolid XT generated by OpenIE\n**SCH 30.0\n**HEADER\n");
    assert(join_lines(h) =~= "**PART\n** "@ + name + " - Parasolid XT generated by OpenIE\n**SCH 30.0\n**HEADER\n"@);
    assert(join_lines(e.drop_last()) == Seq::<char>::empty());
    assert(join_lines(e) == join_lines(e.drop_last()) + "**END"@ + seq!['\n']);
    assert(join_lines(e) =~= "**END\n"@);
    assert(xt_text(name, pts, ss) =~= join_lines(h) + join_lines(pl) + join_lines(sl) + join_lines(e));
}

proof fn lemma_fold_push(ls: Seq<Seq<char>>, l: Seq<char>)
    ensures
        xt_fold(ls.push(l)) == xt_step(xt_fold(ls), l),
{
    assert(ls.push(l).drop_last() =~= ls);
}

proof fn lemma_fold_points(pre: Seq<Seq<char>>, pts: Seq<(Seq<char>, Seq<char>, Seq<char>)>, first: nat)
    requires
        first + pts.len() <= u32::MAX + 1,
        forall|i: int| 0 <= i < pts.len() ==> numeric3(#[trigger] pts[i]),
    ensures
        xt_fold(pre + point_line_seq(pts, first)) == (XtView {
            schema: xt_fold(pre).schema,
            records: xt_fold(pre).records + point_records(pts, first),
        }),
        forall|i: int| 0 <= i < point_line_seq(pts, first).len() ==> one_line(#[trigger] point_line_seq(pts, first)[i])
            && trim(point_line_seq(pts, first)[i]) == point_line_seq(pts, first)[i],
        point_line_seq(pts, first).len() == pts.len(),
    decreases pts.len(),
{
    let v = xt_fold(pre);
    if pts.len() == 0 {
        assert(pre + point_line_seq(pts, first) =~= pre);
        assert(v.records + point_records(pts, first) =~= v.records);
    } else {
        let d = pts.drop_last();
        assert forall|i: int| 0 <= i < d.len() implies numeric3(#[trigger] d[i]) by {
            assert(d[i] == pts[i]);
        }
        lemma_fold_points(pre, d, first);
        let k = (first + pts.len() - 1) as nat;
        assert(numeric3(pts[pts.len() - 1]));
        let l = point_line_text(k, pts.last());
        assert(pre + point_line_seq(pts, first) =~= (pre + point_line_seq(d, first)).push(l));
        lemma_fold_push(pre + point_line_seq(d, first), l);
        lemma_point_line(k, pts.last(), xt_fold(pre + point_line_seq(d, first)));
        assert(v.records + point_records(pts, first)
            =~= (v.records + point_records(d, first)).push((XtKind::Point, k, seq![pts.last().0, pts.last().1, pts.last().2])));
    }
}

proof fn lemma_fold_surfaces(pre: Seq<Seq<char>>, ss: Seq<XtSurfaceText>, first: nat)
    requires
        first + ss.len() <= u32::MAX + 1,
        forall|i: int| 0 <= i < ss.len() ==> surface_numeric(#[trigger] ss[i]),
    ensures
        xt_fold(pre + surface_line_seq(ss, first)) == (XtView {
            schema: xt_fold(pre).schema,
            records: xt_fold(pre).records + surface_records(ss, first),
        }),
        forall|i: int| 0 <= i < surface_line_seq(ss, first).len() ==> one_line(#[trigger] surface_line_seq(ss, first)[i])
            && trim(surface_line_seq(ss, first)[i]) == surface_line_seq(ss, first)[i],
        surface_line_seq(ss, first).len() == ss.len(),
    decreases ss.len(),
{
    let v = xt_fold(pre);
    if ss.len() == 0 {
        assert(pre + surface_line_seq(ss, first) =~= pre);
        assert(v.records + surface_records(ss, first) =~= v.records);
    } else {
        let d = ss.drop_last();
        assert forall|i: int| 0 <= i < d.len() implies surface_numeric(#[trigger] d[i]) by {
            assert(d[i] == ss[i]);
        }
        lemma_fold_surfaces(pre, d, first);
        let k = (first + ss.len() - 1) as nat;
        assert(surface_numeric(ss[ss.len() - 1]));
        let l = surface_line_text(k, ss.last());
        assert(pre + surface_line_seq(ss, first) =~= (pre + surface_line_seq(d, first)).push(l));
        lemma_fold_push(pre + surface_line_seq(d, first), l);
        lemma_surface_step(k, ss.last(), xt_fold(pre + surface_line_seq(d, first)));
        assert(v.records + surface_records(ss, first)
            =~= (v.records + surface_records(d, first)) + surface_record(k, ss.last()));
    }
}

/// Reading back a written XT text gives every point as a point record and
/// every plane, cylinder and sphere surface as a record of its kind, each
/// with the number the writer gave it and its number texts in order, and
/// no schema version, provided the model's name is one line, every number
/// text is a number as Rust prints a float, and the entities can be
/// numbered within `u32`.
pub proof fn lemma_xt_roundtrip(name: Seq<char>, pts: Seq<(Seq<char>, Seq<char>, Seq<char>)>, ss: Seq<XtSurfaceText>)
    requires
        one_line(name),
        forall|i: int| 0 <= i < pts.len() ==> numeric3(#[trigger] pts[i]),
        forall|i: int| 0 <= i < ss.len() ==> surface_numeric(#[trigger] ss[i]),
        pts.len() + ss.len() <= u32::MAX,
    ensures
        xt_read(xt_text(name, pts, ss)) == (XtView {
            schema: Seq::empty(),
            records: point_records(pts, 1) + surface_records(ss, 1 + pts.len()),
        }),
{
    let h = header_lines(name);
    let pl = point_line_seq(pts, 1);
    let sl = surface_line_seq(ss, 1 + pts.len());
    let e = seq!["**END"@];
    let ls = xt_lines(name, pts, ss);
    lemma_xt_text_lines(name, pts, ss);
    let empty = XtView { schema: Seq::empty(), records: Seq::empty() };
    lemma_header_lines(name, empty);
    lemma_fold_points(h, pts, 1);
    lemma_fold_surfaces(h + pl, ss, 1 + pts.len());
    // the header reads as nothing
    assert(h =~= seq![h[0], h[1], h[2], h[3]]);
    assert(xt_fold(Seq::<Seq<char>>::empty()) == empty);
    lemma_fold_push(Seq::<Seq<char>>::empty(), h[0]);
    assert(Seq::<Seq<char>>::empty().push(h[0]) =~= seq![h[0]]);
    lemma_fold_push(seq![h[0]], h[1]);
    assert(seq![h[0]].push(h[1]) =~= seq![h[0], h[1]]);
    lemma_fold_push(seq![h[0], h[1]], h[2]);
    assert(seq![h[0], h[1]].push(h[2]) =~= seq![h[0], h[1], h[2]]);
    lemma_fold_push(seq![h[0], h[1], h[2]], h[3]);
    assert(seq![h[0], h[1], h[2]].push(h[3]) =~= h);
    assert(xt_fold(h) == empty);
    // the end line reads as nothing
    let after = xt_fold(h + pl + sl);
    lemma_header_lines(name, after);
    lemma_fold_push(h + pl + sl, "**END"@);
    assert(ls =~= (h + pl + sl).push("**END"@));
    // every line is one line and its own trim
    assert(no_line_feed(ls)) by {
        assert forall|i: int, k: int| 0 <= i < ls.len() && 0 <= k < ls[i].len() implies #[trigger] ls[i][k] != '\n' by {
            if i < 4 {
                assert(ls[i] == h[i]);
                assert(one_line(h[i]));
            } else if i < 4 + pl.len() {
                assert(ls[i] == pl[i - 4]);
                assert(one_line(pl[i - 4]));
            } else if i < 4 + pl.len() + sl.len() {
                assert(ls[i] == sl[i - 4 - pl.len()]);
                assert(one_line(sl[i - 4 - pl.len()]));
            } else {
                assert(ls[i] == "**END"@);
            }
        }
    }
    lemma_trimmed_join(ls);
    assert(ls.map_values(|l: Seq<char>| trim(l)) =~= ls) by {
        assert forall|i: int| 0 <= i < ls.len() implies trim(#[trigger] ls[i]) == ls[i] by {
            if i < 4 {
                assert(ls[i] == h[i]);
            } else if i < 4 + pl.len() {
                assert(ls[i] == pl[i - 4]);
            } else if i < 4 + pl.len() + sl.len() {
                assert(ls[i] == sl[i - 4 - pl.len()]);
            } else {
                assert(ls[i] == "**END"@);
            }
        }
    }
    assert(trimmed_lines(xt_text(name, pts, ss)) == ls);
    assert(Seq::<(XtKind, nat, Seq<Seq<char>>)>::empty() + point_records(pts, 1) =~= point_records(pts, 1));
}

} // verus!
