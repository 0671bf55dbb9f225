//! Parasolid XT text: which lines of a model name a schema version or an
//! entity of a known kind, the entity's number and the words of its
//! numbers; and the text the writer produces for a solid's points and
//! surfaces. Numbers stay text here.
use vstd::prelude::*;
use crate::strs::{words, split_words, find_substr, str_contains, str_starts_with, starts_with, parse_unsigned};
use crate::dxf::{trimmed_lines, lines_of};
use crate::iges::views;
use crate::step_entities::{Coords, c3};
use crate::text::push_dec;
use crate::text::dec;

verus! {

/// A face of an XT model: its surface, its vertices, and whether it faces
/// outward.
#[derive(Debug, Clone)]
pub struct XtFace {
    pub surface_id: u32,
    pub vertex_ids: Vec<u32>,
    /// `true` when the face points outward.
    pub sense: bool,
}

// ---------------------------------------------------------------------------
// Reading
// ---------------------------------------------------------------------------

/// The entity kinds the reader recognises.
#[derive(Debug, Clone, Copy, PartialEq, Eq, Structural)]
pub enum XtKind {
    Point,
    Plane,
    Cylinder,
    Sphere,
}

/// The kind's name in lower case.
pub open spec fn kind_lower(k: XtKind) -> Seq<char> {
    match k {
        XtKind::Point => "point"@,
        XtKind::Plane => "plane"@,
        XtKind::Cylinder => "cylinder"@,
        XtKind::Sphere => "sphere"@,
    }
}

/// The kind's name in upper case.
pub open spec fn kind_upper(k: XtKind) -> Seq<char> {
    match k {
        XtKind::Point => "POINT"@,
        XtKind::Plane => "PLANE"@,
        XtKind::Cylinder => "CYLINDER"@,
        XtKind::Sphere => "SPHERE"@,
    }
}

/// The words a line of the kind needs: its number, its name and the
/// numbers of its geometry (three for a point, six for a plane, seven for a
/// cylinder, four for a sphere).
pub open spec fn kind_words(k: XtKind) -> nat {
    match k {
        XtKind::Point => 5,
        XtKind::Plane => 8,
        XtKind::Cylinder => 9,
        XtKind::Sphere => 6,
    }
}

/// A line of the kind: it names the kind (in lower or upper case), has
/// the words the kind needs, and its first word is a `u32`; the record is
/// that number and the words of the geometry's numbers.
pub open spec fn kind_record(l: Seq<char>, k: XtKind) -> Option<(nat, Seq<Seq<char>>)> {
    let ws = words(l);
    if (find_substr(l, kind_lower(k)) is Some || find_substr(l, kind_upper(k)) is Some) && ws.len() >= kind_words(k) {
        match parse_unsigned(ws[0], u32::MAX as nat) {
            Some(id) => Some((id, ws.subrange(2, kind_words(k) as int))),
            None => None,
        }
    } else {
        None
    }
}

/// The records of line `l` for the kinds `ks`, in that order.
pub open spec fn line_records(l: Seq<char>, ks: Seq<XtKind>) -> Seq<(XtKind, nat, Seq<Seq<char>>)>
    decreases ks.len(),
{
    if ks.len() == 0 {
        Seq::empty()
    } else {
        let prev = line_records(l, ks.drop_last());
        match kind_record(l, ks.last()) {
            Some((id, nums)) => prev.push((ks.last(), id, nums)),
            None => prev,
        }
    }
}

/// The kinds in the order the reader tries them.
pub open spec fn all_kinds() -> Seq<XtKind> {
    seq![XtKind::Point, XtKind::Plane, XtKind::Cylinder, XtKind::Sphere]
}

/// What an XT text reads as: the schema version and the entity records.
#[verifier::ext_equal]
pub struct XtView {
    pub schema: Seq<char>,
    pub records: Seq<(XtKind, nat, Seq<Seq<char>>)>,
}

/// One trimmed line read: a line that begins with `**PART` or `SCH` and
/// has a second word sets the schema version to it; then each kind the
/// line is a record of adds its record.
pub open spec fn xt_step(v: XtView, l: Seq<char>) -> XtView {
    let ws = words(l);
    let schema = if (starts_with(l, "**PART"@) || starts_with(l, "SCH"@)) && ws.len() >= 2 { ws[1] } else { v.schema };
    XtView { schema, records: v.records + line_records(l, all_kinds()) }
}

/// The reading of the trimmed lines `ls`.
pub open spec fn xt_fold(ls: Seq<Seq<char>>) -> XtView
    decreases ls.len(),
{
    if ls.len() == 0 {
        XtView { schema: Seq::empty(), records: Seq::empty() }
    } else {
        xt_step(xt_fold(ls.drop_last()), ls.last())
    }
}

/// What an XT text reads as.
pub open spec fn xt_read(text: Seq<char>) -> XtView {
    xt_fold(trimmed_lines(text))
}

/// An entity line read: its kind, its number and the words of its
/// geometry's numbers.
pub struct XtRecord {
    pub kind: XtKind,
    pub id: u32,
    pub numbers: Vec<String>,
}

/// An XT text read.
pub struct XtText {
    pub schema_version: String,
    pub records: Vec<XtRecord>,
}

pub open spec fn record_view(r: XtRecord) -> (XtKind, nat, Seq<Seq<char>>) {
    (r.kind, r.id as nat, views(r.numbers@))
}

pub open spec fn records_view(v: Seq<XtRecord>) -> Seq<(XtKind, nat, Seq<Seq<char>>)> {
    v.map_values(|r: XtRecord| record_view(r))
}

impl XtText {
    pub open spec fn view(&self) -> XtView {
        XtView { schema: self.schema_version@, records: records_view(self.records@) }
    }
}

fn kind_names(k: XtKind) -> (r: (&'static str, &'static str, usize))
    ensures
        r.0@ == kind_lower(k),
        r.1@ == kind_upper(k),
        r.2 == kind_words(k),
{
    match k {
        XtKind::Point => ("point", "POINT", 5),
        XtKind::Plane => ("plane", "PLANE", 8),
        XtKind::Cylinder => ("cylinder", "CYLINDER", 9),
        XtKind::Sphere => ("sphere", "SPHERE", 6),
    }
}

fn parse_id(w: &str) -> (r: Option<u32>)
    ensures
        match parse_unsigned(w@, u32::MAX as nat) {
            Some(v) => r == Some(v as u32),
            None => r is None,
        },
{
    let cs = crate::text::chars_of(w);
    assert(cs@.subrange(0, cs@.len() as int) =~= w@);
    match crate::strs::parse_unsigned_range(&cs, 0, cs.len(), 0xffff_ffffu64) {
        Some(v) => Some(v as u32),
        None => None,
    }
}

/// The record of a line of kind `k`, if the line is one.
pub fn xt_kind_record(line: &str, ws: &Vec<String>, k: XtKind) -> (r: Option<XtRecord>)
    requires
        views(ws@) == words(line@),
    ensures
        match kind_record(line@, k) {
            Some((id, nums)) => r matches Some(rec) && record_view(rec) == (k, id, nums),
            None => r is None,
        },
{
    let (lower, upper, n) = kind_names(k);
    if !(str_contains(line, lower) || str_contains(line, upper)) || ws.len() < n {
        return None;
    }
    let ghost wv = views(ws@);
    assert(wv[0] == ws@[0]@);
    match parse_id(ws[0].as_str()) {
        Some(id) => {
            let mut nums: Vec<String> = Vec::new();
            let mut j: usize = 2;
            while j < n
                invariant
                    2 <= j <= n <= ws@.len(),
                    wv == views(ws@),
                    views(nums@) == wv.subrange(2, j as int),
                decreases n - j,
            {
                let ghost before = nums@;
                nums.push(ws[j].clone());
                assert(views(nums@) =~= views(before).push(wv[j as int]));
                assert(wv.subrange(2, j + 1) =~= wv.subrange(2, j as int).push(wv[j as int]));
                j = j + 1;
            }
            Some(XtRecord { kind: k, id, numbers: nums })
        },
        None => None,
    }
}

/// Reads an XT text: the schema version (the second word of the last
/// `**PART` or `SCH` line that has one) and, line by line, a record for
/// each of the point, plane, cylinder and sphere kinds the line is one of.
pub fn read_xt_text(text: &str) -> (r: XtText)
    ensures
        r.view() == xt_read(text@),
{
    let ls = lines_of(text);
    let ghost lv = views(ls@);
    let mut schema = String::new();
    let mut recs: Vec<XtRecord> = Vec::new();
    let mut i: usize = 0;
    assert(lv.take(0) =~= Seq::<Seq<char>>::empty());
    assert(records_view(recs@) =~= Seq::<(XtKind, nat, Seq<Seq<char>>)>::empty());
    while i < ls.len()
        invariant
            i <= ls@.len(),
            lv == views(ls@),
            lv == trimmed_lines(text@),
            (XtView { schema: schema@, records: records_view(recs@) }) == xt_fold(lv.take(i as int)),
        decreases ls.len() - i,
    {
        let ghost before = XtView { schema: schema@, records: records_view(recs@) };
        let ghost l = lv[i as int];
        assert(lv.take(i + 1).drop_last() =~= lv.take(i as int));
        assert(lv.take(i + 1).last() == l);
        let line = ls[i].as_str();
        let ws = split_words(line);
        assert(views(ws@) =~= words(l));
        if (str_starts_with(line, "**PART") || str_starts_with(line, "SCH")) && ws.len() >= 2 {
            schema = ws[1].clone();
        }
        let kinds = [XtKind::Point, XtKind::Plane, XtKind::Cylinder, XtKind::Sphere];
        let ghost ks = all_kinds();
        let ghost r0 = records_view(recs@);
        let mut k: usize = 0;
        assert(ks.take(0) =~= Seq::<XtKind>::empty());
        assert(r0 + line_records(l, ks.take(0)) =~= r0);
        while k < 4
            invariant
                k <= 4,
                ks == all_kinds(),
                kinds@ == ks,
                views(ws@) == words(l),
                l == line@,
                records_view(recs@) == r0 + line_records(l, ks.take(k as int)),
            decreases 4 - k,
        {
            assert(ks.take(k + 1).drop_last() =~= ks.take(k as int));
            assert(ks.take(k + 1).last() == kinds@[k as int]);
            match xt_kind_record(line, &ws, kinds[k]) {
                Some(rec) => {
                    let ghost rb = recs@;
                    recs.push(rec);
                    assert(records_view(recs@) =~= records_view(rb).push(record_view(rec)));
                },
                None => {},
            }
            k = k + 1;
        }
        assert(ks.take(4) =~= ks);
        assert((XtView { schema: schema@, records: records_view(recs@) }) =~= xt_step(before, l));
        i = i + 1;
    }
    assert(lv.take(ls@.len() as int) =~= lv);
    XtText { schema_version: schema, records: recs }
}

// ---------------------------------------------------------------------------
// Writing
// ---------------------------------------------------------------------------

/// A face's surface with its numbers as text.
pub enum XtSurfaceText {
    Plane { normal: Coords },
    Cylinder { origin: Coords, axis: Coords, radius: String },
    Sphere { center: Coords, radius: String },
    Cone { apex: Coords, axis: Coords, half_angle: String },
    Torus { center: Coords, axis: Coords, major_radius: String, minor_radius: String },
    Nurbs,
}

/// Three number texts separated by spaces.
pub open spec fn xyz(c: (Seq<char>, Seq<char>, Seq<char>)) -> Seq<char> {
    c.0 + " "@ + c.1 + " "@ + c.2
}

/// A surface's kind word and numbers.
pub open spec fn surface_words(s: XtSurfaceText) -> Seq<char> {
    match s {
        XtSurfaceText::Plane { normal } => "plane 0 0 0 "@ + xyz(c3(normal)),
        XtSurfaceText::Cylinder { origin, axis, radius } =>
            "cylinder "@ + xyz(c3(origin)) + " "@ + xyz(c3(axis)) + " "@ + radius@,
        XtSurfaceText::Sphere { center, radius } => "sphere "@ + xyz(c3(center)) + " "@ + radius@,
        XtSurfaceText::Cone { apex, axis, half_angle } =>
            "cone "@ + xyz(c3(apex)) + " "@ + xyz(c3(axis)) + " "@ + half_angle@,
        XtSurfaceText::Torus { center, axis, major_radius, minor_radius } =>
            "torus "@ + xyz(c3(center)) + " "@ + xyz(c3(axis)) + " "@ + major_radius@ + " "@ + minor_radius@,
        XtSurfaceText::Nurbs => "bsurface"@,
    }
}

/// The point lines, numbered from `first`.
pub open spec fn point_lines(pts: Seq<(Seq<char>, Seq<char>, Seq<char>)>, first: nat) -> Seq<char>
    decreases pts.len(),
{
    if pts.len() == 0 {
        Seq::empty()
    } else {
        point_lines(pts.drop_last(), first) + dec((first + pts.len() - 1) as nat) + " point "@ + xyz(pts.last())
            + "\n"@
    }
}

/// The surface lines, numbered from `first`.
pub open spec fn surface_lines(ss: Seq<XtSurfaceText>, first: nat) -> Seq<char>
    decreases ss.len(),
{
    if ss.len() == 0 {
        Seq::empty()
    } else {
        surface_lines(ss.drop_last(), first) + dec((first + ss.len() - 1) as nat) + " "@ + surface_words(ss.last())
            + "\n"@
    }
}

/// The text the writer produces: the part header naming the model, the
/// schema and header markers, a numbered point line per vertex, then a
/// numbered surface line per face, and the end marker.
pub open spec fn xt_text(name: Seq<char>, pts: Seq<(Seq<char>, Seq<char>, Seq<char>)>, ss: Seq<XtSurfaceText>) -> Seq<char> {
    "**PART\n** "@ + name + " - Parasolid XT generated by OpenIE\n**SCH 30.0\n**HEADER\n"@ + point_lines(pts, 1)
        + surface_lines(ss, 1 + pts.len()) + "**END\n"@
}

fn push_xyz(out: &mut String, c: &Coords)
    ensures
        final(out)@ == old(out)@ + xyz(c3(*c)),
{
    let ghost o = out@;
    out.append(c.0.as_str());
    out.append(" ");
    out.append(c.1.as_str());
    out.append(" ");
    out.append(c.2.as_str());
    assert(out@ =~= o + xyz(c3(*c)));
}

fn push_surface_words(out: &mut String, s: &XtSurfaceText)
    ensures
        final(out)@ == old(out)@ + surface_words(*s),
{
    let ghost o = out@;
    match s {
        XtSurfaceText::Plane { normal } => {
            out.append("plane 0 0 0 ");
            push_xyz(out, normal);
        },
        XtSurfaceText::Cylinder { origin, axis, radius } => {
            out.append("cylinder ");
            push_xyz(out, origin);
            out.append(" ");
            push_xyz(out, axis);
            out.append(" ");
            out.append(radius.as_str());
        },
        XtSurfaceText::Sphere { center, radius } => {
            out.append("sphere ");
            push_xyz(out, center);
            out.append(" ");
            out.append(radius.as_str());
        },
        XtSurfaceText::Cone { apex, axis, half_angle } => {
            out.append("cone ");
            push_xyz(out, apex);
            out.append(" ");
            push_xyz(out, axis);
            out.append(" ");
            out.append(half_angle.as_str());
        },
        XtSurfaceText::Torus { center, axis, major_radius, minor_radius } => {
            out.append("torus ");
            push_xyz(out, center);
            out.append(" ");
            push_xyz(out, axis);
            out.append(" ");
            out.append(major_radius.as_str());
            out.append(" ");
            out.append(minor_radius.as_str());
        },
        XtSurfaceText::Nurbs => {
            out.append("bsurface");
        },
    }
    assert(out@ =~= o + surface_words(*s));
}

pub open spec fn coords_views(v: Seq<Coords>) -> Seq<(Seq<char>, Seq<char>, Seq<char>)> {
    v.map_values(|c: Coords| c3(c))
}

/// Writes a solid as XT text: each vertex a numbered `point` line, then
/// each face a numbered line of its surface, numbered on from the points.
pub fn write_xt_text(name: &str, points: &Vec<Coords>, surfaces: &Vec<XtSurfaceText>) -> (r: String)
    requires
        points@.len() + surfaces@.len() < u64::MAX,
    ensures
        r@ == xt_text(name@, coords_views(points@), surfaces@),
{
    let mut out = String::new();
    out.append("**PART\n** ");
    out.append(name);
    out.append(" - Parasolid XT generated by OpenIE\n**SCH 30.0\n**HEADER\n");
    let ghost head = out@;
    let ghost pv = coords_views(points@);
    let mut id: u64 = 1;
    let mut k: usize = 0;
    while k < points.len()
        invariant
            k <= points@.len(),
            points@.len() + surfaces@.len() < u64::MAX,
            id == 1 + k,
            pv == coords_views(points@),
            out@ == head + point_lines(pv.take(k as int), 1),
        decreases points.len() - k,
    {
        assert(pv.take(k + 1).drop_last() =~= pv.take(k as int));
        assert(pv.take(k + 1).last() == c3(points@[k as int]));
        push_dec(&mut out, id);
        out.append(" point ");
        push_xyz(&mut out, &points[k]);
        out.append("\n");
        assert(out@ =~= head + point_lines(pv.take(k + 1), 1));
        id = id + 1;
        k = k + 1;
    }
    assert(pv.take(points@.len() as int) =~= pv);
    let ghost mid = out@;
    let mut j: usize = 0;
    while j < surfaces.len()
        invariant
            j <= surfaces@.len(),
            points@.len() + surfaces@.len() < u64::MAX,
            id == 1 + points@.len() + j,
            out@ == mid + surface_lines(surfaces@.take(j as int), (1 + points@.len()) as nat),
        decreases surfaces.len() - j,
    {
        assert(surfaces@.take(j + 1).drop_last() =~= surfaces@.take(j as int));
        assert(surfaces@.take(j + 1).last() == surfaces@[j as int]);
        push_dec(&mut out, id);
        out.append(" ");
        push_surface_words(&mut out, &surfaces[j]);
        out.append("\n");
        assert(out@ =~= mid + surface_lines(surfaces@.take(j + 1), (1 + points@.len()) as nat));
        id = id + 1;
        j = j + 1;
    }
    assert(surfaces@.take(surfaces@.len() as int) =~= surfaces@);
    out.append("**END\n");
    out
}

} // verus!
