//! The STEP AP203 writer: the header and product entities, one
//! CARTESIAN_POINT per vertex, one EDGE_LOOP / FACE_OUTER_BOUND /
//! ADVANCED_FACE triple per face, and the shell and solid that gather them,
//! with entity numbers handed out in order. Coordinates travel as text.
use vstd::prelude::*;
use crate::text::{dec, push_dec, push_char};

verus! {

/// `#` and the entity number.
pub open spec fn ref_text(id: nat) -> Seq<char> {
    seq!['#'] + dec(id)
}

/// References separated by commas.
pub open spec fn refs_joined(ids: Seq<nat>) -> Seq<char>
    decreases ids.len(),
{
    if ids.len() == 0 {
        Seq::empty()
    } else if ids.len() == 1 {
        ref_text(ids[0])
    } else {
        refs_joined(ids.drop_last()) + seq![','] + ref_text(ids.last())
    }
}

/// The number of the first vertex's point entity; the solid and its shell
/// take the two numbers before it.
pub open spec fn first_point_id() -> nat {
    12
}

/// The point entity of a vertex.
pub open spec fn point_line(id: nat, p: (Seq<char>, Seq<char>, Seq<char>)) -> Seq<char> {
    ref_text(id) + "=CARTESIAN_POINT('',("@ + p.0 + seq![','] + p.1 + seq![','] + p.2 + "));\n"@
}

/// The point entities of the vertices, numbered from `first`.
pub open spec fn point_lines(pts: Seq<(Seq<char>, Seq<char>, Seq<char>)>, first: nat) -> Seq<char>
    decreases pts.len(),
{
    if pts.len() == 0 {
        Seq::empty()
    } else {
        point_lines(pts.drop_last(), first) + point_line((first + pts.len() - 1) as nat, pts.last())
    }
}

/// The number of face `k`'s ADVANCED_FACE; its bound and loop follow it.
pub open spec fn face_id(np: nat, k: nat) -> nat {
    first_point_id() + np + 3 * k
}

/// The point entities a face's loop refers to.
pub open spec fn loop_refs(verts: Seq<usize>) -> Seq<nat> {
    verts.map_values(|v: usize| (first_point_id() + v) as nat)
}

/// The three entities of face `k`: its edge loop of vertex points, the
/// outer bound on that loop, and the face on the bound (the loop standing
/// for the surface).
pub open spec fn face_lines(np: nat, k: nat, verts: Seq<usize>) -> Seq<char> {
    face_lines_at(face_id(np, k), verts)
}

/// The three entities of a face whose ADVANCED_FACE is number `f`.
pub open spec fn face_lines_at(f: nat, verts: Seq<usize>) -> Seq<char> {
    ref_text(f + 2) + "=EDGE_LOOP('', ("@ + refs_joined(loop_refs(verts)) + ") );\n"@
        + ref_text(f + 1) + "=FACE_OUTER_BOUND('',"@ + ref_text(f + 2) + ", .T.);\n"@
        + ref_text(f) + "=ADVANCED_FACE('',("@ + ref_text(f + 1) + "),"@ + ref_text(f + 2) + ",.T.);\n"@
}

/// The entities of the faces, in order.
pub open spec fn faces_lines(np: nat, faces: Seq<Seq<usize>>) -> Seq<char>
    decreases faces.len(),
{
    if faces.len() == 0 {
        Seq::empty()
    } else {
        faces_lines(np, faces.drop_last()) + face_lines(np, (faces.len() - 1) as nat, faces.last())
    }
}

/// The face numbers, in order.
pub open spec fn face_ids(np: nat, nf: nat) -> Seq<nat> {
    Seq::new(nf, |k: int| face_id(np, k as nat))
}

/// The header section and the product entities #1 to #7.
pub open spec fn ap203_head(name: Seq<char>) -> Seq<char> {
    "ISO-10303-21;\nHEADER;\nFILE_DESCRIPTION(('Physical CAD export'),'2;1');\nFILE_NAME('"@ + name
        + ".step','2025-01-01',('Physical'),('OpenIE'),'physical-emit-step','Physical CAD','');\nFILE_SCHEMA(('AUTOMOTIVE_DESIGN'));\nENDSEC;\nDATA;\n#1=APPLICATION_CONTEXT('automotive design');\n#2=APPLICATION_PROTOCOL_DEFINITION('international standard','automotive_design',2001,#1);\n#3=PRODUCT('"@
        + name + "','"@ + name + "','',(#4));\n#4=PRODUCT_CONTEXT('',#1,'mechanical');\n#5=PRODUCT_DEFINITION_FORMATION('','',#3);\n#6=PRODUCT_DEFINITION('design','',#5,#7);\n#7=PRODUCT_DEFINITION_CONTEXT('part definition',#1,'design');\n"@
}

/// A STEP AP203 file of a solid: its name, its vertices' coordinates as
/// text, its faces as lists of vertex positions, and the summary comment
/// written before the end.
pub open spec fn ap203_text(
    name: Seq<char>,
    pts: Seq<(Seq<char>, Seq<char>, Seq<char>)>,
    faces: Seq<Seq<usize>>,
    summary: Seq<char>,
) -> Seq<char> {
    ap203_head(name) + point_lines(pts, first_point_id()) + faces_lines(pts.len(), faces)
        + "#11=CLOSED_SHELL('', ("@ + refs_joined(face_ids(pts.len(), faces.len())) + ") );\n"@
        + "#10=MANIFOLD_SOLID_BREP('"@ + name + "',#11);\n"@ + summary + "ENDSEC;\nEND-ISO-10303-21;\n"@
}

/// The texts of the coordinates of a list of points.
pub open spec fn coord_texts(pts: Seq<(String, String, String)>) -> Seq<(Seq<char>, Seq<char>, Seq<char>)> {
    pts.map_values(|p: (String, String, String)| (p.0@, p.1@, p.2@))
}

/// The vertex lists of the faces.
pub open spec fn face_lists(faces: Seq<Vec<usize>>) -> Seq<Seq<usize>> {
    faces.map_values(|f: Vec<usize>| f@)
}

/// Appends `#` and an entity number.
pub fn push_ref(out: &mut String, id: u64)
    ensures
        final(out)@ == old(out)@ + ref_text(id as nat),
{
    push_char(out, '#');
    push_dec(out, id);
    assert(final(out)@ =~= old(out)@ + ref_text(id as nat));
}

/// Appends entity references separated by commas.
pub fn push_refs(out: &mut String, ids: &Vec<u64>)
    ensures
        final(out)@ == old(out)@ + refs_joined(ids@.map_values(|i: u64| i as nat)),
{
    let ghost ns = ids@.map_values(|i: u64| i as nat);
    let ghost o = out@;
    let mut k: usize = 0;
    while k < ids.len()
        invariant
            k <= ids@.len(),
            ns == ids@.map_values(|i: u64| i as nat),
            out@ == o + refs_joined(ns.take(k as int)),
        decreases ids.len() - k,
    {
        assert(ns.take(k + 1).drop_last() =~= ns.take(k as int));
        assert(ns.take(k + 1).last() == ids@[k as int] as nat);
        if k > 0 {
            push_char(out, ',');
        }
        push_ref(out, ids[k]);
        assert(out@ =~= o + refs_joined(ns.take(k + 1)));
        k = k + 1;
    }
    assert(ns.take(ns.len() as int) =~= ns);
}

fn push_point(out: &mut String, id: u64, p: &(String, String, String))
    ensures
        final(out)@ == old(out)@ + point_line(id as nat, (p.0@, p.1@, p.2@)),
{
    let ghost o = out@;
    push_ref(out, id);
    out.append("=CARTESIAN_POINT('',(");
    out.append(p.0.as_str());
    push_char(out, ',');
    out.append(p.1.as_str());
    push_char(out, ',');
    out.append(p.2.as_str());
    out.append("));\n");
    assert(out@ =~= o + point_line(id as nat, (p.0@, p.1@, p.2@)));
}

fn push_face(out: &mut String, f: u64, verts: &Vec<usize>)
    requires
        f + 2 <= u64::MAX,
        forall|i: int| 0 <= i < verts@.len() ==> verts@[i] + 12 <= u64::MAX,
    ensures
        final(out)@ == old(out)@ + face_lines_at(f as nat, verts@),
{
    let ghost o = out@;
    let mut refs: Vec<u64> = Vec::new();
    let mut i: usize = 0;
    while i < verts.len()
        invariant
            i <= verts@.len(),
            forall|j: int| 0 <= j < verts@.len() ==> verts@[j] + 12 <= u64::MAX,
            refs@.len() == i,
            forall|j: int| 0 <= j < i ==> refs@[j] == verts@[j] + 12,
        decreases verts.len() - i,
    {
        refs.push(verts[i] as u64 + 12);
        i = i + 1;
    }
    assert(refs@.map_values(|i: u64| i as nat) =~= loop_refs(verts@));
    push_ref(out, f + 2);
    out.append("=EDGE_LOOP('', (");
    push_refs(out, &refs);
    out.append(") );\n");
    push_ref(out, f + 1);
    out.append("=FACE_OUTER_BOUND('',");
    push_ref(out, f + 2);
    out.append(", .T.);\n");
    push_ref(out, f);
    out.append("=ADVANCED_FACE('',(");
    push_ref(out, f + 1);
    out.append("),");
    push_ref(out, f + 2);
    out.append(",.T.);\n");
    assert(out@ =~= o + face_lines_at(f as nat, verts@));
}

fn push_head(out: &mut String, name: &str)
    ensures
        final(out)@ == old(out)@ + ap203_head(name@),
{
    let ghost o = out@;
    out.append("ISO-10303-21;\nHEADER;\nFILE_DESCRIPTION(('Physical CAD export'),'2;1');\nFILE_NAME('");
    out.append(name);
    out.append(".step','2025-01-01',('Physical'),('OpenIE'),'physical-emit-step','Physical CAD','');\nFILE_SCHEMA(('AUTOMOTIVE_DESIGN'));\nENDSEC;\nDATA;\n#1=APPLICATION_CONTEXT('automotive design');\n#2=APPLICATION_PROTOCOL_DEFINITION('international standard','automotive_design',2001,#1);\n#3=PRODUCT('");
    out.append(name);
    out.append("','");
    out.append(name);
    out.append("','',(#4));\n#4=PRODUCT_CONTEXT('',#1,'mechanical');\n#5=PRODUCT_DEFINITION_FORMATION('','',#3);\n#6=PRODUCT_DEFINITION('design','',#5,#7);\n#7=PRODUCT_DEFINITION_CONTEXT('part definition',#1,'design');\n");
    assert(out@ =~= o + ap203_head(name@));
}

/// Writes a solid as STEP AP203 text: `points` are its vertices'
/// coordinates as text, `faces` list each face's vertices by position in
/// `points`, and `summary` is the comment line written before the end.
pub fn write_step_ap203_text(
    name: &str,
    points: &Vec<(String, String, String)>,
    faces: &Vec<Vec<usize>>,
    summary: &str,
) -> (r: String)
    requires
        12 + points@.len() + 3 * faces@.len() <= u64::MAX,
        forall|k: int, i: int| 0 <= k < faces@.len() && 0 <= i < faces@[k]@.len()
            ==> #[trigger] faces@[k]@[i] < points@.len(),
    ensures
        r@ == ap203_text(name@, coord_texts(points@), face_lists(faces@), summary@),
{
    let ghost pts = coord_texts(points@);
    let ghost fl = face_lists(faces@);
    let mut s = String::new();
    push_head(&mut s, name);
    let ghost head = s@;
    let np = points.len();
    let mut i: usize = 0;
    while i < np
        invariant
            i <= np == points@.len(),
            12 + points@.len() + 3 * faces@.len() <= u64::MAX,
            pts == coord_texts(points@),
            s@ == head + point_lines(pts.take(i as int), 12),
        decreases np - i,
    {
        assert(pts.take(i + 1).drop_last() =~= pts.take(i as int));
        assert(pts[i as int] == (points@[i as int].0@, points@[i as int].1@, points@[i as int].2@));
        push_point(&mut s, 12u64 + i as u64, &points[i]);
        assert(s@ =~= head + point_lines(pts.take(i + 1), 12));
        i = i + 1;
    }
    assert(pts.take(pts.len() as int) =~= pts);
    let ghost mid = s@;
    let mut face_ids_v: Vec<u64> = Vec::new();
    let mut k: usize = 0;
    while k < faces.len()
        invariant
            k <= faces@.len(),
            np == points@.len(),
            12 + points@.len() + 3 * faces@.len() <= u64::MAX,
            fl == face_lists(faces@),
            forall|a: int, b: int| 0 <= a < faces@.len() && 0 <= b < faces@[a]@.len()
                ==> #[trigger] faces@[a]@[b] < points@.len(),
            s@ == mid + faces_lines(np as nat, fl.take(k as int)),
            face_ids_v@.len() == k,
            forall|j: int| 0 <= j < k ==> face_ids_v@[j] == face_id(np as nat, j as nat),
        decreases faces.len() - k,
    {
        let f = 12u64 + np as u64 + 3 * (k as u64);
        assert(fl.take(k + 1).drop_last() =~= fl.take(k as int));
        assert(fl[k as int] == faces@[k as int]@);
        assert forall|j: int| 0 <= j < faces@[k as int]@.len() implies faces@[k as int]@[j] + 12 <= u64::MAX by {
            assert(faces@[k as int]@[j] < points@.len());
        }
        push_face(&mut s, f, &faces[k]);
        face_ids_v.push(f);
        assert(s@ =~= mid + faces_lines(np as nat, fl.take(k + 1)));
        k = k + 1;
    }
    assert(fl.take(fl.len() as int) =~= fl);
    let ghost before_shell = s@;
    s.append("#11=CLOSED_SHELL('', (");
    push_refs(&mut s, &face_ids_v);
    assert(face_ids_v@.map_values(|i: u64| i as nat) =~= face_ids(np as nat, faces@.len()));
    s.append(") );\n");
    s.append("#10=MANIFOLD_SOLID_BREP('");
    s.append(name);
    s.append("',#11);\n");
    s.append(summary);
    s.append("ENDSEC;\nEND-ISO-10303-21;\n");
    assert(s@ =~= ap203_text(name@, pts, fl, summary@));
    s
}

} // verus!
