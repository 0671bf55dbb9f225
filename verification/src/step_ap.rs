//! The STEP writers with surfaces: AP214 with per-face colours, AP242 with
//! GD&T and dimension annotations, and assemblies of placed parts linked by
//! NEXT_ASSEMBLY_USAGE_OCCURRENCE. Entity numbers are handed out in order
//! from a counter; real numbers travel as text.
use vstd::prelude::*;
use crate::text::{dec, push_dec, push_char};
use crate::step::{GdtCharacteristic, MaterialCondition, DimensionType, gdt_entity_name,
    material_condition_label, dimension_type_label};
use crate::step_write::{ref_text, refs_joined, push_ref, push_refs};
use crate::step_entities::{Coords, c3, FaceText, Placement3, coords_view, geometry_text, geometry_end,
    face_numbers, corners_in_range, push_geometry, placement_text, placement_lines, origin_text,
    z_axis_text, y_axis_text, push_placement, push_identity_placement};

verus! {

/// The header section and the product entities #1 to #8 of a single-part
/// file, given its description, schema and protocol lines.
pub open spec fn part_head(desc: Seq<char>, schema: Seq<char>, protocol: Seq<char>, name: Seq<char>) -> Seq<char> {
    "ISO-10303-21;\nHEADER;\n"@ + desc + "FILE_NAME('"@ + name
        + ".step','2025-01-01',('Physical'),('OpenIE'),'physical-emit-step','Physical CAD','');\n"@ + schema
        + "ENDSEC;\nDATA;\n#1=APPLICATION_CONTEXT('automotive design');\n"@ + protocol + "#3=PRODUCT('"@ + name
        + "','"@ + name
        + "','',(#4));\n#4=PRODUCT_CONTEXT('',#1,'mechanical');\n#5=PRODUCT_DEFINITION_FORMATION('1','version 1',#3);\n#6=PRODUCT_DEFINITION('design','',#5,#7);\n#7=PRODUCT_DEFINITION_CONTEXT('part definition',#1,'design');\n#8=PRODUCT_DEFINITION_SHAPE('','',#6);\n"@
}

pub open spec fn ap214_head(name: Seq<char>) -> Seq<char> {
    part_head(
        "FILE_DESCRIPTION(('Physical CAD AP214 export'),'2;1');\n"@,
        "FILE_SCHEMA(('AUTOMOTIVE_DESIGN'));\n"@,
        "#2=APPLICATION_PROTOCOL_DEFINITION('international standard','automotive_design',2003,#1);\n"@,
        name,
    )
}

pub open spec fn ap242_head(name: Seq<char>) -> Seq<char> {
    part_head(
        "FILE_DESCRIPTION(('Physical CAD AP242 export'),'2;1');\n"@,
        "FILE_SCHEMA(('AUTOMOTIVE_DESIGN { 1 0 10303 442 1 1 4 }'));\n"@,
        "#2=APPLICATION_PROTOCOL_DEFINITION('international standard','automotive_design',2011,#1);\n"@,
        name,
    )
}

/// The geometric context #9 of a single-part file: millimetres, radians,
/// steradians.
pub open spec fn context_9() -> Seq<char> {
    "#9=( GEOMETRIC_REPRESENTATION_CONTEXT(3) GLOBAL_UNCERTAINTY_ASSIGNED_CONTEXT((#9a)) GLOBAL_UNIT_ASSIGNED_CONTEXT((#9b,#9c,#9d)) REPRESENTATION_CONTEXT('','3D') );\n#9a=UNCERTAINTY_MEASURE_WITH_UNIT(LENGTH_MEASURE(1.E-07),#9b,'distance_accuracy_value','');\n#9b=( CONVERSION_BASED_UNIT('MILLIMETRE',#9e) LENGTH_UNIT() NAMED_UNIT(#9f) );\n#9c=( NAMED_UNIT(#9g) PLANE_ANGLE_UNIT() SI_UNIT($,.RADIAN.) );\n#9d=( NAMED_UNIT(#9h) SI_UNIT($,.STERADIAN.) SOLID_ANGLE_UNIT() );\n#9e=LENGTH_MEASURE_WITH_UNIT(LENGTH_MEASURE(1.0),#9i);\n#9f=DIMENSIONAL_EXPONENTS(1.0,0.0,0.0,0.0,0.0,0.0,0.0);\n#9g=DIMENSIONAL_EXPONENTS(0.0,0.0,0.0,0.0,0.0,0.0,0.0);\n#9h=DIMENSIONAL_EXPONENTS(0.0,0.0,0.0,0.0,0.0,0.0,0.0);\n#9i=( LENGTH_UNIT() NAMED_UNIT(#9f) SI_UNIT(.MILLI.,.METRE.) );\n"@
}

/// The number of a single-part file's solid; its shell and points follow.
pub open spec fn solid_id() -> nat {
    20
}

/// After the geometry (which ends before `g`): the shape representation
/// `g` of the solid, the context #9, and the shape definition
/// representation `g + 1` linking #8 to it.
pub open spec fn shape_tail(g: nat, name: Seq<char>) -> Seq<char> {
    ref_text(g) + "=SHAPE_REPRESENTATION('"@ + name + "',("@ + ref_text(solid_id()) + "),#9);\n"@ + context_9()
        + ref_text(g + 1) + "=SHAPE_DEFINITION_REPRESENTATION(#8,"@ + ref_text(g) + ");\n"@
}

/// The closing lines of every file.
pub open spec fn file_end() -> Seq<char> {
    "ENDSEC;\nEND-ISO-10303-21;\n"@
}

/// The eight entities numbered from `id` that colour the face `face`:
/// COLOUR_RGB, FILL_AREA_STYLE_COLOUR, FILL_AREA_STYLE,
/// SURFACE_STYLE_FILL_AREA, SURFACE_SIDE_STYLE, SURFACE_STYLE_USAGE,
/// PRESENTATION_STYLE_ASSIGNMENT and STYLED_ITEM.
pub open spec fn styled_block(id: nat, face: nat, rgb: (Seq<char>, Seq<char>, Seq<char>)) -> Seq<char> {
    fill_lines(id, rgb) + usage_lines(id, face)
}

/// The colour `id` and the fill-area entities `id + 1` to `id + 3`.
pub open spec fn fill_lines(id: nat, rgb: (Seq<char>, Seq<char>, Seq<char>)) -> Seq<char> {
    ref_text(id) + "=COLOUR_RGB('',"@ + rgb.0 + seq![','] + rgb.1 + seq![','] + rgb.2 + ");\n"@ + ref_text(id + 1)
        + "=FILL_AREA_STYLE_COLOUR('',"@ + ref_text(id) + ");\n"@ + ref_text(id + 2) + "=FILL_AREA_STYLE('',("@
        + ref_text(id + 1) + "));\n"@ + ref_text(id + 3) + "=SURFACE_STYLE_FILL_AREA("@ + ref_text(id + 2) + ");\n"@
}

/// The side style, usage, style assignment and styled item `id + 4` to
/// `id + 7`, the last on the face.
pub open spec fn usage_lines(id: nat, face: nat) -> Seq<char> {
    ref_text(id + 4) + "=SURFACE_SIDE_STYLE('',("@ + ref_text(id + 3) + "));\n"@ + ref_text(id + 5)
        + "=SURFACE_STYLE_USAGE(.BOTH.,"@ + ref_text(id + 4) + ");\n"@ + ref_text(id + 6)
        + "=PRESENTATION_STYLE_ASSIGNMENT(("@ + ref_text(id + 5) + "));\n"@ + ref_text(id + 7) + "=STYLED_ITEM('',("@
        + ref_text(id + 6) + "),"@ + ref_text(face) + ");\n"@
}

/// The first number after the colour assignments, numbered from `start`;
/// an assignment to a face past the last (`nf` faces) takes none.
pub open spec fn colours_end(start: nat, cs: Seq<(usize, Coords)>, nf: nat) -> nat
    decreases cs.len(),
{
    if cs.len() == 0 {
        start
    } else {
        colours_end(start, cs.drop_last(), nf) + if cs.last().0 < nf {
            8nat
        } else {
            0nat
        }
    }
}

/// The colour assignments, in order; each colours the face whose
/// ADVANCED_FACE number stands at its position in `fids`, and one whose
/// position is past the last face writes nothing.
pub open spec fn colours_text(start: nat, cs: Seq<(usize, Coords)>, fids: Seq<nat>) -> Seq<char>
    decreases cs.len(),
{
    if cs.len() == 0 {
        Seq::empty()
    } else {
        colours_text(start, cs.drop_last(), fids) + if cs.last().0 < fids.len() {
            styled_block(colours_end(start, cs.drop_last(), fids.len()), fids[cs.last().0 as int], c3(cs.last().1))
        } else {
            Seq::empty()
        }
    }
}

/// A STEP AP214 file of a solid: its name, its points, its faces with
/// their surfaces, the colours of some faces (by position), and the
/// summary comment written before the end.
pub open spec fn ap214_text(
    name: Seq<char>,
    pts: Seq<Coords>,
    fs: Seq<FaceText>,
    colours: Seq<(usize, Coords)>,
    summary: Seq<char>,
) -> Seq<char> {
    let g = geometry_end(solid_id(), pts.len(), fs);
    ap214_head(name) + geometry_text(solid_id(), name, coords_view(pts), fs) + shape_tail(g, name) + colours_text(
        g + 2,
        colours,
        face_numbers(solid_id() + 2 + pts.len(), fs),
    ) + summary + file_end()
}

#[verifier::rlimit(50)]
fn push_part_head(out: &mut String, desc: &str, schema: &str, protocol: &str, name: &str)
    ensures
        final(out)@ == old(out)@ + part_head(desc@, schema@, protocol@, name@),
{
    let ghost o = out@;
    out.append("ISO-10303-21;\nHEADER;\n");
    out.append(desc);
    out.append("FILE_NAME('");
    out.append(name);
    out.append(".step','2025-01-01',('Physical'),('OpenIE'),'physical-emit-step','Physical CAD','');\n");
    out.append(schema);
    out.append("ENDSEC;\nDATA;\n#1=APPLICATION_CONTEXT('automotive design');\n");
    out.append(protocol);
    out.append("#3=PRODUCT('");
    out.append(name);
    out.append("','");
    out.append(name);
    out.append("','',(#4));\n#4=PRODUCT_CONTEXT('',#1,'mechanical');\n#5=PRODUCT_DEFINITION_FORMATION('1','version 1',#3);\n#6=PRODUCT_DEFINITION('design','',#5,#7);\n#7=PRODUCT_DEFINITION_CONTEXT('part definition',#1,'design');\n#8=PRODUCT_DEFINITION_SHAPE('','',#6);\n");
    assert(out@ =~= o + part_head(desc@, schema@, protocol@, name@));
}

#[verifier::rlimit(50)]
fn push_shape_tail(out: &mut String, g: u64, name: &str)
    requires
        g + 1 <= u64::MAX,
    ensures
        final(out)@ == old(out)@ + shape_tail(g as nat, name@),
{
    let ghost o = out@;
    push_ref(out, g);
    out.append("=SHAPE_REPRESENTATION('");
    out.append(name);
    out.append("',(");
    push_ref(out, 20);
    out.append("),#9);\n");
    out.append("#9=( GEOMETRIC_REPRESENTATION_CONTEXT(3) GLOBAL_UNCERTAINTY_ASSIGNED_CONTEXT((#9a)) GLOBAL_UNIT_ASSIGNED_CONTEXT((#9b,#9c,#9d)) REPRESENTATION_CONTEXT('','3D') );\n#9a=UNCERTAINTY_MEASURE_WITH_UNIT(LENGTH_MEASURE(1.E-07),#9b,'distance_accuracy_value','');\n#9b=( CONVERSION_BASED_UNIT('MILLIMETRE',#9e) LENGTH_UNIT() NAMED_UNIT(#9f) );\n#9c=( NAMED_UNIT(#9g) PLANE_ANGLE_UNIT() SI_UNIT($,.RADIAN.) );\n#9d=( NAMED_UNIT(#9h) SI_UNIT($,.STERADIAN.) SOLID_ANGLE_UNIT() );\n#9e=LENGTH_MEASURE_WITH_UNIT(LENGTH_MEASURE(1.0),#9i);\n#9f=DIMENSIONAL_EXPONENTS(1.0,0.0,0.0,0.0,0.0,0.0,0.0);\n#9g=DIMENSIONAL_EXPONENTS(0.0,0.0,0.0,0.0,0.0,0.0,0.0);\n#9h=DIMENSIONAL_EXPONENTS(0.0,0.0,0.0,0.0,0.0,0.0,0.0);\n#9i=( LENGTH_UNIT() NAMED_UNIT(#9f) SI_UNIT(.MILLI.,.METRE.) );\n");
    push_ref(out, g + 1);
    out.append("=SHAPE_DEFINITION_REPRESENTATION(#8,");
    push_ref(out, g);
    out.append(");\n");
    assert(out@ =~= o + shape_tail(g as nat, name@));
}

#[verifier::rlimit(50)]
fn push_fill_lines(out: &mut String, id: u64, rgb: &Coords)
    requires
        id + 3 <= u64::MAX,
    ensures
        final(out)@ == old(out)@ + fill_lines(id as nat, c3(*rgb)),
{
    let ghost o = out@;
    push_ref(out, id);
    out.append("=COLOUR_RGB('',");
    out.append(rgb.0.as_str());
    push_char(out, ',');
    out.append(rgb.1.as_str());
    push_char(out, ',');
    out.append(rgb.2.as_str());
    out.append(");\n");
    push_ref(out, id + 1);
    out.append("=FILL_AREA_STYLE_COLOUR('',");
    push_ref(out, id);
    out.append(");\n");
    push_ref(out, id + 2);
    out.append("=FILL_AREA_STYLE('',(");
    push_ref(out, id + 1);
    out.append("));\n");
    push_ref(out, id + 3);
    out.append("=SURFACE_STYLE_FILL_AREA(");
    push_ref(out, id + 2);
    out.append(");\n");
    assert(out@ =~= o + fill_lines(id as nat, c3(*rgb)));
}

#[verifier::rlimit(50)]
fn push_usage_lines(out: &mut String, id: u64, face: u64)
    requires
        id + 7 <= u64::MAX,
    ensures
        final(out)@ == old(out)@ + usage_lines(id as nat, face as nat),
{
    let ghost o = out@;
    push_ref(out, id + 4);
    out.append("=SURFACE_SIDE_STYLE('',(");
    push_ref(out, id + 3);
    out.append("));\n");
    push_ref(out, id + 5);
    out.append("=SURFACE_STYLE_USAGE(.BOTH.,");
    push_ref(out, id + 4);
    out.append(");\n");
    push_ref(out, id + 6);
    out.append("=PRESENTATION_STYLE_ASSIGNMENT((");
    push_ref(out, id + 5);
    out.append("));\n");
    push_ref(out, id + 7);
    out.append("=STYLED_ITEM('',(");
    push_ref(out, id + 6);
    out.append("),");
    push_ref(out, face);
    out.append(");\n");
    assert(out@ =~= o + usage_lines(id as nat, face as nat));
}

fn push_styled(out: &mut String, id: u64, face: u64, rgb: &Coords)
    requires
        id + 7 <= u64::MAX,
    ensures
        final(out)@ == old(out)@ + styled_block(id as nat, face as nat, c3(*rgb)),
{
    let ghost o = out@;
    push_fill_lines(out, id, rgb);
    push_usage_lines(out, id, face);
    assert(out@ =~= o + styled_block(id as nat, face as nat, c3(*rgb)));
}

pub proof fn lemma_colours_end_prefix(start: nat, cs: Seq<(usize, Coords)>, nf: nat, k: int)
    requires
        0 <= k < cs.len(),
    ensures
        colours_end(start, cs.take(k + 1), nf) == colours_end(start, cs.take(k), nf) + if cs[k].0 < nf {
            8nat
        } else {
            0nat
        },
        colours_end(start, cs.take(k + 1), nf) <= colours_end(start, cs, nf),
    decreases cs.len(),
{
    assert(cs.take(k + 1).drop_last() =~= cs.take(k));
    if k + 1 < cs.len() {
        lemma_colours_end_prefix(start, cs.drop_last(), nf, k);
        assert(cs.drop_last().take(k) =~= cs.take(k));
        assert(cs.drop_last().take(k + 1) =~= cs.take(k + 1));
    } else {
        assert(cs.take(k + 1) =~= cs);
    }
}

/// Appends the colour assignments numbered from `start`; gives the first
/// number after them.
fn push_colours(out: &mut String, start: u64, cs: &Vec<(usize, Coords)>, fids: &Vec<u64>) -> (r: u64)
    requires
        colours_end(start as nat, cs@, fids@.len()) <= u64::MAX,
    ensures
        final(out)@ == old(out)@ + colours_text(start as nat, cs@, fids@.map_values(|i: u64| i as nat)),
        r == colours_end(start as nat, cs@, fids@.len()),
{
    let ghost o = out@;
    let ghost fv = fids@.map_values(|i: u64| i as nat);
    let mut next = start;
    let mut k: usize = 0;
    while k < cs.len()
        invariant
            k <= cs@.len(),
            fv == fids@.map_values(|i: u64| i as nat),
            colours_end(start as nat, cs@, fids@.len()) <= u64::MAX,
            next == colours_end(start as nat, cs@.take(k as int), fids@.len()),
            out@ == o + colours_text(start as nat, cs@.take(k as int), fv),
        decreases cs.len() - k,
    {
        proof {
            lemma_colours_end_prefix(start as nat, cs@, fids@.len(), k as int);
        }
        assert(cs@.take(k + 1).drop_last() =~= cs@.take(k as int));
        assert(cs@.take(k + 1).last() == cs@[k as int]);
        let fi = cs[k].0;
        if fi < fids.len() {
            push_styled(out, next, fids[fi], &cs[k].1);
            next = next + 8;
        }
        assert(out@ =~= o + colours_text(start as nat, cs@.take(k + 1), fv));
        k = k + 1;
    }
    assert(cs@.take(cs@.len() as int) =~= cs@);
    next
}

/// Writes a solid as STEP AP214 text with surfaces and face colours:
/// `points` are its vertices' coordinates as text, `faces` give each
/// face's corners (positions in `points`) and surface, `colours` pair a
/// face position with an RGB triple as text (an assignment to a face past
/// the last writes nothing), and `summary` is the comment line written
/// before the end.
pub fn write_step_ap214_text(
    name: &str,
    points: &Vec<Coords>,
    faces: &Vec<FaceText>,
    colours: &Vec<(usize, Coords)>,
    summary: &str,
) -> (r: String)
    requires
        colours_end(geometry_end(solid_id(), points@.len(), faces@) + 2, colours@, faces@.len()) <= u64::MAX,
        corners_in_range(faces@, points@.len()),
    ensures
        r@ == ap214_text(name@, points@, faces@, colours@, summary@),
{
    let mut s = String::new();
    push_part_head(
        &mut s,
        "FILE_DESCRIPTION(('Physical CAD AP214 export'),'2;1');\n",
        "FILE_SCHEMA(('AUTOMOTIVE_DESIGN'));\n",
        "#2=APPLICATION_PROTOCOL_DEFINITION('international standard','automotive_design',2003,#1);\n",
        name,
    );
    let ghost h = s@;
    proof {
        lemma_colours_end_ge(geometry_end(solid_id(), points@.len(), faces@) + 2, colours@, faces@.len());
    }
    let (fids, g) = push_geometry(&mut s, 20, name, points, faces);
    let ghost gt = s@;
    push_shape_tail(&mut s, g, name);
    let ghost st = s@;
    let _ = push_colours(&mut s, g + 2, colours, &fids);
    let ghost ct = s@;
    s.append(summary);
    s.append("ENDSEC;\nEND-ISO-10303-21;\n");
    assert(s@ =~= ap214_text(name@, points@, faces@, colours@, summary@));
    s
}

pub proof fn lemma_colours_end_ge(start: nat, cs: Seq<(usize, Coords)>, nf: nat)
    ensures
        start <= colours_end(start, cs, nf),
    decreases cs.len(),
{
    if cs.len() > 0 {
        lemma_colours_end_ge(start, cs.drop_last(), nf);
    }
}


/// A GD&T callout as text: its characteristic, its tolerance value, its
/// datum labels in precedence order, its material condition, and the
/// position of the face it applies to.
pub struct GdtText {
    pub characteristic: GdtCharacteristic,
    pub tolerance: String,
    pub datum_refs: Vec<String>,
    pub material_condition: Option<MaterialCondition>,
    pub face_index: usize,
}

/// A DATUM `d` with its label and the DATUM_REFERENCE `d + 1` to it with
/// the given precedence.
pub open spec fn datum_pair(d: nat, label: Seq<char>, precedence: nat) -> Seq<char> {
    ref_text(d) + "=DATUM('"@ + label + "','"@ + label + "',#8);\n"@ + ref_text(d + 1) + "=DATUM_REFERENCE("@
        + ref_text(d) + seq![','] + dec(precedence) + ");\n"@
}

/// The datum pairs numbered from `id`, precedence counted from 1.
pub open spec fn datum_lines(id: nat, labels: Seq<Seq<char>>) -> Seq<char>
    decreases labels.len(),
{
    if labels.len() == 0 {
        Seq::empty()
    } else {
        datum_lines(id, labels.drop_last()) + datum_pair(
            id + 2 * (labels.len() - 1) as nat,
            labels.last(),
            labels.len(),
        )
    }
}

/// The numbers of the DATUM_REFERENCE entities among `n` datum pairs from
/// `id`.
pub open spec fn datum_ref_ids(id: nat, n: nat) -> Seq<nat> {
    Seq::new(n, |j: int| (id + 2 * j + 1) as nat)
}

/// How many entity numbers a callout takes.
pub open spec fn gdt_ids(a: GdtText) -> nat {
    let nd = a.datum_refs@.len();
    4 + 2 * nd + (if nd > 0 {
        1nat
    } else {
        0nat
    }) + (if a.material_condition is Some {
        1nat
    } else {
        0nat
    })
}

/// The shape aspect `id` and its relationship `id + 1` to the face.
pub open spec fn aspect_lines(id: nat, face: nat) -> Seq<char> {
    ref_text(id) + "=SHAPE_ASPECT('gdt_target','',#8,.F.);\n"@ + ref_text(id + 1) + "=SHAPE_ASPECT_RELATIONSHIP('','',"@
        + ref_text(id) + seq![','] + ref_text(face) + ");\n"@
}

/// The tolerance zone `t` on the aspect `sa` and the tolerance `t + 1`.
pub open spec fn tolerance_lines(t: nat, sa: nat, entity: Seq<char>, tol: Seq<char>) -> Seq<char> {
    ref_text(t) + "=TOLERANCE_ZONE('',LENGTH_MEASURE("@ + tol + "),"@ + ref_text(sa) + ");\n"@ + ref_text(t + 1)
        + seq!['='] + entity + "('','"@ + tol + "',"@ + ref_text(t) + seq![','] + ref_text(sa) + ");\n"@
}

/// The entities of a callout on the face `face`, numbered from `id`: the
/// aspect and its relationship, the datum pairs, the tolerance zone and
/// tolerance, the reference to the datums when there are any, and the
/// material-condition modifier when there is one.
pub open spec fn gdt_block(id: nat, face: nat, a: GdtText) -> Seq<char> {
    let nd = a.datum_refs@.len();
    let t = id + 2 + 2 * nd;
    aspect_lines(id, face) + datum_lines(id + 2, strings_of(a.datum_refs@)) + tolerance_lines(
        t,
        id,
        gdt_entity_name(a.characteristic),
        a.tolerance@,
    ) + datum_ref_line(t, id + 2, nd) + modifier_line(
        t + 2 + if nd > 0 {
            1nat
        } else {
            0nat
        },
        t + 1,
        a.material_condition,
    )
}

/// With `nd` datums from `d0`: the GEOMETRIC_TOLERANCE_WITH_DATUM_REFERENCE
/// `t + 2` from the tolerance `t + 1` to their references; nothing
/// without datums.
pub open spec fn datum_ref_line(t: nat, d0: nat, nd: nat) -> Seq<char> {
    if nd > 0 {
        ref_text(t + 2) + "=GEOMETRIC_TOLERANCE_WITH_DATUM_REFERENCE("@ + ref_text(t + 1) + ",("@ + refs_joined(
            datum_ref_ids(d0, nd),
        ) + "));\n"@
    } else {
        Seq::empty()
    }
}

/// The material-condition modifier `m` on the tolerance `gt`, if any.
pub open spec fn modifier_line(m: nat, gt: nat, mc: Option<MaterialCondition>) -> Seq<char> {
    match mc {
        Some(c) => ref_text(m) + "=GEOMETRIC_TOLERANCE_WITH_MODIFIERS("@ + ref_text(gt) + seq![','] + material_condition_label(
            c,
        ) + ");\n"@,
        None => Seq::empty(),
    }
}

pub open spec fn strings_of(v: Seq<String>) -> Seq<Seq<char>> {
    v.map_values(|s: String| s@)
}

/// The first number after the callouts, numbered from `start`; a callout
/// on a face past the last (`nf` faces) takes none.
pub open spec fn gdts_end(start: nat, anns: Seq<GdtText>, nf: nat) -> nat
    decreases anns.len(),
{
    if anns.len() == 0 {
        start
    } else {
        gdts_end(start, anns.drop_last(), nf) + if anns.last().face_index < nf {
            gdt_ids(anns.last())
        } else {
            0nat
        }
    }
}

/// The callouts in order; one on a face past the last writes nothing.
pub open spec fn gdts_text(start: nat, anns: Seq<GdtText>, fids: Seq<nat>) -> Seq<char>
    decreases anns.len(),
{
    if anns.len() == 0 {
        Seq::empty()
    } else {
        gdts_text(start, anns.drop_last(), fids) + if anns.last().face_index < fids.len() {
            gdt_block(gdts_end(start, anns.drop_last(), fids.len()), fids[anns.last().face_index as int], anns.last())
        } else {
            Seq::empty()
        }
    }
}

/// A dimension as text: its type, its value, and its plus and minus
/// tolerances where it has them.
pub struct DimensionText {
    pub dim_type: DimensionType,
    pub value: String,
    pub tolerance: Option<(String, String)>,
}

/// A length measure `id` in millimetres (#9b).
pub open spec fn measure_line(id: nat, v: Seq<char>) -> Seq<char> {
    ref_text(id) + "=MEASURE_WITH_UNIT(LENGTH_MEASURE("@ + v + "),#9b);\n"@
}

/// The entities of a dimension numbered from `id`: its aspect, its
/// DIMENSIONAL_SIZE, its value, and with tolerances their two measures and
/// the PLUS_MINUS_TOLERANCE.
pub open spec fn dim_block(id: nat, d: DimensionText) -> Seq<char> {
    dim_head(id, d) + dim_tolerance(id, d.tolerance)
}

/// The aspect `id`, the DIMENSIONAL_SIZE `id + 1` on it, and the value
/// `id + 2`.
pub open spec fn dim_head(id: nat, d: DimensionText) -> Seq<char> {
    ref_text(id) + "=SHAPE_ASPECT('dimension','',#8,.F.);\n"@ + ref_text(id + 1) + "=DIMENSIONAL_SIZE("@ + ref_text(id)
        + ",'"@ + dimension_type_label(d.dim_type) + "');\n"@ + measure_line(id + 2, d.value@)
}

/// With tolerances: the plus and minus measures `id + 3` and `id + 4`, and
/// the PLUS_MINUS_TOLERANCE `id + 5` on the value and them.
pub open spec fn dim_tolerance(id: nat, tol: Option<(String, String)>) -> Seq<char> {
    match tol {
        Some(t) => measure_line(id + 3, t.0@) + measure_line(id + 4, t.1@) + ref_text(id + 5)
            + "=PLUS_MINUS_TOLERANCE("@ + ref_text(id + 2) + seq![','] + ref_text(id + 3) + seq![','] + ref_text(id + 4)
            + ");\n"@,
        None => Seq::empty(),
    }
}

pub open spec fn dim_ids(d: DimensionText) -> nat {
    if d.tolerance is Some {
        6
    } else {
        3
    }
}

pub open spec fn dims_end(start: nat, ds: Seq<DimensionText>) -> nat
    decreases ds.len(),
{
    if ds.len() == 0 {
        start
    } else {
        dims_end(start, ds.drop_last()) + dim_ids(ds.last())
    }
}

pub open spec fn dims_text(start: nat, ds: Seq<DimensionText>) -> Seq<char>
    decreases ds.len(),
{
    if ds.len() == 0 {
        Seq::empty()
    } else {
        dims_text(start, ds.drop_last()) + dim_block(dims_end(start, ds.drop_last()), ds.last())
    }
}

/// A STEP AP242 file of a solid: its name, its points, its faces with
/// their surfaces, its GD&T callouts and dimensions, and the summary
/// comment written before the end.
pub open spec fn ap242_text(
    name: Seq<char>,
    pts: Seq<Coords>,
    fs: Seq<FaceText>,
    anns: Seq<GdtText>,
    dims: Seq<DimensionText>,
    summary: Seq<char>,
) -> Seq<char> {
    let g = geometry_end(solid_id(), pts.len(), fs);
    ap242_head(name) + geometry_text(solid_id(), name, coords_view(pts), fs) + shape_tail(g, name) + gdts_text(
        g + 2,
        anns,
        face_numbers(solid_id() + 2 + pts.len(), fs),
    ) + dims_text(gdts_end(g + 2, anns, fs.len()), dims) + summary + file_end()
}

fn push_aspect_lines(out: &mut String, id: u64, face: u64)
    requires
        id + 1 <= u64::MAX,
    ensures
        final(out)@ == old(out)@ + aspect_lines(id as nat, face as nat),
{
    let ghost o = out@;
    push_ref(out, id);
    out.append("=SHAPE_ASPECT('gdt_target','',#8,.F.);\n");
    push_ref(out, id + 1);
    out.append("=SHAPE_ASPECT_RELATIONSHIP('','',");
    push_ref(out, id);
    push_char(out, ',');
    push_ref(out, face);
    out.append(");\n");
    assert(out@ =~= o + aspect_lines(id as nat, face as nat));
}

fn push_datum_pair(out: &mut String, d: u64, label: &str, precedence: u64)
    requires
        d + 1 <= u64::MAX,
    ensures
        final(out)@ == old(out)@ + datum_pair(d as nat, label@, precedence as nat),
{
    let ghost o = out@;
    push_ref(out, d);
    out.append("=DATUM('");
    out.append(label);
    out.append("','");
    out.append(label);
    out.append("',#8);\n");
    push_ref(out, d + 1);
    out.append("=DATUM_REFERENCE(");
    push_ref(out, d);
    push_char(out, ',');
    push_dec(out, precedence);
    out.append(");\n");
    assert(out@ =~= o + datum_pair(d as nat, label@, precedence as nat));
}

fn push_datum_lines(out: &mut String, id: u64, labels: &Vec<String>)
    requires
        id + 2 * labels@.len() <= u64::MAX,
    ensures
        final(out)@ == old(out)@ + datum_lines(id as nat, strings_of(labels@)),
{
    let ghost o = out@;
    let ghost lv = strings_of(labels@);
    let mut j: usize = 0;
    while j < labels.len()
        invariant
            j <= labels@.len(),
            lv == strings_of(labels@),
            id + 2 * labels@.len() <= u64::MAX,
            out@ == o + datum_lines(id as nat, lv.take(j as int)),
        decreases labels.len() - j,
    {
        assert(lv.take(j + 1).drop_last() =~= lv.take(j as int));
        let d = id + 2 * (j as u64);
        push_datum_pair(out, d, labels[j].as_str(), j as u64 + 1);
        assert(lv[j as int] == labels@[j as int]@);
        assert(out@ =~= o + datum_lines(id as nat, lv.take(j + 1)));
        j = j + 1;
    }
    assert(lv.take(labels@.len() as int) =~= lv);
}

fn push_tolerance_lines(out: &mut String, t: u64, sa: u64, entity: &str, tol: &str)
    requires
        t + 1 <= u64::MAX,
    ensures
        final(out)@ == old(out)@ + tolerance_lines(t as nat, sa as nat, entity@, tol@),
{
    let ghost o = out@;
    push_ref(out, t);
    out.append("=TOLERANCE_ZONE('',LENGTH_MEASURE(");
    out.append(tol);
    out.append("),");
    push_ref(out, sa);
    out.append(");\n");
    push_ref(out, t + 1);
    push_char(out, '=');
    out.append(entity);
    out.append("('','");
    out.append(tol);
    out.append("',");
    push_ref(out, t);
    push_char(out, ',');
    push_ref(out, sa);
    out.append(");\n");
    assert(out@ =~= o + tolerance_lines(t as nat, sa as nat, entity@, tol@));
}

fn push_datum_ref_line(out: &mut String, t: u64, d0: u64, nd: usize)
    requires
        t + 2 <= u64::MAX,
        d0 + 2 * nd <= u64::MAX,
    ensures
        final(out)@ == old(out)@ + datum_ref_line(t as nat, d0 as nat, nd as nat),
{
    let ghost o = out@;
    if nd > 0 {
        let mut refs: Vec<u64> = Vec::new();
        let mut j: usize = 0;
        while j < nd
            invariant
                j <= nd,
                d0 + 2 * nd <= u64::MAX,
                refs@.len() == j,
                forall|q: int| 0 <= q < j ==> refs@[q] == d0 + 2 * q + 1,
            decreases nd - j,
        {
            refs.push(d0 + 2 * (j as u64) + 1);
            j = j + 1;
        }
        assert(refs@.map_values(|r: u64| r as nat) =~= datum_ref_ids(d0 as nat, nd as nat));
        push_ref(out, t + 2);
        out.append("=GEOMETRIC_TOLERANCE_WITH_DATUM_REFERENCE(");
        push_ref(out, t + 1);
        out.append(",(");
        push_refs(out, &refs);
        out.append("));\n");
    }
    assert(out@ =~= o + datum_ref_line(t as nat, d0 as nat, nd as nat));
}

fn push_modifier_line(out: &mut String, m: u64, gt: u64, mc: Option<MaterialCondition>)
    ensures
        final(out)@ == old(out)@ + modifier_line(m as nat, gt as nat, mc),
{
    let ghost o = out@;
    match mc {
        Some(c) => {
            push_ref(out, m);
            out.append("=GEOMETRIC_TOLERANCE_WITH_MODIFIERS(");
            push_ref(out, gt);
            push_char(out, ',');
            out.append(c.step_label());
            out.append(");\n");
        },
        None => {},
    }
    assert(out@ =~= o + modifier_line(m as nat, gt as nat, mc));
}

#[verifier::rlimit(50)]
fn push_gdt(out: &mut String, id: u64, face: u64, a: &GdtText)
    requires
        id + gdt_ids(*a) <= u64::MAX,
    ensures
        final(out)@ == old(out)@ + gdt_block(id as nat, face as nat, *a),
{
    let ghost o = out@;
    let nd = a.datum_refs.len();
    push_aspect_lines(out, id, face);
    let ghost s1 = out@;
    push_datum_lines(out, id + 2, &a.datum_refs);
    let ghost s2 = out@;
    let t = id + 2 + 2 * (nd as u64);
    let entity = a.characteristic.step_entity_name();
    push_tolerance_lines(out, t, id, entity, a.tolerance.as_str());
    let ghost s3 = out@;
    push_datum_ref_line(out, t, id + 2, nd);
    let ghost s4 = out@;
    let m = if nd > 0 {
        t + 3
    } else {
        t + 2
    };
    push_modifier_line(out, m, t + 1, a.material_condition);
    let ghost p1 = aspect_lines(id as nat, face as nat);
    let ghost p2 = datum_lines((id + 2) as nat, strings_of(a.datum_refs@));
    let ghost p3 = tolerance_lines(t as nat, id as nat, gdt_entity_name(a.characteristic), a.tolerance@);
    let ghost p4 = datum_ref_line(t as nat, (id + 2) as nat, nd as nat);
    let ghost p5 = modifier_line(m as nat, (t + 1) as nat, a.material_condition);
    assert(s1 == o + p1);
    assert(s2 == s1 + p2);
    assert(s3 == s2 + p3);
    assert(s4 == s3 + p4);
    assert(out@ == s4 + p5);
    assert(gdt_block(id as nat, face as nat, *a) == p1 + p2 + p3 + p4 + p5);
    assert(out@ =~= o + (p1 + p2 + p3 + p4 + p5));
}

pub proof fn lemma_gdts_end_prefix(start: nat, anns: Seq<GdtText>, nf: nat, k: int)
    requires
        0 <= k < anns.len(),
    ensures
        gdts_end(start, anns.take(k + 1), nf) == gdts_end(start, anns.take(k), nf) + if anns[k].face_index < nf {
            gdt_ids(anns[k])
        } else {
            0nat
        },
        gdts_end(start, anns.take(k + 1), nf) <= gdts_end(start, anns, nf),
    decreases anns.len(),
{
    assert(anns.take(k + 1).drop_last() =~= anns.take(k));
    if k + 1 < anns.len() {
        lemma_gdts_end_prefix(start, anns.drop_last(), nf, k);
        assert(anns.drop_last().take(k) =~= anns.take(k));
        assert(anns.drop_last().take(k + 1) =~= anns.take(k + 1));
    } else {
        assert(anns.take(k + 1) =~= anns);
    }
}

pub proof fn lemma_gdts_end_ge(start: nat, anns: Seq<GdtText>, nf: nat)
    ensures
        start <= gdts_end(start, anns, nf),
    decreases anns.len(),
{
    if anns.len() > 0 {
        lemma_gdts_end_ge(start, anns.drop_last(), nf);
    }
}

fn push_gdts(out: &mut String, start: u64, anns: &Vec<GdtText>, fids: &Vec<u64>) -> (r: u64)
    requires
        gdts_end(start as nat, anns@, fids@.len()) <= u64::MAX,
    ensures
        final(out)@ == old(out)@ + gdts_text(start as nat, anns@, fids@.map_values(|i: u64| i as nat)),
        r == gdts_end(start as nat, anns@, fids@.len()),
{
    let ghost o = out@;
    let ghost fv = fids@.map_values(|i: u64| i as nat);
    let mut next = start;
    let mut k: usize = 0;
    while k < anns.len()
        invariant
            k <= anns@.len(),
            fv == fids@.map_values(|i: u64| i as nat),
            gdts_end(start as nat, anns@, fids@.len()) <= u64::MAX,
            next == gdts_end(start as nat, anns@.take(k as int), fids@.len()),
            out@ == o + gdts_text(start as nat, anns@.take(k as int), fv),
        decreases anns.len() - k,
    {
        proof {
            lemma_gdts_end_prefix(start as nat, anns@, fids@.len(), k as int);
        }
        assert(anns@.take(k + 1).drop_last() =~= anns@.take(k as int));
        assert(anns@.take(k + 1).last() == anns@[k as int]);
        let fi = anns[k].face_index;
        if fi < fids.len() {
            push_gdt(out, next, fids[fi], &anns[k]);
            next = next + gdt_count(&anns[k]);
        }
        assert(out@ =~= o + gdts_text(start as nat, anns@.take(k + 1), fv));
        k = k + 1;
    }
    assert(anns@.take(anns@.len() as int) =~= anns@);
    next
}

fn gdt_count(a: &GdtText) -> (r: u64)
    requires
        gdt_ids(*a) <= u64::MAX,
    ensures
        r == gdt_ids(*a),
{
    let nd = a.datum_refs.len() as u64;
    let mut r = 4 + 2 * nd;
    if nd > 0 {
        r = r + 1;
    }
    if a.material_condition.is_some() {
        r = r + 1;
    }
    r
}

fn push_dim_head(out: &mut String, id: u64, d: &DimensionText)
    requires
        id + 2 <= u64::MAX,
    ensures
        final(out)@ == old(out)@ + dim_head(id as nat, *d),
{
    let ghost o = out@;
    push_ref(out, id);
    out.append("=SHAPE_ASPECT('dimension','',#8,.F.);\n");
    push_ref(out, id + 1);
    out.append("=DIMENSIONAL_SIZE(");
    push_ref(out, id);
    out.append(",'");
    out.append(d.dim_type.step_label());
    out.append("');\n");
    push_measure(out, id + 2, d.value.as_str());
    assert(out@ =~= o + dim_head(id as nat, *d));
}

fn push_dim_tolerance(out: &mut String, id: u64, tol: &Option<(String, String)>)
    requires
        tol is Some ==> id + 5 <= u64::MAX,
    ensures
        final(out)@ == old(out)@ + dim_tolerance(id as nat, *tol),
{
    let ghost o = out@;
    match tol {
        Some(t) => {
            push_measure(out, id + 3, t.0.as_str());
            push_measure(out, id + 4, t.1.as_str());
            push_ref(out, id + 5);
            out.append("=PLUS_MINUS_TOLERANCE(");
            push_ref(out, id + 2);
            push_char(out, ',');
            push_ref(out, id + 3);
            push_char(out, ',');
            push_ref(out, id + 4);
            out.append(");\n");
        },
        None => {},
    }
    assert(out@ =~= o + dim_tolerance(id as nat, *tol));
}

fn push_dim(out: &mut String, id: u64, d: &DimensionText)
    requires
        id + dim_ids(*d) <= u64::MAX,
    ensures
        final(out)@ == old(out)@ + dim_block(id as nat, *d),
{
    let ghost o = out@;
    push_dim_head(out, id, d);
    push_dim_tolerance(out, id, &d.tolerance);
    assert(out@ =~= o + dim_block(id as nat, *d));
}

fn push_measure(out: &mut String, id: u64, v: &str)
    ensures
        final(out)@ == old(out)@ + measure_line(id as nat, v@),
{
    let ghost o = out@;
    push_ref(out, id);
    out.append("=MEASURE_WITH_UNIT(LENGTH_MEASURE(");
    out.append(v);
    out.append("),#9b);\n");
    assert(out@ =~= o + measure_line(id as nat, v@));
}

pub proof fn lemma_dims_end_prefix(start: nat, ds: Seq<DimensionText>, k: int)
    requires
        0 <= k < ds.len(),
    ensures
        dims_end(start, ds.take(k + 1)) == dims_end(start, ds.take(k)) + dim_ids(ds[k]),
        dims_end(start, ds.take(k + 1)) <= dims_end(start, ds),
    decreases ds.len(),
{
    assert(ds.take(k + 1).drop_last() =~= ds.take(k));
    if k + 1 < ds.len() {
        lemma_dims_end_prefix(start, ds.drop_last(), k);
        assert(ds.drop_last().take(k) =~= ds.take(k));
        assert(ds.drop_last().take(k + 1) =~= ds.take(k + 1));
    } else {
        assert(ds.take(k + 1) =~= ds);
    }
}

fn push_dims(out: &mut String, start: u64, ds: &Vec<DimensionText>)
    requires
        dims_end(start as nat, ds@) <= u64::MAX,
    ensures
        final(out)@ == old(out)@ + dims_text(start as nat, ds@),
{
    let ghost o = out@;
    let mut next = start;
    let mut k: usize = 0;
    while k < ds.len()
        invariant
            k <= ds@.len(),
            dims_end(start as nat, ds@) <= u64::MAX,
            next == dims_end(start as nat, ds@.take(k as int)),
            out@ == o + dims_text(start as nat, ds@.take(k as int)),
        decreases ds.len() - k,
    {
        proof {
            lemma_dims_end_prefix(start as nat, ds@, k as int);
        }
        assert(ds@.take(k + 1).drop_last() =~= ds@.take(k as int));
        assert(ds@.take(k + 1).last() == ds@[k as int]);
        push_dim(out, next, &ds[k]);
        next = next + if ds[k].tolerance.is_some() {
            6
        } else {
            3
        };
        assert(out@ =~= o + dims_text(start as nat, ds@.take(k + 1)));
        k = k + 1;
    }
    assert(ds@.take(ds@.len() as int) =~= ds@);
}

pub proof fn lemma_dims_end_ge(start: nat, ds: Seq<DimensionText>)
    ensures
        start <= dims_end(start, ds),
    decreases ds.len(),
{
    if ds.len() > 0 {
        lemma_dims_end_ge(start, ds.drop_last());
    }
}

/// Writes a solid as STEP AP242 text with GD&T callouts and dimensions:
/// `points` are its vertices' coordinates as text, `faces` give each
/// face's corners (positions in `points`) and surface, a callout on a face
/// past the last writes nothing, and `summary` is the comment line written
/// before the end.
pub fn write_step_ap242_text(
    name: &str,
    points: &Vec<Coords>,
    faces: &Vec<FaceText>,
    annotations: &Vec<GdtText>,
    dimensions: &Vec<DimensionText>,
    summary: &str,
) -> (r: String)
    requires
        dims_end(gdts_end(geometry_end(solid_id(), points@.len(), faces@) + 2, annotations@, faces@.len()), dimensions@)
            <= u64::MAX,
        corners_in_range(faces@, points@.len()),
    ensures
        r@ == ap242_text(name@, points@, faces@, annotations@, dimensions@, summary@),
{
    let mut s = String::new();
    push_part_head(
        &mut s,
        "FILE_DESCRIPTION(('Physical CAD AP242 export'),'2;1');\n",
        "FILE_SCHEMA(('AUTOMOTIVE_DESIGN { 1 0 10303 442 1 1 4 }'));\n",
        "#2=APPLICATION_PROTOCOL_DEFINITION('international standard','automotive_design',2011,#1);\n",
        name,
    );
    proof {
        let g = geometry_end(solid_id(), points@.len(), faces@);
        lemma_gdts_end_ge(g + 2, annotations@, faces@.len());
        lemma_dims_end_ge(gdts_end(g + 2, annotations@, faces@.len()), dimensions@);
    }
    let (fids, g) = push_geometry(&mut s, 20, name, points, faces);
    push_shape_tail(&mut s, g, name);
    let next = push_gdts(&mut s, g + 2, annotations, &fids);
    push_dims(&mut s, next, dimensions);
    s.append(summary);
    s.append("ENDSEC;\nEND-ISO-10303-21;\n");
    assert(s@ =~= ap242_text(name@, points@, faces@, annotations@, dimensions@, summary@));
    s
}


/// A part of an assembly as text: its name, its points, its faces with
/// their surfaces, and its placement in assembly coordinates.
pub struct PartText {
    pub name: String,
    pub points: Vec<Coords>,
    pub faces: Vec<FaceText>,
    pub placement: Placement3,
}

/// The header section and the shared context entities of an assembly file.
pub open spec fn assembly_head(name: Seq<char>) -> Seq<char> {
    "ISO-10303-21;\nHEADER;\nFILE_DESCRIPTION(('Physical CAD assembly export'),'2;1');\nFILE_NAME('"@ + name
        + ".step','2025-01-01',('Physical'),('OpenIE'),'physical-emit-step','Physical CAD','');\nFILE_SCHEMA(('AUTOMOTIVE_DESIGN'));\nENDSEC;\nDATA;\n#1=APPLICATION_CONTEXT('automotive design');\n#2=APPLICATION_PROTOCOL_DEFINITION('international standard','automotive_design',2003,#1);\n#4=PRODUCT_CONTEXT('',#1,'mechanical');\n#7=PRODUCT_DEFINITION_CONTEXT('part definition',#1,'design');\n"@
}

/// A product numbered from `b`: PRODUCT `b`, its formation `b + 1`, its
/// definition `b + 2`, and the definition's shape `b + 3`.
pub open spec fn product_block(b: nat, name: Seq<char>) -> Seq<char> {
    ref_text(b) + "=PRODUCT('"@ + name + "','"@ + name + "','',(#4));\n"@ + ref_text(b + 1)
        + "=PRODUCT_DEFINITION_FORMATION('1','',"@ + ref_text(b) + ");\n"@ + ref_text(b + 2)
        + "=PRODUCT_DEFINITION('design','',"@ + ref_text(b + 1) + ",#7);\n"@ + ref_text(b + 3)
        + "=PRODUCT_DEFINITION_SHAPE('','',"@ + ref_text(b + 2) + ");\n"@
}

/// The number of a part's shape representation when the part starts at
/// `b`: the first number after its geometry, which starts at `b + 4`.
pub open spec fn part_shape_rep(b: nat, p: PartText) -> nat {
    geometry_end(b + 4, p.points@.len(), p.faces@)
}

/// A part numbered from `b`: its product, its geometry, its shape
/// representation in the context #98, and the shape definition
/// representation linking its product's shape to it.
pub open spec fn part_block(b: nat, p: PartText) -> Seq<char> {
    product_block(b, p.name@) + geometry_text(b + 4, p.name@, coords_view(p.points@), p.faces@) + part_tail(
        b,
        part_shape_rep(b, p),
        p.name@,
    )
}

/// The shape representation `g` of the part's solid `b + 4` and the shape
/// definition representation `g + 1` from the product's shape `b + 3`.
pub open spec fn part_tail(b: nat, g: nat, name: Seq<char>) -> Seq<char> {
    ref_text(g) + "=SHAPE_REPRESENTATION('"@ + name + "',("@ + ref_text(b + 4) + "),#98);\n"@ + ref_text(g + 1)
        + "=SHAPE_DEFINITION_REPRESENTATION("@ + ref_text(b + 3) + seq![','] + ref_text(g) + ");\n"@
}

/// The first number after the parts, numbered from `start`.
pub open spec fn parts_end(start: nat, ps: Seq<PartText>) -> nat
    decreases ps.len(),
{
    if ps.len() == 0 {
        start
    } else {
        part_shape_rep(parts_end(start, ps.drop_last()), ps.last()) + 2
    }
}

/// The parts in order.
pub open spec fn parts_text(start: nat, ps: Seq<PartText>) -> Seq<char>
    decreases ps.len(),
{
    if ps.len() == 0 {
        Seq::empty()
    } else {
        parts_text(start, ps.drop_last()) + part_block(parts_end(start, ps.drop_last()), ps.last())
    }
}

/// The link of part `i` numbered from `c`: the
/// NEXT_ASSEMBLY_USAGE_OCCURRENCE `c` from the root definition #102 to the
/// part's definition `pd`, its shape `c + 1`, the part's placement
/// (`c + 2` to `c + 5`), the transformation `c + 6` from the identity
/// placement (`c + 7` to `c + 10`) to it, the representation relationship
/// `c + 11` from the part's shape representation `sr` to the root's shape
/// representation `root`, and the context-dependent shape representation
/// `c + 12`.
pub open spec fn link_block(c: nat, i: nat, name: Seq<char>, pd: nat, sr: nat, root: nat, pl: Placement3) -> Seq<char> {
    link_head(c, i, name, pd) + placement_text(c + 2, pl) + placement_lines(
        c + 7,
        origin_text(),
        z_axis_text(),
        y_axis_text(),
    ) + link_tail(c, sr, root)
}

pub open spec fn link_head(c: nat, i: nat, name: Seq<char>, pd: nat) -> Seq<char> {
    ref_text(c) + "=NEXT_ASSEMBLY_USAGE_OCCURRENCE('link_"@ + dec(i) + "','"@ + name + "','',"@ + ref_text(102)
        + seq![','] + ref_text(pd) + ");\n"@ + ref_text(c + 1) + "=PRODUCT_DEFINITION_SHAPE('','',"@ + ref_text(c)
        + ");\n"@
}

pub open spec fn link_tail(c: nat, sr: nat, root: nat) -> Seq<char> {
    ref_text(c + 6) + "=ITEM_DEFINED_TRANSFORMATION('','',"@ + ref_text(c + 10) + seq![','] + ref_text(c + 5)
        + ");\n"@ + ref_text(c + 11) + "=( REPRESENTATION_RELATIONSHIP('','',"@ + ref_text(sr) + seq![','] + ref_text(root)
        + ") REPRESENTATION_RELATIONSHIP_WITH_TRANSFORMATION("@ + ref_text(c + 6)
        + ") SHAPE_REPRESENTATION_RELATIONSHIP() );\n"@ + ref_text(c + 12) + "=CONTEXT_DEPENDENT_SHAPE_REPRESENTATION("@
        + ref_text(c + 11) + seq![','] + ref_text(c + 1) + ");\n"@
}

/// The links of the parts, thirteen numbers each from `c0`, each to the
/// root's shape representation `root`; `start` is where the parts
/// themselves were numbered from.
pub open spec fn links_text(c0: nat, start: nat, ps: Seq<PartText>, n: nat, root: nat) -> Seq<char>
    decreases n,
{
    if n == 0 {
        Seq::empty()
    } else {
        let i = (n - 1) as nat;
        let b = parts_end(start, ps.take(i as int));
        links_text(c0, start, ps, i, root) + link_block(
            c0 + 13 * i,
            i,
            ps[i as int].name@,
            b + 2,
            part_shape_rep(b, ps[i as int]),
            root,
            ps[i as int].placement,
        )
    }
}

/// The geometric context #98 of an assembly file.
pub open spec fn context_98() -> Seq<char> {
    "#98=( GEOMETRIC_REPRESENTATION_CONTEXT(3) GLOBAL_UNCERTAINTY_ASSIGNED_CONTEXT((#98a)) GLOBAL_UNIT_ASSIGNED_CONTEXT((#98b,#98c,#98d)) REPRESENTATION_CONTEXT('','3D') );\n#98a=UNCERTAINTY_MEASURE_WITH_UNIT(LENGTH_MEASURE(1.E-07),#98b,'distance_accuracy_value','');\n#98b=( CONVERSION_BASED_UNIT('MILLIMETRE',#98e) LENGTH_UNIT() NAMED_UNIT(#98f) );\n#98c=( NAMED_UNIT(#98g) PLANE_ANGLE_UNIT() SI_UNIT($,.RADIAN.) );\n#98d=( NAMED_UNIT(#98h) SI_UNIT($,.STERADIAN.) SOLID_ANGLE_UNIT() );\n#98e=LENGTH_MEASURE_WITH_UNIT(LENGTH_MEASURE(1.0),#98i);\n#98f=DIMENSIONAL_EXPONENTS(1.0,0.0,0.0,0.0,0.0,0.0,0.0);\n#98g=DIMENSIONAL_EXPONENTS(0.0,0.0,0.0,0.0,0.0,0.0,0.0);\n#98h=DIMENSIONAL_EXPONENTS(0.0,0.0,0.0,0.0,0.0,0.0,0.0);\n#98i=( LENGTH_UNIT() NAMED_UNIT(#98f) SI_UNIT(.MILLI.,.METRE.) );\n"@
}

/// The root's shape representation `r`, holding its own placement at the
/// origin (`r + 1` to `r + 4`), and the shape definition representation
/// `r + 5` from the root product's shape #103 to it.
pub open spec fn root_rep_block(r: nat, name: Seq<char>) -> Seq<char> {
    ref_text(r) + "=SHAPE_REPRESENTATION('"@ + name + "',("@ + ref_text(r + 4) + "),#98);\n"@ + placement_lines(
        r + 1,
        origin_text(),
        z_axis_text(),
        y_axis_text(),
    ) + ref_text(r + 5) + "=SHAPE_DEFINITION_REPRESENTATION("@ + ref_text(103) + seq![','] + ref_text(r) + ");\n"@
}

/// The number of the root's shape representation: the first after the
/// links.
pub open spec fn root_rep_id(ps: Seq<PartText>) -> nat {
    parts_end(first_part_id(), ps) + 13 * ps.len()
}

/// The number of the first part; the root product takes #100 to #103.
pub open spec fn first_part_id() -> nat {
    104
}

/// A STEP assembly file: the root product, the parts with their geometry,
/// one link per part relating its shape representation, placed, to the
/// root's, the root's shape representation, the shared context, and a
/// comment with the assembly's name and its number of parts.
pub open spec fn assembly_text(name: Seq<char>, ps: Seq<PartText>) -> Seq<char> {
    assembly_head(name) + product_block(100, name) + parts_text(first_part_id(), ps) + links_text(
        parts_end(first_part_id(), ps),
        first_part_id(),
        ps,
        ps.len(),
        root_rep_id(ps),
    ) + root_rep_block(root_rep_id(ps), name) + context_98() + "/* Assembly '"@ + name + "': "@ + dec(ps.len()) + " parts */\n"@ + file_end()
}

/// Every part's faces have their corners among its points.
pub open spec fn parts_well_formed(ps: Seq<PartText>) -> bool {
    forall|k: int| 0 <= k < ps.len() ==> corners_in_range(#[trigger] ps[k].faces@, ps[k].points@.len())
}

pub proof fn lemma_parts_end_prefix(start: nat, ps: Seq<PartText>, k: int)
    requires
        0 <= k < ps.len(),
    ensures
        parts_end(start, ps.take(k + 1)) == part_shape_rep(parts_end(start, ps.take(k)), ps[k]) + 2,
        parts_end(start, ps.take(k + 1)) <= parts_end(start, ps),
        parts_end(start, ps.take(k)) + 4 <= part_shape_rep(parts_end(start, ps.take(k)), ps[k]),
    decreases ps.len(),
{
    assert(ps.take(k + 1).drop_last() =~= ps.take(k));
    if k + 1 < ps.len() {
        lemma_parts_end_prefix(start, ps.drop_last(), k);
        assert(ps.drop_last().take(k) =~= ps.take(k));
        assert(ps.drop_last().take(k + 1) =~= ps.take(k + 1));
        let b = parts_end(start, ps.drop_last());
        crate::step_entities::lemma_faces_end_ge(b + 4 + 2 + ps.last().points@.len(), ps.last().faces@);
    } else {
        assert(ps.take(k + 1) =~= ps);
    }
    let b = parts_end(start, ps.take(k));
    crate::step_entities::lemma_faces_end_ge(b + 4 + 2 + ps[k].points@.len(), ps[k].faces@);
}

pub proof fn lemma_parts_end_ge(start: nat, ps: Seq<PartText>)
    ensures
        start <= parts_end(start, ps),
    decreases ps.len(),
{
    if ps.len() > 0 {
        lemma_parts_end_ge(start, ps.drop_last());
        let b = parts_end(start, ps.drop_last());
        crate::step_entities::lemma_faces_end_ge(b + 4 + 2 + ps.last().points@.len(), ps.last().faces@);
    }
}

#[verifier::rlimit(50)]
fn push_product(out: &mut String, b: u64, name: &str)
    requires
        b + 3 <= u64::MAX,
    ensures
        final(out)@ == old(out)@ + product_block(b as nat, name@),
{
    let ghost o = out@;
    push_ref(out, b);
    out.append("=PRODUCT('");
    out.append(name);
    out.append("','");
    out.append(name);
    out.append("','',(#4));\n");
    push_ref(out, b + 1);
    out.append("=PRODUCT_DEFINITION_FORMATION('1','',");
    push_ref(out, b);
    out.append(");\n");
    push_ref(out, b + 2);
    out.append("=PRODUCT_DEFINITION('design','',");
    push_ref(out, b + 1);
    out.append(",#7);\n");
    push_ref(out, b + 3);
    out.append("=PRODUCT_DEFINITION_SHAPE('','',");
    push_ref(out, b + 2);
    out.append(");\n");
    assert(out@ =~= o + product_block(b as nat, name@));
}

fn push_part_tail(out: &mut String, b: u64, g: u64, name: &str)
    requires
        b + 4 <= u64::MAX,
        g + 1 <= u64::MAX,
    ensures
        final(out)@ == old(out)@ + part_tail(b as nat, g as nat, name@),
{
    let ghost o = out@;
    push_ref(out, g);
    out.append("=SHAPE_REPRESENTATION('");
    out.append(name);
    out.append("',(");
    push_ref(out, b + 4);
    out.append("),#98);\n");
    push_ref(out, g + 1);
    out.append("=SHAPE_DEFINITION_REPRESENTATION(");
    push_ref(out, b + 3);
    push_char(out, ',');
    push_ref(out, g);
    out.append(");\n");
    assert(out@ =~= o + part_tail(b as nat, g as nat, name@));
}

/// Appends a part numbered from `b`; gives its shape representation's
/// number.
fn push_part(out: &mut String, b: u64, p: &PartText) -> (g: u64)
    requires
        part_shape_rep(b as nat, *p) + 2 <= u64::MAX,
        corners_in_range(p.faces@, p.points@.len()),
    ensures
        final(out)@ == old(out)@ + part_block(b as nat, *p),
        g == part_shape_rep(b as nat, *p),
{
    let ghost o = out@;
    proof {
        crate::step_entities::lemma_faces_end_ge((b + 4 + 2 + p.points@.len()) as nat, p.faces@);
    }
    push_product(out, b, p.name.as_str());
    let ghost s1 = out@;
    let (_fids, g) = push_geometry(out, b + 4, p.name.as_str(), &p.points, &p.faces);
    let ghost s2 = out@;
    push_part_tail(out, b, g, p.name.as_str());
    let ghost q1 = product_block(b as nat, p.name@);
    let ghost q2 = geometry_text((b + 4) as nat, p.name@, coords_view(p.points@), p.faces@);
    let ghost q3 = part_tail(b as nat, g as nat, p.name@);
    assert(s1 == o + q1);
    assert(s2 == s1 + q2);
    assert(out@ == s2 + q3);
    assert(out@ =~= o + (q1 + q2 + q3));
    g
}

/// Appends the parts numbered from `start`; gives, for each part, where it
/// starts and its shape representation's number, and the first number
/// after them.
#[verifier::rlimit(50)]
fn push_parts(out: &mut String, start: u64, ps: &Vec<PartText>) -> (r: (Vec<(u64, u64)>, u64))
    requires
        parts_end(start as nat, ps@) <= u64::MAX,
        parts_well_formed(ps@),
    ensures
        final(out)@ == old(out)@ + parts_text(start as nat, ps@),
        r.1 == parts_end(start as nat, ps@),
        r.0@.len() == ps@.len(),
        forall|k: int| 0 <= k < ps@.len() ==> #[trigger] r.0@[k].0 == parts_end(start as nat, ps@.take(k))
            && r.0@[k].1 == part_shape_rep(parts_end(start as nat, ps@.take(k)), ps@[k]) && r.0@[k].0 + 4 <= r.0@[k].1
            && r.0@[k].1 + 2 <= r.1,
{
    let ghost o = out@;
    let mut info: Vec<(u64, u64)> = Vec::new();
    let mut b = start;
    let mut k: usize = 0;
    while k < ps.len()
        invariant
            k <= ps@.len(),
            parts_end(start as nat, ps@) <= u64::MAX,
            parts_well_formed(ps@),
            b == parts_end(start as nat, ps@.take(k as int)),
            out@ == o + parts_text(start as nat, ps@.take(k as int)),
            info@.len() == k,
            forall|j: int| 0 <= j < k ==> #[trigger] info@[j].0 == parts_end(start as nat, ps@.take(j))
                && info@[j].1 == part_shape_rep(parts_end(start as nat, ps@.take(j)), ps@[j]) && info@[j].0 + 4
                <= info@[j].1 && info@[j].1 + 2 <= b,
        decreases ps.len() - k,
    {
        proof {
            lemma_parts_end_prefix(start as nat, ps@, k as int);
        }
        assert(ps@.take(k + 1).drop_last() =~= ps@.take(k as int));
        assert(ps@.take(k + 1).last() == ps@[k as int]);
        assert(corners_in_range(ps@[k as int].faces@, ps@[k as int].points@.len()));
        let g = push_part(out, b, &ps[k]);
        info.push((b, g));
        b = g + 2;
        assert(out@ =~= o + parts_text(start as nat, ps@.take(k + 1)));
        k = k + 1;
    }
    assert(ps@.take(ps@.len() as int) =~= ps@);
    (info, b)
}

#[verifier::rlimit(50)]
fn push_link_head(out: &mut String, c: u64, i: u64, name: &str, pd: u64)
    requires
        c + 1 <= u64::MAX,
    ensures
        final(out)@ == old(out)@ + link_head(c as nat, i as nat, name@, pd as nat),
{
    let ghost o = out@;
    push_ref(out, c);
    out.append("=NEXT_ASSEMBLY_USAGE_OCCURRENCE('link_");
    push_dec(out, i);
    out.append("','");
    out.append(name);
    out.append("','',");
    push_ref(out, 102);
    push_char(out, ',');
    push_ref(out, pd);
    out.append(");\n");
    push_ref(out, c + 1);
    out.append("=PRODUCT_DEFINITION_SHAPE('','',");
    push_ref(out, c);
    out.append(");\n");
    assert(out@ =~= o + link_head(c as nat, i as nat, name@, pd as nat));
}

#[verifier::rlimit(50)]
fn push_link_tail(out: &mut String, c: u64, sr: u64, root: u64)
    requires
        c + 12 <= u64::MAX,
    ensures
        final(out)@ == old(out)@ + link_tail(c as nat, sr as nat, root as nat),
{
    let ghost o = out@;
    push_ref(out, c + 6);
    out.append("=ITEM_DEFINED_TRANSFORMATION('','',");
    push_ref(out, c + 10);
    push_char(out, ',');
    push_ref(out, c + 5);
    out.append(");\n");
    push_ref(out, c + 11);
    out.append("=( REPRESENTATION_RELATIONSHIP('','',");
    push_ref(out, sr);
    push_char(out, ',');
    push_ref(out, root);
    out.append(") REPRESENTATION_RELATIONSHIP_WITH_TRANSFORMATION(");
    push_ref(out, c + 6);
    out.append(") SHAPE_REPRESENTATION_RELATIONSHIP() );\n");
    push_ref(out, c + 12);
    out.append("=CONTEXT_DEPENDENT_SHAPE_REPRESENTATION(");
    push_ref(out, c + 11);
    push_char(out, ',');
    push_ref(out, c + 1);
    out.append(");\n");
    assert(out@ =~= o + link_tail(c as nat, sr as nat, root as nat));
}

#[verifier::rlimit(50)]
fn push_link(out: &mut String, c: u64, i: u64, name: &str, pd: u64, sr: u64, root: u64, pl: &Placement3)
    requires
        c + 12 <= u64::MAX,
    ensures
        final(out)@ == old(out)@ + link_block(c as nat, i as nat, name@, pd as nat, sr as nat, root as nat, *pl),
{
    let ghost o = out@;
    push_link_head(out, c, i, name, pd);
    let ghost s1 = out@;
    push_placement(out, c + 2, pl);
    let ghost s2 = out@;
    push_identity_placement(out, c + 7);
    let ghost s3 = out@;
    push_link_tail(out, c, sr, root);
    let ghost p1 = link_head(c as nat, i as nat, name@, pd as nat);
    let ghost p2 = placement_text((c + 2) as nat, *pl);
    let ghost p3 = placement_lines((c + 7) as nat, origin_text(), z_axis_text(), y_axis_text());
    let ghost p4 = link_tail(c as nat, sr as nat, root as nat);
    assert(out@ =~= o + (p1 + p2 + p3 + p4));
}

#[verifier::rlimit(50)]
fn push_root_rep(out: &mut String, r: u64, name: &str)
    requires
        r + 5 <= u64::MAX,
    ensures
        final(out)@ == old(out)@ + root_rep_block(r as nat, name@),
{
    let ghost o = out@;
    push_ref(out, r);
    out.append("=SHAPE_REPRESENTATION('");
    out.append(name);
    out.append("',(");
    push_ref(out, r + 4);
    out.append("),#98);\n");
    let ghost s1 = out@;
    push_identity_placement(out, r + 1);
    let ghost s2 = out@;
    push_ref(out, r + 5);
    out.append("=SHAPE_DEFINITION_REPRESENTATION(");
    push_ref(out, 103);
    push_char(out, ',');
    push_ref(out, r);
    out.append(");\n");
    let ghost p1 = ref_text(r as nat) + "=SHAPE_REPRESENTATION('"@ + name@ + "',("@ + ref_text((r + 4) as nat) + "),#98);\n"@;
    let ghost p2 = placement_lines((r + 1) as nat, origin_text(), z_axis_text(), y_axis_text());
    let ghost p3 = ref_text((r + 5) as nat) + "=SHAPE_DEFINITION_REPRESENTATION("@ + ref_text(103) + seq![','] + ref_text(r as nat) + ");\n"@;
    assert(s1 =~= o + p1);
    assert(s2 == s1 + p2);
    assert(out@ =~= s2 + p3);
    assert(out@ =~= o + (p1 + p2 + p3));
}

/// Writes an assembly as STEP text: a root product named `assembly_name`,
/// each part (its geometry as text, as in the single-part writers) as a
/// product of its own, and one link per part that places it under the
/// root: each part's shape representation is related, through its
/// placement, to a shape representation of the root.
#[verifier::rlimit(50)]
pub fn write_step_assembly_text(assembly_name: &str, parts: &Vec<PartText>) -> (r: String)
    requires
        parts_end(first_part_id(), parts@) + 13 * parts@.len() + 5 <= u64::MAX,
        parts_well_formed(parts@),
    ensures
        r@ == assembly_text(assembly_name@, parts@),
{
    let mut s = String::new();
    s.append("ISO-10303-21;\nHEADER;\nFILE_DESCRIPTION(('Physical CAD assembly export'),'2;1');\nFILE_NAME('");
    s.append(assembly_name);
    s.append(".step','2025-01-01',('Physical'),('OpenIE'),'physical-emit-step','Physical CAD','');\nFILE_SCHEMA(('AUTOMOTIVE_DESIGN'));\nENDSEC;\nDATA;\n#1=APPLICATION_CONTEXT('automotive design');\n#2=APPLICATION_PROTOCOL_DEFINITION('international standard','automotive_design',2003,#1);\n#4=PRODUCT_CONTEXT('',#1,'mechanical');\n#7=PRODUCT_DEFINITION_CONTEXT('part definition',#1,'design');\n");
    let ghost h = s@;
    assert(h =~= assembly_head(assembly_name@));
    push_product(&mut s, 100, assembly_name);
    let ghost s1 = s@;
    proof {
        lemma_parts_end_ge(first_part_id(), parts@);
    }
    let (info, c0) = push_parts(&mut s, 104, parts);
    let ghost s2 = s@;
    let n = parts.len();
    let root = c0 + 13 * (n as u64);
    let mut i: usize = 0;
    while i < n
        invariant
            i <= n == parts@.len(),
            c0 == parts_end(first_part_id(), parts@),
            c0 + 13 * n + 5 <= u64::MAX,
            info@.len() == n,
            forall|k: int| 0 <= k < n ==> #[trigger] info@[k].0 == parts_end(first_part_id(), parts@.take(k))
                && info@[k].1 == part_shape_rep(parts_end(first_part_id(), parts@.take(k)), parts@[k]) && info@[k].0 + 4
                <= info@[k].1 && info@[k].1 + 2 <= c0,
            root == c0 + 13 * n,
            s@ == s2 + links_text(c0 as nat, first_part_id(), parts@, i as nat, root as nat),
        decreases n - i,
    {
        let b = info[i].0;
        let sr = info[i].1;
        let ghost before = s@;
        push_link(&mut s, c0 + 13 * (i as u64), i as u64, parts[i].name.as_str(), b + 2, sr, root, &parts[i].placement);
        assert(s@ =~= s2 + links_text(c0 as nat, first_part_id(), parts@, (i + 1) as nat, root as nat));
        i = i + 1;
    }
    push_root_rep(&mut s, root, assembly_name);
    let ghost s3 = s@;
    s.append("#98=( GEOMETRIC_REPRESENTATION_CONTEXT(3) GLOBAL_UNCERTAINTY_ASSIGNED_CONTEXT((#98a)) GLOBAL_UNIT_ASSIGNED_CONTEXT((#98b,#98c,#98d)) REPRESENTATION_CONTEXT('','3D') );\n#98a=UNCERTAINTY_MEASURE_WITH_UNIT(LENGTH_MEASURE(1.E-07),#98b,'distance_accuracy_value','');\n#98b=( CONVERSION_BASED_UNIT('MILLIMETRE',#98e) LENGTH_UNIT() NAMED_UNIT(#98f) );\n#98c=( NAMED_UNIT(#98g) PLANE_ANGLE_UNIT() SI_UNIT($,.RADIAN.) );\n#98d=( NAMED_UNIT(#98h) SI_UNIT($,.STERADIAN.) SOLID_ANGLE_UNIT() );\n#98e=LENGTH_MEASURE_WITH_UNIT(LENGTH_MEASURE(1.0),#98i);\n#98f=DIMENSIONAL_EXPONENTS(1.0,0.0,0.0,0.0,0.0,0.0,0.0);\n#98g=DIMENSIONAL_EXPONENTS(0.0,0.0,0.0,0.0,0.0,0.0,0.0);\n#98h=DIMENSIONAL_EXPONENTS(0.0,0.0,0.0,0.0,0.0,0.0,0.0);\n#98i=( LENGTH_UNIT() NAMED_UNIT(#98f) SI_UNIT(.MILLI.,.METRE.) );\n");
    s.append("/* Assembly '");
    s.append(assembly_name);
    s.append("': ");
    push_dec(&mut s, n as u64);
    s.append(" parts */\n");
    s.append("ENDSEC;\nEND-ISO-10303-21;\n");
    assert(s@ =~= assembly_text(assembly_name@, parts@));
    s
}

} // verus!
