//! Technical drawings: the view, sheet, line, dimension and anchor kinds,
//! the title block, and the byte layout of the PDF file a drawing is
//! written to (objects, cross-reference table and trailer).
use vstd::prelude::*;
use vstd::utf8::encode_utf8;
use crate::text::{chars_of, push_char, dec, zero_pad, push_dec, push_zero_pad};
use crate::bytes::push_bytes;

verus! {

/// Standard orthographic projection direction.
#[derive(Clone, Copy, Debug, PartialEq, Eq, Structural)]
pub enum ViewDirection {
    Front,
    Back,
    Top,
    Bottom,
    Left,
    Right,
    Iso,
}

/// Drawing sheet size.
#[derive(Clone, Copy, Debug)]
pub enum SheetSize {
    A4,
    A3,
    A2,
    A1,
    Letter,
}

/// Line style.
#[derive(Clone, Copy, Debug, PartialEq, Eq, Structural)]
pub enum LineStyle {
    /// Visible edge (solid, thick).
    Visible,
    /// Hidden edge (dashed).
    Hidden,
    /// Center line (dash-dot).
    Center,
    /// Dimension line (thin, solid).
    Dimension,
    /// Construction/phantom (thin, dashed).
    Phantom,
}

/// Kind of a dimension annotation.
#[derive(Clone, Copy, Debug, PartialEq, Eq, Structural)]
pub enum DimensionType {
    Linear,
    Angular,
    Radial,
    Diameter,
    Ordinate,
}

/// Horizontal anchor of a text annotation.
#[derive(Clone, Copy, Debug, PartialEq, Eq, Structural)]
pub enum TextAnchor {
    Start,
    Middle,
    End,
}

/// Title block data.
#[derive(Clone, Debug)]
pub struct TitleBlock {
    pub title: String,
    pub part_number: String,
    pub material: String,
    pub drawn_by: String,
    pub date: String,
    pub scale: String,
    pub revision: String,
}

impl TitleBlock {
    /// A title block with the given title and part number, scale `1:1`,
    /// revision `A`, and the other fields empty.
    pub fn new(title: &str, part_number: &str) -> (r: Self)
        ensures
            r.title@ == title@,
            r.part_number@ == part_number@,
            r.material@ == Seq::<char>::empty(),
            r.drawn_by@ == Seq::<char>::empty(),
            r.date@ == Seq::<char>::empty(),
            r.scale@ == "1:1"@,
            r.revision@ == "A"@,
    {
        TitleBlock {
            title: String::from_str(title),
            part_number: String::from_str(part_number),
            material: String::new(),
            drawn_by: String::new(),
            date: String::new(),
            scale: String::from_str("1:1"),
            revision: String::from_str("A"),
        }
    }
}

// ---------------------------------------------------------------------------
// PDF text strings
// ---------------------------------------------------------------------------

/// The escape of one character inside a PDF string: `\`, `(` and `)` get
/// a backslash in front.
pub open spec fn pdf_escape_char(c: char) -> Seq<char> {
    if c == '\\' || c == '(' || c == ')' { seq!['\\', c] } else { seq![c] }
}

/// Every character of `s` replaced by its escape.
pub open spec fn pdf_escaped(s: Seq<char>) -> Seq<char>
    decreases s.len(),
{
    if s.len() == 0 {
        Seq::empty()
    } else {
        pdf_escaped(s.drop_last()) + pdf_escape_char(s.last())
    }
}

/// Escapes text for a PDF string literal.
pub fn pdf_escape(text: &str) -> (r: String)
    ensures
        r@ == pdf_escaped(text@),
{
    let cs = chars_of(text);
    let mut out = String::new();
    let mut i: usize = 0;
    while i < cs.len()
        invariant
            i <= cs@.len(),
            cs@ == text@,
            out@ == pdf_escaped(cs@.take(i as int)),
        decreases cs.len() - i,
    {
        let c = cs[i];
        assert(cs@.take(i + 1).drop_last() =~= cs@.take(i as int));
        if c == '\\' || c == '(' || c == ')' {
            push_char(&mut out, '\\');
        }
        push_char(&mut out, c);
        assert(out@ =~= pdf_escaped(cs@.take(i + 1)));
        i = i + 1;
    }
    assert(cs@.take(cs@.len() as int) =~= cs@);
    out
}

// ---------------------------------------------------------------------------
// PDF file layout
// ---------------------------------------------------------------------------

/// The PDF header: the version line and a comment of four high bytes that
/// marks the file as binary.
pub open spec fn pdf_header() -> Seq<u8> {
    seq![0x25u8, 0x50, 0x44, 0x46, 0x2d, 0x31, 0x2e, 0x34, 0x0a, 0x25, 0xe2, 0xe3, 0xcf, 0xd3, 0x0a]
}

/// The parts, one after another.
pub open spec fn concat_bytes(parts: Seq<Seq<u8>>) -> Seq<u8>
    decreases parts.len(),
{
    if parts.len() == 0 {
        Seq::empty()
    } else {
        concat_bytes(parts.drop_last()) + parts.last()
    }
}

/// The UTF-8 bytes of each object's text.
pub open spec fn object_bytes(objects: Seq<Seq<char>>) -> Seq<Seq<u8>> {
    objects.map_values(|o: Seq<char>| encode_utf8(o))
}

/// Where object `i` starts in the file: after the header and the objects
/// before it.
pub open spec fn object_offset(objects: Seq<Seq<char>>, i: int) -> nat {
    pdf_header().len() + concat_bytes(object_bytes(objects).take(i)).len()
}

/// The cross-reference entries of the first `n` objects:
/// each offset zero-filled to ten digits, then ` 00000 n `.
pub open spec fn xref_entries(objects: Seq<Seq<char>>, n: nat) -> Seq<char>
    decreases n,
{
    if n == 0 {
        Seq::empty()
    } else {
        xref_entries(objects, (n - 1) as nat) + zero_pad(object_offset(objects, n - 1), 10)
            + " 00000 n \n"@
    }
}

/// The cross-reference table and trailer of a file whose objects are
/// `objects` and whose table starts at byte `xref_at`.
pub open spec fn xref_text(objects: Seq<Seq<char>>, xref_at: nat) -> Seq<char> {
    "xref\n0 "@ + dec(objects.len() + 1) + "\n0000000000 65535 f \n"@ + xref_entries(objects, objects.len())
        + "trailer\n<< /Size "@ + dec(objects.len() + 1) + " /Root 1 0 R >>\nstartxref\n"@ + dec(xref_at)
        + "\n%%EOF\n"@
}

/// The bytes of a PDF file: header, objects in order, then the table that
/// gives each object's offset, and the trailer.
pub open spec fn pdf_file(objects: Seq<Seq<char>>) -> Seq<u8> {
    let body = pdf_header() + concat_bytes(object_bytes(objects));
    body + encode_utf8(xref_text(objects, body.len()))
}

/// The texts of a list of strings.
pub open spec fn string_views(v: Seq<String>) -> Seq<Seq<char>> {
    v.map_values(|s: String| s@)
}

proof fn lemma_concat_push(parts: Seq<Seq<u8>>, k: int)
    requires
        0 <= k < parts.len(),
    ensures
        concat_bytes(parts.take(k + 1)) == concat_bytes(parts.take(k)) + parts[k],
{
    assert(parts.take(k + 1).drop_last() =~= parts.take(k));
}

proof fn lemma_concat_prefix(parts: Seq<Seq<u8>>, k: int, n: int)
    requires
        0 <= k <= n <= parts.len(),
    ensures
        concat_bytes(parts.take(k)).len() <= concat_bytes(parts.take(n)).len(),
        concat_bytes(parts.take(n)).subrange(0, concat_bytes(parts.take(k)).len() as int) == concat_bytes(parts.take(k)),
    decreases n - k,
{
    if k < n {
        lemma_concat_prefix(parts, k, n - 1);
        lemma_concat_push(parts, n - 1);
        let a = concat_bytes(parts.take(n - 1));
        let c = concat_bytes(parts.take(k));
        assert((a + parts[n - 1]).subrange(0, c.len() as int) =~= a.subrange(0, c.len() as int));
    } else {
        assert(concat_bytes(parts.take(n)).subrange(0, concat_bytes(parts.take(n)).len() as int)
            =~= concat_bytes(parts.take(n)));
    }
}

/// Each cross-reference offset points at its object: the bytes of a PDF
/// file from the `i`-th object's offset on are that object's bytes.
pub proof fn lemma_xref_points_at_objects(objects: Seq<Seq<char>>, i: int)
    requires
        0 <= i < objects.len(),
    ensures
        pdf_file(objects).subrange(
            object_offset(objects, i) as int,
            (object_offset(objects, i) + encode_utf8(objects[i]).len()) as int,
        ) == encode_utf8(objects[i]),
{
    let parts = object_bytes(objects);
    let h = pdf_header();
    let n = objects.len() as int;
    assert(parts.take(n) =~= parts);
    lemma_concat_push(parts, i);
    lemma_concat_prefix(parts, i + 1, n);
    let c = concat_bytes(parts);
    let pre = concat_bytes(parts.take(i));
    let upto = concat_bytes(parts.take(i + 1));
    assert(parts[i] == encode_utf8(objects[i]));
    let body = h + c;
    let file = pdf_file(objects);
    let off = h.len() + pre.len();
    assert(file.subrange(off as int, (off + parts[i].len()) as int) =~= upto.subrange(pre.len() as int, upto.len() as int)) by {
        assert(c.subrange(0, upto.len() as int) == upto);
        assert forall|j: int| 0 <= j < parts[i].len() implies file.subrange(off as int, (off + parts[i].len()) as int)[j]
            == upto.subrange(pre.len() as int, upto.len() as int)[j] by {
            assert(file[off + j] == body[off + j]);
            assert(body[off + j] == c[pre.len() + j]);
            assert(c[pre.len() + j] == c.subrange(0, upto.len() as int)[pre.len() + j]);
        }
    }
    assert(upto.subrange(pre.len() as int, upto.len() as int) =~= parts[i]);
}

fn push_entry(out: &mut String, offset: u64)
    ensures
        final(out)@ == old(out)@ + zero_pad(offset as nat, 10) + " 00000 n \n"@,
{
    push_zero_pad(out, offset, 10);
    out.append(" 00000 n \n");
}

/// Writes a PDF file around its objects (object `k` numbered `k + 1`
/// written by the caller): the header, the objects in order, the
/// cross-reference table with the offset of each, and the trailer.
pub fn pdf_document(objects: &Vec<String>) -> (r: Vec<u8>)
    requires
        objects@.len() < u64::MAX,
    ensures
        r@ == pdf_file(string_views(objects@)),
{
    let ghost objs = string_views(objects@);
    let ghost parts = object_bytes(objs);
    let header: Vec<u8> = vec![0x25u8, 0x50, 0x44, 0x46, 0x2d, 0x31, 0x2e, 0x34, 0x0a, 0x25, 0xe2, 0xe3, 0xcf, 0xd3, 0x0a];
    let mut pdf: Vec<u8> = Vec::new();
    push_bytes(&mut pdf, header.as_slice());
    assert(pdf@ =~= pdf_header());
    let mut offsets: Vec<u64> = Vec::new();
    let mut k: usize = 0;
    while k < objects.len()
        invariant
            k <= objects@.len(),
            objs == string_views(objects@),
            parts == object_bytes(objs),
            pdf@ == pdf_header() + concat_bytes(parts.take(k as int)),
            offsets@.len() == k,
            forall|j: int| 0 <= j < k ==> #[trigger] offsets@[j] == object_offset(objs, j),
        decreases objects.len() - k,
    {
        proof { lemma_concat_push(parts, k as int); }
        offsets.push(pdf.len() as u64);
        let ghost before = pdf@;
        push_bytes(&mut pdf, objects[k].as_str().as_bytes());
        assert(encode_utf8(objects@[k as int]@) == parts[k as int]);
        assert(pdf@ =~= pdf_header() + concat_bytes(parts.take(k + 1)));
        k = k + 1;
    }
    assert(parts.take(objects@.len() as int) =~= parts);
    let xref_at = pdf.len() as u64;
    let n1 = objects.len() as u64 + 1;
    let mut t = String::new();
    t.append("xref\n0 ");
    push_dec(&mut t, n1);
    t.append("\n0000000000 65535 f \n");
    let ghost head = t@;
    let mut j: usize = 0;
    while j < offsets.len()
        invariant
            j <= offsets@.len(),
            offsets@.len() == objs.len(),
            forall|i: int| 0 <= i < offsets@.len() ==> #[trigger] offsets@[i] == object_offset(objs, i),
            t@ == head + xref_entries(objs, j as nat),
        decreases offsets.len() - j,
    {
        push_entry(&mut t, offsets[j]);
        assert(t@ =~= head + xref_entries(objs, (j + 1) as nat));
        j = j + 1;
    }
    t.append("trailer\n<< /Size ");
    push_dec(&mut t, n1);
    t.append(" /Root 1 0 R >>\nstartxref\n");
    push_dec(&mut t, xref_at);
    t.append("\n%%EOF\n");
    assert(t@ =~= xref_text(objs, xref_at as nat));
    push_bytes(&mut pdf, t.as_str().as_bytes());
    pdf
}

} // verus!
