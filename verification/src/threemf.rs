//! 3MF package writer: the model XML and a minimal stored (uncompressed)
//! ZIP container with CRC-32 checksums.
use vstd::prelude::*;
use vstd::string::StringSliceAdditionalSpecFns;
use vstd::utf8::encode_utf8;
use crate::bytes::{le16, le32, push_le16, push_le32, push_bytes};
use crate::text::{chars_of, push_char, push_dec, dec};

verus! {

// ---------------------------------------------------------------------------
// CRC-32
// ---------------------------------------------------------------------------

/// One bit step of the reflected CRC-32 register (polynomial 0xEDB88320).
pub open spec fn crc_step(c: u32) -> u32 {
    if c & 1 != 0 { (c >> 1u32) ^ 0xEDB8_8320u32 } else { c >> 1u32 }
}

/// `n` bit steps of the register.
pub open spec fn crc_steps(c: u32, n: nat) -> u32
    decreases n,
{
    if n == 0 { c } else { crc_step(crc_steps(c, (n - 1) as nat)) }
}

/// The register after absorbing all of `data`, starting from `init`.
pub open spec fn crc_register(init: u32, data: Seq<u8>) -> u32
    decreases data.len(),
{
    if data.len() == 0 {
        init
    } else {
        crc_steps(crc_register(init, data.drop_last()) ^ (data.last() as u32), 8)
    }
}

/// CRC-32 (ISO 3309 / ITU-T V.42) of `data`.
pub open spec fn crc32_spec(data: Seq<u8>) -> u32 {
    !crc_register(0xFFFF_FFFFu32, data)
}

/// CRC-32 (ISO 3309 / ITU-T V.42) — the polynomial used by ZIP and PNG.
pub fn crc32(data: &[u8]) -> (r: u32)
    ensures
        r == crc32_spec(data@),
{
    let mut crc: u32 = 0xFFFF_FFFF;
    let mut i: usize = 0;
    while i < data.len()
        invariant
            i <= data@.len(),
            crc == crc_register(0xFFFF_FFFFu32, data@.take(i as int)),
        decreases data.len() - i,
    {
        let ghost before = crc;
        crc = crc ^ (data[i] as u32);
        let ghost start = crc;
        let mut k: usize = 0;
        while k < 8
            invariant
                k <= 8,
                crc == crc_steps(start, k as nat),
            decreases 8 - k,
        {
            if crc & 1 != 0 {
                crc = (crc >> 1u32) ^ 0xEDB8_8320u32;
            } else {
                crc = crc >> 1u32;
            }
            k = k + 1;
        }
        assert(data@.take(i + 1).drop_last() =~= data@.take(i as int));
        i = i + 1;
    }
    assert(data@.take(data@.len() as int) =~= data@);
    !crc
}

// ---------------------------------------------------------------------------
// XML text
// ---------------------------------------------------------------------------

/// The escape of one character: `&`, `<`, `>` and `"` become entities.
pub open spec fn xml_escape_char(c: char) -> Seq<char> {
    if c == '&' {
        seq!['&', 'a', 'm', 'p', ';']
    } else if c == '<' {
        seq!['&', 'l', 't', ';']
    } else if c == '>' {
        seq!['&', 'g', 't', ';']
    } else if c == '"' {
        seq!['&', 'q', 'u', 'o', 't', ';']
    } else {
        seq![c]
    }
}

/// Every character of `s` replaced by its escape.
pub open spec fn xml_escaped(s: Seq<char>) -> Seq<char>
    decreases s.len(),
{
    if s.len() == 0 { Seq::empty() } else { xml_escaped(s.drop_last()) + xml_escape_char(s.last()) }
}

/// Appends the XML escape of `s`.
pub fn push_xml_escaped(out: &mut String, s: &str)
    ensures
        final(out)@ == old(out)@ + xml_escaped(s@),
{
    let cs = chars_of(s);
    let mut i: usize = 0;
    while i < cs.len()
        invariant
            i <= cs@.len(),
            cs@ == s@,
            out@ == old(out)@ + xml_escaped(cs@.take(i as int)),
        decreases cs.len() - i,
    {
        let c = cs[i];
        if c == '&' {
            out.append("&amp;");
            proof { reveal_strlit("&amp;"); }
        } else if c == '<' {
            out.append("&lt;");
            proof { reveal_strlit("&lt;"); }
        } else if c == '>' {
            out.append("&gt;");
            proof { reveal_strlit("&gt;"); }
        } else if c == '"' {
            out.append("&quot;");
            proof { reveal_strlit("&quot;"); }
        } else {
            push_char(out, c);
        }
        assert(cs@.take(i + 1).drop_last() =~= cs@.take(i as int));
        assert(out@ =~= old(out)@ + xml_escaped(cs@.take(i + 1)));
        i = i + 1;
    }
    assert(cs@.take(cs@.len() as int) =~= cs@);
}

/// Replaces `&`, `<`, `>` and `"` by their XML entities.
pub fn xml_escape(s: &str) -> (r: String)
    ensures
        r@ == xml_escaped(s@),
{
    let mut out = String::new();
    push_xml_escaped(&mut out, s);
    assert(out@ =~= xml_escaped(s@));
    out
}

/// The `[Content_Types].xml` part.
pub open spec fn content_types_text() -> Seq<char> {
    "<?xml version=\"1.0\" encoding=\"UTF-8\"?>\n<Types xmlns=\"http://schemas.openxmlformats.org/package/2006/content-types\">\n  <Default Extension=\"rels\" ContentType=\"application/vnd.openxmlformats-package.relationships+xml\" />\n  <Default Extension=\"model\" ContentType=\"application/vnd.ms-package.3dmanufacturing-3dmodel+xml\" />\n</Types>"@
}

/// The `_rels/.rels` part.
pub open spec fn rels_text() -> Seq<char> {
    "<?xml version=\"1.0\" encoding=\"UTF-8\"?>\n<Relationships xmlns=\"http://schemas.openxmlformats.org/package/2006/relationships\">\n  <Relationship Target=\"/3D/3dmodel.model\" Id=\"rel0\" Type=\"http://schemas.microsoft.com/3dmanufacturing/2013/01/3dmodel\" />\n</Relationships>"@
}

/// The content-types part of the package.
pub fn content_types_xml() -> (r: String)
    ensures
        r@ == content_types_text(),
{
    String::from_str("<?xml version=\"1.0\" encoding=\"UTF-8\"?>\n<Types xmlns=\"http://schemas.openxmlformats.org/package/2006/content-types\">\n  <Default Extension=\"rels\" ContentType=\"application/vnd.openxmlformats-package.relationships+xml\" />\n  <Default Extension=\"model\" ContentType=\"application/vnd.ms-package.3dmanufacturing-3dmodel+xml\" />\n</Types>")
}

/// The relationships part of the package.
pub fn rels_xml() -> (r: String)
    ensures
        r@ == rels_text(),
{
    String::from_str("<?xml version=\"1.0\" encoding=\"UTF-8\"?>\n<Relationships xmlns=\"http://schemas.openxmlformats.org/package/2006/relationships\">\n  <Relationship Target=\"/3D/3dmodel.model\" Id=\"rel0\" Type=\"http://schemas.microsoft.com/3dmanufacturing/2013/01/3dmodel\" />\n</Relationships>")
}


// ---------------------------------------------------------------------------
// Model XML
// ---------------------------------------------------------------------------

/// Text before the escaped object name.
pub open spec fn model_head() -> Seq<char> {
    r#"<?xml version="1.0" encoding="UTF-8"?>
<model unit="millimeter" xml:lang="en-US"
       xmlns="http://schemas.microsoft.com/3dmanufacturing/core/2015/02">
  <resources>
    <object id="1" type="model" name=""#@
}

/// Text between the object name and the first vertex.
pub open spec fn model_after_name() -> Seq<char> {
    r#"">
      <mesh>
        <vertices>
"#@
}

/// Text between the vertices and the triangles.
pub open spec fn model_mid() -> Seq<char> {
    "        </vertices>\n        <triangles>\n"@
}

/// Text after the triangles.
pub open spec fn model_tail() -> Seq<char> {
    r#"        </triangles>
      </mesh>
    </object>
  </resources>
  <build>
    <item objectid="1" />
  </build>
</model>"#@
}

/// One `<vertex>` element from the rendered coordinates.
pub open spec fn vertex_line(v: (String, String, String)) -> Seq<char> {
    "          <vertex x=\""@ + v.0@ + "\" y=\""@ + v.1@ + "\" z=\""@ + v.2@ + "\" />\n"@
}

/// The `<vertex>` elements of all vertices, in order.
pub open spec fn vertex_lines(vs: Seq<(String, String, String)>) -> Seq<char>
    decreases vs.len(),
{
    if vs.len() == 0 { Seq::empty() } else { vertex_lines(vs.drop_last()) + vertex_line(vs.last()) }
}

/// One `<triangle>` element.
pub open spec fn triangle_line(a: u32, b: u32, c: u32) -> Seq<char> {
    "          <triangle v1=\""@ + dec(a as nat) + "\" v2=\""@ + dec(b as nat) + "\" v3=\""@
        + dec(c as nat) + "\" />\n"@
}

/// The `<triangle>` elements of the first `n` complete index triples.
pub open spec fn triangle_lines(idx: Seq<u32>, n: nat) -> Seq<char>
    decreases n,
{
    if n == 0 {
        Seq::empty()
    } else {
        let k = 3 * (n - 1);
        triangle_lines(idx, (n - 1) as nat) + triangle_line(idx[k], idx[k + 1], idx[k + 2])
    }
}

/// The 3MF model document: escaped name, one element per vertex and one per
/// complete index triple (a trailing incomplete triple is dropped).
pub open spec fn model_doc(vs: Seq<(String, String, String)>, idx: Seq<u32>, name: Seq<char>) -> Seq<char> {
    model_head() + xml_escaped(name) + model_after_name() + vertex_lines(vs) + model_mid()
        + triangle_lines(idx, idx.len() / 3) + model_tail()
}

fn push_triangle(xml: &mut String, a: u32, b: u32, c: u32)
    ensures
        final(xml)@ == old(xml)@ + triangle_line(a, b, c),
{
    xml.append("          <triangle v1=\"");
    push_dec(xml, a as u64);
    xml.append("\" v2=\"");
    push_dec(xml, b as u64);
    xml.append("\" v3=\"");
    push_dec(xml, c as u64);
    xml.append("\" />\n");
    assert(final(xml)@ =~= old(xml)@ + triangle_line(a, b, c));
}

/// Builds the 3MF model XML. Each vertex is given by its three coordinates,
/// already rendered as text.
pub fn model_xml(vertices: &Vec<(String, String, String)>, indices: &Vec<u32>, name: &str) -> (r: String)
    ensures
        r@ == model_doc(vertices@, indices@, name@),
{
    let mut xml = String::new();
    xml.append(r#"<?xml version="1.0" encoding="UTF-8"?>
<model unit="millimeter" xml:lang="en-US"
       xmlns="http://schemas.microsoft.com/3dmanufacturing/core/2015/02">
  <resources>
    <object id="1" type="model" name=""#);
    push_xml_escaped(&mut xml, name);
    xml.append(r#"">
      <mesh>
        <vertices>
"#);
    let ghost head = xml@;
    let mut i: usize = 0;
    while i < vertices.len()
        invariant
            i <= vertices@.len(),
            xml@ == head + vertex_lines(vertices@.take(i as int)),
        decreases vertices.len() - i,
    {
        let v = &vertices[i];
        xml.append("          <vertex x=\"");
        xml.append(v.0.as_str());
        xml.append("\" y=\"");
        xml.append(v.1.as_str());
        xml.append("\" z=\"");
        xml.append(v.2.as_str());
        xml.append("\" />\n");
        assert(vertices@.take(i + 1).drop_last() =~= vertices@.take(i as int));
        assert(xml@ =~= head + vertex_lines(vertices@.take(i + 1)));
        i = i + 1;
    }
    assert(vertices@.take(vertices@.len() as int) =~= vertices@);
    xml.append("        </vertices>\n        <triangles>\n");
    let ghost mid = xml@;
    let mut k: usize = 0;
    let ghost mut t: nat = 0;
    while indices.len() - k >= 3
        invariant
            k == 3 * t,
            k <= indices@.len(),
            xml@ == mid + triangle_lines(indices@, t),
        decreases indices.len() - k,
    {
        push_triangle(&mut xml, indices[k], indices[k + 1], indices[k + 2]);
        assert(triangle_lines(indices@, t + 1) == triangle_lines(indices@, t)
            + triangle_line(indices@[k as int], indices@[k + 1], indices@[k + 2]));
        assert(xml@ =~= mid + triangle_lines(indices@, t + 1));
        k = k + 3;
        proof { t = t + 1; }
    }
    assert(t == indices@.len() / 3);
    xml.append(r#"        </triangles>
      </mesh>
    </object>
  </resources>
  <build>
    <item objectid="1" />
  </build>
</model>"#);
    assert(xml@ =~= model_doc(vertices@, indices@, name@));
    xml
}

// ---------------------------------------------------------------------------
// Minimal ZIP writer (STORE method, no compression)
// ---------------------------------------------------------------------------

/// Local file header followed by the name and the stored data.
pub open spec fn zip_local(name: Seq<u8>, data: Seq<u8>) -> Seq<u8> {
    le32(0x04034b50) + le16(20) + le16(0) + le16(0) + le16(0) + le16(0)
        + le32(crc32_spec(data)) + le32(data.len() as u32) + le32(data.len() as u32)
        + le16(name.len() as u16) + le16(0) + name + data
}

/// The local entries of all files, in order.
pub open spec fn zip_locals(files: Seq<(Seq<u8>, Seq<u8>)>) -> Seq<u8>
    decreases files.len(),
{
    if files.len() == 0 {
        Seq::empty()
    } else {
        zip_locals(files.drop_last()) + zip_local(files.last().0, files.last().1)
    }
}

/// Central directory record of a file whose local header starts at `offset`.
pub open spec fn zip_central(name: Seq<u8>, data: Seq<u8>, offset: u32) -> Seq<u8> {
    le32(0x02014b50) + le16(20) + le16(20) + le16(0) + le16(0) + le16(0) + le16(0)
        + le32(crc32_spec(data)) + le32(data.len() as u32) + le32(data.len() as u32)
        + le16(name.len() as u16) + le16(0) + le16(0) + le16(0) + le16(0) + le32(0)
        + le32(offset) + name
}

/// The central records of the first `n` files; each records the offset at
/// which its local entry starts.
pub open spec fn zip_centrals(files: Seq<(Seq<u8>, Seq<u8>)>, n: nat) -> Seq<u8>
    decreases n,
{
    if n == 0 {
        Seq::empty()
    } else {
        let i = n - 1;
        zip_centrals(files, i as nat) + zip_central(
            files[i].0,
            files[i].1,
            zip_locals(files.take(i)).len() as u32,
        )
    }
}

/// End-of-central-directory record.
pub open spec fn zip_eocd(count: u16, cd_size: u32, cd_offset: u32) -> Seq<u8> {
    le32(0x06054b50) + le16(0) + le16(0) + le16(count) + le16(count) + le32(cd_size)
        + le32(cd_offset) + le16(0)
}

/// A complete stored ZIP archive of `files` (name bytes, data).
pub open spec fn zip_archive(files: Seq<(Seq<u8>, Seq<u8>)>) -> Seq<u8> {
    let locals = zip_locals(files);
    let centrals = zip_centrals(files, files.len());
    locals + centrals + zip_eocd(
        files.len() as u16,
        ((locals.len() + centrals.len()) as u32).wrapping_sub(locals.len() as u32),
        locals.len() as u32,
    )
}

/// The (name bytes, data) pairs of the given files.
pub open spec fn file_bytes(files: Seq<(&str, &[u8])>) -> Seq<(Seq<u8>, Seq<u8>)> {
    files.map_values(|f: (&str, &[u8])| (f.0.spec_bytes(), f.1@))
}

struct CentralEntry {
    name: Vec<u8>,
    crc: u32,
    size: u32,
    offset: u32,
}

proof fn lemma_locals_take(files: Seq<(Seq<u8>, Seq<u8>)>, i: int)
    requires
        0 <= i < files.len(),
    ensures
        zip_locals(files.take(i + 1)) == zip_locals(files.take(i)) + zip_local(files[i].0, files[i].1),
{
    assert(files.take(i + 1).drop_last() =~= files.take(i));
}



fn push_eocd(buf: &mut Vec<u8>, count: u16, cd_size: u32, cd_offset: u32)
    ensures
        final(buf)@ == old(buf)@ + zip_eocd(count, cd_size, cd_offset),
{
    push_le32(buf, 0x06054b50u32);
    push_le16(buf, 0);
    push_le16(buf, 0);
    push_le16(buf, count);
    push_le16(buf, count);
    push_le32(buf, cd_size);
    push_le32(buf, cd_offset);
    push_le16(buf, 0);
    assert(final(buf)@ =~= old(buf)@ + zip_eocd(count, cd_size, cd_offset));
}

fn push_local(buf: &mut Vec<u8>, name: &[u8], data: &[u8], crc: u32)
    requires
        crc == crc32_spec(data@),
    ensures
        final(buf)@ == old(buf)@ + zip_local(name@, data@),
{
    push_le32(buf, 0x04034b50u32);
    push_le16(buf, 20);
    push_le16(buf, 0);
    push_le16(buf, 0);
    push_le16(buf, 0);
    push_le16(buf, 0);
    push_le32(buf, crc);
    push_le32(buf, data.len() as u32);
    push_le32(buf, data.len() as u32);
    push_le16(buf, name.len() as u16);
    push_le16(buf, 0);
    push_bytes(buf, name);
    push_bytes(buf, data);
    assert(final(buf)@ =~= old(buf)@ + zip_local(name@, data@));
}

fn push_central(buf: &mut Vec<u8>, name: &[u8], crc: u32, size: u32, offset: u32)
    ensures
        forall|data: Seq<u8>| crc == crc32_spec(data) && size == data.len() as u32
            ==> final(buf)@ == old(buf)@ + #[trigger] zip_central(name@, data, offset),
{
    push_le32(buf, 0x02014b50u32);
    push_le16(buf, 20);
    push_le16(buf, 20);
    push_le16(buf, 0);
    push_le16(buf, 0);
    push_le16(buf, 0);
    push_le16(buf, 0);
    push_le32(buf, crc);
    push_le32(buf, size);
    push_le32(buf, size);
    push_le16(buf, name.len() as u16);
    push_le16(buf, 0);
    push_le16(buf, 0);
    push_le16(buf, 0);
    push_le16(buf, 0);
    push_le32(buf, 0);
    push_le32(buf, offset);
    push_bytes(buf, name);
    assert forall|data: Seq<u8>| crc == crc32_spec(data) && size == data.len() as u32
        implies final(buf)@ == old(buf)@ + #[trigger] zip_central(name@, data, offset) by {
        assert(final(buf)@ =~= old(buf)@ + zip_central(name@, data, offset));
    }
}

/// Writes a stored ZIP archive holding `files` (name, data), in order. Sizes
/// and offsets are written as 32-bit fields, truncated as `as u32` does; the
/// central-directory size is their 32-bit (wrapping) difference.
pub fn write_zip(files: &[(&str, &[u8])]) -> (r: Vec<u8>)
    ensures
        r@ == zip_archive(file_bytes(files@)),
{
    let ghost fs = file_bytes(files@);
    let mut buf: Vec<u8> = Vec::new();
    let mut central_entries: Vec<CentralEntry> = Vec::new();
    let mut i: usize = 0;
    assert(fs.take(files@.len() as int) =~= fs);
    while i < files.len()
        invariant
            i <= files@.len(),
            fs == file_bytes(files@),
            fs.len() == files@.len(),
            fs.take(files@.len() as int) == fs,
            buf@ == zip_locals(fs.take(i as int)),
            central_entries@.len() == i,
            forall|j: int| 0 <= j < i ==> {
                &&& (#[trigger] central_entries@[j]).name@ == fs[j].0
                &&& central_entries@[j].crc == crc32_spec(fs[j].1)
                &&& central_entries@[j].size == fs[j].1.len() as u32
                &&& central_entries@[j].offset == zip_locals(fs.take(j)).len() as u32
            },
        decreases files.len() - i,
    {
        let name: &str = files[i].0;
        let data: &[u8] = files[i].1;
        proof {
            lemma_locals_take(fs, i as int);
        }
        let offset = buf.len() as u32;
        let crc = crc32(data);
        let name_bytes = name.as_bytes();
        push_local(&mut buf, name_bytes, data, crc);
        let mut name_vec: Vec<u8> = Vec::new();
        push_bytes(&mut name_vec, name_bytes);
        central_entries.push(CentralEntry {
            name: name_vec,
            crc,
            size: data.len() as u32,
            offset,
        });
        assert(buf@ =~= zip_locals(fs.take(i + 1)));
        i = i + 1;
    }
    let cd_offset = buf.len() as u32;
    let ghost lbuf = buf@;
    let mut k: usize = 0;
    while k < central_entries.len()
        invariant
            k <= central_entries@.len(),
            central_entries@.len() == fs.len(),
            fs == file_bytes(files@),
            fs.len() == files@.len(),
            lbuf == zip_locals(fs),
            buf@ == lbuf + zip_centrals(fs, k as nat),
            forall|j: int| 0 <= j < fs.len() ==> {
                &&& (#[trigger] central_entries@[j]).name@ == fs[j].0
                &&& central_entries@[j].crc == crc32_spec(fs[j].1)
                &&& central_entries@[j].size == fs[j].1.len() as u32
                &&& central_entries@[j].offset == zip_locals(fs.take(j)).len() as u32
            },
        decreases central_entries.len() - k,
    {
        let entry = &central_entries[k];
        push_central(&mut buf, entry.name.as_slice(), entry.crc, entry.size, entry.offset);
        proof { assert(entry.size == fs[k as int].1.len() as u32); }
        assert(zip_central(fs[k as int].0, fs[k as int].1, entry.offset) == zip_central(entry.name@, fs[k as int].1, entry.offset));
        assert(buf@ =~= lbuf + zip_centrals(fs, (k + 1) as nat));
        k = k + 1;
    }
    let cd_size = (buf.len() as u32).wrapping_sub(cd_offset);
    let entry_count = central_entries.len() as u16;
    push_eocd(&mut buf, entry_count, cd_size, cd_offset);
    assert(buf@ =~= zip_archive(fs));
    buf
}


/// File names of the package parts.
pub open spec fn content_types_name() -> Seq<char> { "[Content_Types].xml"@ }

pub open spec fn rels_name() -> Seq<char> { "_rels/.rels"@ }

pub open spec fn model_name() -> Seq<char> { "3D/3dmodel.model"@ }

/// The 3MF package for a model document: content types, relationships and
/// the model, stored in a ZIP archive in that order.
pub open spec fn three_mf_package(model: Seq<char>) -> Seq<u8> {
    zip_archive(seq![
        (encode_utf8(content_types_name()), encode_utf8(content_types_text())),
        (encode_utf8(rels_name()), encode_utf8(rels_text())),
        (encode_utf8(model_name()), encode_utf8(model)),
    ])
}

/// Writes a 3MF package for a mesh whose vertex coordinates are given as
/// rendered text, with triangles given by vertex indices.
pub fn write_3mf(vertices: &Vec<(String, String, String)>, indices: &Vec<u32>, name: &str) -> (r: Vec<u8>)
    ensures
        r@ == three_mf_package(model_doc(vertices@, indices@, name@)),
{
    let content_types = content_types_xml();
    let rels = rels_xml();
    let model = model_xml(vertices, indices, name);
    let files: [(&str, &[u8]); 3] = [
        ("[Content_Types].xml", content_types.as_str().as_bytes()),
        ("_rels/.rels", rels.as_str().as_bytes()),
        ("3D/3dmodel.model", model.as_str().as_bytes()),
    ];
    let r = write_zip(files.as_slice());
    assert(file_bytes(files@) =~= seq![
        (encode_utf8(content_types_name()), encode_utf8(content_types_text())),
        (encode_utf8(rels_name()), encode_utf8(rels_text())),
        (encode_utf8(model_name()), encode_utf8(model_doc(vertices@, indices@, name@))),
    ]);
    r
}

} // verus!
