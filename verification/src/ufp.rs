//! UltiMaker File Packages: a ZIP archive holding the G-code at
//! `/3D/model.gcode` and a small metadata file, both deflated.
use vstd::prelude::*;
use vstd::string::StringSliceAdditionalSpecFns;
use vstd::utf8::encode_utf8;
use crate::bytes::{le16, le32};
use crate::threemf::crc32_spec;
use std::io::Cursor;
use std::io::Write;
use zip::write::SimpleFileOptions;
use zip::{CompressionMethod, ZipWriter};

verus! {

/// A ZIP archive being written into memory (zip's `ZipWriter` on a
/// `Cursor<Vec<u8>>`); what it holds so far is `zip_entries`, and
/// `zip_sound` says whether it can go on.
#[verifier::external_body]
pub struct ZipBuffer {
    inner: ZipWriter<Cursor<Vec<u8>>>,
}

/// The files written into the archive so far, in order: name and data.
pub uninterp spec fn zip_entries(z: ZipBuffer) -> Seq<(Seq<char>, Seq<u8>)>;

/// The writer is still open, and a file is open for data exactly when the
/// archive holds one (the state that `ZipWriter::new` and successful
/// `start_file` and `write_all` calls leave it in).
pub uninterp spec fn zip_sound(z: ZipBuffer) -> bool;

/// The largest data, in bytes, for which the wrappers below promise
/// success: well under the 4 GiB at which zip asks for its large-file
/// option, for the data and for its deflated form.
pub open spec fn zip_data_limit() -> nat {
    0x4000_0000
}

/// The longest name for which `zip_start_deflated` promises success (zip
/// refuses a local header of 64 KiB or more).
pub open spec fn zip_name_limit() -> nat {
    0x4000
}

/// The archive's last file has room for `n` more bytes of data.
pub open spec fn zip_room(z: ZipBuffer, n: nat) -> bool {
    zip_entries(z).len() == 0 || zip_entries(z).last().1.len() + n < zip_data_limit()
}

/// `ZipWriter::new` on an empty buffer: an open archive that holds no file.
#[verifier::external_body]
fn zip_buffer_new() -> (z: ZipBuffer)
    ensures
        zip_entries(z) == Seq::<(Seq<char>, Seq<u8>)>::empty(),
        zip_sound(z),
{
    ZipBuffer { inner: ZipWriter::new(Cursor::new(Vec::new())) }
}

/// `ZipWriter::start_file` with deflate compression. On success the archive
/// holds one more file, with this name and no data yet, open for data. It
/// fails only on a name already in the archive, a name too long for a
/// local header, a previous file past the large-file limit, or an error of
/// the inner writer, which a `Cursor<Vec<u8>>` does not give; so on a sound
/// writer, a new short name and a small previous file it succeeds. On
/// failure nothing is said of the archive.
#[verifier::external_body]
fn zip_start_deflated(z: &mut ZipBuffer, name: &str) -> (ok: bool)
    ensures
        ok ==> zip_entries(*final(z)) == zip_entries(*old(z)).push((name@, Seq::<u8>::empty())),
        ok && zip_sound(*old(z)) ==> zip_sound(*final(z)),
        zip_sound(*old(z)) && zip_room(*old(z), 0) && name@.len() < zip_name_limit()
            && (forall|i: int| 0 <= i < zip_entries(*old(z)).len() ==> #[trigger] zip_entries(*old(z))[i].0 != name@)
            ==> ok,
{
    z.inner.start_file(name, SimpleFileOptions::default().compression_method(CompressionMethod::Deflated)).is_ok()
}

/// `Write::write_all` on the writer. Empty data writes nothing and
/// succeeds (std's `write_all` makes no call then). Otherwise, on success,
/// the last file started has `data` appended, and zip's `write` fails when
/// no file is open, when the file passes the large-file limit, or on an
/// error of the inner writer; so on a sound writer that holds a file with
/// room for the data it succeeds. On failure nothing is said of the
/// archive.
#[verifier::external_body]
fn zip_write_all(z: &mut ZipBuffer, data: &[u8]) -> (ok: bool)
    ensures
        data@.len() == 0 ==> ok && zip_entries(*final(z)) == zip_entries(*old(z)) && zip_sound(*final(z)) == zip_sound(*old(z)),
        ok && data@.len() > 0 ==> zip_entries(*old(z)).len() > 0 && zip_entries(*final(z)) == zip_entries(*old(z)).drop_last().push(
            (zip_entries(*old(z)).last().0, zip_entries(*old(z)).last().1 + data@),
        ),
        ok && zip_sound(*old(z)) ==> zip_sound(*final(z)),
        zip_sound(*old(z)) && zip_entries(*old(z)).len() > 0 && zip_room(*old(z), data@.len()) ==> ok,
{
    z.inner.write_all(data).is_ok()
}

/// The local file header of entry `e` starts at `at` in `b`: the
/// signature, deflate as its method, the CRC-32 and the length of its data,
/// and its name (its byte length, then its bytes at offset 30).
pub open spec fn local_header_at(b: Seq<u8>, at: int, e: (Seq<char>, Seq<u8>)) -> bool {
    let name = encode_utf8(e.0);
    &&& 0 <= at
    &&& at + 30 + name.len() <= b.len()
    &&& b.subrange(at, at + 4) == le32(0x04034b50)
    &&& b.subrange(at + 8, at + 10) == le16(8)
    &&& b.subrange(at + 14, at + 18) == le32(crc32_spec(e.1))
    &&& b.subrange(at + 22, at + 26) == le32(e.1.len() as u32)
    &&& b.subrange(at + 26, at + 28) == le16(name.len() as u16)
    &&& b.subrange(at + 30, at + 30 + name.len()) == name
}

/// `b` is a ZIP archive of the entries `es`, as far as it does not depend
/// on the compressed data or the system it was written on: the local
/// headers of the entries, in order, the first at the start, each ending
/// before the next begins and all before the end record; and the 22-byte
/// end-of-central-directory record at the very end, with the number of
/// entries (on this disk and in all) and an empty comment.
pub open spec fn zip_layout(b: Seq<u8>, es: Seq<(Seq<char>, Seq<u8>)>) -> bool {
    let n = b.len() as int;
    &&& n >= 22
    &&& b.subrange(n - 22, n - 18) == le32(0x06054b50)
    &&& b.subrange(n - 14, n - 12) == le16(es.len() as u16)
    &&& b.subrange(n - 12, n - 10) == le16(es.len() as u16)
    &&& b.subrange(n - 2, n) == le16(0)
    &&& exists|offs: Seq<int>|
        #![trigger offs.len()]
        offs.len() == es.len() && (es.len() > 0 ==> offs[0] == 0) && (forall|k: int|
            0 <= k < es.len() ==> #[trigger] local_header_at(b, offs[k], es[k])) && (forall|k: int|
            0 <= k < es.len() ==> offs[k] + 30 + encode_utf8(es[k].0).len() <= #[trigger] next_start(offs, k, n - 22))
}

/// Where the header after `k` starts, or `end` after the last.
pub open spec fn next_start(offs: Seq<int>, k: int, end: int) -> int {
    if k + 1 < offs.len() { offs[k + 1] } else { end }
}

/// `ZipWriter::finish` and the buffer's bytes, or `None` when finishing
/// fails. Finishing fails only when the last file passes the large-file
/// limit or the inner writer fails, so a sound writer whose last file is
/// small is finished. The bytes are described as far as they do not depend
/// on deflate's output or on the system (the central directory records
/// the system it was written on): the finished files' local headers, each
/// written where its file began, carry its name, method, CRC-32 and data
/// length; `finish` writes the central directory and then the end record
/// with the entry count (when under 65535, the limit of its field) and
/// the writer's comment, which is empty.
#[verifier::external_body]
fn zip_finish(z: ZipBuffer) -> (r: Option<Vec<u8>>)
    ensures
        zip_sound(z) && zip_room(z, 0) ==> r is Some,
        r matches Some(b) ==> zip_sound(z) && zip_entries(z).len() < 0xFFFF ==> zip_layout(b@, zip_entries(z)),
{
    match z.inner.finish() {
        Ok(c) => Some(c.into_inner()),
        Err(_) => None,
    }
}

/// The name of the G-code file in a package.
pub open spec fn gcode_entry_name() -> Seq<char> {
    "/3D/model.gcode"@
}

/// The name of the metadata file in a package.
pub open spec fn metadata_entry_name() -> Seq<char> {
    "/Metadata/UFP_Global.json"@
}

/// The metadata written into every package.
pub open spec fn metadata_text() -> Seq<char> {
    "{\"application\":\"OpenIE CAD\",\"version\":\"0.1.0\"}"@
}

/// The files of the package of some G-code: the G-code's bytes, then the
/// metadata's.
pub open spec fn ufp_entries(gcode: &str) -> Seq<(Seq<char>, Seq<u8>)> {
    seq![
        (gcode_entry_name(), gcode.spec_bytes()),
        (metadata_entry_name(), "{\"application\":\"OpenIE CAD\",\"version\":\"0.1.0\"}".spec_bytes()),
    ]
}

/// Writes the files of a UFP package into an open archive: the G-code at
/// `/3D/model.gcode`, then the metadata at `/Metadata/UFP_Global.json`,
/// both deflated. `None` when the archive writer fails, which it does not
/// for G-code under the data limit.
pub fn ufp_archive(gcode: &str) -> (r: Option<ZipBuffer>)
    ensures
        r is Some ==> zip_entries(r->0) == ufp_entries(gcode) && zip_sound(r->0) && zip_room(r->0, 0),
        gcode.spec_bytes().len() < zip_data_limit() ==> r is Some,
{
    let mut z = zip_buffer_new();
    let g = "/3D/model.gcode";
    let m = "/Metadata/UFP_Global.json";
    let meta = "{\"application\":\"OpenIE CAD\",\"version\":\"0.1.0\"}";
    proof {
        reveal_strlit("/3D/model.gcode");
        reveal_strlit("/Metadata/UFP_Global.json");
        reveal_strlit("{\"application\":\"OpenIE CAD\",\"version\":\"0.1.0\"}");
    }
    if !zip_start_deflated(&mut z, g) {
        return None;
    }
    let gb = gcode.as_bytes();
    if !zip_write_all(&mut z, gb) {
        return None;
    }
    assert(zip_entries(z)[0].0 != m@) by {
        assert(zip_entries(z)[0].0 == g@);
        assert(g@[1] != m@[1]);
    }
    if !zip_start_deflated(&mut z, m) {
        return None;
    }
    let mb = meta.as_bytes();
    proof {
        assert(vstd::string::is_ascii(meta));
        vstd::string::is_ascii_spec_bytes(meta);
        assert(mb@.len() == meta@.len());
    }
    if !zip_write_all(&mut z, mb) {
        return None;
    }
    assert(zip_entries(z) =~= ufp_entries(gcode));
    Some(z)
}

/// Packs G-code text as a UFP archive: the files of `ufp_entries(gcode)`
/// (see `ufp_archive`) in a finished ZIP, laid out as `zip_layout`
/// describes. `None` when the archive writer fails, which it does not for
/// G-code under the data limit.
pub fn text_to_ufp(gcode: &str) -> (r: Option<Vec<u8>>)
    ensures
        gcode.spec_bytes().len() < zip_data_limit() ==> r is Some,
        r matches Some(b) ==> zip_layout(b@, ufp_entries(gcode)),
{
    match ufp_archive(gcode) {
        Some(z) => zip_finish(z),
        None => None,
    }
}

} // verus!
