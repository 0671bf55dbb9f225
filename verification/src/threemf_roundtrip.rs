//! Reading back the stored ZIP archives that `threemf::write_zip` writes:
//! walking the local entries from the start gives the files, in order,
//! with their names and data.
use vstd::prelude::*;
use crate::bytes::{le16, le32, le16_value, le32_value, lemma_le16_roundtrip, lemma_le32_roundtrip};
use crate::threemf::{zip_local, zip_locals, zip_central, zip_centrals, zip_eocd, zip_archive, crc32_spec};

verus! {

/// The local-file-header signature.
pub open spec fn local_signature() -> int {
    0x04034b50
}

/// What a reader of stored entries finds from the start of `b`: while the
/// bytes start with a local file header whose CRC field (at offset 14)
/// matches its data, the file's name (its length read at offset 26) and
/// its stored data (its size read at offset 18), then the entries after
/// it.
#[verifier::opaque]
pub open spec fn stored_entries(b: Seq<u8>) -> Seq<(Seq<u8>, Seq<u8>)>
    decreases b.len(),
{
    if b.len() >= 30 && le32_value(b[0], b[1], b[2], b[3]) == local_signature() {
        let size = le32_value(b[18], b[19], b[20], b[21]);
        let nl = le16_value(b[26], b[27]);
        let end = 30 + nl + size;
        if end <= b.len() && le32_value(b[14], b[15], b[16], b[17]) == crc32_spec(b.subrange(30 + nl, end)) {
            seq![(b.subrange(30, 30 + nl), b.subrange(30 + nl, end))] + stored_entries(b.skip(end))
        } else {
            Seq::empty()
        }
    } else {
        Seq::empty()
    }
}

/// The files fit the archive's fields: names under 64 KiB, data under
/// 4 GiB.
pub open spec fn zip_fits(files: Seq<(Seq<u8>, Seq<u8>)>) -> bool {
    forall|i: int| 0 <= i < files.len() ==> (#[trigger] files[i]).0.len() <= u16::MAX && files[i].1.len() <= u32::MAX
}

proof fn lemma_locals_front(files: Seq<(Seq<u8>, Seq<u8>)>)
    requires
        files.len() > 0,
    ensures
        zip_locals(files) == zip_local(files[0].0, files[0].1) + zip_locals(files.drop_first()),
    decreases files.len(),
{
    if files.len() == 1 {
        assert(files.drop_last() =~= Seq::<(Seq<u8>, Seq<u8>)>::empty());
        assert(files.drop_first() =~= Seq::<(Seq<u8>, Seq<u8>)>::empty());
        assert(zip_locals(files.drop_last()) =~= Seq::<u8>::empty());
        assert(files.last() == files[0]);
        assert(zip_locals(files) =~= zip_local(files[0].0, files[0].1));
        assert(zip_locals(files.drop_first()) =~= Seq::<u8>::empty());
    } else {
        lemma_locals_front(files.drop_last());
        assert(files.drop_last().drop_first() =~= files.drop_first().drop_last());
        assert(files.drop_first().last() == files.last());
        assert(zip_locals(files) =~= zip_local(files[0].0, files[0].1) + zip_locals(files.drop_first()));
    }
}

proof fn lemma_read_local(name: Seq<u8>, data: Seq<u8>, rest: Seq<u8>)
    requires
        name.len() <= u16::MAX,
        data.len() <= u32::MAX,
    ensures
        stored_entries(zip_local(name, data) + rest) == seq![(name, data)] + stored_entries(rest),
{
    reveal(stored_entries);
    let h = zip_local(name, data);
    let b = h + rest;
    lemma_le32_roundtrip(0x04034b50);
    lemma_le32_roundtrip(data.len() as u32);
    lemma_le16_roundtrip(name.len() as u16);
    lemma_le32_roundtrip(crc32_spec(data));
    let crc = le32(crc32_spec(data));
    let sig = le32(0x04034b50);
    let sz = le32(data.len() as u32);
    let nl = le16(name.len() as u16);
    assert(h =~= sig + le16(20) + le16(0) + le16(0) + le16(0) + le16(0) + crc + sz + sz + nl
        + le16(0) + name + data);
    assert(h.len() == 30 + name.len() + data.len());
    assert(b[0] == sig[0] && b[1] == sig[1] && b[2] == sig[2] && b[3] == sig[3]);
    assert(b[18] == sz[0] && b[19] == sz[1] && b[20] == sz[2] && b[21] == sz[3]);
    assert(b[26] == nl[0] && b[27] == nl[1]);
    assert(b[14] == crc[0] && b[15] == crc[1] && b[16] == crc[2] && b[17] == crc[3]);
    let a: int = 30 + name.len() as int;
    let z: int = a + data.len() as int;
    assert(b.subrange(30, a) =~= name);
    assert(b.subrange(a, z) =~= data);
    assert(b.skip(z) =~= rest);
}

proof fn lemma_read_locals(files: Seq<(Seq<u8>, Seq<u8>)>, rest: Seq<u8>)
    requires
        zip_fits(files),
    ensures
        stored_entries(zip_locals(files) + rest) == files + stored_entries(rest),
    decreases files.len(),
{
    if files.len() == 0 {
        assert(zip_locals(files) + rest =~= rest);
        assert(files + stored_entries(rest) =~= stored_entries(rest));
    } else {
        lemma_locals_front(files);
        let t = files.drop_first();
        assert(zip_fits(t)) by {
            assert forall|i: int| 0 <= i < t.len() implies (#[trigger] t[i]).0.len() <= u16::MAX && t[i].1.len() <= u32::MAX by {
                assert(t[i] == files[i + 1]);
            }
        }
        assert(files[0] == files[0]);
        lemma_read_locals(t, rest);
        assert(zip_locals(files) + rest =~= zip_local(files[0].0, files[0].1) + (zip_locals(t) + rest));
        lemma_read_local(files[0].0, files[0].1, zip_locals(t) + rest);
        assert(seq![(files[0].0, files[0].1)] + (t + stored_entries(rest)) =~= files + stored_entries(rest));
    }
}

proof fn lemma_centrals_start(files: Seq<(Seq<u8>, Seq<u8>)>, n: nat)
    requires
        n >= 1,
        n <= files.len(),
    ensures
        zip_centrals(files, n).len() >= 4,
        zip_centrals(files, n).subrange(0, 4) == le32(0x02014b50),
    decreases n,
{
    if n == 1 {
        assert(zip_centrals(files, 0) =~= Seq::<u8>::empty());
        let c = zip_central(files[0].0, files[0].1, zip_locals(files.take(0)).len() as u32);
        assert(zip_centrals(files, 1) =~= c);
        assert(c.subrange(0, 4) =~= le32(0x02014b50));
    } else {
        lemma_centrals_start(files, (n - 1) as nat);
        let p = zip_centrals(files, (n - 1) as nat);
        let i = n - 1;
        let c = zip_central(files[i].0, files[i].1, zip_locals(files.take(i)).len() as u32);
        assert(zip_centrals(files, n) == p + c);
        assert((p + c).subrange(0, 4) =~= p.subrange(0, 4));
    }
}

/// Reading the stored entries of an archive that `write_zip` writes gives
/// back its files, in order, with the same names and data, every local CRC
/// field matching its data, provided each name and each file's data fit
/// their fields.
pub proof fn lemma_stored_zip_roundtrip(files: Seq<(Seq<u8>, Seq<u8>)>)
    requires
        zip_fits(files),
    ensures
        stored_entries(zip_archive(files)) == files,
{
    let locals = zip_locals(files);
    let centrals = zip_centrals(files, files.len());
    let e = zip_eocd(
        files.len() as u16,
        ((locals.len() + centrals.len()) as u32).wrapping_sub(locals.len() as u32),
        locals.len() as u32,
    );
    let tail = centrals + e;
    assert(zip_archive(files) =~= locals + tail);
    lemma_read_locals(files, tail);
    lemma_le32_roundtrip(0x02014b50);
    lemma_le32_roundtrip(0x06054b50);
    if files.len() > 0 {
        lemma_centrals_start(files, files.len());
        assert(tail[0] == centrals[0] && tail[1] == centrals[1] && tail[2] == centrals[2] && tail[3] == centrals[3]);
        assert(centrals[0] == centrals.subrange(0, 4)[0]);
        assert(centrals[1] == centrals.subrange(0, 4)[1]);
        assert(centrals[2] == centrals.subrange(0, 4)[2]);
        assert(centrals[3] == centrals.subrange(0, 4)[3]);
    } else {
        assert(centrals =~= Seq::<u8>::empty());
        assert(tail =~= e);
        let s = le32(0x06054b50);
        assert(e[0] == s[0] && e[1] == s[1] && e[2] == s[2] && e[3] == s[3]);
    }
    assert(stored_entries(tail) =~= Seq::<(Seq<u8>, Seq<u8>)>::empty()) by {
        reveal(stored_entries);
    }
    assert(files + Seq::<(Seq<u8>, Seq<u8>)>::empty() =~= files);
}

/// The end of a stored archive that `write_zip` writes: the last 22 bytes
/// are the end-of-central-directory record with the number of files and
/// the central directory's size and offset, and the central directory
/// (one record per file) sits just before it, where that offset says,
/// provided there are fewer than 65536 files and the archive stays under
/// 4 GiB.
pub proof fn lemma_stored_zip_end(files: Seq<(Seq<u8>, Seq<u8>)>)
    requires
        files.len() <= u16::MAX,
        zip_archive(files).len() < 0x1_0000_0000,
    ensures
        ({
            let b = zip_archive(files);
            let n = b.len() as int;
            let cs = zip_centrals(files, files.len());
            &&& n >= 22 + cs.len()
            &&& b.subrange(n - 22, n) == zip_eocd(files.len() as u16, cs.len() as u32, (n - 22 - cs.len()) as u32)
            &&& b.subrange(n - 22 - cs.len(), n - 22) == cs
            &&& n - 22 - cs.len() == zip_locals(files).len()
        }),
{
    let locals = zip_locals(files);
    let centrals = zip_centrals(files, files.len());
    let e = zip_eocd(
        files.len() as u16,
        ((locals.len() + centrals.len()) as u32).wrapping_sub(locals.len() as u32),
        locals.len() as u32,
    );
    let b = zip_archive(files);
    assert(b =~= locals + centrals + e);
    assert(e.len() == 22);
    assert(((locals.len() + centrals.len()) as u32).wrapping_sub(locals.len() as u32) == centrals.len() as u32);
    let n = b.len() as int;
    assert(b.subrange(n - 22, n) =~= e);
    assert(b.subrange(n - 22 - centrals.len(), n - 22) =~= centrals);
}

proof fn lemma_locals_hold_data(files: Seq<(Seq<u8>, Seq<u8>)>, i: int)
    requires
        0 <= i < files.len(),
    ensures
        files[i].1.len() <= zip_locals(files).len(),
    decreases files.len(),
{
    let l = zip_local(files.last().0, files.last().1);
    assert(l.len() == 30 + files.last().0.len() + files.last().1.len());
    if i < files.len() - 1 {
        lemma_locals_hold_data(files.drop_last(), i);
        assert(files.drop_last()[i] == files[i]);
    }
}

/// An archive under 4 GiB whose names fit their 16-bit fields, with fewer
/// than 65536 files, reads back whole: its stored entries are its files in
/// order, each local CRC field matching its data; its last 22 bytes are the
/// end record with the number of files and the central directory's size
/// and offset; and the central directory (one record per file, each with
/// the file's CRC) sits just before it.
pub proof fn lemma_stored_zip_whole(files: Seq<(Seq<u8>, Seq<u8>)>)
    requires
        files.len() <= u16::MAX,
        forall|i: int| 0 <= i < files.len() ==> (#[trigger] files[i]).0.len() <= u16::MAX,
        zip_archive(files).len() < 0x1_0000_0000,
    ensures
        stored_entries(zip_archive(files)) == files,
        ({
            let b = zip_archive(files);
            let n = b.len() as int;
            let cs = zip_centrals(files, files.len());
            &&& n >= 22 + cs.len()
            &&& b.subrange(n - 22, n) == zip_eocd(files.len() as u16, cs.len() as u32, (n - 22 - cs.len()) as u32)
            &&& b.subrange(n - 22 - cs.len(), n - 22) == cs
            &&& n - 22 - cs.len() == zip_locals(files).len()
        }),
{
    assert(zip_fits(files)) by {
        assert forall|i: int| 0 <= i < files.len() implies (#[trigger] files[i]).0.len() <= u16::MAX
            && files[i].1.len() <= u32::MAX by {
            lemma_locals_hold_data(files, i);
        }
    }
    lemma_stored_zip_roundtrip(files);
    lemma_stored_zip_end(files);
}

} // verus!
