//! Binary glTF (`.glb`) container: chunk framing with 4-byte alignment, the
//! interleaved vertex/index buffer, and decoding of that buffer back into
//! raw 32-bit words (float bit patterns and indices).
use vstd::prelude::*;
use crate::bytes::{le32, le32_value, push_le32, push_bytes, read_le32, lemma_le32_roundtrip};

verus! {

/// "glTF" magic.
pub const GLB_MAGIC: u32 = 0x46546C67;
/// Container version.
pub const GLB_VERSION: u32 = 2;
/// JSON chunk type.
pub const CHUNK_TYPE_JSON: u32 = 0x4E4F534A;
/// Binary chunk type.
pub const CHUNK_TYPE_BIN: u32 = 0x004E4942;

/// `len` rounded up to a multiple of four.
pub open spec fn round_up4(len: int) -> int {
    ((len + 3) / 4) * 4
}

/// Pads `len` up to the next multiple of 4.
pub fn align4(len: u32) -> (r: u32)
    requires
        len <= u32::MAX - 3,
    ensures
        r == round_up4(len as int),
        r % 4 == 0,
        len <= r < len + 4,
{
    let l3: u32 = len + 3;
    let r = l3 & !3u32;
    assert(r == (l3 / 4) * 4 && r % 4 == 0 && len <= r && r < len + 4) by (bit_vector)
        requires
            len <= 0xffff_fffcu32,
            l3 == len + 3,
            r == l3 & !3u32,
    ;
    r
}

/// `n` copies of byte `b`.
pub open spec fn fill(b: u8, n: nat) -> Seq<u8> {
    Seq::new(n, |_i: int| b)
}

/// A GLB container of a JSON chunk and a binary chunk; the JSON is padded
/// with spaces and the binary data with zeros to 4-byte boundaries, and the
/// header records the total length.
pub open spec fn glb_bytes(json: Seq<u8>, bin: Seq<u8>) -> Seq<u8> {
    let jp = round_up4(json.len() as int);
    let bp = round_up4(bin.len() as int);
    let total = 28 + jp + bp;
    le32(GLB_MAGIC) + le32(GLB_VERSION) + le32(total as u32)
        + le32(jp as u32) + le32(CHUNK_TYPE_JSON) + json + fill(0x20, (jp - json.len()) as nat)
        + le32(bp as u32) + le32(CHUNK_TYPE_BIN) + bin + fill(0x00, (bp - bin.len()) as nat)
}

fn push_fill(out: &mut Vec<u8>, b: u8, n: usize)
    ensures
        final(out)@ == old(out)@ + fill(b, n as nat),
{
    let mut i: usize = 0;
    while i < n
        invariant
            i <= n,
            out@ == old(out)@ + fill(b, i as nat),
        decreases n - i,
    {
        out.push(b);
        i = i + 1;
        assert(out@ =~= old(out)@ + fill(b, i as nat));
    }
}

/// Assembles a GLB container from the JSON text bytes and the binary buffer.
pub fn assemble_glb(json_bytes: &[u8], bin_bytes: &[u8]) -> (r: Vec<u8>)
    requires
        json_bytes@.len() + bin_bytes@.len() + 34 <= u32::MAX,
    ensures
        r@ == glb_bytes(json_bytes@, bin_bytes@),
        r@.len() == 28 + round_up4(json_bytes@.len() as int) + round_up4(bin_bytes@.len() as int),
        round_up4(json_bytes@.len() as int) % 4 == 0,
{
    let json_padded_len = align4(json_bytes.len() as u32);
    let bin_padded_len = align4(bin_bytes.len() as u32);
    let total_len = 12 + 8 + json_padded_len + 8 + bin_padded_len;
    let mut out: Vec<u8> = Vec::new();
    push_le32(&mut out, GLB_MAGIC);
    push_le32(&mut out, GLB_VERSION);
    push_le32(&mut out, total_len);
    push_le32(&mut out, json_padded_len);
    push_le32(&mut out, CHUNK_TYPE_JSON);
    push_bytes(&mut out, json_bytes);
    push_fill(&mut out, 0x20, json_padded_len as usize - json_bytes.len());
    push_le32(&mut out, bin_padded_len);
    push_le32(&mut out, CHUNK_TYPE_BIN);
    push_bytes(&mut out, bin_bytes);
    push_fill(&mut out, 0x00, bin_padded_len as usize - bin_bytes.len());
    assert(out@ =~= glb_bytes(json_bytes@, bin_bytes@));
    out
}

/// The little-endian words of `words`, in order.
pub open spec fn words_bytes(words: Seq<u32>) -> Seq<u8>
    decreases words.len(),
{
    if words.len() == 0 { Seq::empty() } else { words_bytes(words.drop_last()) + le32(words.last()) }
}

/// The vertex words (three position then three normal bit patterns per vertex).
pub open spec fn vertex_words(vs: Seq<[u32; 6]>) -> Seq<u32>
    decreases vs.len(),
{
    if vs.len() == 0 {
        Seq::empty()
    } else {
        let v = vs.last();
        vertex_words(vs.drop_last()) + seq![v[0], v[1], v[2], v[3], v[4], v[5]]
    }
}

/// Builds the binary buffer: interleaved vertex data (position then normal,
/// as `f32` bit patterns), then the triangle indices, all little-endian.
pub fn build_bin_buffer(vertices: &Vec<[u32; 6]>, indices: &Vec<u32>) -> (r: Vec<u8>)
    ensures
        r@ == words_bytes(vertex_words(vertices@) + indices@),
{
    let mut buf: Vec<u8> = Vec::new();
    let ghost mut words: Seq<u32> = Seq::empty();
    let mut i: usize = 0;
    while i < vertices.len()
        invariant
            i <= vertices@.len(),
            words == vertex_words(vertices@.take(i as int)),
            buf@ == words_bytes(words),
        decreases vertices.len() - i,
    {
        let v = vertices[i];
        let mut c: usize = 0;
        while c < 6
            invariant
                c <= 6,
                words_bytes(words) == buf@,
                words == vertex_words(vertices@.take(i as int)) + seq![v[0], v[1], v[2], v[3], v[4], v[5]].take(c as int),
            decreases 6 - c,
        {
            push_le32(&mut buf, v[c]);
            proof {
                let nw = words.push(v[c as int]);
                assert(nw.drop_last() =~= words);
                words = nw;
                assert(words =~= vertex_words(vertices@.take(i as int)) + seq![v[0], v[1], v[2], v[3], v[4], v[5]].take(c + 1));
            }
            c = c + 1;
        }
        assert(vertices@.take(i + 1).drop_last() =~= vertices@.take(i as int));
        assert(words =~= vertex_words(vertices@.take(i + 1)));
        i = i + 1;
    }
    assert(vertices@.take(vertices@.len() as int) =~= vertices@);
    let ghost vw = words;
    let mut j: usize = 0;
    while j < indices.len()
        invariant
            j <= indices@.len(),
            words == vw + indices@.take(j as int),
            buf@ == words_bytes(words),
        decreases indices.len() - j,
    {
        push_le32(&mut buf, indices[j]);
        proof {
            let nw = words.push(indices@[j as int]);
            assert(nw.drop_last() =~= words);
            words = nw;
            assert(words =~= vw + indices@.take(j + 1));
        }
        j = j + 1;
    }
    assert(indices@.take(indices@.len() as int) =~= indices@);
    buf
}

/// The 32-bit little-endian value at `pos`.
pub open spec fn word_at(s: Seq<u8>, pos: int) -> int {
    le32_value(s[pos], s[pos + 1], s[pos + 2], s[pos + 3])
}

/// Where the JSON and binary chunks of a GLB container lie:
/// `(json_start, json_len, bin_start, bin_len)`, or `None` when the header,
/// the chunk types or the declared lengths do not fit the data.
pub open spec fn glb_frame(d: Seq<u8>) -> Option<(int, int, int, int)> {
    if d.len() < 12 {
        None
    } else if word_at(d, 0) != GLB_MAGIC || word_at(d, 4) != GLB_VERSION || word_at(d, 8) > d.len() {
        None
    } else if 20 > d.len() {
        None
    } else if word_at(d, 16) != CHUNK_TYPE_JSON {
        None
    } else {
        let json_len = word_at(d, 12);
        let off = 20 + json_len;
        if off > d.len() {
            None
        } else if off + 8 > d.len() {
            None
        } else if word_at(d, off + 4) != CHUNK_TYPE_BIN {
            None
        } else {
            let bin_len = word_at(d, off);
            if off + 8 + bin_len > d.len() {
                None
            } else {
                Some((20, json_len, off + 8, bin_len))
            }
        }
    }
}

/// Locates the JSON and binary chunks of a GLB container.
pub fn glb_chunks(data: &[u8]) -> (r: Option<(usize, usize, usize, usize)>)
    ensures
        match r {
            Some(t) => glb_frame(data@) == Some((t.0 as int, t.1 as int, t.2 as int, t.3 as int)),
            None => glb_frame(data@) is None,
        },
{
    if data.len() < 12 {
        return None;
    }
    let magic = read_le32(data, 0);
    let version = read_le32(data, 4);
    let total_len = read_le32(data, 8);
    if magic != GLB_MAGIC || version != GLB_VERSION || total_len as usize > data.len() {
        return None;
    }
    let mut offset: usize = 12;
    if data.len() < 20 {
        return None;
    }
    let json_len = read_le32(data, offset) as usize;
    let json_type = read_le32(data, offset + 4);
    if json_type != CHUNK_TYPE_JSON {
        return None;
    }
    offset = offset + 8;
    if data.len() - offset < json_len {
        return None;
    }
    let json_start = offset;
    offset = offset + json_len;
    if data.len() - offset < 8 {
        return None;
    }
    let bin_len = read_le32(data, offset) as usize;
    let bin_type = read_le32(data, offset + 4);
    if bin_type != CHUNK_TYPE_BIN {
        return None;
    }
    offset = offset + 8;
    if data.len() - offset < bin_len {
        return None;
    }
    Some((json_start, json_len, offset, bin_len))
}


/// An accessor of the glTF JSON: which buffer view, where in it, how many elements.
pub struct GlbAccessor {
    pub buffer_view: u32,
    pub byte_offset: u32,
    pub count: u32,
}

/// A buffer view of the glTF JSON.
pub struct GlbBufferView {
    pub byte_offset: u32,
    pub byte_stride: Option<u32>,
}

/// The parts of a glTF JSON document that locate mesh data: for each mesh
/// its primitives as (position accessor, normal accessor, index accessor).
pub struct GlbDocument {
    pub meshes: Vec<Vec<(u32, u32, u32)>>,
    pub accessors: Vec<GlbAccessor>,
    pub buffer_views: Vec<GlbBufferView>,
}

/// A decoded mesh: per vertex three position and three normal `f32` bit
/// patterns, and the triangle indices.
pub struct MeshWords {
    pub vertices: Vec<[u32; 6]>,
    pub indices: Vec<u32>,
}

/// Where the first primitive's data lies in the binary chunk:
/// (vertex view offset, stride, position offset, normal offset, vertex count,
/// index start, index count); `None` when a reference is missing.
pub open spec fn glb_layout(doc: GlbDocument) -> Option<(int, int, int, int, int, int, int)> {
    if doc.meshes@.len() == 0 || doc.meshes@[0]@.len() == 0 {
        None
    } else {
        let prim = doc.meshes@[0]@[0];
        let acc = doc.accessors@;
        let bvs = doc.buffer_views@;
        if prim.0 >= acc.len() || prim.1 >= acc.len() || prim.2 >= acc.len() {
            None
        } else {
            let pa = acc[prim.0 as int];
            let na = acc[prim.1 as int];
            let ia = acc[prim.2 as int];
            if pa.buffer_view >= bvs.len() || ia.buffer_view >= bvs.len() {
                None
            } else {
                let pbv = bvs[pa.buffer_view as int];
                let ibv = bvs[ia.buffer_view as int];
                let stride: int = match pbv.byte_stride { Some(s) => s as int, None => 24 };
                Some((pbv.byte_offset as int, stride, pa.byte_offset as int, na.byte_offset as int,
                    pa.count as int, ibv.byte_offset + ia.byte_offset, ia.count as int))
            }
        }
    }
}

/// Decoding succeeds when every vertex's position and normal and every index
/// lie within the binary chunk.
pub open spec fn glb_in_bounds(l: (int, int, int, int, int, int, int), bin_len: int) -> bool {
    &&& forall|i: int| 0 <= i < l.4 ==> #[trigger] (l.0 + i * l.1) + l.2 + 12 <= bin_len
    &&& forall|i: int| 0 <= i < l.4 ==> #[trigger] (l.0 + i * l.1) + l.3 + 12 <= bin_len
    &&& forall|j: int| 0 <= j < l.6 ==> #[trigger] (l.5 + 4 * j) + 4 <= bin_len
}

/// Vertex `i` holds the position words at its position offset and the normal
/// words at its normal offset.
pub open spec fn vertex_read(l: (int, int, int, int, int, int, int), bin: Seq<u8>, i: int, v: [u32; 6]) -> bool {
    let p = l.0 + i * l.1 + l.2;
    let n = l.0 + i * l.1 + l.3;
    &&& v[0] == word_at(bin, p)
    &&& v[1] == word_at(bin, p + 4)
    &&& v[2] == word_at(bin, p + 8)
    &&& v[3] == word_at(bin, n)
    &&& v[4] == word_at(bin, n + 4)
    &&& v[5] == word_at(bin, n + 8)
}

/// The mesh read from the binary chunk under a layout.
pub open spec fn glb_decoded(l: (int, int, int, int, int, int, int), bin: Seq<u8>, m: MeshWords) -> bool {
    &&& m.vertices@.len() == l.4
    &&& m.indices@.len() == l.6
    &&& forall|i: int| 0 <= i < l.4 ==> vertex_read(l, bin, i, #[trigger] m.vertices@[i])
    &&& forall|j: int| 0 <= j < l.6 ==> #[trigger] m.indices@[j] == word_at(bin, l.5 + 4 * j)
}

fn read_word(bin: &[u8], pos: u128) -> (r: u32)
    requires
        pos + 4 <= bin@.len(),
    ensures
        r == word_at(bin@, pos as int),
{
    let n = bin.len();
    let p = pos as usize;
    assert(p == pos);
    read_le32(bin, p)
}

/// Reads the first primitive's vertices and indices out of the binary chunk.
pub fn decode_glb_mesh(doc: &GlbDocument, bin: &[u8]) -> (r: Option<MeshWords>)
    ensures
        match glb_layout(*doc) {
            None => r is None,
            Some(l) => match r {
                Some(m) => glb_in_bounds(l, bin@.len() as int) && glb_decoded(l, bin@, m),
                None => !glb_in_bounds(l, bin@.len() as int),
            },
        },
{
    if doc.meshes.len() == 0 || doc.meshes[0].len() == 0 {
        return None;
    }
    let prim = doc.meshes[0][0];
    if prim.0 as usize >= doc.accessors.len() || prim.1 as usize >= doc.accessors.len()
        || prim.2 as usize >= doc.accessors.len() {
        return None;
    }
    let pa = &doc.accessors[prim.0 as usize];
    let na = &doc.accessors[prim.1 as usize];
    let ia = &doc.accessors[prim.2 as usize];
    if pa.buffer_view as usize >= doc.buffer_views.len() || ia.buffer_view as usize >= doc.buffer_views.len() {
        return None;
    }
    let pbv = &doc.buffer_views[pa.buffer_view as usize];
    let ibv = &doc.buffer_views[ia.buffer_view as usize];
    let stride: u32 = match pbv.byte_stride { Some(s) => s, None => 24 };
    let ghost l = glb_layout(*doc).unwrap();
    let vertex_count = pa.count;
    let index_count = ia.count;
    let len = bin.len() as u128;
    let mut vertices: Vec<[u32; 6]> = Vec::new();
    let mut i: u32 = 0;
    while i < vertex_count
        invariant
            i <= vertex_count,
            l == glb_layout(*doc).unwrap(),
            l.0 == pbv.byte_offset, l.1 == stride, l.2 == pa.byte_offset, l.3 == na.byte_offset,
            l.4 == vertex_count,
            len == bin@.len(),
            vertices@.len() == i,
            forall|k: int| 0 <= k < i ==> #[trigger] (l.0 + k * l.1) + l.2 + 12 <= len,
            forall|k: int| 0 <= k < i ==> #[trigger] (l.0 + k * l.1) + l.3 + 12 <= len,
            forall|k: int| 0 <= k < i ==> vertex_read(l, bin@, k, #[trigger] vertices@[k]),
        decreases vertex_count - i,
    {
        assert((i as u128) * (stride as u128) <= 0xffff_ffff_ffff_ffffu128) by (nonlinear_arith)
            requires i <= 0xffff_ffffu32, stride <= 0xffff_ffffu32;
        let row = pbv.byte_offset as u128 + (i as u128) * (stride as u128);
        let base = row + pa.byte_offset as u128;
        let norm_base = row + na.byte_offset as u128;
        if base + 12 > len || norm_base + 12 > len {
            assert(!glb_in_bounds(l, bin@.len() as int)) by {
                assert((l.0 + (i as int) * l.1) + l.2 + 12 > len || (l.0 + (i as int) * l.1) + l.3 + 12 > len);
            }
            return None;
        }
        let v: [u32; 6] = [
            read_word(bin, base), read_word(bin, base + 4), read_word(bin, base + 8),
            read_word(bin, norm_base), read_word(bin, norm_base + 4), read_word(bin, norm_base + 8),
        ];
        vertices.push(v);
        i = i + 1;
    }
    let idx_base = ibv.byte_offset as u128 + ia.byte_offset as u128;
    let mut indices: Vec<u32> = Vec::new();
    let mut j: u32 = 0;
    while j < index_count
        invariant
            j <= index_count,
            l == glb_layout(*doc).unwrap(),
            l.5 == idx_base, l.6 == index_count,
            idx_base <= 0x2_0000_0000u128,
            len == bin@.len(),
            indices@.len() == j,
            forall|k: int| 0 <= k < j ==> #[trigger] (l.5 + 4 * k) + 4 <= len,
            forall|k: int| 0 <= k < j ==> #[trigger] indices@[k] == word_at(bin@, l.5 + 4 * k),
        decreases index_count - j,
    {
        let off = idx_base + 4 * (j as u128);
        if off + 4 > len {
            assert(!glb_in_bounds(l, bin@.len() as int)) by {
                assert((l.5 + 4 * (j as int)) + 4 > len);
            }
            return None;
        }
        indices.push(read_word(bin, off));
        j = j + 1;
    }
    let m = MeshWords { vertices, indices };
    assert(glb_decoded(l, bin@, m));
    Some(m)
}


// ---------------------------------------------------------------------------
// What the reader finds in an assembled container
// ---------------------------------------------------------------------------

proof fn lemma_round_up4(len: int)
    requires
        0 <= len,
    ensures
        len <= round_up4(len) < len + 4,
        round_up4(len) % 4 == 0,
{
    assert(len <= ((len + 3) / 4) * 4 < len + 4) by (nonlinear_arith)
        requires
            0 <= len,
    ;
    assert((((len + 3) / 4) * 4) % 4 == 0) by (nonlinear_arith)
        requires
            0 <= len,
    ;
}

proof fn lemma_word_at(d: Seq<u8>, pos: int, x: u32)
    requires
        0 <= pos,
        pos + 4 <= d.len(),
        d.subrange(pos, pos + 4) == le32(x),
    ensures
        word_at(d, pos) == x,
{
    lemma_le32_roundtrip(x);
    assert(d[pos] == d.subrange(pos, pos + 4)[0]);
    assert(d[pos + 1] == d.subrange(pos, pos + 4)[1]);
    assert(d[pos + 2] == d.subrange(pos, pos + 4)[2]);
    assert(d[pos + 3] == d.subrange(pos, pos + 4)[3]);
}

#[verifier::spinoff_prover]
proof fn lemma_glb_parts(json: Seq<u8>, bin: Seq<u8>)
    requires
        json.len() + bin.len() + 34 <= u32::MAX,
    ensures
        glb_bytes(json, bin).len() == 28 + round_up4(json.len() as int) + round_up4(bin.len() as int),
        glb_bytes(json, bin).subrange(0, 4) == le32(GLB_MAGIC),
        glb_bytes(json, bin).subrange(4, 8) == le32(GLB_VERSION),
        glb_bytes(json, bin).subrange(8, 12)
            == le32((28 + round_up4(json.len() as int) + round_up4(bin.len() as int)) as u32),
        glb_bytes(json, bin).subrange(12, 16) == le32(round_up4(json.len() as int) as u32),
        glb_bytes(json, bin).subrange(16, 20) == le32(CHUNK_TYPE_JSON),
        glb_bytes(json, bin).subrange(20, 20 + json.len() as int) == json,
        glb_bytes(json, bin).subrange(20 + round_up4(json.len() as int), 24 + round_up4(json.len() as int))
            == le32(round_up4(bin.len() as int) as u32),
        glb_bytes(json, bin).subrange(24 + round_up4(json.len() as int), 28 + round_up4(json.len() as int))
            == le32(CHUNK_TYPE_BIN),
        glb_bytes(json, bin).subrange(28 + round_up4(json.len() as int), 28 + round_up4(json.len() as int) + bin.len())
            == bin,
        json.len() <= round_up4(json.len() as int) < json.len() + 4,
        bin.len() <= round_up4(bin.len() as int) < bin.len() + 4,
{
    let jp = round_up4(json.len() as int);
    let bp = round_up4(bin.len() as int);
    lemma_round_up4(json.len() as int);
    lemma_round_up4(bin.len() as int);
    let total = 28 + jp + bp;
    let h0 = le32(GLB_MAGIC);
    let h1 = le32(GLB_VERSION);
    let h2 = le32(total as u32);
    let h3 = le32(jp as u32);
    let h4 = le32(CHUNK_TYPE_JSON);
    let pj = fill(0x20, (jp - json.len()) as nat);
    let b0 = le32(bp as u32);
    let b1 = le32(CHUNK_TYPE_BIN);
    let pb = fill(0x00, (bp - bin.len()) as nat);
    let d = glb_bytes(json, bin);
    assert(d == h0 + h1 + h2 + h3 + h4 + json + pj + b0 + b1 + bin + pb);
    assert(d.subrange(0, 4) =~= h0);
    assert(d.subrange(4, 8) =~= h1);
    assert(d.subrange(8, 12) =~= h2);
    assert(d.subrange(12, 16) =~= h3);
    assert(d.subrange(16, 20) =~= h4);
    assert(d.subrange(20, 20 + json.len() as int) =~= json);
    assert(d.subrange(20 + jp, 24 + jp) =~= b0);
    assert(d.subrange(24 + jp, 28 + jp) =~= b1);
    assert(d.subrange(28 + jp, 28 + jp + bin.len()) =~= bin);
}

/// The reader finds in an assembled container the JSON chunk at byte 20
/// and the binary chunk after it, each as long as its padded data, and
/// each chunk begins with the data that was put in.
pub proof fn lemma_glb_frame_roundtrip(json: Seq<u8>, bin: Seq<u8>)
    requires
        json.len() + bin.len() + 34 <= u32::MAX,
    ensures
        glb_frame(glb_bytes(json, bin)) == Some((
            20int,
            round_up4(json.len() as int),
            28 + round_up4(json.len() as int),
            round_up4(bin.len() as int),
        )),
        glb_bytes(json, bin).subrange(20, 20 + json.len() as int) == json,
        glb_bytes(json, bin).subrange(28 + round_up4(json.len() as int), 28 + round_up4(json.len() as int) + bin.len())
            == bin,
{
    let jp = round_up4(json.len() as int);
    let bp = round_up4(bin.len() as int);
    let d = glb_bytes(json, bin);
    lemma_glb_parts(json, bin);
    lemma_word_at(d, 0, GLB_MAGIC);
    lemma_word_at(d, 4, GLB_VERSION);
    lemma_word_at(d, 8, (28 + jp + bp) as u32);
    lemma_word_at(d, 12, jp as u32);
    lemma_word_at(d, 16, CHUNK_TYPE_JSON);
    lemma_word_at(d, 20 + jp, bp as u32);
    lemma_word_at(d, 24 + jp, CHUNK_TYPE_BIN);
}

/// The layout the writer gives its binary buffer for `n` vertices and `m`
/// indices: vertices from byte 0 with a stride of 24, positions at 0 and
/// normals at 12 within each; the indices right after the vertices.
pub open spec fn writer_layout(n: nat, m: nat) -> (int, int, int, int, int, int, int) {
    (0, 24, 0, 12, n as int, 24 * n as int, m as int)
}

proof fn lemma_words_chunk(ws: Seq<u32>, t: int)
    requires
        0 <= t < ws.len(),
    ensures
        words_bytes(ws).len() == 4 * ws.len(),
        words_bytes(ws).subrange(4 * t, 4 * t + 4) == le32(ws[t]),
    decreases ws.len(),
{
    lemma_words_len(ws.drop_last());
    let d = words_bytes(ws.drop_last());
    let b = words_bytes(ws);
    assert(b == d + le32(ws.last()));
    if t < ws.len() - 1 {
        lemma_words_chunk(ws.drop_last(), t);
        assert(ws.drop_last()[t] == ws[t]);
        assert(b.subrange(4 * t, 4 * t + 4) =~= d.subrange(4 * t, 4 * t + 4));
    } else {
        assert(b.subrange(4 * t, 4 * t + 4) =~= le32(ws.last()));
    }
}

proof fn lemma_words_bytes(ws: Seq<u32>, t: int)
    requires
        0 <= t < ws.len(),
    ensures
        words_bytes(ws).len() == 4 * ws.len(),
        word_at(words_bytes(ws), 4 * t) == ws[t],
{
    lemma_words_chunk(ws, t);
    lemma_word_at(words_bytes(ws), 4 * t, ws[t]);
}

proof fn lemma_words_len(ws: Seq<u32>)
    ensures
        words_bytes(ws).len() == 4 * ws.len(),
    decreases ws.len(),
{
    if ws.len() > 0 {
        lemma_words_len(ws.drop_last());
    }
}

proof fn lemma_vertex_words(vs: Seq<[u32; 6]>, i: int, c: int)
    requires
        0 <= i < vs.len(),
        0 <= c < 6,
    ensures
        vertex_words(vs).len() == 6 * vs.len(),
        vertex_words(vs)[6 * i + c] == vs[i][c],
    decreases vs.len(),
{
    lemma_vertex_words_len(vs.drop_last());
    let v = vs.last();
    assert(vertex_words(vs) == vertex_words(vs.drop_last()) + seq![v[0], v[1], v[2], v[3], v[4], v[5]]);
    if i < vs.len() - 1 {
        lemma_vertex_words(vs.drop_last(), i, c);
        assert(vs.drop_last()[i] == vs[i]);
    }
}

proof fn lemma_vertex_words_len(vs: Seq<[u32; 6]>)
    ensures
        vertex_words(vs).len() == 6 * vs.len(),
    decreases vs.len(),
{
    if vs.len() > 0 {
        lemma_vertex_words_len(vs.drop_last());
    }
}

/// What a reader gets back of the binary buffer the writer builds: under
/// the writer's layout every vertex and index lies inside the buffer, and
/// a mesh decoded from it holds exactly the vertices' position and normal
/// words and the indices that were written, in order.
pub proof fn lemma_glb_buffer_roundtrip(vs: Seq<[u32; 6]>, is: Seq<u32>, mw: MeshWords)
    ensures
        glb_in_bounds(
            writer_layout(vs.len(), is.len()),
            words_bytes(vertex_words(vs) + is).len() as int,
        ),
        glb_decoded(writer_layout(vs.len(), is.len()), words_bytes(vertex_words(vs) + is), mw) ==> {
            &&& mw.vertices@.len() == vs.len()
            &&& forall|i: int, c: int| 0 <= i < vs.len() && 0 <= c < 6 ==> #[trigger] mw.vertices@[i][c] == vs[i][c]
            &&& mw.indices@ == is
        },
{
    let l = writer_layout(vs.len(), is.len());
    let ws = vertex_words(vs) + is;
    let bin = words_bytes(ws);
    let n = vs.len() as int;
    lemma_vertex_words_len(vs);
    lemma_words_len(ws);
    assert(bin.len() == 4 * (6 * n + is.len()));
    assert forall|i: int| 0 <= i < l.4 implies #[trigger] (l.0 + i * l.1) + l.2 + 12 <= bin.len() as int by {
        assert(i * 24 + 24 <= 24 * n);
    }
    assert forall|i: int| 0 <= i < l.4 implies #[trigger] (l.0 + i * l.1) + l.3 + 12 <= bin.len() as int by {
        assert(i * 24 + 24 <= 24 * n);
    }
    assert forall|j: int| 0 <= j < l.6 implies #[trigger] (l.5 + 4 * j) + 4 <= bin.len() as int by {}
    if glb_decoded(l, bin, mw) {
        assert forall|i: int, c: int| 0 <= i < vs.len() && 0 <= c < 6 implies #[trigger] mw.vertices@[i][c] == vs[i][c] by {
            assert(vertex_read(l, bin, i, mw.vertices@[i]));
            lemma_vertex_words(vs, i, c);
            assert(ws[6 * i + c] == vs[i][c]);
            lemma_words_bytes(ws, 6 * i + c);
            if c < 3 {
                assert(l.0 + i * l.1 + l.2 + 4 * c == 4 * (6 * i + c));
            } else {
                assert(l.0 + i * l.1 + l.3 + 4 * (c - 3) == 4 * (6 * i + c));
            }
        }
        assert(mw.indices@ =~= is) by {
            assert forall|j: int| 0 <= j < is.len() implies mw.indices@[j] == is[j] by {
                assert(ws[6 * n + j] == is[j]);
                lemma_words_bytes(ws, 6 * n + j);
                assert(l.5 + 4 * j == 4 * (6 * n + j));
            }
        }
    }
}

} // verus!
