//! Binary G-code (`.bgcode`) framing: magic header, a metadata block and a
//! deflate-compressed G-code block.
use vstd::prelude::*;
use vstd::string::StringSliceAdditionalSpecFns;
use crate::bytes::{le16, le32, push_le16, push_le32, push_bytes};
use flate2::write::DeflateEncoder;
use flate2::Compression;
use std::io::Write;

verus! {

/// Block kinds written by this emitter.
pub enum BlockType {
    FileMetadata,
    GCode,
}

/// Compression kinds written by this emitter.
pub enum CompressionType {
    Uncompressed,
    Deflate,
}

/// Numeric code of a block kind in the file.
pub open spec fn block_type_code(t: BlockType) -> u16 {
    match t {
        BlockType::FileMetadata => 0,
        BlockType::GCode => 1,
    }
}

/// Numeric code of a compression kind in the file.
pub open spec fn compression_code(c: CompressionType) -> u16 {
    match c {
        CompressionType::Uncompressed => 0,
        CompressionType::Deflate => 1,
    }
}

/// What `flate2`'s raw deflate encoder, at the default level, produces for `data`.
pub uninterp spec fn deflate(data: Seq<u8>) -> Seq<u8>;

/// `BGCODE` in ASCII.
pub open spec fn magic() -> Seq<u8> {
    seq![0x42u8, 0x47, 0x43, 0x4F, 0x44, 0x45]
}

/// `Producer=OpenIE CAD\n` in ASCII.
pub open spec fn producer_metadata() -> Seq<u8> {
    seq![
        0x50u8, 0x72, 0x6f, 0x64, 0x75, 0x63, 0x65, 0x72, 0x3d,
        0x4f, 0x70, 0x65, 0x6e, 0x49, 0x45, 0x20, 0x43, 0x41, 0x44, 0x0a,
    ]
}

/// A block header: type, compression, uncompressed size, stored size (all little-endian).
pub open spec fn block_header(t: u16, c: u16, uncompressed: u32, stored: u32) -> Seq<u8> {
    le16(t) + le16(c) + le32(uncompressed) + le32(stored)
}

/// An uncompressed block holding `data`.
pub open spec fn plain_block(t: u16, data: Seq<u8>) -> Seq<u8> {
    block_header(t, 0, data.len() as u32, data.len() as u32) + data
}

/// The whole file for G-code bytes `g` whose deflate stream is `z`.
pub open spec fn bgcode_file(g: Seq<u8>, z: Seq<u8>) -> Seq<u8> {
    magic() + le32(1) + plain_block(0, producer_metadata())
        + block_header(1, 1, g.len() as u32, z.len() as u32) + z
}

fn block_type_value(t: &BlockType) -> (r: u16)
    ensures
        r == block_type_code(*t),
{
    match t {
        BlockType::FileMetadata => 0,
        BlockType::GCode => 1,
    }
}

fn compression_value(c: &CompressionType) -> (r: u16)
    ensures
        r == compression_code(*c),
{
    match c {
        CompressionType::Uncompressed => 0,
        CompressionType::Deflate => 1,
    }
}

/// Compresses `data` with `flate2::write::DeflateEncoder` at `Compression::default()`
/// into a fresh vector. Writing into a `Vec` cannot fail, so the two `unwrap`s
/// never panic. The contract names the result only: the encoder's output is a
/// function of the input bytes, and nothing more of it is stated.
#[verifier::external_body]
fn deflate_compress(data: &[u8]) -> (r: Vec<u8>)
    ensures
        r@ == deflate(data@),
{
    let mut encoder = DeflateEncoder::new(Vec::new(), Compression::default());
    encoder.write_all(data).unwrap();
    encoder.finish().unwrap()
}

/// Appends an uncompressed block holding `data`.
pub fn write_block(out: &mut Vec<u8>, block_type: BlockType, compression: CompressionType, data: &[u8])
    ensures
        final(out)@ == old(out)@ + block_header(
            block_type_code(block_type),
            compression_code(compression),
            data@.len() as u32,
            data@.len() as u32,
        ) + data@,
{
    let t = block_type_value(&block_type);
    let c = compression_value(&compression);
    push_le16(out, t);
    push_le16(out, c);
    push_le32(out, data.len() as u32);
    push_le32(out, data.len() as u32);
    push_bytes(out, data);
    assert(final(out)@ =~= old(out)@ + block_header(t, c, data@.len() as u32, data@.len() as u32) + data@);
}

/// Appends a block whose payload was compressed from `uncompressed_size` bytes.
pub fn write_block_compressed(
    out: &mut Vec<u8>,
    block_type: BlockType,
    compression: CompressionType,
    uncompressed_size: u32,
    compressed_data: &[u8],
)
    ensures
        final(out)@ == old(out)@ + block_header(
            block_type_code(block_type),
            compression_code(compression),
            uncompressed_size,
            compressed_data@.len() as u32,
        ) + compressed_data@,
{
    let t = block_type_value(&block_type);
    let c = compression_value(&compression);
    push_le16(out, t);
    push_le16(out, c);
    push_le32(out, uncompressed_size);
    push_le32(out, compressed_data.len() as u32);
    push_bytes(out, compressed_data);
    assert(final(out)@ =~= old(out)@ + block_header(t, c, uncompressed_size, compressed_data@.len() as u32) + compressed_data@);
}

/// Converts G-code text to binary G-code: magic, version 1, a metadata block
/// naming the producer, then the G-code deflate-compressed in one block.
pub fn text_to_bgcode(gcode: &str) -> (r: Vec<u8>)
    ensures
        r@ == bgcode_file(gcode.spec_bytes(), deflate(gcode.spec_bytes())),
{
    let mut out: Vec<u8> = Vec::new();
    let m: [u8; 6] = [0x42u8, 0x47, 0x43, 0x4F, 0x44, 0x45];
    push_bytes(&mut out, m.as_slice());
    push_le32(&mut out, 1);
    let meta: [u8; 20] = [
        0x50u8, 0x72, 0x6f, 0x64, 0x75, 0x63, 0x65, 0x72, 0x3d,
        0x4f, 0x70, 0x65, 0x6e, 0x49, 0x45, 0x20, 0x43, 0x41, 0x44, 0x0a,
    ];
    assert(meta@ =~= producer_metadata());
    assert(m@ =~= magic());
    write_block(&mut out, BlockType::FileMetadata, CompressionType::Uncompressed, meta.as_slice());
    let bytes = gcode.as_bytes();
    let compressed = deflate_compress(bytes);
    write_block_compressed(
        &mut out,
        BlockType::GCode,
        CompressionType::Deflate,
        bytes.len() as u32,
        compressed.as_slice(),
    );
    assert(out@ =~= bgcode_file(gcode.spec_bytes(), deflate(gcode.spec_bytes())));
    out
}

} // verus!
