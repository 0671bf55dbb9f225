//! Ruida `.rd` laser-job encoding: layer settings, absolute moves and cuts
//! in controller steps, with every byte XOR-scrambled by `0x88`.
use vstd::prelude::*;
use crate::bytes::{be16, be32, push_be16, push_be32};

verus! {

/// XOR scramble byte of the Ruida protocol.
pub const SCRAMBLE_BYTE: u8 = 0x88;

/// A contour whose points are already in controller steps (1000 per mm).
pub struct StepContour {
    pub points: Vec<(i32, i32)>,
    pub is_closed: bool,
}

/// File start marker.
pub open spec fn header_bytes() -> Seq<u8> {
    seq![0xD8u8, 0x12]
}

/// End-of-file marker.
pub open spec fn eof_bytes() -> Seq<u8> {
    seq![0xE7u8, 0x00]
}

/// Layer speed, minimum power and maximum power commands.
pub open spec fn layer_settings_bytes(layer: u8, speed_steps: u32, power: u16) -> Seq<u8> {
    seq![0xC9u8, 0x04, layer] + be32(speed_steps) + seq![0xC6u8, 0x31, layer] + be16(power)
        + seq![0xC6u8, 0x32, layer] + be16(power)
}

/// The magnitude of `v` as an unsigned value (`i32::unsigned_abs`).
pub open spec fn abs_u32(v: i32) -> u32 {
    if v < 0 { (-(v as int)) as u32 } else { v as u32 }
}

/// Sign-magnitude encoding of one coordinate: sign in the top bit, then the
/// low 31 bits of the magnitude, big-endian.
pub open spec fn coord_bytes(v: i32) -> Seq<u8> {
    let a = abs_u32(v);
    let sign: u8 = if v < 0 { 0x80 } else { 0x00 };
    seq![sign | (((a >> 24u32) as u8) & 0x7F), (a >> 16u32) as u8, (a >> 8u32) as u8, a as u8]
}

/// Absolute move command to a point.
pub open spec fn move_bytes(p: (i32, i32)) -> Seq<u8> {
    seq![0x88u8] + coord_bytes(p.0) + coord_bytes(p.1)
}

/// Absolute cut command to a point.
pub open spec fn cut_bytes(p: (i32, i32)) -> Seq<u8> {
    seq![0xA8u8] + coord_bytes(p.0) + coord_bytes(p.1)
}

/// Cuts to every point of `pts`, in order.
pub open spec fn cuts_bytes(pts: Seq<(i32, i32)>) -> Seq<u8>
    decreases pts.len(),
{
    if pts.len() == 0 { Seq::empty() } else { cuts_bytes(pts.drop_last()) + cut_bytes(pts.last()) }
}

/// The commands of one contour: nothing for fewer than two points; else a
/// move to the first point, cuts to the others, and a closing cut back to
/// the first point when the contour is closed and has at least three points.
pub open spec fn contour_bytes(pts: Seq<(i32, i32)>, closed: bool) -> Seq<u8> {
    if pts.len() < 2 {
        Seq::empty()
    } else {
        move_bytes(pts[0]) + cuts_bytes(pts.drop_first())
            + if closed && pts.len() >= 3 { cut_bytes(pts[0]) } else { Seq::empty() }
    }
}

/// The commands of all contours, in order.
pub open spec fn contours_bytes(cs: Seq<StepContour>) -> Seq<u8>
    decreases cs.len(),
{
    if cs.len() == 0 {
        Seq::empty()
    } else {
        contours_bytes(cs.drop_last()) + contour_bytes(cs.last().points@, cs.last().is_closed)
    }
}

/// The unscrambled job.
pub open spec fn rd_plain(cs: Seq<StepContour>, speed_steps: u32, power: u16) -> Seq<u8> {
    header_bytes() + layer_settings_bytes(0, speed_steps, power) + contours_bytes(cs) + eof_bytes()
}

/// Every byte XOR-ed with the scramble byte.
pub open spec fn scrambled(s: Seq<u8>) -> Seq<u8> {
    s.map_values(|b: u8| b ^ 0x88u8)
}

/// Scrambling twice gives the bytes back.
pub proof fn lemma_scramble_involution(s: Seq<u8>)
    ensures
        scrambled(scrambled(s)) == s,
{
    assert forall|i: int| 0 <= i < s.len() implies scrambled(scrambled(s))[i] == s[i] by {
        let b = s[i];
        assert((b ^ 0x88u8) ^ 0x88u8 == b) by (bit_vector);
    }
    assert(scrambled(scrambled(s)) =~= s);
}

/// The value that a coordinate encoding denotes.
pub open spec fn decode_coord(b: Seq<u8>) -> int {
    let mag = (b[0] & 0x7F) as int * 16777216 + b[1] as int * 65536 + b[2] as int * 256 + b[3] as int;
    if b[0] & 0x80 != 0 { -mag } else { mag }
}

/// Every coordinate but `i32::MIN` decodes back to itself.
pub proof fn lemma_coord_roundtrip(v: i32)
    requires
        v != i32::MIN,
    ensures
        coord_bytes(v).len() == 4,
        decode_coord(coord_bytes(v)) == v,
{
    let a = abs_u32(v);
    assert(a < 0x8000_0000u32);
    let s: u8 = if v < 0 { 0x80 } else { 0x00 };
    let b0 = s | (((a >> 24u32) as u8) & 0x7F);
    let b1 = (a >> 16u32) as u8;
    let b2 = (a >> 8u32) as u8;
    let b3 = a as u8;
    assert((b0 & 0x7F) as u32 * 16777216 + b1 as u32 * 65536 + b2 as u32 * 256 + b3 as u32 == a)
        by (bit_vector)
        requires
            a < 0x8000_0000u32,
            s == 0x80u8 || s == 0u8,
            b0 == s | (((a >> 24u32) as u8) & 0x7F),
            b1 == (a >> 16u32) as u8,
            b2 == (a >> 8u32) as u8,
            b3 == a as u8,
    ;
    assert((b0 & 0x80 != 0) == (s == 0x80u8)) by (bit_vector)
        requires
            s == 0x80u8 || s == 0u8,
            b0 == s | (((a >> 24u32) as u8) & 0x7F),
    ;
}

/// Appends the file start marker.
pub fn emit_header(data: &mut Vec<u8>)
    ensures
        final(data)@ == old(data)@ + header_bytes(),
{
    data.push(0xD8);
    data.push(0x12);
    assert(final(data)@ =~= old(data)@ + header_bytes());
}

/// Appends the speed and power commands of a layer.
pub fn emit_layer_settings(data: &mut Vec<u8>, layer: u8, speed_steps: u32, power: u16)
    ensures
        final(data)@ == old(data)@ + layer_settings_bytes(layer, speed_steps, power),
{
    data.push(0xC9);
    data.push(0x04);
    data.push(layer);
    emit_u32(data, speed_steps);
    data.push(0xC6);
    data.push(0x31);
    data.push(layer);
    emit_u16(data, power);
    data.push(0xC6);
    data.push(0x32);
    data.push(layer);
    emit_u16(data, power);
    assert(final(data)@ =~= old(data)@ + layer_settings_bytes(layer, speed_steps, power));
}

/// Appends an absolute move.
pub fn emit_move_abs(data: &mut Vec<u8>, p: (i32, i32))
    ensures
        final(data)@ == old(data)@ + move_bytes(p),
{
    data.push(0x88);
    emit_coord(data, p.0, p.1);
    assert(final(data)@ =~= old(data)@ + move_bytes(p));
}

/// Appends an absolute cut.
pub fn emit_cut_abs(data: &mut Vec<u8>, p: (i32, i32))
    ensures
        final(data)@ == old(data)@ + cut_bytes(p),
{
    data.push(0xA8);
    emit_coord(data, p.0, p.1);
    assert(final(data)@ =~= old(data)@ + cut_bytes(p));
}

/// Appends the end-of-file marker.
pub fn emit_eof(data: &mut Vec<u8>)
    ensures
        final(data)@ == old(data)@ + eof_bytes(),
{
    data.push(0xE7);
    data.push(0x00);
    assert(final(data)@ =~= old(data)@ + eof_bytes());
}

/// Appends both coordinates of a point.
pub fn emit_coord(data: &mut Vec<u8>, x: i32, y: i32)
    ensures
        final(data)@ == old(data)@ + coord_bytes(x) + coord_bytes(y),
{
    emit_i32_5byte(data, x);
    emit_i32_5byte(data, y);
    assert(final(data)@ =~= old(data)@ + coord_bytes(x) + coord_bytes(y));
}

/// Appends the sign-magnitude encoding of one coordinate.
pub fn emit_i32_5byte(data: &mut Vec<u8>, val: i32)
    ensures
        final(data)@ == old(data)@ + coord_bytes(val),
{
    let abs_val: u32 = if val < 0 {
        if val == i32::MIN { 0x8000_0000u32 } else { (-val) as u32 }
    } else {
        val as u32
    };
    assert(abs_val == abs_u32(val));
    let sign: u8 = if val < 0 { 0x80 } else { 0x00 };
    data.push(sign | (((abs_val >> 24u32) as u8) & 0x7F));
    data.push((abs_val >> 16u32) as u8);
    data.push((abs_val >> 8u32) as u8);
    data.push(abs_val as u8);
    assert(final(data)@ =~= old(data)@ + coord_bytes(val));
}

/// Appends a big-endian 32-bit value.
pub fn emit_u32(data: &mut Vec<u8>, val: u32)
    ensures
        final(data)@ == old(data)@ + be32(val),
{
    push_be32(data, val);
}

/// Appends a big-endian 16-bit value.
pub fn emit_u16(data: &mut Vec<u8>, val: u16)
    ensures
        final(data)@ == old(data)@ + be16(val),
{
    push_be16(data, val);
}

fn emit_contour(data: &mut Vec<u8>, c: &StepContour)
    ensures
        final(data)@ == old(data)@ + contour_bytes(c.points@, c.is_closed),
{
    let pts = &c.points;
    if pts.len() < 2 {
        assert(final(data)@ =~= old(data)@ + contour_bytes(c.points@, c.is_closed));
        return;
    }
    let start = pts[0];
    emit_move_abs(data, start);
    let ghost after_move = data@;
    let mut i: usize = 1;
    while i < pts.len()
        invariant
            1 <= i <= pts@.len(),
            data@ == after_move + cuts_bytes(pts@.subrange(1, i as int)),
        decreases pts.len() - i,
    {
        emit_cut_abs(data, pts[i]);
        assert(pts@.subrange(1, i + 1).drop_last() =~= pts@.subrange(1, i as int));
        i = i + 1;
    }
    assert(pts@.subrange(1, pts@.len() as int) =~= pts@.drop_first());
    if c.is_closed && pts.len() >= 3 {
        emit_cut_abs(data, start);
    }
    assert(final(data)@ =~= old(data)@ + contour_bytes(c.points@, c.is_closed));
}

/// Encodes contours (in steps) as a scrambled Ruida job on layer 0 with the
/// given layer speed (steps) and power value.
pub fn contours_to_rd(contours: &[StepContour], speed_steps: u32, power: u16) -> (r: Vec<u8>)
    ensures
        r@ == scrambled(rd_plain(contours@, speed_steps, power)),
{
    let mut data: Vec<u8> = Vec::new();
    emit_header(&mut data);
    emit_layer_settings(&mut data, 0, speed_steps, power);
    let ghost head = data@;
    let mut i: usize = 0;
    while i < contours.len()
        invariant
            i <= contours@.len(),
            data@ == head + contours_bytes(contours@.take(i as int)),
        decreases contours.len() - i,
    {
        emit_contour(&mut data, &contours[i]);
        assert(contours@.take(i + 1).drop_last() =~= contours@.take(i as int));
        i = i + 1;
    }
    assert(contours@.take(contours@.len() as int) =~= contours@);
    emit_eof(&mut data);
    let ghost plain = data@;
    assert(plain =~= rd_plain(contours@, speed_steps, power));
    let mut k: usize = 0;
    while k < data.len()
        invariant
            k <= data@.len(),
            data@.len() == plain.len(),
            forall|j: int| 0 <= j < k ==> data@[j] == plain[j] ^ 0x88u8,
            forall|j: int| k <= j < data@.len() ==> data@[j] == plain[j],
        decreases data.len() - k,
    {
        let b = data[k] ^ SCRAMBLE_BYTE;
        data.set(k, b);
        k = k + 1;
    }
    assert(data@ =~= scrambled(plain));
    data
}

} // verus!
