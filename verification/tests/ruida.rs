use physical::ruida::{contours_to_rd, emit_i32_5byte, StepContour, SCRAMBLE_BYTE};

/// Millimetres to machine steps (1000 per mm), as the writer converts them.
fn steps(mm: f64) -> i32 {
    (mm * 1000.0) as i32
}

fn closed(points: &[(f64, f64)]) -> StepContour {
    StepContour { points: points.iter().map(|&(x, y)| (steps(x), steps(y))).collect(), is_closed: true }
}

fn square() -> StepContour {
    closed(&[(0.0, 0.0), (50.0, 0.0), (50.0, 50.0), (0.0, 50.0)])
}

fn speed(mm_s: f64) -> u32 {
    (mm_s * 1000.0) as u32
}

fn power(pct: f64) -> u16 {
    (pct * 163.83).min(16383.0) as u16
}

#[test]
fn produces_bytes() {
    let rd = contours_to_rd(&[square()], speed(20.0), power(80.0));
    assert!(!rd.is_empty());
}

#[test]
fn scrambled() {
    let rd = contours_to_rd(&[square()], speed(20.0), power(80.0));
    assert_eq!(rd[0], 0xD8 ^ SCRAMBLE_BYTE);
}

#[test]
fn multiple_contours() {
    let c1 = square();
    let c2 = closed(&[(10.0, 10.0), (40.0, 10.0), (40.0, 40.0), (10.0, 40.0)]);
    let rd = contours_to_rd(&[c1, c2], speed(15.0), power(60.0));
    assert!(!rd.is_empty());
}

#[test]
fn rd_layout_unscrambled() {
    let rd = contours_to_rd(&[square()], speed(20.0), power(80.0));
    let plain: Vec<u8> = rd.iter().map(|b| b ^ SCRAMBLE_BYTE).collect();
    assert_eq!(&plain[0..2], &[0xD8, 0x12]);
    assert_eq!(&plain[2..5], &[0xC9, 0x04, 0x00]);
    assert_eq!(&plain[5..9], &20000u32.to_be_bytes());
    assert_eq!(&plain[9..12], &[0xC6, 0x31, 0x00]);
    assert_eq!(&plain[12..14], &13106u16.to_be_bytes());
    assert_eq!(&plain[14..17], &[0xC6, 0x32, 0x00]);
    // move + 3 cuts + closing cut, 9 bytes each, then the end marker
    assert_eq!(plain.len(), 19 + 5 * 9 + 2);
    assert_eq!(plain[19], 0x88);
    assert_eq!(plain[28], 0xA8);
    assert_eq!(&plain[plain.len() - 2..], &[0xE7, 0x00]);
}

#[test]
fn short_contours_are_skipped() {
    let one = closed(&[(1.0, 1.0)]);
    let rd = contours_to_rd(&[one], speed(10.0), power(50.0));
    assert_eq!(rd.len(), 19 + 2);
}

#[test]
fn coordinate_encoding_sign_and_magnitude() {
    let mut out = Vec::new();
    emit_i32_5byte(&mut out, -1);
    assert_eq!(out, vec![0x80, 0x00, 0x00, 0x01]);
    let mut out2 = Vec::new();
    emit_i32_5byte(&mut out2, 0x0102_0304);
    assert_eq!(out2, vec![0x01, 0x02, 0x03, 0x04]);
}
