use physical::bytes::{push_be16, push_be32, push_le16, push_le32, read_le32};
use physical::strs::{str_contains, str_starts_with, text_eq};
use physical::text::{dec_string, push_dec_i64, push_zero_pad};

#[test]
fn byte_order_helpers() {
    let mut v = Vec::new();
    push_le16(&mut v, 0x0102);
    push_le32(&mut v, 0x0304_0506);
    push_be16(&mut v, 0x0708);
    push_be32(&mut v, 0x090a_0b0c);
    assert_eq!(v, vec![0x02, 0x01, 0x06, 0x05, 0x04, 0x03, 0x07, 0x08, 0x09, 0x0a, 0x0b, 0x0c]);
    assert_eq!(read_le32(&v, 2), 0x0304_0506);
}

#[test]
fn decimal_rendering() {
    assert_eq!(dec_string(0), "0");
    assert_eq!(dec_string(1234567890), "1234567890");
    let mut s = String::new();
    push_dec_i64(&mut s, -42);
    push_zero_pad(&mut s, 7, 3);
    assert_eq!(s, "-42007");
}

#[test]
fn text_search_helpers() {
    assert!(str_contains("abc%MOIN*%", "%MOIN*%"));
    assert!(!str_contains("abc", "abcd"));
    assert!(str_starts_with("%FSLAX24", "%FSLAX"));
    assert!(!str_starts_with("FS", "%FS"));
    assert!(text_eq("x", "x"));
    assert!(!text_eq("x", "y"));
}
