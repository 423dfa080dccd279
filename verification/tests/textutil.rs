//! Text helpers: decimal formatting and byte utilities.

use rilo::text::{clone_bytes, format_usize, str_to_bytes};

#[test]
fn decimal_formatting_exact_values() {
    assert_eq!(format_usize(0), b"0".to_vec());
    assert_eq!(format_usize(7), b"7".to_vec());
    assert_eq!(format_usize(10), b"10".to_vec());
    assert_eq!(format_usize(255), b"255".to_vec());
    assert_eq!(format_usize(90210), b"90210".to_vec());
}

#[test]
fn ascii_strings_copy_to_bytes() {
    assert_eq!(str_to_bytes("no ft"), b"no ft".to_vec());
    assert_eq!(str_to_bytes(""), Vec::<u8>::new());
}

#[test]
fn clone_bytes_copies() {
    let v = b"abc".to_vec();
    assert_eq!(clone_bytes(&v), v);
}
