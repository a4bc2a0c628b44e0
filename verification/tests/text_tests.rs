use pngme::text::{bytes_eq, bytes_to_str, str_eq};

#[test]
fn bytes_to_str_reads_utf8_only() {
    assert_eq!(bytes_to_str(b"RuSt"), Some("RuSt"));
    assert_eq!(bytes_to_str(b""), Some(""));
    assert_eq!(bytes_to_str("gr\u{fc}n".as_bytes()), Some("gr\u{fc}n"));
    assert_eq!(bytes_to_str(&[0xff]), None);
    assert_eq!(bytes_to_str(&[0xc3]), None);
    // an overlong encoding and a surrogate are no UTF-8
    assert_eq!(bytes_to_str(&[0xc0, 0x80]), None);
    assert_eq!(bytes_to_str(&[0xed, 0xa0, 0x80]), None);
}

#[test]
fn equality_of_bytes_and_of_texts() {
    assert!(bytes_eq(b"", b""));
    assert!(bytes_eq(b"abc", b"abc"));
    assert!(!bytes_eq(b"abc", b"abd"));
    assert!(!bytes_eq(b"abc", b"ab"));
    assert!(!bytes_eq(b"ab", b"abc"));
    assert!(str_eq("RuSt", "RuSt"));
    assert!(!str_eq("RuSt", "Rust"));
    assert!(!str_eq("RuSt", "RuSt "));
    assert!(str_eq("", ""));
}
