use wallet_core::hex::{decode_hex, encode_hex};
use wallet_core::text::chars_of;

#[test]
fn bytes_are_written_in_lower_case() {
    assert_eq!(encode_hex(&vec![0x00, 0x0f, 0xa5, 0xff]), "000fa5ff");
    assert_eq!(encode_hex(&vec![0xde, 0xad, 0xbe, 0xef]), "deadbeef");
}

#[test]
fn no_bytes_give_empty_text() {
    assert_eq!(encode_hex(&Vec::new()), "");
    assert_eq!(decode_hex(""), Some(Vec::new()));
}

#[test]
fn either_case_is_read() {
    assert_eq!(decode_hex("deadBEEF"), Some(vec![0xde, 0xad, 0xbe, 0xef]));
    assert_eq!(decode_hex("000FA5ff"), Some(vec![0x00, 0x0f, 0xa5, 0xff]));
}

#[test]
fn odd_length_is_not_hex() {
    assert_eq!(decode_hex("abc"), None);
    assert_eq!(decode_hex("0"), None);
}

#[test]
fn other_characters_are_not_hex() {
    assert_eq!(decode_hex("zz"), None);
    assert_eq!(decode_hex("0g"), None);
    assert_eq!(decode_hex("g0"), None);
    assert_eq!(decode_hex("0x12"), None);
    assert_eq!(decode_hex("12 34"), None);
    assert_eq!(decode_hex("\u{e9}\u{e9}"), None);
}

#[test]
fn reading_inverts_writing() {
    let mut bytes: Vec<u8> = Vec::new();
    for value in 0..=255u8 {
        bytes.push(value);
    }
    let text = encode_hex(&bytes);
    assert_eq!(text.len(), 512);
    assert_eq!(decode_hex(&text), Some(bytes));
}

#[test]
fn the_characters_of_a_text_come_in_order() {
    assert_eq!(chars_of("a\u{e9}z"), vec!['a', '\u{e9}', 'z']);
    assert_eq!(chars_of(""), Vec::<char>::new());
}
