//! Lower-case hexadecimal text for byte strings.
//!
//! Keys cross the request boundary as text of two digits per byte, most
//! significant digit first. Writing always produces lower case; reading
//! accepts either case.

use vstd::prelude::*;
use crate::text::{chars_of, push_char};

verus! {

/// The digit that stands for a value below sixteen.
pub open spec fn hex_digit(value: u8) -> char {
    match value {
        0 => '0',
        1 => '1',
        2 => '2',
        3 => '3',
        4 => '4',
        5 => '5',
        6 => '6',
        7 => '7',
        8 => '8',
        9 => '9',
        10 => 'a',
        11 => 'b',
        12 => 'c',
        13 => 'd',
        14 => 'e',
        _ => 'f',
    }
}

/// The value of a hexadecimal digit, or `None` for any other character.
pub open spec fn hex_value(c: char) -> Option<u8> {
    match c {
        '0' => Some(0u8),
        '1' => Some(1u8),
        '2' => Some(2u8),
        '3' => Some(3u8),
        '4' => Some(4u8),
        '5' => Some(5u8),
        '6' => Some(6u8),
        '7' => Some(7u8),
        '8' => Some(8u8),
        '9' => Some(9u8),
        'a' | 'A' => Some(10u8),
        'b' | 'B' => Some(11u8),
        'c' | 'C' => Some(12u8),
        'd' | 'D' => Some(13u8),
        'e' | 'E' => Some(14u8),
        'f' | 'F' => Some(15u8),
        _ => None,
    }
}

/// Two digits per byte, high digit first.
pub open spec fn hex_encoding(bytes: Seq<u8>) -> Seq<char> {
    Seq::new(
        2 * bytes.len(),
        |i: int|
            if i % 2 == 0 {
                hex_digit(bytes[i / 2] / 16)
            } else {
                hex_digit(bytes[i / 2] % 16)
            },
    )
}

/// Text of an even number of hexadecimal digits.
pub open spec fn is_hex(text: Seq<char>) -> bool {
    &&& text.len() % 2 == 0
    &&& forall|i: int| 0 <= i < text.len() ==> (#[trigger] hex_value(text[i])) is Some
}

/// The bytes that hexadecimal text stands for.
pub open spec fn hex_decoding(text: Seq<char>) -> Seq<u8> {
    Seq::new(
        (text.len() / 2) as nat,
        |i: int|
            (hex_value(text[2 * i]).unwrap() * 16 + hex_value(text[2 * i + 1]).unwrap()) as u8,
    )
}

fn digit_of(value: u8) -> (c: char)
    requires
        value < 16,
    ensures
        c == hex_digit(value),
        hex_value(c) == Some(value),
{
    match value {
        0 => '0',
        1 => '1',
        2 => '2',
        3 => '3',
        4 => '4',
        5 => '5',
        6 => '6',
        7 => '7',
        8 => '8',
        9 => '9',
        10 => 'a',
        11 => 'b',
        12 => 'c',
        13 => 'd',
        14 => 'e',
        _ => 'f',
    }
}

fn value_of(c: char) -> (value: Option<u8>)
    ensures
        value == hex_value(c),
        value matches Some(v) ==> v < 16,
{
    match c {
        '0' => Some(0u8),
        '1' => Some(1u8),
        '2' => Some(2u8),
        '3' => Some(3u8),
        '4' => Some(4u8),
        '5' => Some(5u8),
        '6' => Some(6u8),
        '7' => Some(7u8),
        '8' => Some(8u8),
        '9' => Some(9u8),
        'a' | 'A' => Some(10u8),
        'b' | 'B' => Some(11u8),
        'c' | 'C' => Some(12u8),
        'd' | 'D' => Some(13u8),
        'e' | 'E' => Some(14u8),
        'f' | 'F' => Some(15u8),
        _ => None,
    }
}

/// Writes `bytes` as lower-case hexadecimal text.
pub fn encode_hex(bytes: &Vec<u8>) -> (text: String)
    ensures
        text@ == hex_encoding(bytes@),
{
    let mut text = String::new();
    let mut i: usize = 0;
    while i < bytes.len()
        invariant
            i <= bytes.len(),
            text@.len() == 2 * i,
            forall|j: int| 0 <= j < 2 * i ==> text@[j] == hex_encoding(bytes@)[j],
        decreases bytes.len() - i,
    {
        let byte: u8 = bytes[i];
        push_char(&mut text, digit_of(byte / 16));
        push_char(&mut text, digit_of(byte % 16));
        i += 1;
    }
    text
}

/// Reads hexadecimal text. `None` when the text has an odd length or holds
/// a character that is no hexadecimal digit.
pub fn decode_hex(text: &str) -> (bytes: Option<Vec<u8>>)
    ensures
        bytes is Some <==> is_hex(text@),
        bytes matches Some(b) ==> b@ == hex_decoding(text@),
{
    let chars = chars_of(text);
    if chars.len() % 2 != 0 {
        return None;
    }
    let mut bytes: Vec<u8> = Vec::new();
    let mut i: usize = 0;
    while i < chars.len()
        invariant
            chars@ == text@,
            chars.len() % 2 == 0,
            i % 2 == 0,
            i <= chars.len(),
            bytes@.len() == i / 2,
            forall|j: int| 0 <= j < i ==> (#[trigger] hex_value(chars@[j])) is Some,
            forall|k: int| 0 <= k < i / 2 ==> bytes@[k] == hex_decoding(text@)[k],
        decreases chars.len() - i,
    {
        let high = value_of(chars[i]);
        let low = value_of(chars[i + 1]);
        match (high, low) {
            (Some(h), Some(l)) => {
                bytes.push(h * 16 + l);
            },
            _ => {
                assert(!is_hex(text@)) by {
                    if is_hex(text@) {
                        assert(hex_value(text@[i as int]) is Some);
                        assert(hex_value(text@[i + 1]) is Some);
                    }
                }
                return None;
            },
        }
        i += 2;
    }
    Some(bytes)
}

/// Reading back what was written gives the bytes that were written.
pub proof fn lemma_decode_inverts_encode(bytes: Seq<u8>)
    ensures
        is_hex(hex_encoding(bytes)),
        hex_decoding(hex_encoding(bytes)) == bytes,
{
    let text = hex_encoding(bytes);
    assert forall|i: int| 0 <= i < text.len() implies (#[trigger] hex_value(text[i])) is Some by {
        lemma_digit_value(bytes[i / 2] / 16);
        lemma_digit_value(bytes[i / 2] % 16);
    }
    assert forall|k: int| 0 <= k < bytes.len() implies hex_decoding(text)[k] == bytes[k] by {
        lemma_digit_value(bytes[k] / 16);
        lemma_digit_value(bytes[k] % 16);
        assert(text[2 * k] == hex_digit(bytes[k] / 16));
        assert(text[2 * k + 1] == hex_digit(bytes[k] % 16));
    }
    assert(hex_decoding(text) =~= bytes);
}

proof fn lemma_digit_value(value: u8)
    requires
        value < 16,
    ensures
        hex_value(hex_digit(value)) == Some(value),
{
}

} // verus!
