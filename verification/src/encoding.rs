//! Repair of text whose UTF-8 bytes were read as Windows-1252 (or Latin-1),
//! one character per byte.
use vstd::prelude::*;
use vstd::utf8::{decode_utf8, encode_utf8, valid_utf8};
use crate::text::chars_of;

verus! {

/// The Windows-1252 byte that a character stands for: a character up to
/// U+00FF stands for its own code, the printable characters of the
/// 0x80..0x9F block of Windows-1252 for their byte; no other character
/// stands for a byte.
pub open spec fn cp1252_byte(c: char) -> Option<u8> {
    let u = c as u32;
    if u <= 0xff {
        Some(u as u8)
    } else if u == 0x20ac {
        Some(0x80)
    } else if u == 0x201a {
        Some(0x82)
    } else if u == 0x0192 {
        Some(0x83)
    } else if u == 0x201e {
        Some(0x84)
    } else if u == 0x2026 {
        Some(0x85)
    } else if u == 0x2020 {
        Some(0x86)
    } else if u == 0x2021 {
        Some(0x87)
    } else if u == 0x02c6 {
        Some(0x88)
    } else if u == 0x2030 {
        Some(0x89)
    } else if u == 0x0160 {
        Some(0x8a)
    } else if u == 0x2039 {
        Some(0x8b)
    } else if u == 0x0152 {
        Some(0x8c)
    } else if u == 0x017d {
        Some(0x8e)
    } else if u == 0x2018 {
        Some(0x91)
    } else if u == 0x2019 {
        Some(0x92)
    } else if u == 0x201c {
        Some(0x93)
    } else if u == 0x201d {
        Some(0x94)
    } else if u == 0x2022 {
        Some(0x95)
    } else if u == 0x2013 {
        Some(0x96)
    } else if u == 0x2014 {
        Some(0x97)
    } else if u == 0x02dc {
        Some(0x98)
    } else if u == 0x2122 {
        Some(0x99)
    } else if u == 0x0161 {
        Some(0x9a)
    } else if u == 0x203a {
        Some(0x9b)
    } else if u == 0x0153 {
        Some(0x9c)
    } else if u == 0x017e {
        Some(0x9e)
    } else if u == 0x0178 {
        Some(0x9f)
    } else {
        None
    }
}

/// The bytes that a text stands for, when every character stands for one.
pub open spec fn cp1252_bytes(s: Seq<char>) -> Option<Seq<u8>> {
    if forall|i: int| 0 <= i < s.len() ==> #[trigger] cp1252_byte(s[i]) is Some {
        Some(Seq::new(s.len(), |i: int| cp1252_byte(s[i])->0))
    } else {
        None
    }
}

/// The repaired text: the bytes the characters stand for, read as UTF-8;
/// `None` when a character stands for no byte or the bytes are not UTF-8.
pub open spec fn spec_fix_encoding(s: Seq<char>) -> Option<Seq<char>> {
    match cp1252_bytes(s) {
        Some(b) => if valid_utf8(b) {
            Some(decode_utf8(b))
        } else {
            None
        },
        None => None,
    }
}

/// The character that Windows-1252 shows for a byte (Latin-1 for the bytes
/// that Windows-1252 leaves undefined).
pub open spec fn cp1252_char(b: u8) -> char {
    if b == 0x80 {
        '\u{20ac}'
    } else if b == 0x82 {
        '\u{201a}'
    } else if b == 0x83 {
        '\u{0192}'
    } else if b == 0x84 {
        '\u{201e}'
    } else if b == 0x85 {
        '\u{2026}'
    } else if b == 0x86 {
        '\u{2020}'
    } else if b == 0x87 {
        '\u{2021}'
    } else if b == 0x88 {
        '\u{02c6}'
    } else if b == 0x89 {
        '\u{2030}'
    } else if b == 0x8a {
        '\u{0160}'
    } else if b == 0x8b {
        '\u{2039}'
    } else if b == 0x8c {
        '\u{0152}'
    } else if b == 0x8e {
        '\u{017d}'
    } else if b == 0x91 {
        '\u{2018}'
    } else if b == 0x92 {
        '\u{2019}'
    } else if b == 0x93 {
        '\u{201c}'
    } else if b == 0x94 {
        '\u{201d}'
    } else if b == 0x95 {
        '\u{2022}'
    } else if b == 0x96 {
        '\u{2013}'
    } else if b == 0x97 {
        '\u{2014}'
    } else if b == 0x98 {
        '\u{02dc}'
    } else if b == 0x99 {
        '\u{2122}'
    } else if b == 0x9a {
        '\u{0161}'
    } else if b == 0x9b {
        '\u{203a}'
    } else if b == 0x9c {
        '\u{0153}'
    } else if b == 0x9e {
        '\u{017e}'
    } else if b == 0x9f {
        '\u{0178}'
    } else {
        b as char
    }
}

/// How Windows-1252 shows a byte sequence.
pub open spec fn cp1252_text(b: Seq<u8>) -> Seq<char> {
    b.map_values(|x: u8| cp1252_char(x))
}

/// `String::from_utf8`: the bytes as a string exactly when they are valid
/// UTF-8 (the error is dropped), as its documentation says.
#[verifier::external_body]
fn string_from_utf8(bytes: Vec<u8>) -> (r: Option<String>)
    ensures
        r is Some <==> valid_utf8(bytes@),
        r matches Some(s) ==> s@ == decode_utf8(bytes@),
{
    String::from_utf8(bytes).ok()
}

/// The Windows-1252 byte a character stands for (see [`cp1252_byte`]).
pub fn cp1252_byte_of(c: char) -> (r: Option<u8>)
    ensures
        r == cp1252_byte(c),
{
    let u = c as u32;
    if u <= 0xff {
        Some(u as u8)
    } else if u == 0x20ac {
        Some(0x80)
    } else if u == 0x201a {
        Some(0x82)
    } else if u == 0x0192 {
        Some(0x83)
    } else if u == 0x201e {
        Some(0x84)
    } else if u == 0x2026 {
        Some(0x85)
    } else if u == 0x2020 {
        Some(0x86)
    } else if u == 0x2021 {
        Some(0x87)
    } else if u == 0x02c6 {
        Some(0x88)
    } else if u == 0x2030 {
        Some(0x89)
    } else if u == 0x0160 {
        Some(0x8a)
    } else if u == 0x2039 {
        Some(0x8b)
    } else if u == 0x0152 {
        Some(0x8c)
    } else if u == 0x017d {
        Some(0x8e)
    } else if u == 0x2018 {
        Some(0x91)
    } else if u == 0x2019 {
        Some(0x92)
    } else if u == 0x201c {
        Some(0x93)
    } else if u == 0x201d {
        Some(0x94)
    } else if u == 0x2022 {
        Some(0x95)
    } else if u == 0x2013 {
        Some(0x96)
    } else if u == 0x2014 {
        Some(0x97)
    } else if u == 0x02dc {
        Some(0x98)
    } else if u == 0x2122 {
        Some(0x99)
    } else if u == 0x0161 {
        Some(0x9a)
    } else if u == 0x203a {
        Some(0x9b)
    } else if u == 0x0153 {
        Some(0x9c)
    } else if u == 0x017e {
        Some(0x9e)
    } else if u == 0x0178 {
        Some(0x9f)
    } else {
        None
    }
}

/// Repairs text whose UTF-8 bytes were read as Windows-1252: maps each
/// character back to its byte and reads the bytes as UTF-8. `None` when a
/// character stands for no byte or the bytes are not valid UTF-8.
pub fn try_fix_encoding(s: &str) -> (r: Option<String>)
    ensures
        r matches Some(x) ==> spec_fix_encoding(s@) == Some(x@),
        r is None ==> spec_fix_encoding(s@) is None,
{
    let chars = chars_of(s);
    let mut bytes: Vec<u8> = Vec::new();
    let n = chars.len();
    for i in 0..n
        invariant
            n == chars@.len(),
            chars@ == s@,
            bytes@.len() == i,
            forall|k: int| 0 <= k < i ==> cp1252_byte(s@[k]) == Some(#[trigger] bytes@[k]),
    {
        match cp1252_byte_of(chars[i]) {
            Some(b) => bytes.push(b),
            None => {
                assert(cp1252_byte(s@[i as int]) is None);
                return None;
            },
        }
    }
    proof {
        assert forall|k: int| 0 <= k < n implies #[trigger] cp1252_byte(s@[k]) is Some by {
            assert(cp1252_byte(s@[k]) == Some(bytes@[k]));
        }
        assert(bytes@ =~= Seq::new(s@.len(), |k: int| cp1252_byte(s@[k])->0));
    }
    string_from_utf8(bytes)
}

/// Every byte is given back by the character Windows-1252 shows for it.
pub proof fn lemma_cp1252_byte_char(b: u8)
    ensures
        cp1252_byte(cp1252_char(b)) == Some(b),
{
    if b < 0x80 || b >= 0xa0 || b == 0x81 || b == 0x8d || b == 0x8f || b == 0x90 || b == 0x9d {
        assert((b as char) as u32 == b as u32);
    }
}

/// Repair undoes the misreading: text whose UTF-8 bytes are shown one
/// character per byte through Windows-1252 is repaired to the text itself.
pub proof fn lemma_fix_encoding_roundtrip(text: Seq<char>)
    ensures
        spec_fix_encoding(cp1252_text(encode_utf8(text))) == Some(text),
{
    let b = encode_utf8(text);
    let s = cp1252_text(b);
    assert forall|i: int| 0 <= i < s.len() implies #[trigger] cp1252_byte(s[i]) == Some(b[i]) by {
        lemma_cp1252_byte_char(b[i]);
    }
    assert(cp1252_bytes(s) == Some(b)) by {
        assert(Seq::new(s.len(), |i: int| cp1252_byte(s[i])->0) =~= b);
    }
    vstd::utf8::encode_utf8_valid_utf8(text);
    vstd::utf8::encode_utf8_decode_utf8(text);
}

} // verus!
