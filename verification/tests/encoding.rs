use wincleaner::encoding::{cp1252_byte_of, try_fix_encoding};

#[test]
fn misread_trademark_sign_is_repaired() {
    let s = "E:\\SteamLibrary\\steamapps\\common\\The Lord of the Rings Return to Moria\u{e2}\u{201e}\u{a2}";
    assert_eq!(
        try_fix_encoding(s),
        Some("E:\\SteamLibrary\\steamapps\\common\\The Lord of the Rings Return to Moria\u{2122}".to_string())
    );
}

#[test]
fn ascii_text_is_unchanged() {
    assert_eq!(try_fix_encoding("C:\\Games\\x"), Some("C:\\Games\\x".to_string()));
    assert_eq!(try_fix_encoding(""), Some(String::new()));
}

#[test]
fn character_without_a_byte_is_refused() {
    assert_eq!(try_fix_encoding("\u{4e2d}"), None);
}

#[test]
fn bytes_that_are_not_utf8_are_refused() {
    // `Ã` alone stands for 0xC3, the start of a two-byte sequence.
    assert_eq!(try_fix_encoding("\u{c3}"), None);
}

#[test]
fn cp1252_table_values() {
    assert_eq!(cp1252_byte_of('\u{20ac}'), Some(0x80));
    assert_eq!(cp1252_byte_of('\u{178}'), Some(0x9f));
    assert_eq!(cp1252_byte_of('\u{81}'), Some(0x81));
    assert_eq!(cp1252_byte_of('\u{ff}'), Some(0xff));
    assert_eq!(cp1252_byte_of('\u{100}'), None);
}

/// Windows-1252 decoding of bytes, as the misreading produces it.
fn misread(bytes: &[u8]) -> String {
    let table: [(u8, char); 27] = [
        (0x80, '\u{20ac}'), (0x82, '\u{201a}'), (0x83, '\u{192}'), (0x84, '\u{201e}'),
        (0x85, '\u{2026}'), (0x86, '\u{2020}'), (0x87, '\u{2021}'), (0x88, '\u{2c6}'),
        (0x89, '\u{2030}'), (0x8a, '\u{160}'), (0x8b, '\u{2039}'), (0x8c, '\u{152}'),
        (0x8e, '\u{17d}'), (0x91, '\u{2018}'), (0x92, '\u{2019}'), (0x93, '\u{201c}'),
        (0x94, '\u{201d}'), (0x95, '\u{2022}'), (0x96, '\u{2013}'), (0x97, '\u{2014}'),
        (0x98, '\u{2dc}'), (0x99, '\u{2122}'), (0x9a, '\u{161}'), (0x9b, '\u{203a}'),
        (0x9c, '\u{153}'), (0x9e, '\u{17e}'), (0x9f, '\u{178}'),
    ];
    bytes
        .iter()
        .map(|b| table.iter().find(|(x, _)| x == b).map(|(_, c)| *c).unwrap_or(*b as char))
        .collect()
}

#[test]
fn repair_undoes_misreading() {
    for text in ["h\u{e9}llo", "\u{2122}\u{20ac}\u{4e2d}\u{1f600}", "plain", "\u{8d}\u{90}"] {
        let garbled = misread(text.as_bytes());
        assert_eq!(try_fix_encoding(&garbled), Some(text.to_string()));
    }
}
