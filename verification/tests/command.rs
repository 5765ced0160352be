use wincleaner::command::{extract_exec_path, try_extract_exec_path};

#[test]
fn quoted_path_is_taken_between_quotes() {
    let p = extract_exec_path("\"C:\\Program Files\\App\\app.exe\" --minimized");
    assert_eq!(p, "C:\\Program Files\\App\\app.exe");
}

#[test]
fn quoted_path_with_surrounding_white_space() {
    let p = extract_exec_path("   \"C:\\a b\\c.exe\"   ");
    assert_eq!(p, "C:\\a b\\c.exe");
}

#[test]
fn extension_ends_unquoted_path_whatever_its_case() {
    let p = extract_exec_path("C:\\Program Files\\Tool\\Tool.EXE /background");
    assert_eq!(p, "C:\\Program Files\\Tool\\Tool.EXE");
}

#[test]
fn first_extension_in_order_wins() {
    // `.exe` is tried before `.bat`, even though `.bat` comes first in the text.
    let p = extract_exec_path("C:\\x.bat C:\\y.exe");
    assert_eq!(p, "C:\\x.bat C:\\y.exe");
    let q = extract_exec_path("C:\\run.cmd arg");
    assert_eq!(q, "C:\\run.cmd");
    let r = extract_exec_path("msiexec.msi /x");
    assert_eq!(r, "msiexec.msi");
    let s = extract_exec_path("wscript script.vbs");
    assert_eq!(s, "wscript script.vbs");
}

#[test]
fn without_extension_the_first_word_is_taken() {
    let p = extract_exec_path("  rundll32 shell32.dll,Control_RunDLL  ");
    assert_eq!(p, "rundll32");
}

#[test]
fn empty_and_blank_commands_give_empty_path() {
    assert_eq!(extract_exec_path(""), "");
    assert_eq!(extract_exec_path(" \t\n "), "");
}

#[test]
fn unclosed_quote_falls_back_to_extension() {
    let p = extract_exec_path("\"C:\\a b\\c.exe -x");
    assert_eq!(p, "\"C:\\a b\\c.exe");
}

#[test]
fn unicode_white_space_is_trimmed() {
    let p = extract_exec_path("\u{3000}\u{a0}tool\u{2003}arg");
    assert_eq!(p, "tool");
}

#[test]
fn non_ascii_text_keeping_byte_lengths_is_cut_after_extension() {
    let p = extract_exec_path("C:\\Jeux\\\u{c4}pfel.EXE -w");
    assert_eq!(p, "C:\\Jeux\\\u{c4}pfel.EXE");
}

#[test]
fn lowercase_that_shrinks_shifts_the_cut() {
    // The Kelvin sign (3 bytes) lowercases to `k` (1 byte); the cut is made
    // at the lowercase offset, in the original text.
    let p = try_extract_exec_path("\u{212a}.exe x");
    assert_eq!(p, Some("\u{212a}.e".to_string()));
}

#[test]
fn lowercase_that_grows_past_the_end_cannot_be_cut() {
    // `İ` (2 bytes) lowercases to 3 bytes, so the cut falls past the text.
    assert_eq!(try_extract_exec_path("\u{130}.exe"), None);
}

#[test]
fn ascii_commands_always_give_a_path() {
    for cmd in ["C:\\A.EXE", "\"x\" y", "plain words", "", "a.VBS.exe"] {
        assert!(try_extract_exec_path(cmd).is_some());
    }
}

#[test]
fn quoted_path_law_on_values() {
    for (path, rest) in [("C:\\p q\\r.exe", " -a"), ("", ""), ("\u{e9}t\u{e9}", "x\"y")] {
        let cmd = format!("\"{}\"{}", path, rest);
        assert_eq!(extract_exec_path(&cmd), path);
    }
}
