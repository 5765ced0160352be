//! The executable path at the head of a command line, as registry `Run`
//! entries and `UninstallString` values hold it.
use vstd::prelude::*;
use vstd::utf8::{decode_utf8, encode_utf8, is_ascii_chars, is_char_boundary};
use crate::text::{ascii_lower_char, lemma_find_ws_facts, lemma_find_seq_occurs, lemma_lowercase_fixed, occurs_in, is_white_space, lemma_trim_end_keeps, lemma_trim_ws_slice, skip_ws, chars_of, find_bytes, find_char, find_char_from, find_seq, find_ws, find_ws_from, lemma_find_seq, spec_to_lowercase, to_lowercase, trim_str, trim_ws};

verus! {

/// Number of executable extensions that end a path without quotes.
pub const EXTENSION_COUNT: usize = 5;

/// The UTF-8 bytes of the `k`-th executable extension:
/// `.exe`, `.bat`, `.cmd`, `.msi`, `.vbs`, tried in this order.
pub open spec fn exec_extension(k: int) -> Seq<u8> {
    if k == 0 {
        seq![0x2e, 0x65, 0x78, 0x65u8]  // .exe
    } else if k == 1 {
        seq![0x2e, 0x62, 0x61, 0x74]  // .bat
    } else if k == 2 {
        seq![0x2e, 0x63, 0x6d, 0x64]  // .cmd
    } else if k == 3 {
        seq![0x2e, 0x6d, 0x73, 0x69]  // .msi
    } else {
        seq![0x2e, 0x76, 0x62, 0x73]  // .vbs
    }
}

/// The byte offset just after the first match of the first extension, from
/// the `k`-th on, that occurs in the lowercase bytes `lower`.
pub open spec fn extension_end(lower: Seq<u8>, k: int) -> Option<int>
    decreases EXTENSION_COUNT - k,
{
    if k < 0 || k >= EXTENSION_COUNT {
        None
    } else {
        match find_seq(lower, exec_extension(k), 0) {
            Some(i) => Some(i + exec_extension(k).len()),
            None => extension_end(lower, k + 1),
        }
    }
}

/// The extensions, as text: `.exe`, `.bat`, `.cmd`, `.msi`, `.vbs`, tried in
/// this order.
pub proof fn lemma_extension_literals()
    ensures
        exec_extension(0) == encode_utf8(".exe"@),
        exec_extension(1) == encode_utf8(".bat"@),
        exec_extension(2) == encode_utf8(".cmd"@),
        exec_extension(3) == encode_utf8(".msi"@),
        exec_extension(4) == encode_utf8(".vbs"@),
{
    reveal_strlit(".exe");
    reveal_strlit(".bat");
    reveal_strlit(".cmd");
    reveal_strlit(".msi");
    reveal_strlit(".vbs");
    lemma_ascii_bytes(".exe"@);
    lemma_ascii_bytes(".bat"@);
    lemma_ascii_bytes(".cmd"@);
    lemma_ascii_bytes(".msi"@);
    lemma_ascii_bytes(".vbs"@);
    assert(exec_extension(0) =~= encode_utf8(".exe"@));
    assert(exec_extension(1) =~= encode_utf8(".bat"@));
    assert(exec_extension(2) =~= encode_utf8(".cmd"@));
    assert(exec_extension(3) =~= encode_utf8(".msi"@));
    assert(exec_extension(4) =~= encode_utf8(".vbs"@));
}

/// The UTF-8 bytes of lowercase ASCII text are its character codes.
proof fn lemma_ascii_bytes(s: Seq<char>)
    requires
        forall|i: int|
            0 <= i < s.len() ==> ('a' <= #[trigger] s[i] <= 'z' || '0' <= s[i] <= '9' || s[i] == '.'
                || s[i] == '-' || s[i] == '_' || s[i] == ' '),
    ensures
        encode_utf8(s).len() == s.len(),
        forall|i: int| 0 <= i < s.len() ==> #[trigger] encode_utf8(s)[i] == s[i] as u8,
{
    lemma_lowercase_fixed(s);
    vstd::utf8::is_ascii_chars_encode_utf8(s);
}

/// The cut after the first matching extension: with no quoted head, when
/// none of the extensions before the `k`-th occurs in the lowercased text
/// and the `k`-th first occurs at byte `i`, the path is the text up to byte
/// `i + 4` (where that is a character boundary).
pub proof fn lemma_extension_cut(cmd: Seq<char>, k: int, i: int)
    requires
        0 <= k < EXTENSION_COUNT,
        closing_quote(trim_ws(cmd)) is None,
        forall|j: int|
            0 <= j < k ==> !occurs_in(
                #[trigger] exec_extension(j),
                encode_utf8(spec_to_lowercase(trim_ws(cmd))),
            ),
        find_seq(encode_utf8(spec_to_lowercase(trim_ws(cmd))), exec_extension(k), 0) == Some(i),
        is_char_boundary(encode_utf8(trim_ws(cmd)), i + 4),
    ensures
        spec_exec_path(cmd) == Some(decode_utf8(encode_utf8(trim_ws(cmd)).subrange(0, i + 4))),
{
    let lower = encode_utf8(spec_to_lowercase(trim_ws(cmd)));
    lemma_extension_end_skip(lower, 0, k);
}

/// Without a quoted head and with no extension in the lowercased text, the
/// path is the trimmed text up to its first white space: a word without
/// white space, that is the whole text or is followed by white space.
pub proof fn lemma_first_word(cmd: Seq<char>)
    requires
        closing_quote(trim_ws(cmd)) is None,
        forall|j: int|
            0 <= j < EXTENSION_COUNT ==> !occurs_in(
                #[trigger] exec_extension(j),
                encode_utf8(spec_to_lowercase(trim_ws(cmd))),
            ),
    ensures
        exists|w: int|
            #![trigger trim_ws(cmd).subrange(0, w)]
            0 <= w <= trim_ws(cmd).len() && spec_exec_path(cmd) == Some(trim_ws(cmd).subrange(0, w))
                && (forall|i: int| 0 <= i < w ==> !is_white_space(#[trigger] trim_ws(cmd)[i])) && (w
                < trim_ws(cmd).len() ==> is_white_space(trim_ws(cmd)[w])),
{
    let t = trim_ws(cmd);
    let lower = encode_utf8(spec_to_lowercase(t));
    lemma_extension_end_skip(lower, 0, EXTENSION_COUNT - 1);
    lemma_find_seq_occurs(lower, exec_extension(EXTENSION_COUNT - 1));
    assert(extension_end(lower, EXTENSION_COUNT as int) is None);
    lemma_find_ws_facts(t, 0);
    let w = find_ws(t, 0);
    assert(spec_exec_path(cmd) == Some(t.subrange(0, w)));
}

/// Extensions that do not occur are passed over.
proof fn lemma_extension_end_skip(lower: Seq<u8>, j: int, k: int)
    requires
        0 <= j <= k < EXTENSION_COUNT,
        forall|m: int| 0 <= m < k ==> !occurs_in(#[trigger] exec_extension(m), lower),
    ensures
        extension_end(lower, j) == extension_end(lower, k),
    decreases k - j,
{
    if j < k {
        lemma_find_seq_occurs(lower, exec_extension(j));
        lemma_extension_end_skip(lower, j + 1, k);
    }
}

/// For a text that starts with a double quote, the index of the next one.
pub open spec fn closing_quote(t: Seq<char>) -> Option<int> {
    if t.len() > 0 && t[0] == '"' {
        find_char(t, '"', 1)
    } else {
        None
    }
}

/// The executable path of a command line, or `None` where the cut after the
/// extension would fall outside the text or inside a character (there the
/// byte slice of the text cannot be taken).
///
/// The text is trimmed first. A quoted head gives the text between the
/// quotes. Otherwise the first extension found in the lowercased text ends
/// the path, at the same byte offset in the text itself. Otherwise the path
/// is the first white-space separated word (empty for an empty text).
pub open spec fn spec_exec_path(cmd: Seq<char>) -> Option<Seq<char>> {
    let t = trim_ws(cmd);
    match closing_quote(t) {
        Some(j) => Some(t.subrange(1, j)),
        None => match extension_end(encode_utf8(spec_to_lowercase(t)), 0) {
            Some(end) => if is_char_boundary(encode_utf8(t), end) {
                Some(decode_utf8(encode_utf8(t).subrange(0, end)))
            } else {
                None
            },
            None => Some(t.subrange(0, find_ws(t, 0))),
        },
    }
}

/// A found character is one, lies in range, and none comes before it.
pub proof fn lemma_find_char(s: Seq<char>, c: char, i: int)
    requires
        0 <= i,
    ensures
        find_char(s, c, i) matches Some(k) ==> i <= k < s.len() && s[k] == c && forall|j: int|
            i <= j < k ==> #[trigger] s[j] != c,
        find_char(s, c, i) is None ==> forall|j: int| i <= j < s.len() ==> #[trigger] s[j] != c,
    decreases s.len() - i,
{
    if i < s.len() && s[i] != c {
        lemma_find_char(s, c, i + 1);
    }
}

/// Every byte offset of an ASCII text, its end included, is a character
/// boundary of its UTF-8 encoding.
pub proof fn lemma_ascii_char_boundary(t: Seq<char>, end: int)
    requires
        is_ascii_chars(t),
        0 <= end <= t.len(),
    ensures
        is_char_boundary(encode_utf8(t), end),
{
    broadcast use vstd::utf8::group_utf8_lib;

    let b = encode_utf8(t);
    vstd::utf8::encode_utf8_valid_utf8(t);
    vstd::utf8::is_ascii_chars_encode_utf8(t);
    if end < t.len() {
        assert(t[end] as u8 == b[end]);
        assert((t[end] as nat) < 128);
        assert(b[end] <= 0x7f);
        vstd::utf8::is_char_boundary_iff_is_leading_byte(b, end);
    } else {
        vstd::utf8::is_char_boundary_start_end_of_seq(b);
    }
}

/// ASCII lowercase keeps a text ASCII.
pub proof fn lemma_ascii_lower_is_ascii(t: Seq<char>)
    requires
        is_ascii_chars(t),
    ensures
        is_ascii_chars(t.map_values(|c: char| ascii_lower_char(c))),
{
    let l = t.map_values(|c: char| ascii_lower_char(c));
    assert forall|i| 0 <= i < l.len() implies '\0' <= #[trigger] l[i] <= '\u{7f}' by {
        assert(l[i] == ascii_lower_char(t[i]));
    }
}

/// A command line that starts with a quoted path gives that path, whatever
/// follows the closing quote.
pub proof fn lemma_quoted_command(path: Seq<char>, rest: Seq<char>)
    requires
        forall|i: int| 0 <= i < path.len() ==> #[trigger] path[i] != '"',
    ensures
        spec_exec_path(seq!['"'] + path + seq!['"'] + rest) == Some(path),
{
    let cmd = seq!['"'] + path + seq!['"'] + rest;
    let q = path.len() as int + 1;
    assert(cmd[0] == '"');
    assert(cmd[q] == '"');
    assert(!is_white_space('"'));
    assert(skip_ws(cmd, 0) == 0);
    lemma_trim_end_keeps(cmd, 0, cmd.len() as int, q);
    lemma_trim_ws_slice(cmd);
    let t = trim_ws(cmd);
    assert(t[q] == '"');
    assert forall|j: int| 1 <= j < q implies #[trigger] t[j] != '"' by {
        assert(t[j] == path[j - 1]);
    }
    lemma_find_char(t, '"', 1);
    assert(find_char(t, '"', 1) == Some(q));
    assert(t.subrange(1, q) =~= path);
}

/// The bytes of the `k`-th executable extension.
fn extension_bytes(k: usize) -> (r: Vec<u8>)
    requires
        k < EXTENSION_COUNT,
    ensures
        r@ == exec_extension(k as int),
{
    let r = if k == 0 {
        vec![0x2e, 0x65, 0x78, 0x65]  // .exe
    } else if k == 1 {
        vec![0x2e, 0x62, 0x61, 0x74]  // .bat
    } else if k == 2 {
        vec![0x2e, 0x63, 0x6d, 0x64]  // .cmd
    } else if k == 3 {
        vec![0x2e, 0x6d, 0x73, 0x69]  // .msi
    } else {
        vec![0x2e, 0x76, 0x62, 0x73]  // .vbs
    };
    assert(r@ =~= exec_extension(k as int));
    r
}

/// The executable path of a command line, or `None` on a command where the
/// cut after an extension found in the lowercased text does not fall on a
/// character boundary of the text (see [`spec_exec_path`]).
pub fn try_extract_exec_path(cmd: &str) -> (r: Option<String>)
    ensures
        r matches Some(p) ==> spec_exec_path(cmd@) == Some(p@),
        r is None ==> spec_exec_path(cmd@) is None,
        is_ascii_chars(cmd@) ==> r is Some,
{
    let t = trim_str(cmd);
    let tv = chars_of(t);
    if tv.len() > 0 && tv[0] == '"' {
        if let Some(j) = find_char_from(&tv, '"', 1) {
            proof {
                lemma_find_char(t@, '"', 1);
            }
            return Some(t.substring_char(1, j).to_owned());
        }
    }
    proof {
        if is_ascii_chars(cmd@) {
            lemma_trim_ws_slice(cmd@);
            let a = skip_ws(cmd@, 0);
            assert forall|i| 0 <= i < t@.len() implies '\0' <= #[trigger] t@[i] <= '\u{7f}' by {
                assert(t@[i] == cmd@[a + i]);
            }
        }
    }
    let lower = to_lowercase(t);
    let lb = lower.as_str().as_bytes();
    let lb_len = lb.len();
    let mut k: usize = 0;
    while k < EXTENSION_COUNT
        invariant
            k <= EXTENSION_COUNT,
            t@ == trim_ws(cmd@),
            tv@ == t@,
            closing_quote(t@) is None,
            lb_len == lb@.len(),
            lower@ == spec_to_lowercase(t@),
            is_ascii_chars(cmd@) ==> is_ascii_chars(t@),
            is_ascii_chars(cmd@) ==> lower@ == t@.map_values(|c: char| ascii_lower_char(c)),
            lb@ == encode_utf8(spec_to_lowercase(t@)),
            extension_end(lb@, 0) == extension_end(lb@, k as int),
        decreases EXTENSION_COUNT - k,
    {
        let ext = extension_bytes(k);
        if let Some(i) = find_bytes(lb, ext.as_slice()) {
            proof {
                lemma_find_seq(lb@, ext@, 0);
            }
            let end = i + ext.len();
            proof {
                if is_ascii_chars(cmd@) {
                    lemma_ascii_lower_is_ascii(t@);
                    vstd::utf8::is_ascii_chars_encode_utf8(lower@);
                    vstd::utf8::is_ascii_chars_encode_utf8(t@);
                    lemma_ascii_char_boundary(t@, end as int);
                }
            }
            if t.is_char_boundary(end) {
                let (head, _) = t.split_at(end);
                proof {
                    vstd::utf8::encode_utf8_decode_utf8(head@);
                }
                return Some(head.to_owned());
            } else {
                return None;
            }
        }
        k = k + 1;
    }
    let w = find_ws_from(&tv, 0);
    Some(t.substring_char(0, w).to_owned())
}

/// The executable path at the head of a command line: the text between
/// leading quotes, else the text up to the first executable extension
/// (matched without regard to case), else the first word.
pub fn extract_exec_path(cmd: &str) -> (r: String)
    requires
        spec_exec_path(cmd@) is Some,
    ensures
        spec_exec_path(cmd@) == Some(r@),
{
    try_extract_exec_path(cmd).unwrap()
}

} // verus!
