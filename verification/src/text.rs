//! Character-level text model shared by the path, command and name logic:
//! white space, trimming, searching, and the lowercase mapping.
use vstd::prelude::*;
use vstd::utf8::is_ascii_chars;

verus! {

/// The characters that carry the Unicode `White_Space` property.
pub open spec fn is_white_space(c: char) -> bool {
    let u = c as u32;
    ||| 0x9 <= u <= 0xd
    ||| u == 0x20
    ||| u == 0x85
    ||| u == 0xa0
    ||| u == 0x1680
    ||| 0x2000 <= u <= 0x200a
    ||| u == 0x2028
    ||| u == 0x2029
    ||| u == 0x202f
    ||| u == 0x205f
    ||| u == 0x3000
}

/// `char::is_whitespace`: true exactly for the characters with the Unicode
/// `White_Space` property, as its documentation says.
#[verifier::external_body]
pub(crate) fn char_is_whitespace(c: char) -> (r: bool)
    ensures
        r == is_white_space(c),
{
    c.is_whitespace()
}

/// The first index at or after `i` that does not hold white space
/// (the length when there is none).
pub open spec fn skip_ws(s: Seq<char>, i: int) -> int
    decreases s.len() - i,
{
    if 0 <= i < s.len() && is_white_space(s[i]) {
        skip_ws(s, i + 1)
    } else {
        i
    }
}

/// The end of `s[lo..hi]` once trailing white space is dropped.
pub open spec fn trim_end(s: Seq<char>, lo: int, hi: int) -> int
    decreases hi - lo,
{
    if lo < hi && is_white_space(s[hi - 1]) {
        trim_end(s, lo, hi - 1)
    } else {
        hi
    }
}

/// `s` without its leading and trailing white space (`str::trim`).
pub open spec fn trim_ws(s: Seq<char>) -> Seq<char> {
    let a = skip_ws(s, 0);
    s.subrange(a, trim_end(s, a, s.len() as int))
}

/// `skip_ws` stays within `[i, len]`.
pub proof fn lemma_skip_ws_bounds(s: Seq<char>, i: int)
    requires
        0 <= i <= s.len(),
    ensures
        i <= skip_ws(s, i) <= s.len(),
    decreases s.len() - i,
{
    if i < s.len() && is_white_space(s[i]) {
        lemma_skip_ws_bounds(s, i + 1);
    }
}

/// `trim_end` stays within `[lo, hi]`.
pub proof fn lemma_trim_end_bounds(s: Seq<char>, lo: int, hi: int)
    requires
        lo <= hi,
    ensures
        lo <= trim_end(s, lo, hi) <= hi,
    decreases hi - lo,
{
    if lo < hi && is_white_space(s[hi - 1]) {
        lemma_trim_end_bounds(s, lo, hi - 1);
    }
}

/// Trimming the end stops after a character that is not white space.
pub proof fn lemma_trim_end_keeps(s: Seq<char>, lo: int, hi: int, k: int)
    requires
        lo <= k < hi <= s.len(),
        !is_white_space(s[k]),
    ensures
        trim_end(s, lo, hi) > k,
    decreases hi - lo,
{
    if hi - 1 > k {
        lemma_trim_end_keeps(s, lo, hi - 1, k);
    }
}

/// The trimmed text is a slice of the text.
pub proof fn lemma_trim_ws_slice(s: Seq<char>)
    ensures
        0 <= skip_ws(s, 0) <= trim_end(s, skip_ws(s, 0), s.len() as int) <= s.len(),
        trim_ws(s) == s.subrange(skip_ws(s, 0), trim_end(s, skip_ws(s, 0), s.len() as int)),
{
    lemma_skip_ws_bounds(s, 0);
    lemma_trim_end_bounds(s, skip_ws(s, 0), s.len() as int);
}

/// Trimming removes exactly the white space at both ends: the result is the
/// slice `s[a..b]`, everything before `a` and from `b` on is white space,
/// and a non-empty result starts and ends with a character that is not.
pub proof fn lemma_trim_ws_removes_only_white_space(s: Seq<char>)
    ensures
        exists|a: int, b: int|
            #![trigger s.subrange(a, b)]
            0 <= a <= b <= s.len() && trim_ws(s) == s.subrange(a, b) && (forall|i: int|
                0 <= i < a ==> is_white_space(#[trigger] s[i])) && (forall|i: int|
                b <= i < s.len() ==> is_white_space(#[trigger] s[i])) && (a < b ==> !is_white_space(
                s[a]) && !is_white_space(s[b - 1])),
{
    let a = skip_ws(s, 0);
    lemma_trim_ws_slice(s);
    let b = trim_end(s, a, s.len() as int);
    lemma_skip_ws_facts(s, 0);
    lemma_trim_end_facts(s, a, s.len() as int);
    assert(trim_ws(s) == s.subrange(a, b));
}

/// What `skip_ws` passes over is white space; where it stops is not.
proof fn lemma_skip_ws_facts(s: Seq<char>, i: int)
    requires
        0 <= i <= s.len(),
    ensures
        forall|j: int| i <= j < skip_ws(s, i) ==> is_white_space(#[trigger] s[j]),
        skip_ws(s, i) < s.len() ==> !is_white_space(s[skip_ws(s, i)]),
    decreases s.len() - i,
{
    lemma_skip_ws_bounds(s, i);
    if i < s.len() && is_white_space(s[i]) {
        lemma_skip_ws_facts(s, i + 1);
    }
}

/// What `trim_end` drops is white space; the character before its end is not.
proof fn lemma_trim_end_facts(s: Seq<char>, lo: int, hi: int)
    requires
        0 <= lo <= hi <= s.len(),
    ensures
        forall|j: int| trim_end(s, lo, hi) <= j < hi ==> is_white_space(#[trigger] s[j]),
        lo < trim_end(s, lo, hi) ==> !is_white_space(s[trim_end(s, lo, hi) - 1]),
    decreases hi - lo,
{
    lemma_trim_end_bounds(s, lo, hi);
    if lo < hi && is_white_space(s[hi - 1]) {
        lemma_trim_end_facts(s, lo, hi - 1);
    }
}

/// The first index at or after `i` that holds white space
/// (the length when there is none).
pub open spec fn find_ws(s: Seq<char>, i: int) -> int
    decreases s.len() - i,
{
    if 0 <= i < s.len() && !is_white_space(s[i]) {
        find_ws(s, i + 1)
    } else {
        i
    }
}

/// What `find_ws` passes over is not white space; where it stops is.
pub proof fn lemma_find_ws_facts(s: Seq<char>, i: int)
    requires
        0 <= i <= s.len(),
    ensures
        i <= find_ws(s, i) <= s.len(),
        forall|j: int| i <= j < find_ws(s, i) ==> !is_white_space(#[trigger] s[j]),
        find_ws(s, i) < s.len() ==> is_white_space(s[find_ws(s, i)]),
    decreases s.len() - i,
{
    if i < s.len() && !is_white_space(s[i]) {
        lemma_find_ws_facts(s, i + 1);
    }
}

/// The first index at or after `i` that holds `c`.
pub open spec fn find_char(s: Seq<char>, c: char, i: int) -> Option<int>
    decreases s.len() - i,
{
    if i < 0 || i >= s.len() {
        None
    } else if s[i] == c {
        Some(i)
    } else {
        find_char(s, c, i + 1)
    }
}

/// The first index at or after `i` where `pat` occurs in `s`.
pub open spec fn find_seq<A>(s: Seq<A>, pat: Seq<A>, i: int) -> Option<int>
    decreases s.len() + 1 - i,
{
    if i < 0 || i + pat.len() > s.len() {
        None
    } else if s.subrange(i, i + pat.len()) == pat {
        Some(i)
    } else {
        find_seq(s, pat, i + 1)
    }
}

/// `pat` occurs somewhere in `s` (`str::contains` with a string pattern).
pub open spec fn occurs_in<A>(pat: Seq<A>, s: Seq<A>) -> bool {
    exists|i: int| 0 <= i && i + pat.len() <= s.len() && #[trigger] s.subrange(i, i + pat.len()) == pat
}

/// A found occurrence is an occurrence, and none comes before it; when none
/// is found, `pat` does not occur from `i` on.
pub proof fn lemma_find_seq<A>(s: Seq<A>, pat: Seq<A>, i: int)
    requires
        0 <= i,
    ensures
        find_seq(s, pat, i) matches Some(k) ==> i <= k && k + pat.len() <= s.len() && s.subrange(
            k,
            k + pat.len(),
        ) == pat && forall|j: int|
            i <= j < k ==> #[trigger] s.subrange(j, j + pat.len()) != pat,
        find_seq(s, pat, i) is None ==> forall|j: int|
            i <= j && j + pat.len() <= s.len() ==> #[trigger] s.subrange(j, j + pat.len()) != pat,
    decreases s.len() + 1 - i,
{
    if i + pat.len() > s.len() {
    } else if s.subrange(i, i + pat.len()) == pat {
    } else {
        lemma_find_seq(s, pat, i + 1);
    }
}

/// Searching from the start finds an occurrence exactly when there is one.
pub proof fn lemma_find_seq_occurs<A>(s: Seq<A>, pat: Seq<A>)
    ensures
        (find_seq(s, pat, 0) is Some) == occurs_in(pat, s),
{
    lemma_find_seq(s, pat, 0);
    if let Some(k) = find_seq(s, pat, 0) {
        assert(s.subrange(k, k + pat.len()) == pat);
    }
}

/// ASCII lowercase of one character.
pub open spec fn ascii_lower_char(c: char) -> char {
    if 'A' <= c <= 'Z' {
        ((c as u32) + 32) as char
    } else {
        c
    }
}

/// The lowercase mapping of Unicode (`str::to_lowercase`) on a string.
pub uninterp spec fn spec_to_lowercase(s: Seq<char>) -> Seq<char>;

/// `str::to_lowercase`. The result is named: it depends on `s` alone. On
/// ASCII text the Unicode lowercase mapping turns `A`..`Z` into `a`..`z`
/// and keeps every other character, which is stated; what it does beyond
/// ASCII is left unsaid.
#[verifier::external_body]
pub(crate) fn to_lowercase(s: &str) -> (r: String)
    ensures
        r@ == spec_to_lowercase(s@),
        is_ascii_chars(s@) ==> r@ == s@.map_values(|c: char| ascii_lower_char(c)),
{
    s.to_lowercase()
}

/// Text made of lowercase ASCII letters, digits and `.`/`-`/`_`/space is ASCII
/// and is its own ASCII lowercase.
pub proof fn lemma_lowercase_fixed(s: Seq<char>)
    requires
        forall|i: int|
            0 <= i < s.len() ==> ('a' <= #[trigger] s[i] <= 'z' || '0' <= s[i] <= '9' || s[i] == '.'
                || s[i] == '-' || s[i] == '_' || s[i] == ' '),
    ensures
        is_ascii_chars(s),
        s.map_values(|c: char| ascii_lower_char(c)) == s,
{
    assert(s.map_values(|c: char| ascii_lower_char(c)) =~= s);
}

/// The characters of a string slice, in order.
pub fn chars_of(s: &str) -> (v: Vec<char>)
    ensures
        v@ == s@,
{
    broadcast use vstd::string::group_string_axioms;

    let mut v: Vec<char> = Vec::new();
    for c in it: s.chars()
        invariant
            v@ == it.seq().take(it.index() as int),
    {
        v.push(c);
    }
    v
}

/// The index of the first character at or after `from` that is not white space.
pub fn skip_ws_from(v: &Vec<char>, from: usize) -> (r: usize)
    requires
        from <= v.len(),
    ensures
        r == skip_ws(v@, from as int),
        from <= r <= v.len(),
{
    let mut i = from;
    loop
        invariant
            from <= i <= v.len(),
            skip_ws(v@, from as int) == skip_ws(v@, i as int),
        decreases v.len() - i,
    {
        if i >= v.len() || !char_is_whitespace(v[i]) {
            return i;
        }
        i = i + 1;
    }
}

/// The end of `v[lo..hi]` without its trailing white space.
pub fn trim_end_of(v: &Vec<char>, lo: usize, hi: usize) -> (r: usize)
    requires
        lo <= hi <= v.len(),
    ensures
        r == trim_end(v@, lo as int, hi as int),
        lo <= r <= hi,
{
    let mut j = hi;
    loop
        invariant
            lo <= j <= hi,
            hi <= v.len(),
            trim_end(v@, lo as int, hi as int) == trim_end(v@, lo as int, j as int),
        decreases j - lo,
    {
        if j <= lo || !char_is_whitespace(v[j - 1]) {
            return j;
        }
        j = j - 1;
    }
}

/// The index of the first white space character at or after `from`.
pub fn find_ws_from(v: &Vec<char>, from: usize) -> (r: usize)
    requires
        from <= v.len(),
    ensures
        r == find_ws(v@, from as int),
        from <= r <= v.len(),
{
    let mut i = from;
    loop
        invariant
            from <= i <= v.len(),
            find_ws(v@, from as int) == find_ws(v@, i as int),
        decreases v.len() - i,
    {
        if i >= v.len() || char_is_whitespace(v[i]) {
            return i;
        }
        i = i + 1;
    }
}

/// The index of the first `c` at or after `from`.
pub fn find_char_from(v: &Vec<char>, c: char, from: usize) -> (r: Option<usize>)
    requires
        from <= v.len(),
    ensures
        r matches Some(k) ==> find_char(v@, c, from as int) == Some(k as int),
        r is None ==> find_char(v@, c, from as int) is None,
{
    let mut i = from;
    loop
        invariant
            from <= i <= v.len(),
            find_char(v@, c, from as int) == find_char(v@, c, i as int),
        decreases v.len() - i,
    {
        if i >= v.len() {
            return None;
        }
        if v[i] == c {
            return Some(i);
        }
        i = i + 1;
    }
}

/// `s` without its leading and trailing white space (`str::trim`).
pub fn trim_str(s: &str) -> (r: &str)
    ensures
        r@ == trim_ws(s@),
{
    let v = chars_of(s);
    let a = skip_ws_from(&v, 0);
    let b = trim_end_of(&v, a, v.len());
    s.substring_char(a, b)
}

/// Whether `pat` occurs in `s` at index `i`.
fn bytes_match_at(s: &[u8], pat: &[u8], i: usize) -> (r: bool)
    requires
        i + pat@.len() <= s@.len(),
    ensures
        r == (s@.subrange(i as int, i + pat@.len()) == pat@),
{
    let m = pat.len();
    let n = s.len();
    let mut j: usize = 0;
    while j < m
        invariant
            j <= m,
            m == pat@.len(),
            i + m <= s@.len(),
            s@.len() <= usize::MAX,
            forall|k: int| 0 <= k < j ==> s@[i + k] == pat@[k],
        decreases m - j,
    {
        if s[i + j] != pat[j] {
            assert(s@.subrange(i as int, i + m)[j as int] != pat@[j as int]);
            return false;
        }
        j = j + 1;
    }
    assert(s@.subrange(i as int, i + m) =~= pat@);
    true
}

/// The first index where `pat` occurs in `s` (`<[u8]>` search as `str::find` does it).
pub fn find_bytes(s: &[u8], pat: &[u8]) -> (r: Option<usize>)
    ensures
        r matches Some(k) ==> find_seq(s@, pat@, 0) == Some(k as int),
        r is None ==> find_seq(s@, pat@, 0) is None,
{
    let n = s.len();
    let m = pat.len();
    if m > n {
        return None;
    }
    let last = n - m;
    let mut i: usize = 0;
    loop
        invariant
            m <= n,
            n == s@.len(),
            m == pat@.len(),
            last == n - m,
            i <= last,
            find_seq(s@, pat@, 0) == find_seq(s@, pat@, i as int),
        decreases last - i,
    {
        if bytes_match_at(s, pat, i) {
            return Some(i);
        }
        if i == last {
            return None;
        }
        i = i + 1;
    }
}

/// Whether `pat` occurs in `s` at index `i`.
fn chars_match_at(s: &Vec<char>, pat: &Vec<char>, i: usize) -> (r: bool)
    requires
        i + pat@.len() <= s@.len(),
    ensures
        r == (s@.subrange(i as int, i + pat@.len()) == pat@),
{
    let m = pat.len();
    let n = s.len();
    let mut j: usize = 0;
    while j < m
        invariant
            j <= m,
            m == pat@.len(),
            i + m <= s@.len(),
            s@.len() <= usize::MAX,
            forall|k: int| 0 <= k < j ==> s@[i + k] == pat@[k],
        decreases m - j,
    {
        if s[i + j] != pat[j] {
            assert(s@.subrange(i as int, i + m)[j as int] != pat@[j as int]);
            return false;
        }
        j = j + 1;
    }
    assert(s@.subrange(i as int, i + m) =~= pat@);
    true
}

/// Whether `pat` occurs in `s` (`str::contains` with a string pattern).
pub fn str_contains(s: &str, pat: &str) -> (r: bool)
    ensures
        r == occurs_in(pat@, s@),
{
    let sv = chars_of(s);
    let pv = chars_of(pat);
    let n = sv.len();
    let m = pv.len();
    proof {
        lemma_find_seq_occurs(s@, pat@);
    }
    if m > n {
        return false;
    }
    let last = n - m;
    let mut i: usize = 0;
    loop
        invariant
            m <= n,
            n == s@.len(),
            m == pat@.len(),
            sv@ == s@,
            pv@ == pat@,
            (find_seq(s@, pat@, 0) is Some) == occurs_in(pat@, s@),
            last == n - m,
            i <= last,
            find_seq(s@, pat@, 0) == find_seq(s@, pat@, i as int),
        decreases last - i,
    {
        if chars_match_at(&sv, &pv, i) {
            return true;
        }
        if i == last {
            assert(find_seq(s@, pat@, i + 1) is None);
            return false;
        }
        i = i + 1;
    }
}

/// Whether two string slices hold the same characters.
pub fn str_eq(a: &str, b: &str) -> (r: bool)
    ensures
        r == (a@ == b@),
{
    let x = a.to_owned();
    let y = b.to_owned();
    x == y
}

} // verus!
