//! Paths as the registry stores them: surrounding quotes are dropped and
//! `%NAME%` references to environment variables are expanded.
//!
//! The values of the variables are not read here: a caller lists the
//! references with [`env_var_refs`], looks each one up, and hands the results
//! (in the same order) to [`expand_and_clean_path`].
use vstd::prelude::*;
use crate::text::{chars_of, find_char, find_char_from, trim_str, trim_ws};
use crate::command::lemma_find_char;

verus! {

/// A path trimmed of white space and, when it is wrapped in double quotes,
/// of that one pair of quotes.
pub open spec fn spec_clean_path(p: Seq<char>) -> Seq<char> {
    let t = trim_ws(p);
    if t.len() >= 2 && t[0] == '"' && t[t.len() - 1] == '"' {
        t.subrange(1, t.len() - 1)
    } else {
        t
    }
}

/// The names of the `%NAME%` references in `s` from index `pos` on, in order:
/// each reference runs from a `%` to the next `%`; a `%` without a closing
/// one ends the search.
pub open spec fn references_from(s: Seq<char>, pos: int) -> Seq<Seq<char>>
    decreases s.len() - pos,
{
    if pos < 0 || pos > s.len() {
        seq![]
    } else {
        match find_char(s, '%', pos) {
            Some(a) => match find_char(s, '%', a + 1) {
                Some(b) => {
                    proof {
                        lemma_find_char(s, '%', pos);
                        lemma_find_char(s, '%', a + 1);
                    }
                    seq![s.subrange(a + 1, b)] + references_from(s, b + 1)
                },
                None => seq![],
            },
            None => seq![],
        }
    }
}

/// The text that replaces the `k`-th reference, named `name`: the `k`-th
/// value when there is one, else the reference itself, `%name%`.
pub open spec fn replacement(values: Seq<Option<Seq<char>>>, k: int, name: Seq<char>) -> Seq<char> {
    if 0 <= k < values.len() && values[k] is Some {
        values[k]->0
    } else {
        seq!['%'] + name + seq!['%']
    }
}

/// `s` from index `pos` on, each reference replaced, the `k`-th value going
/// to the first reference met.
pub open spec fn expand_from(
    s: Seq<char>,
    pos: int,
    values: Seq<Option<Seq<char>>>,
    k: int,
) -> Seq<char>
    decreases s.len() - pos,
{
    if pos < 0 || pos > s.len() {
        seq![]
    } else {
        match find_char(s, '%', pos) {
            Some(a) => match find_char(s, '%', a + 1) {
                Some(b) => {
                    proof {
                        lemma_find_char(s, '%', pos);
                        lemma_find_char(s, '%', a + 1);
                    }
                    s.subrange(pos, a) + replacement(values, k, s.subrange(a + 1, b))
                        + expand_from(s, b + 1, values, k + 1)
                },
                None => s.subrange(pos, s.len() as int),
            },
            None => s.subrange(pos, s.len() as int),
        }
    }
}

/// The values handed in, as character sequences.
pub open spec fn value_views(values: Seq<Option<String>>) -> Seq<Option<Seq<char>>> {
    values.map_values(
        |o: Option<String>|
            match o {
                Some(s) => Some(s@),
                None => None,
            },
    )
}

/// The names referenced by a cleaned path, in order.
pub open spec fn spec_env_refs(path: Seq<char>) -> Seq<Seq<char>> {
    references_from(spec_clean_path(path), 0)
}

/// The cleaned path with each reference expanded.
pub open spec fn spec_expand_path(path: Seq<char>, values: Seq<Option<Seq<char>>>) -> Seq<
    char,
> {
    expand_from(spec_clean_path(path), 0, values, 0)
}

/// A path trimmed of white space and of one pair of surrounding quotes.
pub fn clean_path(path: &str) -> (r: &str)
    ensures
        r@ == spec_clean_path(path@),
{
    let t = trim_str(path);
    let v = chars_of(t);
    let n = v.len();
    if n >= 2 && v[0] == '"' && v[n - 1] == '"' {
        t.substring_char(1, n - 1)
    } else {
        t
    }
}

/// The names of the `%NAME%` references in the cleaned path, in the order in
/// which [`expand_and_clean_path`] takes their values.
pub fn env_var_refs(path: &str) -> (r: Vec<String>)
    ensures
        r@.len() == spec_env_refs(path@).len(),
        forall|i: int| 0 <= i < r@.len() ==> #[trigger] r@[i]@ == spec_env_refs(path@)[i],
{
    let c = clean_path(path);
    let v = chars_of(c);
    let n = v.len();
    let mut refs: Vec<String> = Vec::new();
    let mut pos: usize = 0;
    loop
        invariant
            n == v@.len(),
            v@ == c@,
            c@ == spec_clean_path(path@),
            pos <= n,
            spec_env_refs(path@) == refs@.map_values(|x: String| x@) + references_from(
                v@,
                pos as int,
            ),
        decreases n - pos,
    {
        let ghost before = refs@.map_values(|x: String| x@);
        match find_char_from(&v, '%', pos) {
            None => {
                assert(refs@.map_values(|x: String| x@) + references_from(v@, pos as int)
                    =~= refs@.map_values(|x: String| x@));
                return refs;
            },
            Some(a) => {
                proof {
                    lemma_find_char(v@, '%', pos as int);
                }
                match find_char_from(&v, '%', a + 1) {
                    None => {
                        assert(refs@.map_values(|x: String| x@) + references_from(v@, pos as int)
                            =~= refs@.map_values(|x: String| x@));
                        return refs;
                    },
                    Some(b) => {
                        proof {
                            lemma_find_char(v@, '%', a + 1);
                        }
                        let name = c.substring_char(a + 1, b).to_owned();
                        refs.push(name);
                        assert(refs@.map_values(|x: String| x@) =~= before + seq![
                            v@.subrange(a + 1, b as int),
                        ]);
                        pos = b + 1;
                    },
                }
            },
        }
    }
}

/// The path trimmed, unquoted, and with its `%NAME%` references expanded:
/// the `k`-th reference (see [`env_var_refs`]) becomes the `k`-th value when
/// that is `Some`, and stays `%NAME%` when it is `None` or missing.
pub fn expand_and_clean_path(path: &str, values: &Vec<Option<String>>) -> (r: String)
    ensures
        r@ == spec_expand_path(path@, value_views(values@)),
{
    let c = clean_path(path);
    let v = chars_of(c);
    let n = v.len();
    let ghost vals = value_views(values@);
    let mut result = String::new();
    let mut pos: usize = 0;
    let mut k: usize = 0;
    proof {
        reveal_strlit("%");
    }
    loop
        invariant
            n == v@.len(),
            v@ == c@,
            c@ == spec_clean_path(path@),
            vals == value_views(values@),
            "%"@ == seq!['%'],
            pos <= n,
            k <= pos,
            spec_expand_path(path@, vals) == result@ + expand_from(v@, pos as int, vals, k as int),
        decreases n - pos,
    {
        match find_char_from(&v, '%', pos) {
            None => {
                result.append(c.substring_char(pos, n));
                return result;
            },
            Some(a) => {
                proof {
                    lemma_find_char(v@, '%', pos as int);
                }
                match find_char_from(&v, '%', a + 1) {
                    None => {
                        result.append(c.substring_char(pos, n));
                        return result;
                    },
                    Some(b) => {
                        proof {
                            lemma_find_char(v@, '%', a + 1);
                        }
                        let ghost prev = result@;
                        let name = c.substring_char(a + 1, b);
                        result.append(c.substring_char(pos, a));
                        if k < values.len() {
                            match &values[k] {
                                Some(value) => {
                                    result.append(value.as_str());
                                },
                                None => {
                                    result.append("%");
                                    result.append(name);
                                    result.append("%");
                                },
                            }
                        } else {
                            result.append("%");
                            result.append(name);
                            result.append("%");
                        }
                        assert(result@ =~= prev + v@.subrange(pos as int, a as int) + replacement(
                            vals,
                            k as int,
                            v@.subrange(a + 1, b as int),
                        ));
                        pos = b + 1;
                        k = k + 1;
                    },
                }
            },
        }
    }
}

/// With no value for any reference, expansion gives back the cleaned path:
/// every `%NAME%` that cannot be resolved is kept as written.
pub proof fn lemma_expand_without_values(path: Seq<char>)
    ensures
        spec_expand_path(path, seq![]) == spec_clean_path(path),
{
    let s = spec_clean_path(path);
    lemma_expand_from_without_values(s, 0, 0);
    assert(s.subrange(0, s.len() as int) =~= s);
}

/// Without values, expansion from `pos` is the rest of the text.
pub proof fn lemma_expand_from_without_values(s: Seq<char>, pos: int, k: int)
    requires
        0 <= pos <= s.len(),
    ensures
        expand_from(s, pos, seq![], k) == s.subrange(pos, s.len() as int),
    decreases s.len() - pos,
{
    lemma_find_char(s, '%', pos);
    if let Some(a) = find_char(s, '%', pos) {
        lemma_find_char(s, '%', a + 1);
        if let Some(b) = find_char(s, '%', a + 1) {
            lemma_expand_from_without_values(s, b + 1, k + 1);
            assert(s.subrange(pos, a) + (seq!['%'] + s.subrange(a + 1, b) + seq!['%'])
                + s.subrange(b + 1, s.len() as int) =~= s.subrange(pos, s.len() as int));
        }
    }
}

/// The value at a position replaces the reference listed at that position:
/// giving each reference its own `%NAME%` text as value gives back the
/// cleaned path.
pub proof fn lemma_values_follow_references(path: Seq<char>)
    ensures
        spec_expand_path(
            path,
            spec_env_refs(path).map_values(|n: Seq<char>| Some(seq!['%'] + n + seq!['%'])),
        ) == spec_clean_path(path),
{
    let s = spec_clean_path(path);
    let vals = spec_env_refs(path).map_values(|n: Seq<char>| Some(seq!['%'] + n + seq!['%']));
    lemma_expand_from_own_values(s, 0, vals, 0);
    assert(s.subrange(0, s.len() as int) =~= s);
}

/// From `pos`, with the values from `k` on being the references' own texts,
/// expansion is the rest of the text.
pub proof fn lemma_expand_from_own_values(
    s: Seq<char>,
    pos: int,
    values: Seq<Option<Seq<char>>>,
    k: int,
)
    requires
        0 <= pos <= s.len(),
        0 <= k,
        k + references_from(s, pos).len() <= values.len(),
        forall|j: int|
            0 <= j < references_from(s, pos).len() ==> #[trigger] values[k + j] == Some(
                seq!['%'] + references_from(s, pos)[j] + seq!['%'],
            ),
    ensures
        expand_from(s, pos, values, k) == s.subrange(pos, s.len() as int),
    decreases s.len() - pos,
{
    lemma_find_char(s, '%', pos);
    if let Some(a) = find_char(s, '%', pos) {
        lemma_find_char(s, '%', a + 1);
        if let Some(b) = find_char(s, '%', a + 1) {
            let refs = references_from(s, pos);
            let rest = references_from(s, b + 1);
            assert(refs == seq![s.subrange(a + 1, b)] + rest);
            assert(values[k + 0] == Some(seq!['%'] + refs[0] + seq!['%']));
            assert forall|j: int| 0 <= j < rest.len() implies #[trigger] values[(k + 1) + j]
                == Some(seq!['%'] + rest[j] + seq!['%']) by {
                assert(refs[1 + j] == rest[j]);
                assert(values[k + (1 + j)] == Some(seq!['%'] + refs[1 + j] + seq!['%']));
            }
            lemma_expand_from_own_values(s, b + 1, values, k + 1);
            assert(s.subrange(pos, a) + (seq!['%'] + s.subrange(a + 1, b) + seq!['%'])
                + s.subrange(b + 1, s.len() as int) =~= s.subrange(pos, s.len() as int));
        }
    }
}

/// `%NAME%`, a reference as it stands in a path.
pub open spec fn reference_text(name: Seq<char>) -> Seq<char> {
    seq!['%'] + name + seq!['%']
}

/// `lits[0] + mids[0] + lits[1] + ... + mids[m - 1] + lits[m]`.
pub open spec fn interleave(lits: Seq<Seq<char>>, mids: Seq<Seq<char>>) -> Seq<char>
    decreases mids.len(),
{
    if lits.len() == 0 {
        seq![]
    } else if mids.len() == 0 {
        lits[0]
    } else {
        lits[0] + mids[0] + interleave(lits.drop_first(), mids.drop_first())
    }
}

/// No `%` in the text.
pub open spec fn no_percent(s: Seq<char>) -> bool {
    forall|i: int| 0 <= i < s.len() ==> #[trigger] s[i] != '%'
}

/// Every reference is replaced by its value: a cleaned path made of texts
/// without `%` and the references `%NAME_0%`, ..., `%NAME_m%` between them
/// lists exactly the names `NAME_0`, ..., `NAME_m`, and with a value for
/// each it expands to the same texts with the `k`-th value in place of the
/// `k`-th reference, for every `k`.
pub proof fn lemma_expand_replaces_every_reference(
    path: Seq<char>,
    lits: Seq<Seq<char>>,
    names: Seq<Seq<char>>,
    vals: Seq<Seq<char>>,
)
    requires
        lits.len() == names.len() + 1,
        vals.len() == names.len(),
        forall|j: int| 0 <= j < lits.len() ==> no_percent(#[trigger] lits[j]),
        forall|j: int| 0 <= j < names.len() ==> no_percent(#[trigger] names[j]),
        spec_clean_path(path) == interleave(lits, names.map_values(|n: Seq<char>| reference_text(n))),
    ensures
        spec_env_refs(path) == names,
        spec_expand_path(path, vals.map_values(|v: Seq<char>| Some(v))) == interleave(lits, vals),
{
    let s = spec_clean_path(path);
    assert(s.subrange(0, s.len() as int) =~= s);
    lemma_expand_segments(s, 0, lits, names, vals, vals.map_values(|v: Seq<char>| Some(v)), 0);
}

/// The first `%` at or after `pos` is at `a` when `s[a]` is one and none
/// lies between.
proof fn lemma_find_percent_at(s: Seq<char>, pos: int, a: int)
    requires
        0 <= pos <= a < s.len(),
        s[a] == '%',
        forall|x: int| pos <= x < a ==> #[trigger] s[x] != '%',
    ensures
        find_char(s, '%', pos) == Some(a),
{
    lemma_find_char(s, '%', pos);
}

/// Expansion and listing from `pos` over a text made of segments.
proof fn lemma_expand_segments(
    s: Seq<char>,
    pos: int,
    lits: Seq<Seq<char>>,
    names: Seq<Seq<char>>,
    vals: Seq<Seq<char>>,
    values: Seq<Option<Seq<char>>>,
    k: int,
)
    requires
        0 <= pos <= s.len(),
        0 <= k,
        lits.len() == names.len() + 1,
        vals.len() == names.len(),
        forall|j: int| 0 <= j < lits.len() ==> no_percent(#[trigger] lits[j]),
        forall|j: int| 0 <= j < names.len() ==> no_percent(#[trigger] names[j]),
        s.subrange(pos, s.len() as int) == interleave(
            lits,
            names.map_values(|n: Seq<char>| reference_text(n)),
        ),
        k + names.len() <= values.len(),
        forall|j: int| 0 <= j < names.len() ==> #[trigger] values[k + j] == Some(vals[j]),
    ensures
        expand_from(s, pos, values, k) == interleave(lits, vals),
        references_from(s, pos) == names,
    decreases names.len(),
{
    let w = s.subrange(pos, s.len() as int);
    let l0 = lits[0];
    assert(no_percent(l0));
    if names.len() == 0 {
        assert(w == l0);
        lemma_find_char(s, '%', pos);
        if let Some(x) = find_char(s, '%', pos) {
            assert(w[x - pos] == s[x]);
        }
        assert(references_from(s, pos) =~= names);
    } else {
        let mapped = names.map_values(|n: Seq<char>| reference_text(n));
        let n0 = names[0];
        assert(no_percent(n0));
        let rest_lits = lits.drop_first();
        let rest_names = names.drop_first();
        let rest_mapped = rest_names.map_values(|n: Seq<char>| reference_text(n));
        assert(mapped.drop_first() =~= rest_mapped);
        assert(mapped[0] == reference_text(n0));
        let rest_w = interleave(rest_lits, rest_mapped);
        assert(w == l0 + reference_text(n0) + rest_w);
        let a = pos + l0.len();
        let b = a + 1 + n0.len();
        assert forall|x: int| pos <= x < a implies #[trigger] s[x] != '%' by {
            assert(s[x] == w[x - pos]);
            assert(w[x - pos] == l0[x - pos]);
        }
        assert(s[a] == w[a - pos]);
        lemma_find_percent_at(s, pos, a);
        let r0 = reference_text(n0);
        let head = l0 + r0;
        assert(w =~= head + rest_w);
        assert(head.len() == b + 1 - pos);
        assert(w.len() == s.len() - pos);
        assert forall|x: int| a + 1 <= x < b implies #[trigger] s[x] != '%' by {
            assert(s[x] == w[x - pos]);
            assert(w[x - pos] == head[x - pos]);
            assert(head[x - pos] == r0[x - a]);
            assert(r0[x - a] == n0[x - a - 1]);
        }
        assert(s[b] == w[b - pos]);
        assert(w[b - pos] == head[b - pos]);
        assert(head[b - pos] == r0[b - a]);
        lemma_find_percent_at(s, a + 1, b);
        assert forall|y: int| 0 <= y < l0.len() implies #[trigger] s.subrange(pos, a)[y] == l0[y] by {
            assert(s[pos + y] == w[y]);
            assert(w[y] == head[y]);
        }
        assert(s.subrange(pos, a) =~= l0);
        assert forall|y: int| 0 <= y < n0.len() implies #[trigger] s.subrange(a + 1, b)[y] == n0[y] by {
            assert(s[a + 1 + y] == w[a + 1 + y - pos]);
            assert(w[a + 1 + y - pos] == head[a + 1 + y - pos]);
            assert(head[a + 1 + y - pos] == r0[1 + y]);
        }
        assert(s.subrange(a + 1, b) =~= n0);
        assert forall|y: int| 0 <= y < rest_w.len() implies #[trigger] s.subrange(
            b + 1,
            s.len() as int,
        )[y] == rest_w[y] by {
            assert(s[b + 1 + y] == w[b + 1 + y - pos]);
        }
        assert(s.subrange(b + 1, s.len() as int) =~= rest_w);
        assert forall|j: int| 0 <= j < rest_lits.len() implies no_percent(#[trigger] rest_lits[j]) by {
            assert(rest_lits[j] == lits[j + 1]);
        }
        assert forall|j: int| 0 <= j < rest_names.len() implies no_percent(
            #[trigger] rest_names[j],
        ) by {
            assert(rest_names[j] == names[j + 1]);
        }
        let rest_vals = vals.drop_first();
        assert forall|j: int| 0 <= j < rest_names.len() implies #[trigger] values[(k + 1) + j]
            == Some(rest_vals[j]) by {
            assert(values[k + (j + 1)] == Some(vals[j + 1]));
        }
        assert(values[k + 0] == Some(vals[0]));
        lemma_expand_segments(s, b + 1, rest_lits, rest_names, rest_vals, values, k + 1);
        assert(replacement(values, k, n0) == vals[0]);
        assert(references_from(s, pos) =~= seq![n0] + rest_names);
        assert(names =~= seq![n0] + rest_names);
    }
}

/// Quotes are dropped only in pairs around the whole trimmed path: when the
/// trimmed path does not both start and end with a quote (a lone quote
/// counts as neither), cleaning only trims; otherwise it drops exactly the
/// first and last character of the trimmed path.
pub proof fn lemma_clean_drops_only_a_pair(path: Seq<char>)
    ensures
        ({
            let t = trim_ws(path);
            !(t.len() >= 2 && t.first() == '"' && t.last() == '"') ==> spec_clean_path(path) == t
        }),
        ({
            let t = trim_ws(path);
            t.len() >= 2 && t.first() == '"' && t.last() == '"' ==> spec_clean_path(path).len() + 2
                == t.len() && t == seq!['"'] + spec_clean_path(path) + seq!['"']
        }),
{
    let t = trim_ws(path);
    if t.len() >= 2 && t.first() == '"' && t.last() == '"' {
        assert(t =~= seq!['"'] + spec_clean_path(path) + seq!['"']);
    }
}

/// A path wrapped in double quotes (and nothing around them) is given back
/// without them.
pub proof fn lemma_clean_quoted(inner: Seq<char>)
    ensures
        spec_clean_path(seq!['"'] + inner + seq!['"']) == inner,
{
    let q = seq!['"'] + inner + seq!['"'];
    assert(!crate::text::is_white_space('"'));
    assert(crate::text::skip_ws(q, 0) == 0);
    assert(crate::text::trim_end(q, 0, q.len() as int) == q.len());
    assert(q.subrange(0, q.len() as int) =~= q);
    assert(q.subrange(1, q.len() - 1) =~= inner);
}

} // verus!
