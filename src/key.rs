//! Translation keys: the check that a key carries no surrounding whitespace,
//! and the resource name that Android gets for it.
use vstd::prelude::*;

use crate::text::{chars_of, string_from_chars};

verus! {

/// The characters of Unicode's White_Space property.
pub open spec fn is_white_space(c: char) -> bool {
    ('\u{9}' <= c && c <= '\u{d}') || c == ' ' || c == '\u{85}' || c == '\u{a0}' || c
        == '\u{1680}' || ('\u{2000}' <= c && c <= '\u{200a}') || c == '\u{2028}' || c == '\u{2029}'
        || c == '\u{202f}' || c == '\u{205f}' || c == '\u{3000}'
}

/// How many characters at the front of `s` satisfy `p`.
pub open spec fn lead_count(s: Seq<char>, p: spec_fn(char) -> bool) -> nat
    decreases s.len(),
{
    if s.len() > 0 && p(s[0]) {
        1 + lead_count(s.skip(1), p)
    } else {
        0
    }
}

/// How many characters at the back of `s` satisfy `p`.
pub open spec fn trail_count(s: Seq<char>, p: spec_fn(char) -> bool) -> nat
    decreases s.len(),
{
    if s.len() > 0 && p(s.last()) {
        1 + trail_count(s.drop_last(), p)
    } else {
        0
    }
}

proof fn lemma_lead_count_bound(s: Seq<char>, p: spec_fn(char) -> bool)
    ensures
        lead_count(s, p) <= s.len(),
        lead_count(s, p) < s.len() ==> !p(s[lead_count(s, p) as int]),
        forall|i: int| 0 <= i < lead_count(s, p) ==> p(#[trigger] s[i]),
    decreases s.len(),
{
    if s.len() > 0 && p(s[0]) {
        lemma_lead_count_bound(s.skip(1), p);
        assert forall|i: int| 0 <= i < lead_count(s, p) implies p(#[trigger] s[i]) by {
            if i > 0 {
                assert(s[i] == s.skip(1)[i - 1]);
            }
        }
    }
}

proof fn lemma_trail_count_bound(s: Seq<char>, p: spec_fn(char) -> bool)
    ensures
        trail_count(s, p) <= s.len(),
        trail_count(s, p) < s.len() ==> !p(s[s.len() - 1 - trail_count(s, p)]),
        forall|i: int| s.len() - trail_count(s, p) <= i < s.len() ==> p(#[trigger] s[i]),
    decreases s.len(),
{
    if s.len() > 0 && p(s.last()) {
        lemma_trail_count_bound(s.drop_last(), p);
        assert forall|i: int| s.len() - trail_count(s, p) <= i < s.len() implies p(
            #[trigger] s[i],
        ) by {
            if i < s.len() - 1 {
                assert(s[i] == s.drop_last()[i]);
            }
        }
    }
}

/// `s` without the characters satisfying `p` at either end.
pub open spec fn trim_by(s: Seq<char>, p: spec_fn(char) -> bool) -> Seq<char> {
    if lead_count(s, p) >= s.len() {
        Seq::empty()
    } else {
        s.subrange(lead_count(s, p) as int, s.len() - trail_count(s, p))
    }
}

/// `s` without whitespace at either end.
pub open spec fn trim_ws(s: Seq<char>) -> Seq<char> {
    trim_by(s, |c: char| is_white_space(c))
}

/// An ASCII letter or digit.
pub open spec fn is_alnum(c: char) -> bool {
    ('a' <= c && c <= 'z') || ('A' <= c && c <= 'Z') || ('0' <= c && c <= '9')
}

/// `s` with each maximal run of characters other than ASCII letters and
/// digits replaced by one `_`.
pub open spec fn collapse_runs(s: Seq<char>) -> Seq<char>
    decreases s.len(),
{
    if s.len() == 0 {
        Seq::empty()
    } else if is_alnum(s.last()) {
        collapse_runs(s.drop_last()).push(s.last())
    } else if s.len() >= 2 && !is_alnum(s[s.len() - 2]) {
        collapse_runs(s.drop_last())
    } else {
        collapse_runs(s.drop_last()).push('_')
    }
}

pub open spec fn lower_char(c: char) -> char {
    if 'A' <= c && c <= 'Z' {
        ((c as u32) + 32) as char
    } else {
        c
    }
}

/// ASCII upper-case letters made lower-case.
pub open spec fn ascii_lower(s: Seq<char>) -> Seq<char> {
    s.map_values(|c: char| lower_char(c))
}

/// The Android resource name of a key.
pub open spec fn android_name(key: Seq<char>) -> Seq<char> {
    ascii_lower(trim_by(collapse_runs(trim_ws(key)), |c: char| c == '_'))
}

/// Relies on `str::trim`: whitespace, as Unicode's White_Space property
/// defines it, removed from both ends.
#[verifier::external_body]
pub(crate) fn trim(s: &str) -> (r: &str)
    ensures
        r@ == trim_ws(s@),
{
    s.trim()
}

/// Relies on `regex::Regex::replace_all` with the pattern `[^a-zA-Z0-9]+`:
/// every maximal run of characters other than ASCII letters and digits
/// becomes one `_`.
#[verifier::external_body]
fn underscore_runs(s: &str) -> (r: String)
    ensures
        r@ == collapse_runs(s@),
{
    let re = regex::Regex::new(r"[^a-zA-Z0-9]+").unwrap();
    re.replace_all(s, "_").into_owned()
}

proof fn lemma_collapse_runs_chars(s: Seq<char>)
    ensures
        forall|i: int|
            0 <= i < collapse_runs(s).len() ==> is_alnum(#[trigger] collapse_runs(s)[i])
                || collapse_runs(s)[i] == '_',
    decreases s.len(),
{
    if s.len() > 0 {
        lemma_collapse_runs_chars(s.drop_last());
        let c = collapse_runs(s);
        let d = collapse_runs(s.drop_last());
        assert forall|i: int| 0 <= i < c.len() implies is_alnum(#[trigger] c[i]) || c[i] == '_' by {
            if i < d.len() {
                assert(c[i] == d[i]);
            }
        }
    }
}

/// `s` without `_` at either end.
fn trim_underscores(s: &Vec<char>) -> (r: Vec<char>)
    ensures
        r@ == trim_by(s@, |c: char| c == '_'),
{
    let ghost p = |c: char| c == '_';
    proof {
        lemma_lead_count_bound(s@, p);
        lemma_trail_count_bound(s@, p);
    }
    let mut a: usize = 0;
    while a < s.len() && s[a] == '_'
        invariant
            p == (|c: char| c == '_'),
            a <= lead_count(s@, p),
            lead_count(s@, p) <= s@.len(),
            lead_count(s@, p) < s@.len() ==> !p(s@[lead_count(s@, p) as int]),
            forall|i: int| 0 <= i < lead_count(s@, p) ==> p(#[trigger] s@[i]),
        decreases s@.len() - a,
    {
        a = a + 1;
    }
    let mut out: Vec<char> = Vec::new();
    if a == s.len() {
        return out;
    }
    let mut b: usize = s.len();
    assert(s@[a as int] != '_');
    while b > a && s[b - 1] == '_'
        invariant
            p == (|c: char| c == '_'),
            a == lead_count(s@, p) < s@.len(),
            s@[a as int] != '_',
            a < b <= s@.len(),
            s@.len() - b <= trail_count(s@, p),
            trail_count(s@, p) <= s@.len(),
            trail_count(s@, p) < s@.len() ==> !p(s@[s@.len() - 1 - trail_count(s@, p)]),
            forall|i: int| s@.len() - trail_count(s@, p) <= i < s@.len() ==> p(#[trigger] s@[i]),
        decreases b,
    {
        b = b - 1;
    }
    assert(b == s@.len() - trail_count(s@, p)) by {
        if b > a {
            assert(!p(s@[b - 1]));
        } else {
            assert(!p(s@[a as int]));
        }
    }
    let mut i: usize = a;
    while i < b
        invariant
            a <= i <= b <= s@.len(),
            out@ == s@.subrange(a as int, i as int),
        decreases b - i,
    {
        out.push(s[i]);
        i = i + 1;
        assert(out@ =~= s@.subrange(a as int, i as int));
    }
    out
}

fn ascii_lower_of(s: &Vec<char>) -> (r: Vec<char>)
    ensures
        r@ == ascii_lower(s@),
{
    let mut out: Vec<char> = Vec::new();
    let mut i: usize = 0;
    while i < s.len()
        invariant
            i <= s@.len(),
            out@ == ascii_lower(s@.take(i as int)),
        decreases s@.len() - i,
    {
        let c = s[i];
        let l = if 'A' <= c && c <= 'Z' {
            ((c as u32) + 32) as u8 as char
        } else {
            c
        };
        assert(l == lower_char(c));
        out.push(l);
        i = i + 1;
        assert(ascii_lower(s@.take(i as int)) =~= ascii_lower(s@.take(i - 1)).push(lower_char(c)));
    }
    assert(s@.take(s@.len() as int) =~= s@);
    out
}

/// A resource name holds only lower-case ASCII letters, digits and `_`, and
/// neither starts nor ends with `_`.
pub proof fn lemma_android_name_shape(key: Seq<char>)
    ensures
        forall|i: int|
            0 <= i < android_name(key).len() ==> ('a' <= #[trigger] android_name(key)[i]
                && android_name(key)[i] <= 'z') || ('0' <= android_name(key)[i] && android_name(
                key,
            )[i] <= '9') || android_name(key)[i] == '_',
        android_name(key).len() > 0 ==> android_name(key)[0] != '_' && android_name(key).last()
            != '_',
{
    let c = collapse_runs(trim_ws(key));
    let p = |ch: char| ch == '_';
    lemma_collapse_runs_chars(trim_ws(key));
    lemma_lead_count_bound(c, p);
    lemma_trail_count_bound(c, p);
    let t = trim_by(c, p);
    assert forall|i: int| 0 <= i < t.len() implies is_alnum(#[trigger] t[i]) || t[i] == '_' by {
        assert(t[i] == c[i + lead_count(c, p)]);
    }
    if t.len() > 0 {
        assert(t[0] != '_');
        assert(t.last() != '_');
    }
}

/// The Android resource name of `key`: runs of characters other than ASCII
/// letters and digits become `_`, `_` is dropped at both ends, and letters are
/// made lower-case.
pub fn android_name_of(key: &str) -> (r: String)
    ensures
        r@ == android_name(key@),
        forall|i: int|
            0 <= i < r@.len() ==> ('a' <= #[trigger] r@[i] && r@[i] <= 'z') || ('0' <= r@[i]
                && r@[i] <= '9') || r@[i] == '_',
        r@.len() > 0 ==> r@[0] != '_' && r@.last() != '_',
{
    let trimmed = trim(key);
    let runs = underscore_runs(trimmed);
    let cs = chars_of(runs.as_str());
    let inner = trim_underscores(&cs);
    let lower = ascii_lower_of(&inner);
    proof {
        lemma_android_name_shape(key@);
    }
    string_from_chars(lower.as_slice())
}

} // verus!
