//! Character-level helpers: conversion between `str` and `Vec<char>`, and the
//! textual rewrites that Android resource values need.
use vstd::prelude::*;

verus! {

/// Relies on `str::chars`: the characters of `s`, in order.
#[verifier::external_body]
pub(crate) fn chars_of(s: &str) -> (r: Vec<char>)
    ensures
        r@ == s@,
{
    s.chars().collect()
}

/// Relies on `String::push`: appends one character.
#[verifier::external_body]
pub(crate) fn push_char(s: &mut String, c: char)
    ensures
        final(s)@ == old(s)@.push(c),
{
    s.push(c)
}

/// Builds a `String` holding exactly the characters `cs`.
pub fn string_from_chars(cs: &[char]) -> (r: String)
    ensures
        r@ == cs@,
{
    let mut out = String::new();
    let mut i: usize = 0;
    while i < cs.len()
        invariant
            i <= cs@.len(),
            out@ == cs@.take(i as int),
        decreases cs@.len() - i,
    {
        push_char(&mut out, cs[i]);
        i = i + 1;
        assert(out@ =~= cs@.take(i as int));
    }
    assert(cs@.take(cs@.len() as int) =~= cs@);
    out
}

/// Equality of two strings, character by character.
pub fn str_eq(a: &str, b: &str) -> (r: bool)
    ensures
        r == (a@ == b@),
{
    let x = chars_of(a);
    let y = chars_of(b);
    if x.len() != y.len() {
        return false;
    }
    let mut i: usize = 0;
    while i < x.len()
        invariant
            x@ == a@,
            y@ == b@,
            x@.len() == y@.len(),
            i <= x@.len(),
            forall|j: int| 0 <= j < i ==> x@[j] == y@[j],
        decreases x@.len() - i,
    {
        if x[i] != y[i] {
            return false;
        }
        i = i + 1;
    }
    assert(x@ =~= y@);
    true
}

/// `a` comes strictly before `b` in lexicographic order of code points,
/// which is the order of their UTF-8 bytes.
pub open spec fn seq_lt(a: Seq<char>, b: Seq<char>) -> bool
    decreases a.len(),
{
    if b.len() == 0 {
        false
    } else if a.len() == 0 {
        true
    } else if a[0] != b[0] {
        a[0] < b[0]
    } else {
        seq_lt(a.skip(1), b.skip(1))
    }
}

/// `a` and `b` are distinct and ordered one way or the other.
pub proof fn lemma_seq_lt_total(a: Seq<char>, b: Seq<char>)
    ensures
        a != b ==> (seq_lt(a, b) || seq_lt(b, a)),
        !(seq_lt(a, b) && seq_lt(b, a)),
        !seq_lt(a, a),
    decreases a.len(),
{
    if a.len() > 0 {
        lemma_seq_lt_total(a.skip(1), a.skip(1));
    }
    if a.len() > 0 && b.len() > 0 && a[0] == b[0] {
        lemma_seq_lt_total(a.skip(1), b.skip(1));
        if a.skip(1) == b.skip(1) {
            assert(a =~= seq![a[0]] + a.skip(1));
            assert(b =~= seq![b[0]] + b.skip(1));
        }
    } else if a.len() == 0 && b.len() == 0 {
        assert(a =~= b);
    }
}

/// The order is transitive.
pub proof fn lemma_seq_lt_transitive(a: Seq<char>, b: Seq<char>, c: Seq<char>)
    requires
        seq_lt(a, b),
        seq_lt(b, c),
    ensures
        seq_lt(a, c),
    decreases a.len(),
{
    if a.len() > 0 && a[0] == b[0] && b[0] == c[0] {
        lemma_seq_lt_transitive(a.skip(1), b.skip(1), c.skip(1));
    }
}

/// Lexicographic comparison of code points.
pub fn str_lt(a: &str, b: &str) -> (r: bool)
    ensures
        r == seq_lt(a@, b@),
{
    let x = chars_of(a);
    let y = chars_of(b);
    let mut i: usize = 0;
    assert(a@.skip(0) =~= a@);
    assert(b@.skip(0) =~= b@);
    while i < x.len() && i < y.len() && x[i] == y[i]
        invariant
            x@ == a@,
            y@ == b@,
            i <= x@.len(),
            i <= y@.len(),
            seq_lt(a@, b@) == seq_lt(a@.skip(i as int), b@.skip(i as int)),
        decreases x@.len() - i,
    {
        assert(a@.skip(i as int).skip(1) =~= a@.skip(i + 1));
        assert(b@.skip(i as int).skip(1) =~= b@.skip(i + 1));
        i = i + 1;
    }
    if i == y.len() {
        false
    } else if i == x.len() {
        true
    } else {
        x[i] < y[i]
    }
}

/// Every `'` preceded by a backslash.
pub open spec fn escape_quotes(s: Seq<char>) -> Seq<char>
    decreases s.len(),
{
    if s.len() == 0 {
        Seq::empty()
    } else {
        (if s[0] == '\'' {
            seq!['\\', '\'']
        } else {
            seq![s[0]]
        }) + escape_quotes(s.skip(1))
    }
}

/// `$lld` occurs in `s` at position `i`.
pub open spec fn lld_at(s: Seq<char>, i: int) -> bool {
    0 <= i && i + 4 <= s.len() && s[i] == '$' && s[i + 1] == 'l' && s[i + 2] == 'l' && s[i + 3]
        == 'd'
}

/// Every occurrence of `$lld`, taken left to right without overlap, replaced by `$d`.
pub open spec fn replace_lld(s: Seq<char>) -> Seq<char>
    decreases s.len(),
{
    if s.len() == 0 {
        Seq::empty()
    } else if lld_at(s, 0) {
        seq!['$', 'd'] + replace_lld(s.skip(4))
    } else {
        seq![s[0]] + replace_lld(s.skip(1))
    }
}

/// The text of an Android resource value for the raw text `s`.
pub open spec fn sanitized(s: Seq<char>) -> Seq<char> {
    replace_lld(escape_quotes(s))
}

proof fn lemma_escape_quotes_identity(s: Seq<char>)
    requires
        !s.contains('\''),
    ensures
        escape_quotes(s) == s,
    decreases s.len(),
{
    if s.len() > 0 {
        assert(!s.skip(1).contains('\'')) by {
            if s.skip(1).contains('\'') {
                let j = choose|j: int| 0 <= j < s.skip(1).len() && s.skip(1)[j] == '\'';
                assert(s[j + 1] == '\'');
            }
        }
        lemma_escape_quotes_identity(s.skip(1));
        assert(s[0] != '\'') by {
            assert(s[0] == s[0]);
        }
        assert(escape_quotes(s) =~= s);
    }
}

proof fn lemma_replace_lld_identity(s: Seq<char>)
    requires
        forall|i: int| !lld_at(s, i),
    ensures
        replace_lld(s) == s,
    decreases s.len(),
{
    if s.len() > 0 {
        assert forall|i: int| !lld_at(s.skip(1), i) by {
            if lld_at(s.skip(1), i) {
                assert(lld_at(s, i + 1));
            }
        }
        lemma_replace_lld_identity(s.skip(1));
        assert(!lld_at(s, 0));
        assert(replace_lld(s) =~= s);
    }
}

/// Text without a quote and without `$lld` is left as it is.
pub proof fn lemma_sanitized_identity(s: Seq<char>)
    requires
        !s.contains('\''),
        forall|i: int| !lld_at(s, i),
    ensures
        sanitized(s) == s,
{
    lemma_escape_quotes_identity(s);
    lemma_replace_lld_identity(s);
}

/// Rewrites `s` as `escape_quotes` says.
pub fn escape_quotes_of(s: &[char]) -> (r: Vec<char>)
    ensures
        r@ == escape_quotes(s@),
{
    let mut out: Vec<char> = Vec::new();
    let mut i: usize = 0;
    assert(out@ + escape_quotes(s@.skip(0)) =~= escape_quotes(s@)) by {
        assert(s@.skip(0) =~= s@);
    }
    while i < s.len()
        invariant
            i <= s@.len(),
            out@ + escape_quotes(s@.skip(i as int)) == escape_quotes(s@),
        decreases s@.len() - i,
    {
        let ghost rest = s@.skip(i as int);
        assert(rest.skip(1) =~= s@.skip(i + 1));
        if s[i] == '\'' {
            out.push('\\');
            out.push('\'');
            assert(out@ + escape_quotes(s@.skip(i + 1)) =~= escape_quotes(s@));
        } else {
            out.push(s[i]);
            assert(out@ + escape_quotes(s@.skip(i + 1)) =~= escape_quotes(s@));
        }
        i = i + 1;
    }
    assert(s@.skip(s@.len() as int) =~= Seq::<char>::empty());
    assert(out@ + Seq::<char>::empty() =~= out@);
    out
}

/// Rewrites `s` as `replace_lld` says.
pub fn replace_lld_of(s: &[char]) -> (r: Vec<char>)
    ensures
        r@ == replace_lld(s@),
{
    let mut out: Vec<char> = Vec::new();
    let mut i: usize = 0;
    assert(out@ + replace_lld(s@.skip(0)) =~= replace_lld(s@)) by {
        assert(s@.skip(0) =~= s@);
    }
    while i < s.len()
        invariant
            i <= s@.len(),
            out@ + replace_lld(s@.skip(i as int)) == replace_lld(s@),
        decreases s@.len() - i,
    {
        let ghost rest = s@.skip(i as int);
        if s.len() - i >= 4 && s[i] == '$' && s[i + 1] == 'l' && s[i + 2] == 'l' && s[i + 3]
            == 'd' {
            assert(lld_at(rest, 0));
            assert(rest.skip(4) =~= s@.skip(i + 4));
            out.push('$');
            out.push('d');
            assert(out@ + replace_lld(s@.skip(i + 4)) =~= replace_lld(s@));
            i = i + 4;
        } else {
            assert(!lld_at(rest, 0));
            assert(rest.skip(1) =~= s@.skip(i + 1));
            out.push(s[i]);
            assert(out@ + replace_lld(s@.skip(i + 1)) =~= replace_lld(s@));
            i = i + 1;
        }
    }
    assert(s@.skip(s@.len() as int) =~= Seq::<char>::empty());
    assert(out@ + Seq::<char>::empty() =~= out@);
    out
}

} // verus!
