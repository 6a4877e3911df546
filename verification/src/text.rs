//! Text as sequences of characters.
//!
//! The specifications of this crate speak of a string as the sequence of its
//! characters. This module holds the vocabulary they share: views of strings and
//! slices, comparing, prefixes and suffixes, trimming. The executable
//! counterparts work on slices of characters.

use vstd::prelude::*;
use vstd::string::*;
use vstd::slice::*;

verus! {

/// `String::push` appends one character at the end.
pub assume_specification[ String::push ](s: &mut String, c: char)
    ensures
        final(s)@ == old(s)@.push(c),
;

// ---------------------------------------------------------------------------
// Conversions
// ---------------------------------------------------------------------------

/// The characters of `s`, in order.
pub fn chars_of(s: &str) -> (v: Vec<char>)
    ensures
        v@ == s@,
{
    let mut v: Vec<char> = Vec::new();
    for c in it: s.chars()
        invariant
            it.seq() == s@,
            v@ == it.seq().take(it.index()),
    {
        v.push(c);
        assert(v@ =~= it.seq().take(it.index() + 1));
    }
    assert(v@ =~= s@);
    v
}

/// Append the characters `part` to `out`.
pub fn push_chars(out: &mut String, part: &[char])
    ensures
        final(out)@ == old(out)@ + part@,
{
    let ghost start = out@;
    let mut i: usize = 0;
    while i < part.len()
        invariant
            i <= part@.len(),
            out@ == start + part@.take(i as int),
        decreases part@.len() - i,
    {
        out.push(part[i]);
        i += 1;
        assert(out@ =~= start + part@.take(i as int));
    }
    assert(out@ =~= start + part@);
}

/// The string with characters `part`.
pub fn string_of(part: &[char]) -> (s: String)
    ensures
        s@ == part@,
{
    let mut s = String::new();
    push_chars(&mut s, part);
    assert(s@ =~= part@);
    s
}

/// The character sequences of a list of slices.
pub open spec fn views(parts: Seq<&[char]>) -> Seq<Seq<char>> {
    Seq::new(parts.len(), |i: int| parts[i]@)
}

/// The character sequences of a list of strings.
pub open spec fn texts(parts: Seq<String>) -> Seq<Seq<char>> {
    Seq::new(parts.len(), |i: int| parts[i]@)
}

/// What an optional text stands for.
pub open spec fn opt_text(s: Option<String>) -> Option<Seq<char>> {
    match s {
        Some(t) => Some(t@),
        None => None,
    }
}

/// A position found by executable code agrees with one of a specification.
pub open spec fn same_index(found: Option<usize>, expected: Option<int>) -> bool {
    match found {
        Some(i) => expected == Some(i as int),
        None => expected is None,
    }
}

// ---------------------------------------------------------------------------
// White space and trimming
// ---------------------------------------------------------------------------

/// The characters with the Unicode property `White_Space`.
pub open spec fn is_white_space(c: char) -> bool {
    ||| '\u{9}' <= c <= '\u{d}'
    ||| c == ' '
    ||| c == '\u{85}'
    ||| c == '\u{a0}'
    ||| c == '\u{1680}'
    ||| '\u{2000}' <= c <= '\u{200a}'
    ||| c == '\u{2028}'
    ||| c == '\u{2029}'
    ||| c == '\u{202f}'
    ||| c == '\u{205f}'
    ||| c == '\u{3000}'
}

/// Whether `c` is white space.
pub fn is_whitespace(c: char) -> (r: bool)
    ensures
        r == is_white_space(c),
{
    ('\u{9}' <= c && c <= '\u{d}') || c == ' ' || c == '\u{85}' || c == '\u{a0}' || c == '\u{1680}'
        || ('\u{2000}' <= c && c <= '\u{200a}') || c == '\u{2028}' || c == '\u{2029}' || c
        == '\u{202f}' || c == '\u{205f}' || c == '\u{3000}'
}

/// `s` without its leading white space.
pub open spec fn trimmed_start(s: Seq<char>) -> Seq<char>
    decreases s.len(),
{
    if s.len() > 0 && is_white_space(s[0]) {
        trimmed_start(s.skip(1))
    } else {
        s
    }
}

/// `s` without its trailing white space.
pub open spec fn trimmed_end(s: Seq<char>) -> Seq<char>
    decreases s.len(),
{
    if s.len() > 0 && is_white_space(s.last()) {
        trimmed_end(s.drop_last())
    } else {
        s
    }
}

/// `s` without white space at either end.
pub open spec fn trimmed(s: Seq<char>) -> Seq<char> {
    trimmed_end(trimmed_start(s))
}

/// The part of `s` after its leading white space.
pub fn trim_start<'a>(s: &'a [char]) -> (r: &'a [char])
    ensures
        r@ == trimmed_start(s@),
{
    let mut i: usize = 0;
    assert(s@.skip(0) =~= s@);
    while i < s.len() && is_whitespace(s[i])
        invariant
            i <= s@.len(),
            trimmed_start(s@) == trimmed_start(s@.skip(i as int)),
        decreases s@.len() - i,
    {
        i += 1;
        assert(s@.skip(i as int) =~= s@.skip(i - 1).skip(1));
    }
    assert(s@.skip(i as int) =~= s@.subrange(i as int, s@.len() as int));
    slice_subrange(s, i, s.len())
}

/// The part of `s` before its trailing white space.
pub fn trim_end<'a>(s: &'a [char]) -> (r: &'a [char])
    ensures
        r@ == trimmed_end(s@),
{
    let mut j: usize = s.len();
    assert(s@.take(j as int) =~= s@);
    while j > 0 && is_whitespace(s[j - 1])
        invariant
            j <= s@.len(),
            trimmed_end(s@) == trimmed_end(s@.take(j as int)),
        decreases j,
    {
        j -= 1;
        assert(s@.take(j as int) =~= s@.take(j + 1).drop_last());
    }
    assert(s@.take(j as int) =~= s@.subrange(0, j as int));
    slice_subrange(s, 0, j)
}

/// The part of `s` between its leading and trailing white space.
pub fn trim<'a>(s: &'a [char]) -> (r: &'a [char])
    ensures
        r@ == trimmed(s@),
{
    trim_end(trim_start(s))
}

// ---------------------------------------------------------------------------
// Comparing
// ---------------------------------------------------------------------------

/// Whether two slices hold the same characters.
pub fn same_chars(a: &[char], b: &[char]) -> (r: bool)
    ensures
        r == (a@ == b@),
{
    if a.len() != b.len() {
        return false;
    }
    let mut i: usize = 0;
    while i < a.len()
        invariant
            a@.len() == b@.len(),
            i <= a@.len(),
            forall|k: int| 0 <= k < i ==> a@[k] == b@[k],
        decreases a@.len() - i,
    {
        if a[i] != b[i] {
            return false;
        }
        i += 1;
    }
    assert(a@ =~= b@);
    true
}

/// Whether `s` begins with `prefix`.
pub fn starts_with_chars(s: &[char], prefix: &[char]) -> (r: bool)
    ensures
        r == prefix@.is_prefix_of(s@),
{
    if s.len() < prefix.len() {
        return false;
    }
    same_chars(slice_subrange(s, 0, prefix.len()), prefix)
}

/// Whether `s` begins with `prefix`.
pub fn starts_with(s: &[char], prefix: &str) -> (r: bool)
    ensures
        r == prefix@.is_prefix_of(s@),
{
    let p = chars_of(prefix);
    starts_with_chars(s, p.as_slice())
}

/// Whether `s` ends with `suffix`.
pub fn ends_with(s: &[char], suffix: &str) -> (r: bool)
    ensures
        r == suffix@.is_suffix_of(s@),
{
    let p = chars_of(suffix);
    if s.len() < p.len() {
        return false;
    }
    same_chars(slice_subrange(s, s.len() - p.len(), s.len()), p.as_slice())
}

/// Whether `s` holds exactly the characters of `t`.
pub fn equals(s: &[char], t: &str) -> (r: bool)
    ensures
        r == (s@ == t@),
{
    let p = chars_of(t);
    same_chars(s, p.as_slice())
}

/// Whether two strings hold the same characters.
pub fn same_text(a: &str, b: &str) -> (r: bool)
    ensures
        r == (a@ == b@),
{
    let p = chars_of(a);
    equals(p.as_slice(), b)
}

} // verus!
