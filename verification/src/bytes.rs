//! The space that text takes in UTF-8.

use crate::text;
use vstd::prelude::*;
use vstd::slice::*;
use vstd::string::*;
use vstd::utf8::*;

verus! {

/// The number of bytes of `s` in UTF-8.
pub open spec fn byte_len(s: Seq<char>) -> nat {
    encode_utf8(s).len()
}

/// The number of bytes of `c` in UTF-8.
pub open spec fn char_width(c: char) -> nat {
    if c as u32 <= 0x7f {
        1
    } else if c as u32 <= 0x7ff {
        2
    } else if c as u32 <= 0xffff {
        3
    } else {
        4
    }
}

/// The first character's bytes come before those of the rest.
pub proof fn lemma_byte_len_first(s: Seq<char>)
    requires
        s.len() > 0,
    ensures
        byte_len(s) == char_width(s[0]) + byte_len(s.skip(1)),
{
    assert(s.drop_first() =~= s.skip(1));
    char_is_scalar(s[0]);
}

/// Lengths in bytes add up.
pub proof fn lemma_byte_len_concat(a: Seq<char>, b: Seq<char>)
    ensures
        byte_len(a + b) == byte_len(a) + byte_len(b),
    decreases a.len(),
{
    if a.len() == 0 {
        assert(a + b =~= b);
    } else {
        lemma_byte_len_first(a);
        lemma_byte_len_first(a + b);
        assert((a + b).skip(1) =~= a.skip(1) + b);
        lemma_byte_len_concat(a.skip(1), b);
    }
}

/// One character more adds its width.
pub proof fn lemma_byte_len_take(s: Seq<char>, k: int)
    requires
        0 <= k < s.len(),
    ensures
        byte_len(s.take(k + 1)) == byte_len(s.take(k)) + char_width(s[k]),
{
    assert(s.take(k + 1) =~= s.take(k) + seq![s[k]]);
    lemma_byte_len_concat(s.take(k), seq![s[k]]);
    lemma_byte_len_first(seq![s[k]]);
    assert(seq![s[k]].skip(1) =~= seq![]);
}

/// A prefix takes no more bytes than the whole.
pub proof fn lemma_byte_len_prefix(s: Seq<char>, k: int)
    requires
        0 <= k <= s.len(),
    ensures
        byte_len(s.take(k)) <= byte_len(s),
        k <= byte_len(s.take(k)),
    decreases k,
{
    assert(s =~= s.take(k) + s.skip(k));
    lemma_byte_len_concat(s.take(k), s.skip(k));
    if k > 0 {
        lemma_byte_len_prefix(s, k - 1);
        lemma_byte_len_take(s, k - 1);
    }
}

/// The number of bytes of `s`.
pub fn str_bytes(s: &str) -> (n: usize)
    ensures
        n == byte_len(s@),
{
    s.as_bytes().len()
}

/// The number of bytes of `c`.
pub fn width_of(c: char) -> (n: usize)
    ensures
        n == char_width(c),
{
    let u = c as u32;
    if u <= 0x7f {
        1
    } else if u <= 0x7ff {
        2
    } else if u <= 0xffff {
        3
    } else {
        4
    }
}

/// The number of bytes that the first `k` characters of `s` take.
pub fn prefix_bytes(s: &str, chars: &[char], k: usize) -> (n: usize)
    requires
        chars@ == s@,
        k <= s@.len(),
    ensures
        n == byte_len(s@.take(k as int)),
{
    let total = str_bytes(s);
    let mut n: usize = 0;
    let mut i: usize = 0;
    assert(s@.take(0) =~= seq![]);
    while i < k
        invariant
            chars@ == s@,
            i <= k <= s@.len(),
            total == byte_len(s@),
            n == byte_len(s@.take(i as int)),
        decreases k - i,
    {
        proof {
            lemma_byte_len_take(s@, i as int);
            lemma_byte_len_prefix(s@, i + 1);
        }
        n += width_of(chars[i]);
        i += 1;
    }
    n
}

/// The number of characters of the longest prefix of `s` that takes at most
/// `max` bytes.
pub open spec fn chars_within(s: Seq<char>, max: int) -> nat
    decreases s.len(),
{
    if s.len() == 0 || char_width(s[0]) > max {
        0
    } else {
        1 + chars_within(s.skip(1), max - char_width(s[0]))
    }
}

/// The prefix that `chars_within` measures fits, and one character more does
/// not.
pub proof fn lemma_chars_within(s: Seq<char>, max: int)
    requires
        0 <= max,
    ensures
        chars_within(s, max) <= s.len(),
        byte_len(s.take(chars_within(s, max) as int)) <= max,
        chars_within(s, max) < s.len() ==> byte_len(s.take(chars_within(s, max) as int + 1)) > max,
    decreases s.len(),
{
    let n = chars_within(s, max);
    if s.len() == 0 {
        assert(s.take(0) =~= seq![]);
    } else if char_width(s[0]) > max {
        assert(s.take(0) =~= seq![]);
        lemma_byte_len_take(s, 0);
    } else {
        let t = s.skip(1);
        let m = max - char_width(s[0]);
        lemma_chars_within(t, m);
        lemma_byte_len_first(s.take(n as int));
        assert(s.take(n as int).skip(1) =~= t.take(n - 1));
        if n < s.len() {
            lemma_byte_len_first(s.take(n as int + 1));
            assert(s.take(n as int + 1).skip(1) =~= t.take(n as int));
        }
    }
}

/// The number of characters of the longest prefix of `s` that takes at most
/// `max` bytes.
pub fn fitting_chars(s: &[char], max: usize) -> (n: usize)
    ensures
        n == chars_within(s@, max as int),
        n <= s@.len(),
{
    let mut i: usize = 0;
    let mut left: usize = max;
    assert(s@.skip(0) =~= s@);
    while i < s.len() && width_of(s[i]) <= left
        invariant
            i <= s@.len(),
            chars_within(s@, max as int) == i + chars_within(s@.skip(i as int), left as int),
        decreases s@.len() - i,
    {
        assert(s@.skip(i as int).skip(1) =~= s@.skip(i + 1));
        left -= width_of(s[i]);
        i += 1;
    }
    i
}

/// The number of characters of `s` that take exactly `offset` bytes, where
/// some do.
pub open spec fn boundary(s: Seq<char>, offset: int) -> Option<int> {
    let k = chars_within(s, offset);
    if byte_len(s.take(k as int)) == offset {
        Some(k as int)
    } else {
        None
    }
}

/// The position of the character that starts at byte `offset`.
pub fn boundary_at(s: &[char], offset: usize) -> (r: Option<usize>)
    ensures
        text::same_index(r, boundary(s@, offset as int)),
        r matches Some(k) ==> k <= s@.len(),
{
    let k = fitting_chars(s, offset);
    let mut n: usize = 0;
    let mut i: usize = 0;
    assert(s@.take(0) =~= seq![]);
    proof {
        lemma_chars_within(s@, offset as int);
    }
    while i < k
        invariant
            i <= k <= s@.len(),
            byte_len(s@.take(k as int)) <= offset,
            n == byte_len(s@.take(i as int)),
        decreases k - i,
    {
        proof {
            lemma_byte_len_take(s@, i as int);
            assert(s@.take(k as int).take(i + 1) =~= s@.take(i + 1));
            lemma_byte_len_prefix(s@.take(k as int), i + 1);
        }
        n += width_of(s[i]);
        i += 1;
    }
    if n == offset {
        Some(k)
    } else {
        None
    }
}

/// The text from byte `start` up to byte `end`, where both are boundaries.
pub open spec fn text_between(s: Seq<char>, start: int, end: int) -> Option<Seq<char>> {
    match (boundary(s, start), boundary(s, end)) {
        (Some(a), Some(b)) => if a <= b {
            Some(s.subrange(a, b))
        } else {
            None
        },
        _ => None,
    }
}

/// The text from byte `start` up to byte `end`, where both are boundaries.
pub fn slice_between<'a>(s: &'a [char], start: usize, end: usize) -> (r: Option<&'a [char]>)
    ensures
        match r {
            Some(t) => text_between(s@, start as int, end as int) == Some(t@),
            None => text_between(s@, start as int, end as int) is None,
        },
{
    match (boundary_at(s, start), boundary_at(s, end)) {
        (Some(a), Some(b)) => if a <= b {
            Some(slice_subrange(s, a, b))
        } else {
            None
        },
        _ => None,
    }
}

} // verus!
