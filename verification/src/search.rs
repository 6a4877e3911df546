//! Searching within text.

use crate::text;
use vstd::prelude::*;
use vstd::slice::*;

verus! {

// ---------------------------------------------------------------------------
// Single characters
// ---------------------------------------------------------------------------

/// The first position at or after `i` where `s` holds `c`.
pub open spec fn char_index_from(s: Seq<char>, c: char, i: int) -> Option<int>
    decreases s.len() - i,
{
    if i >= s.len() {
        None
    } else if s[i] == c {
        Some(i)
    } else {
        char_index_from(s, c, i + 1)
    }
}

/// The first position where `s` holds `c`.
pub open spec fn char_index(s: Seq<char>, c: char) -> Option<int> {
    char_index_from(s, c, 0)
}

/// What `char_index_from` says of the characters of `s`.
pub proof fn lemma_char_index_from(s: Seq<char>, c: char, i: int)
    requires
        0 <= i,
    ensures
        match char_index_from(s, c, i) {
            Some(k) => i <= k < s.len() && s[k] == c && (forall|j: int|
                i <= j < k ==> s[j] != c),
            None => forall|j: int| i <= j < s.len() ==> s[j] != c,
        },
    decreases s.len() - i,
{
    if i < s.len() && s[i] != c {
        lemma_char_index_from(s, c, i + 1);
    }
}

/// What `char_index` says of the characters of `s`.
pub proof fn lemma_char_index(s: Seq<char>, c: char)
    ensures
        match char_index(s, c) {
            Some(k) => 0 <= k < s.len() && s[k] == c && (forall|j: int| 0 <= j < k ==> s[j] != c),
            None => forall|j: int| 0 <= j < s.len() ==> s[j] != c,
        },
{
    lemma_char_index_from(s, c, 0);
}

/// `k` is the first position of `c`.
pub proof fn lemma_char_index_is(s: Seq<char>, c: char, k: int)
    requires
        0 <= k < s.len(),
        s[k] == c,
        forall|j: int| 0 <= j < k ==> s[j] != c,
    ensures
        char_index(s, c) == Some(k),
{
    lemma_char_index(s, c);
}

/// The first position of `c` in `s`.
pub fn find_char(s: &[char], c: char) -> (r: Option<usize>)
    ensures
        text::same_index(r, char_index(s@, c)),
{
    find_char_from(s, c, 0)
}

/// The first position of `c` in `s` at `from` or later.
pub fn find_char_from(s: &[char], c: char, from: usize) -> (r: Option<usize>)
    requires
        from <= s@.len(),
    ensures
        text::same_index(r, char_index_from(s@, c, from as int)),
{
    let mut i: usize = from;
    while i < s.len()
        invariant
            from <= i <= s@.len(),
            char_index_from(s@, c, from as int) == char_index_from(s@, c, i as int),
        decreases s@.len() - i,
    {
        if s[i] == c {
            return Some(i);
        }
        i += 1;
    }
    None
}

/// Whether `c` occurs in `s`.
pub fn has_char(s: &[char], c: char) -> (r: bool)
    ensures
        r == s@.contains(c),
{
    proof {
        lemma_char_index(s@, c);
    }
    match find_char(s, c) {
        Some(i) => {
            assert(s@[i as int] == c);
            true
        },
        None => false,
    }
}

/// The last position before `end` where `s` holds `c`.
pub open spec fn last_char_index_before(s: Seq<char>, c: char, end: int) -> Option<int>
    decreases end,
{
    if end <= 0 {
        None
    } else if s[end - 1] == c {
        Some(end - 1)
    } else {
        last_char_index_before(s, c, end - 1)
    }
}

/// The last position where `s` holds `c`.
pub open spec fn last_char_index(s: Seq<char>, c: char) -> Option<int> {
    last_char_index_before(s, c, s.len() as int)
}

/// What `last_char_index` says of the characters of `s`.
pub proof fn lemma_last_char_index_before(s: Seq<char>, c: char, end: int)
    requires
        0 <= end <= s.len(),
    ensures
        match last_char_index_before(s, c, end) {
            Some(k) => 0 <= k < end && s[k] == c && (forall|j: int| k < j < end ==> s[j] != c),
            None => forall|j: int| 0 <= j < end ==> s[j] != c,
        },
    decreases end,
{
    if end > 0 && s[end - 1] != c {
        lemma_last_char_index_before(s, c, end - 1);
    }
}

/// The last position of `c` in `s`.
pub fn rfind_char(s: &[char], c: char) -> (r: Option<usize>)
    ensures
        text::same_index(r, last_char_index(s@, c)),
        r matches Some(i) ==> i < s@.len(),
{
    let mut end: usize = s.len();
    while end > 0
        invariant
            end <= s@.len(),
            last_char_index(s@, c) == last_char_index_before(s@, c, end as int),
        decreases end,
    {
        if s[end - 1] == c {
            return Some(end - 1);
        }
        end -= 1;
    }
    None
}

/// The part of `s` after the last `c`, or all of `s` where there is none.
pub open spec fn after_last(s: Seq<char>, c: char) -> Seq<char> {
    match last_char_index(s, c) {
        Some(k) => s.skip(k + 1),
        None => s,
    }
}

/// The part of `s` after the last `c`, or all of `s` where there is none.
pub fn rest_after_last<'a>(s: &'a [char], c: char) -> (r: &'a [char])
    ensures
        r@ == after_last(s@, c),
{
    let n = s.len();
    match rfind_char(s, c) {
        Some(k) => {
            assert(s@.skip(k + 1) =~= s@.subrange(k + 1, s@.len() as int));
            slice_subrange(s, k + 1, n)
        },
        None => s,
    }
}

// ---------------------------------------------------------------------------
// Substrings
// ---------------------------------------------------------------------------

/// Whether `p` stands in `s` at position `i`.
pub open spec fn stands_at(s: Seq<char>, p: Seq<char>, i: int) -> bool {
    0 <= i && i + p.len() <= s.len() && s.subrange(i, i + p.len()) == p
}

/// The first position at or after `i` where `p` stands in `s`.
pub open spec fn sub_index_from(s: Seq<char>, p: Seq<char>, i: int) -> Option<int>
    decreases s.len() + 1 - i,
{
    if i + p.len() > s.len() {
        None
    } else if stands_at(s, p, i) {
        Some(i)
    } else {
        sub_index_from(s, p, i + 1)
    }
}

/// The first position where `p` stands in `s`.
pub open spec fn sub_index(s: Seq<char>, p: Seq<char>) -> Option<int> {
    sub_index_from(s, p, 0)
}

/// Whether `p` occurs in `s`.
pub open spec fn has_sub(s: Seq<char>, p: Seq<char>) -> bool {
    sub_index(s, p) is Some
}

/// What `sub_index_from` says of where `p` stands.
pub proof fn lemma_sub_index_from(s: Seq<char>, p: Seq<char>, i: int)
    requires
        0 <= i,
    ensures
        match sub_index_from(s, p, i) {
            Some(k) => i <= k && stands_at(s, p, k) && (forall|j: int|
                i <= j < k ==> !stands_at(s, p, j)),
            None => forall|j: int| i <= j ==> !stands_at(s, p, j),
        },
    decreases s.len() + 1 - i,
{
    if i + p.len() <= s.len() && !stands_at(s, p, i) {
        lemma_sub_index_from(s, p, i + 1);
    }
}

/// Whether `p` stands in `s` at position `i`.
pub fn is_at(s: &[char], p: &[char], i: usize) -> (r: bool)
    ensures
        r == stands_at(s@, p@, i as int),
{
    if i > s.len() || p.len() > s.len() - i {
        return false;
    }
    text::same_chars(slice_subrange(s, i, i + p.len()), p)
}

/// The first position at or after `from` where `p` stands in `s`.
pub fn find_sub_from(s: &[char], p: &[char], from: usize) -> (r: Option<usize>)
    requires
        from <= s@.len(),
    ensures
        text::same_index(r, sub_index_from(s@, p@, from as int)),
        r matches Some(i) ==> from <= i && i + p@.len() <= s@.len(),
{
    let mut i: usize = from;
    while i <= s.len() && p.len() <= s.len() - i
        invariant
            from <= i <= s@.len() + 1,
            from <= s@.len(),
            sub_index_from(s@, p@, from as int) == sub_index_from(s@, p@, i as int),
        decreases s@.len() + 1 - i,
    {
        if is_at(s, p, i) {
            return Some(i);
        }
        if i == s.len() {
            assert(s@.subrange(i as int, i as int) =~= p@);
            return None;
        }
        i += 1;
    }
    None
}

/// The first position where `p` stands in `s`.
pub fn find_sub(s: &[char], p: &str) -> (r: Option<usize>)
    ensures
        text::same_index(r, sub_index(s@, p@)),
        r matches Some(i) ==> i + p@.len() <= s@.len(),
{
    let q = text::chars_of(p);
    find_sub_from(s, q.as_slice(), 0)
}

/// Whether `p` occurs in `s`.
pub fn contains_sub(s: &[char], p: &str) -> (r: bool)
    ensures
        r == has_sub(s@, p@),
{
    find_sub(s, p).is_some()
}

/// The last position at or before `i` where `p` stands in `s`.
pub open spec fn last_sub_index_to(s: Seq<char>, p: Seq<char>, i: int) -> Option<int>
    decreases i + 1,
{
    if i < 0 {
        None
    } else if stands_at(s, p, i) {
        Some(i)
    } else {
        last_sub_index_to(s, p, i - 1)
    }
}

/// The last position where `p` stands in `s`.
pub open spec fn last_sub_index(s: Seq<char>, p: Seq<char>) -> Option<int> {
    last_sub_index_to(s, p, s.len() - p.len())
}

/// The last position where `p` stands in `s`.
pub fn rfind_sub(s: &[char], p: &str) -> (r: Option<usize>)
    ensures
        text::same_index(r, last_sub_index(s@, p@)),
        r matches Some(i) ==> i + p@.len() <= s@.len(),
{
    let q = text::chars_of(p);
    if q.len() > s.len() {
        return None;
    }
    let mut i: usize = s.len() - q.len();
    loop
        invariant
            q@ == p@,
            q@.len() <= s@.len(),
            i <= s@.len() - q@.len(),
            last_sub_index(s@, p@) == last_sub_index_to(s@, p@, i as int),
        decreases i,
    {
        if is_at(s, q.as_slice(), i) {
            return Some(i);
        }
        if i == 0 {
            assert(last_sub_index_to(s@, p@, -1) is None);
            return None;
        }
        i -= 1;
    }
}

} // verus!
