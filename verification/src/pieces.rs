//! Cutting text into pieces and putting pieces together.

use crate::search;
use crate::text;
use vstd::prelude::*;
use vstd::slice::*;
use vstd::string::*;

verus! {

// ---------------------------------------------------------------------------
// Lines
// ---------------------------------------------------------------------------

/// A line's text without the carriage return that a `\r\n` ending leaves.
pub open spec fn without_cr(line: Seq<char>) -> Seq<char> {
    if line.len() > 0 && line.last() == '\r' {
        line.drop_last()
    } else {
        line
    }
}

/// The lines of `s`: each ends at `\n` or `\r\n`, and an ending after the last
/// line is optional.
pub open spec fn lines_of(s: Seq<char>) -> Seq<Seq<char>>
    decreases s.len(),
{
    if s.len() == 0 {
        seq![]
    } else {
        match search::char_index(s, '\n') {
            Some(k) => if 0 <= k < s.len() {
                seq![without_cr(s.take(k))] + lines_of(s.skip(k + 1))
            } else {
                seq![]
            },
            None => seq![s],
        }
    }
}

/// The lines of `s`.
pub fn split_lines<'a>(s: &'a [char]) -> (out: Vec<&'a [char]>)
    ensures
        text::views(out@) == lines_of(s@),
{
    let mut out: Vec<&'a [char]> = Vec::new();
    let mut start: usize = 0;
    let mut i: usize = 0;
    assert(s@.skip(0) =~= s@);
    assert(text::views(out@) + lines_of(s@) =~= lines_of(s@));
    while i < s.len()
        invariant
            start <= i <= s@.len(),
            forall|j: int| start <= j < i ==> s@[j] != '\n',
            text::views(out@) + lines_of(s@.skip(start as int)) == lines_of(s@),
        decreases s@.len() - i,
    {
        if s[i] == '\n' {
            let ghost rest = s@.skip(start as int);
            proof {
                assert(rest[i - start] == '\n');
                search::lemma_char_index_is(rest, '\n', i - start);
                assert(rest.skip(i - start + 1) =~= s@.skip(i + 1));
                assert(rest.take(i - start) =~= s@.subrange(start as int, i as int));
            }
            let end = if i > start && s[i - 1] == '\r' {
                i - 1
            } else {
                i
            };
            let line = slice_subrange(s, start, end);
            assert(line@ =~= without_cr(rest.take(i - start)));
            let ghost before = text::views(out@);
            out.push(line);
            assert(text::views(out@) =~= before.push(line@));
            assert(before + (seq![line@] + lines_of(s@.skip(i + 1))) =~= before.push(line@)
                + lines_of(s@.skip(i + 1)));
            start = i + 1;
        }
        i += 1;
    }
    let ghost rest = s@.skip(start as int);
    if start < s.len() {
        proof {
            search::lemma_char_index(rest, '\n');
            match search::char_index(rest, '\n') {
                Some(k) => {
                    assert(s@[start + k] == '\n');
                },
                None => {},
            }
        }
        let line = slice_subrange(s, start, s.len());
        assert(line@ =~= rest);
        let ghost before = text::views(out@);
        out.push(line);
        assert(text::views(out@) =~= before + seq![rest]);
    } else {
        assert(text::views(out@) + lines_of(rest) =~= text::views(out@));
    }
    out
}

/// Text without a line ending is one line, or none where it is empty.
pub proof fn lemma_lines_without_ending(s: Seq<char>)
    requires
        !s.contains('\n'),
    ensures
        lines_of(s) == if s.len() == 0 {
            seq![]
        } else {
            seq![s]
        },
{
    search::lemma_char_index(s, '\n');
}

/// A first line that a newline ends, and the lines of the rest.
pub proof fn lemma_lines_first(line: Seq<char>, rest: Seq<char>)
    requires
        !line.contains('\n'),
    ensures
        lines_of(line.push('\n') + rest) == seq![without_cr(line)] + lines_of(rest),
{
    let s = line.push('\n') + rest;
    assert(s[line.len() as int] == '\n');
    assert forall|j: int| 0 <= j < line.len() implies s[j] != '\n' by {
        assert(line.contains(line[j]));
    }
    search::lemma_char_index_is(s, '\n', line.len() as int);
    assert(s.take(line.len() as int) =~= line);
    assert(s.skip(line.len() as int + 1) =~= rest);
}

/// No line holds a line break.
pub proof fn lemma_lines_unbroken(s: Seq<char>)
    ensures
        forall|i: int| 0 <= i < lines_of(s).len() ==> !(#[trigger] lines_of(s)[i]).contains('\n'),
    decreases s.len(),
{
    if s.len() > 0 {
        search::lemma_char_index(s, '\n');
        match search::char_index(s, '\n') {
            Some(k) => {
                let first = without_cr(s.take(k));
                let rest = s.skip(k + 1);
                lemma_lines_unbroken(rest);
                assert forall|i: int| 0 <= i < lines_of(s).len() implies !(
                #[trigger] lines_of(s)[i]).contains('\n') by {
                    if i == 0 {
                        assert(lines_of(s)[0] == first);
                        if first.contains('\n') {
                            let j = choose|j: int| 0 <= j < first.len() && first[j] == '\n';
                            assert(s[j] == '\n');
                        }
                    } else {
                        assert(lines_of(s)[i] == lines_of(rest)[i - 1]);
                    }
                }
            },
            None => {},
        }
    }
}

/// Text that ends in a line break keeps its lines in front of those of the text
/// behind it.
pub proof fn lemma_lines_concat(a: Seq<char>, b: Seq<char>)
    requires
        a.len() > 0 ==> a.last() == '\n',
    ensures
        lines_of(a + b) == lines_of(a) + lines_of(b),
    decreases a.len(),
{
    if a.len() == 0 {
        assert(a + b =~= b);
        assert(lines_of(a) + lines_of(b) =~= lines_of(b));
    } else {
        search::lemma_char_index(a, '\n');
        match search::char_index(a, '\n') {
            Some(k) => {
                let line = a.take(k);
                let rest = a.skip(k + 1);
                assert(!line.contains('\n')) by {
                    if line.contains('\n') {
                        let j = choose|j: int| 0 <= j < line.len() && line[j] == '\n';
                        assert(a[j] == '\n');
                    }
                }
                assert(a =~= line.push('\n') + rest);
                assert(a + b =~= line.push('\n') + (rest + b));
                lemma_lines_first(line, rest);
                lemma_lines_first(line, rest + b);
                if rest.len() > 0 {
                    assert(rest.last() == a.last());
                }
                lemma_lines_concat(rest, b);
                assert(lines_of(a + b) =~= lines_of(a) + lines_of(b));
            },
            None => {
                assert(a.contains(a.last()));
            },
        }
    }
}

/// Text that ends in something else than a line break ends in a line that is
/// not empty.
pub proof fn lemma_last_line(s: Seq<char>)
    requires
        s.len() > 0,
        s.last() != '\n',
    ensures
        lines_of(s).len() > 0,
        lines_of(s).last().len() > 0,
    decreases s.len(),
{
    search::lemma_char_index(s, '\n');
    match search::char_index(s, '\n') {
        Some(k) => {
            let rest = s.skip(k + 1);
            assert(rest.last() == s.last());
            lemma_last_line(rest);
        },
        None => {},
    }
}

// ---------------------------------------------------------------------------
// Joining
// ---------------------------------------------------------------------------

/// `parts` one after another with `sep` between them.
pub open spec fn joined(parts: Seq<Seq<char>>, sep: Seq<char>) -> Seq<char>
    decreases parts.len(),
{
    if parts.len() == 0 {
        seq![]
    } else if parts.len() == 1 {
        parts[0]
    } else {
        joined(parts.drop_last(), sep) + sep + parts.last()
    }
}

/// The first part stands in front of the others.
pub proof fn lemma_joined_first(parts: Seq<Seq<char>>, sep: Seq<char>)
    requires
        parts.len() >= 2,
    ensures
        joined(parts, sep) == parts[0] + sep + joined(parts.skip(1), sep),
    decreases parts.len(),
{
    let rest = parts.skip(1);
    if parts.len() == 2 {
        assert(joined(parts.drop_last(), sep) == parts[0]);
        assert(joined(rest, sep) == parts[1]);
    } else {
        lemma_joined_first(parts.drop_last(), sep);
        assert(parts.drop_last().skip(1) =~= rest.drop_last());
        assert(joined(parts, sep) =~= parts[0] + sep + (joined(rest.drop_last(), sep) + sep
            + rest.last()));
    }
}

/// Joining two lists is joining each, with the separator between them.
pub proof fn lemma_joined_concat(a: Seq<Seq<char>>, b: Seq<Seq<char>>, sep: Seq<char>)
    requires
        a.len() > 0,
        b.len() > 0,
    ensures
        joined(a + b, sep) == joined(a, sep) + sep + joined(b, sep),
    decreases b.len(),
{
    let all = a + b;
    assert(all.drop_last() =~= a + b.drop_last());
    if b.len() == 1 {
        assert(a + b.drop_last() =~= a);
    } else {
        lemma_joined_concat(a, b.drop_last(), sep);
        assert(joined(all, sep) =~= joined(a, sep) + sep + (joined(b.drop_last(), sep) + sep
            + b.last()));
    }
}

/// A line that reads back as it is: without a line break, and without a
/// carriage return that would count to one.
pub open spec fn is_plain_line(line: Seq<char>) -> bool {
    !line.contains('\n') && (line.len() > 0 ==> line.last() != '\r')
}

/// Lines that are joined and end in a line break read back; without it they do
/// where the last one is not empty.
pub proof fn lemma_lines_of_joined(parts: Seq<Seq<char>>)
    requires
        parts.len() > 0,
        forall|i: int| 0 <= i < parts.len() ==> is_plain_line(#[trigger] parts[i]),
    ensures
        lines_of(joined(parts, "\n"@) + "\n"@) == parts,
        parts.last().len() > 0 ==> lines_of(joined(parts, "\n"@)) == parts,
    decreases parts.len(),
{
    reveal_strlit("\n");
    let nl = "\n"@;
    let first = parts[0];
    assert(is_plain_line(first));
    if parts.len() == 1 {
        assert(first + nl =~= first.push('\n') + Seq::<char>::empty());
        lemma_lines_first(first, Seq::<char>::empty());
        assert(lines_of(Seq::<char>::empty()) =~= seq![]);
        assert(lines_of(first + nl) =~= parts);
        if first.len() > 0 {
            lemma_lines_without_ending(first);
            assert(seq![first] =~= parts);
        }
    } else {
        let rest = parts.skip(1);
        lemma_joined_first(parts, nl);
        assert forall|i: int| 0 <= i < rest.len() implies is_plain_line(#[trigger] rest[i]) by {
            assert(rest[i] == parts[i + 1]);
        }
        lemma_lines_of_joined(rest);
        let tail = joined(rest, nl);
        assert(joined(parts, nl) + nl =~= first.push('\n') + (tail + nl));
        lemma_lines_first(first, tail + nl);
        assert(seq![first] + rest =~= parts);
        assert(joined(parts, nl) =~= first.push('\n') + tail);
        lemma_lines_first(first, tail);
    }
}

/// Append `parts` to a string, with `sep` between them.
pub fn join(parts: &[&[char]], sep: &str) -> (out: String)
    ensures
        out@ == joined(text::views(parts@), sep@),
{
    let mut out = String::new();
    let mut i: usize = 0;
    assert(text::views(parts@).take(0) =~= seq![]);
    while i < parts.len()
        invariant
            i <= parts@.len(),
            out@ == joined(text::views(parts@).take(i as int), sep@),
        decreases parts@.len() - i,
    {
        let ghost all = text::views(parts@);
        proof {
            assert(all.take(i + 1).drop_last() =~= all.take(i as int));
            assert(all.take(i + 1).last() == parts@[i as int]@);
        }
        if i > 0 {
            out.append(sep);
        }
        text::push_chars(&mut out, parts[i]);
        i += 1;
        assert(out@ =~= joined(all.take(i as int), sep@));
    }
    assert(text::views(parts@).take(i as int) =~= text::views(parts@));
    out
}

/// The strings `parts` with `sep` between them.
pub fn join_strings(parts: &[String], sep: &str) -> (out: String)
    ensures
        out@ == joined(text::texts(parts@), sep@),
{
    let mut out = String::new();
    let mut i: usize = 0;
    assert(text::texts(parts@).take(0) =~= seq![]);
    while i < parts.len()
        invariant
            i <= parts@.len(),
            out@ == joined(text::texts(parts@).take(i as int), sep@),
        decreases parts@.len() - i,
    {
        let ghost all = text::texts(parts@);
        proof {
            assert(all.take(i + 1).drop_last() =~= all.take(i as int));
            assert(all.take(i + 1).last() == parts@[i as int]@);
        }
        if i > 0 {
            out.append(sep);
        }
        out.append(parts[i].as_str());
        i += 1;
        assert(out@ =~= joined(all.take(i as int), sep@));
    }
    assert(text::texts(parts@).take(i as int) =~= text::texts(parts@));
    out
}

// ---------------------------------------------------------------------------
// Replacing and splitting
// ---------------------------------------------------------------------------

/// `s` with each occurrence of `from`, taken from the left without overlap,
/// replaced by `to`. `from` is not empty.
pub open spec fn replaced(s: Seq<char>, from: Seq<char>, to: Seq<char>) -> Seq<char>
    decreases s.len(),
{
    match search::sub_index(s, from) {
        Some(k) => if 0 <= k && 0 < from.len() && k + from.len() <= s.len() {
            s.take(k) + to + replaced(s.skip(k + from.len()), from, to)
        } else {
            s
        },
        None => s,
    }
}

/// The pieces of `s` between the occurrences of `sep`, which is not empty.
pub open spec fn pieces_of(s: Seq<char>, sep: Seq<char>) -> Seq<Seq<char>>
    decreases s.len(),
{
    match search::sub_index(s, sep) {
        Some(k) => if 0 <= k && 0 < sep.len() && k + sep.len() <= s.len() {
            seq![s.take(k)] + pieces_of(s.skip(k + sep.len()), sep)
        } else {
            seq![s]
        },
        None => seq![s],
    }
}

/// A search in a suffix is a search from a position.
pub proof fn lemma_sub_index_suffix(s: Seq<char>, p: Seq<char>, start: int, i: int)
    requires
        0 <= start <= s.len(),
        0 <= i,
    ensures
        search::sub_index_from(s.skip(start), p, i) == match search::sub_index_from(
            s,
            p,
            start + i,
        ) {
            Some(k) => Some(k - start),
            None => None,
        },
    decreases s.len() + 1 - start - i,
{
    let t = s.skip(start);
    if i + p.len() <= t.len() {
        assert(t.subrange(i, i + p.len()) =~= s.subrange(start + i, start + i + p.len()));
        if !search::stands_at(t, p, i) {
            lemma_sub_index_suffix(s, p, start, i + 1);
        }
    }
}

/// `s` with each occurrence of `from` replaced by `to`.
pub fn replace(s: &[char], from: &str, to: &str) -> (out: Vec<char>)
    requires
        from@.len() > 0,
    ensures
        out@ == replaced(s@, from@, to@),
{
    let f = text::chars_of(from);
    let t = text::chars_of(to);
    let mut out: Vec<char> = Vec::new();
    let mut start: usize = 0;
    assert(s@.skip(0) =~= s@);
    assert(out@ + replaced(s@, from@, to@) =~= replaced(s@, from@, to@));
    loop
        invariant
            f@ == from@,
            t@ == to@,
            f@.len() > 0,
            start <= s@.len(),
            out@ + replaced(s@.skip(start as int), from@, to@) == replaced(s@, from@, to@),
        decreases s@.len() - start,
    {
        let ghost rest = s@.skip(start as int);
        proof {
            lemma_sub_index_suffix(s@, f@, start as int, 0);
        }
        let n = s.len();
        match search::find_sub_from(s, f.as_slice(), start) {
            Some(k) => {
                let piece = slice_subrange(s, start, k);
                let ghost before = out@;
                push_all(&mut out, piece);
                push_all(&mut out, t.as_slice());
                proof {
                    assert(rest.take(k - start) =~= piece@);
                    assert(rest.skip(k - start + f@.len()) =~= s@.skip(k + f@.len()));
                    assert(out@ + replaced(s@.skip(k + f@.len()), from@, to@) =~= before + (piece@
                        + to@ + replaced(s@.skip(k + f@.len()), from@, to@)));
                }
                start = k + f.len();
            },
            None => {
                let piece = slice_subrange(s, start, n);
                push_all(&mut out, piece);
                assert(piece@ =~= rest);
                return out;
            },
        }
    }
}

/// Append the characters `part` to `out`.
pub fn push_all(out: &mut Vec<char>, part: &[char])
    ensures
        final(out)@ == old(out)@ + part@,
{
    let ghost start = out@;
    let mut i: usize = 0;
    while i < part.len()
        invariant
            i <= part@.len(),
            out@ == start + part@.take(i as int),
        decreases part@.len() - i,
    {
        out.push(part[i]);
        i += 1;
        assert(out@ =~= start + part@.take(i as int));
    }
    assert(out@ =~= start + part@);
}

/// The pieces of `s` between the occurrences of `sep`.
pub fn split_on<'a>(s: &'a [char], sep: &str) -> (out: Vec<&'a [char]>)
    requires
        sep@.len() > 0,
    ensures
        text::views(out@) == pieces_of(s@, sep@),
{
    let f = text::chars_of(sep);
    let mut out: Vec<&'a [char]> = Vec::new();
    let mut start: usize = 0;
    assert(s@.skip(0) =~= s@);
    assert(text::views(out@) + pieces_of(s@, sep@) =~= pieces_of(s@, sep@));
    loop
        invariant
            f@ == sep@,
            f@.len() > 0,
            start <= s@.len(),
            text::views(out@) + pieces_of(s@.skip(start as int), sep@) == pieces_of(s@, sep@),
        decreases s@.len() - start,
    {
        let ghost rest = s@.skip(start as int);
        let ghost before = text::views(out@);
        proof {
            lemma_sub_index_suffix(s@, f@, start as int, 0);
        }
        let n = s.len();
        match search::find_sub_from(s, f.as_slice(), start) {
            Some(k) => {
                let piece = slice_subrange(s, start, k);
                out.push(piece);
                proof {
                    assert(rest.take(k - start) =~= piece@);
                    assert(rest.skip(k - start + f@.len()) =~= s@.skip(k + f@.len()));
                    assert(text::views(out@) =~= before.push(piece@));
                    assert(before.push(piece@) + pieces_of(s@.skip(k + f@.len()), sep@) =~= before
                        + (seq![piece@] + pieces_of(s@.skip(k + f@.len()), sep@)));
                }
                start = k + f.len();
            },
            None => {
                let piece = slice_subrange(s, start, n);
                out.push(piece);
                assert(piece@ =~= rest);
                assert(text::views(out@) =~= before + seq![rest]);
                return out;
            },
        }
    }
}

// ---------------------------------------------------------------------------
// Words
// ---------------------------------------------------------------------------

/// The number of characters of `s` before its first white space.
pub open spec fn word_len(s: Seq<char>) -> nat
    decreases s.len(),
{
    if s.len() == 0 || text::is_white_space(s[0]) {
        0
    } else {
        1 + word_len(s.skip(1))
    }
}

/// A word is no longer than the text it begins.
pub proof fn lemma_word_len(s: Seq<char>)
    ensures
        word_len(s) <= s.len(),
    decreases s.len(),
{
    if s.len() > 0 && !text::is_white_space(s[0]) {
        lemma_word_len(s.skip(1));
    }
}

/// The parts of `s` that white space separates, none of them empty.
pub open spec fn words_of(s: Seq<char>) -> Seq<Seq<char>>
    decreases s.len(),
{
    if s.len() == 0 {
        seq![]
    } else if text::is_white_space(s[0]) {
        words_of(s.skip(1))
    } else {
        let n = word_len(s);
        if 0 < n <= s.len() {
            seq![s.take(n as int)] + words_of(s.skip(n as int))
        } else {
            seq![]
        }
    }
}

/// The words of `s`.
pub fn split_words<'a>(s: &'a [char]) -> (out: Vec<&'a [char]>)
    ensures
        text::views(out@) == words_of(s@),
{
    let mut out: Vec<&'a [char]> = Vec::new();
    let mut i: usize = 0;
    assert(s@.skip(0) =~= s@);
    assert(text::views(out@) + words_of(s@) =~= words_of(s@));
    while i < s.len()
        invariant
            i <= s@.len(),
            text::views(out@) + words_of(s@.skip(i as int)) == words_of(s@),
        decreases s@.len() - i,
    {
        let ghost rest = s@.skip(i as int);
        if text::is_whitespace(s[i]) {
            assert(rest.skip(1) =~= s@.skip(i + 1));
            i += 1;
        } else {
            let start = i;
            proof {
                lemma_word_len(rest);
            }
            while i < s.len() && !text::is_whitespace(s[i])
                invariant
                    start <= i <= s@.len(),
                    rest == s@.skip(start as int),
                    word_len(rest) == (i - start) + word_len(s@.skip(i as int)),
                decreases s@.len() - i,
            {
                assert(s@.skip(i as int).skip(1) =~= s@.skip(i + 1));
                i += 1;
            }
            let word = slice_subrange(s, start, i);
            let ghost before = text::views(out@);
            out.push(word);
            proof {
                assert(word_len(s@.skip(i as int)) == 0);
                assert(rest.take(i - start) =~= word@);
                assert(rest.skip(i - start) =~= s@.skip(i as int));
                assert(text::views(out@) =~= before.push(word@));
                assert(before.push(word@) + words_of(s@.skip(i as int)) =~= before + (seq![word@]
                    + words_of(s@.skip(i as int))));
            }
        }
    }
    assert(text::views(out@) + words_of(s@.skip(i as int)) =~= text::views(out@));
    out
}

// ---------------------------------------------------------------------------
// Dropping characters
// ---------------------------------------------------------------------------

/// `s` without the characters `a` and `b`.
pub open spec fn without_chars(s: Seq<char>, a: char, b: char) -> Seq<char>
    decreases s.len(),
{
    if s.len() == 0 {
        seq![]
    } else if s.last() == a || s.last() == b {
        without_chars(s.drop_last(), a, b)
    } else {
        without_chars(s.drop_last(), a, b).push(s.last())
    }
}

/// `s` without the characters `a` and `b`.
pub fn drop_chars(s: &[char], a: char, b: char) -> (out: Vec<char>)
    ensures
        out@ == without_chars(s@, a, b),
{
    let mut out: Vec<char> = Vec::new();
    let mut i: usize = 0;
    assert(s@.take(0) =~= seq![]);
    while i < s.len()
        invariant
            i <= s@.len(),
            out@ == without_chars(s@.take(i as int), a, b),
        decreases s@.len() - i,
    {
        let c = s[i];
        proof {
            assert(s@.take(i + 1).drop_last() =~= s@.take(i as int));
        }
        if c != a && c != b {
            out.push(c);
        }
        i += 1;
    }
    assert(s@.take(i as int) =~= s@);
    out
}

} // verus!
