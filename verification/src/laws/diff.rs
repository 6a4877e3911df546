//! Laws of reading diffs.

use crate::compress::diff;
use crate::compress::diff::{DiffState, FileView, HunkView};
use crate::pieces;
use crate::search;
use crate::text;
use vstd::prelude::*;
use vstd::string::*;

verus! {

/// A line that opens the section of a file.
pub open spec fn is_header(line: Seq<char>) -> bool {
    "diff --git "@.is_prefix_of(line)
}

/// A line that opens a hunk.
pub open spec fn is_hunk_header(line: Seq<char>) -> bool {
    "@@ "@.is_prefix_of(line)
}

/// A line that names the file after the change.
pub open spec fn is_name_line(line: Seq<char>) -> bool {
    "+++ "@.is_prefix_of(line)
}

/// How many of `lines` open the section of a file.
pub open spec fn header_count(lines: Seq<Seq<char>>) -> nat {
    lines.filter(|line: Seq<char>| is_header(line)).len()
}

/// How many of `lines` open a hunk.
pub open spec fn hunk_header_count(lines: Seq<Seq<char>>) -> nat {
    lines.filter(|line: Seq<char>| is_hunk_header(line)).len()
}

/// The number of hunks of all `files`.
pub open spec fn hunk_total(files: Seq<FileView>) -> nat
    decreases files.len(),
{
    if files.len() == 0 {
        0
    } else {
        hunk_total(files.drop_last()) + files.last().hunks.len()
    }
}

/// A line is of one kind.
pub proof fn lemma_line_kinds(line: Seq<char>)
    ensures
        is_header(line) ==> !is_hunk_header(line) && !is_name_line(line),
        is_hunk_header(line) ==> !is_header(line) && !is_name_line(line) && !"+++ b/"@.is_prefix_of(
            line,
        ),
        "+++ b/"@.is_prefix_of(line) ==> is_name_line(line) && !is_header(line),
{
    reveal_strlit("diff --git ");
    reveal_strlit("@@ ");
    reveal_strlit("+++ ");
    reveal_strlit("+++ b/");
    assert("diff --git "@[0] == 'd');
    assert("@@ "@[0] == '@');
    assert("+++ "@[0] == '+');
    assert("+++ b/"@[0] == '+');
    if "+++ b/"@.is_prefix_of(line) {
        assert("+++ "@ =~= "+++ b/"@.subrange(0, 4));
        assert(line.subrange(0, 4) =~= line.subrange(0, 6).subrange(0, 4));
    }
}

/// The files that `lines` hold.
spec fn read(lines: Seq<Seq<char>>) -> Seq<FileView> {
    diff::file_closed(diff::hunk_closed(diff::diff_state(lines))).done
}

/// Nothing is complete before a section opens, and a hunk that is open before
/// belongs to no file.
proof fn lemma_closed_while_open(lines: Seq<Seq<char>>)
    ensures
        diff::diff_state(lines).file is None ==> diff::diff_state(lines).done.len() == 0,
    decreases lines.len(),
{
    if lines.len() > 0 {
        lemma_closed_while_open(lines.drop_last());
    }
}

/// A state with files in front of those it holds.
spec fn behind(done: Seq<FileView>, s: DiffState) -> DiffState {
    DiffState { done: done + s.done, file: s.file, hunk: s.hunk }
}

proof fn lemma_step_behind(done: Seq<FileView>, s: DiffState, line: Seq<char>)
    ensures
        diff::diff_step(behind(done, s), line) == behind(done, diff::diff_step(s, line)),
        diff::file_closed(diff::hunk_closed(behind(done, s))) == behind(
            done,
            diff::file_closed(diff::hunk_closed(s)),
        ),
{
    let t = behind(done, s);
    let closed = diff::hunk_closed(s);
    assert(diff::hunk_closed(t) == behind(done, closed));
    match closed.file {
        Some(f) => {
            assert((done + closed.done).push(f) =~= done + closed.done.push(f));
        },
        None => {},
    }
}

proof fn lemma_state_behind(a: Seq<Seq<char>>, b: Seq<Seq<char>>)
    requires
        b.len() > 0,
        is_header(b[0]),
    ensures
        diff::diff_state(a + b) == behind(read(a), diff::diff_state(b)),
    decreases b.len(),
{
    let all = a + b;
    assert(all.drop_last() =~= a + b.drop_last());
    if b.len() == 1 {
        assert(b.drop_last() =~= seq![]);
        assert(all.drop_last() =~= a);
        assert(read(a) + Seq::<FileView>::empty() =~= read(a));
        assert(diff::diff_state(b).done =~= seq![]);
    } else {
        lemma_state_behind(a, b.drop_last());
        lemma_step_behind(read(a), diff::diff_state(b.drop_last()), b.last());
    }
}

/// A text that starts with a word without line breaks has a first line that
/// starts with it.
proof fn lemma_first_line_starts(s: Seq<char>, word: Seq<char>)
    requires
        word.len() > 0,
        word.is_prefix_of(s),
        !word.contains('\n'),
        !word.contains('\r'),
    ensures
        pieces::lines_of(s).len() > 0,
        word.is_prefix_of(pieces::lines_of(s)[0]),
{
    search::lemma_char_index(s, '\n');
    let n = word.len() as int;
    match search::char_index(s, '\n') {
        Some(k) => {
            if k < n {
                assert(word[k] == s[k]);
                assert(word.contains(word[k]));
            }
            let first = pieces::without_cr(s.take(k));
            if s.take(k).last() == '\r' && k == n {
                assert(word[k - 1] == s[k - 1]);
                assert(word.contains(word[k - 1]));
            }
            assert(first.subrange(0, n) =~= s.subrange(0, n));
        },
        None => {},
    }
}

/// Two diffs one after another hold the files of the first, then those of the
/// second.
pub proof fn lemma_diffs_one_after_another(first: Seq<char>, second: Seq<char>)
    requires
        first.len() > 0 ==> first.last() == '\n',
        "diff --git "@.is_prefix_of(second),
    ensures
        diff::diff_files(first + second) == diff::diff_files(first) + diff::diff_files(second),
{
    lemma_first_line_is_header(second);
    pieces::lemma_lines_concat(first, second);
    let a = pieces::lines_of(first);
    let b = pieces::lines_of(second);
    lemma_state_behind(a, b);
    lemma_step_behind(read(a), diff::diff_state(b), seq![]);
}

/// A text that starts with a header has a first line that opens a section.
pub proof fn lemma_first_line_is_header(input: Seq<char>)
    requires
        "diff --git "@.is_prefix_of(input),
    ensures
        pieces::lines_of(input).len() > 0,
        is_header(pieces::lines_of(input)[0]),
{
    reveal_strlit("diff --git ");
    assert(!"diff --git "@.contains('\n'));
    assert(!"diff --git "@.contains('\r'));
    lemma_first_line_starts(input, "diff --git "@);
}

/// Where the first line opens a section there is one.
pub proof fn lemma_header_counts(lines: Seq<Seq<char>>)
    requires
        lines.len() > 0,
        is_header(lines[0]),
    ensures
        header_count(lines) > 0,
    decreases lines.len(),
{
    reveal(Seq::filter);
    if lines.len() > 1 {
        assert(lines.drop_last()[0] == lines[0]);
        lemma_header_counts(lines.drop_last());
    }
}

/// A diff holds as many files as lines that open a section, and as many hunks as
/// lines that open one from the first section on.
pub proof fn lemma_files_are_sections(input: Seq<char>)
    ensures
        diff::diff_files(input).len() == header_count(pieces::lines_of(input)),
        hunk_total(diff::diff_files(input)) <= hunk_header_count(pieces::lines_of(input)),
        "diff --git "@.is_prefix_of(input) ==> hunk_total(diff::diff_files(input))
            == hunk_header_count(pieces::lines_of(input)),
{
    let lines = pieces::lines_of(input);
    lemma_counts(lines);
    if "diff --git "@.is_prefix_of(input) {
        lemma_first_line_is_header(input);
    }
}

proof fn lemma_counts(lines: Seq<Seq<char>>)
    ensures
        read(lines).len() == header_count(lines),
        hunk_total(read(lines)) <= hunk_header_count(lines),
        lines.len() > 0 && is_header(lines[0]) ==> hunk_total(read(lines)) == hunk_header_count(
            lines,
        ) && diff::diff_state(lines).file is Some,
    decreases lines.len(),
{
    reveal(Seq::filter);
    if lines.len() > 0 {
        let before = lines.drop_last();
        let line = lines.last();
        lemma_counts(before);
        lemma_line_kinds(line);
        lemma_closed_while_open(before);
        lemma_closed_while_open(lines);
        let s = diff::diff_state(before);
        let t = diff::diff_state(lines);
        lemma_total_closed(s);
        lemma_total_closed(t);
        lemma_total_closed(diff::file_closed(diff::hunk_closed(s)));
    } else {
        assert(read(lines) =~= seq![]);
    }
}

proof fn lemma_total_closed(s: DiffState)
    ensures
        hunk_total(diff::file_closed(diff::hunk_closed(s)).done) == hunk_total(s.done) + match s.file {
            Some(f) => f.hunks.len() + if s.hunk is Some {
                1nat
            } else {
                0nat
            },
            None => 0nat,
        },
{
    let closed = diff::hunk_closed(s);
    match closed.file {
        Some(f) => {
            assert(s.done.push(f).drop_last() =~= s.done);
        },
        None => {},
    }
}

/// What one more line does to the files of a diff: the file that it belongs to
/// is the last one, and no other changes.
///
/// A line that opens a section adds a file without hunks. A line `+++ b/..` or
/// `+++ ..` puts the last file at that path, unless it is `/dev/null` or none. A
/// line `@@ ..` adds a hunk without lines to the last file. Another line that
/// starts with a space, `+` or `-` ends the last hunk. Other lines change
/// nothing.
pub proof fn lemma_one_more_line(input: Seq<char>, longer: Seq<char>, line: Seq<char>)
    requires
        pieces::lines_of(longer) == pieces::lines_of(input).push(line),
    ensures
        is_header(line) ==> diff::diff_files(longer) == diff::diff_files(input).push(
            (FileView { path: diff::diff_path(line), hunks: seq![] }),
        ),
        !is_header(line) && diff::diff_files(input).len() == 0 ==> diff::diff_files(longer).len()
            == 0,
        !is_header(line) && diff::diff_files(input).len() > 0 ==> {
            let before = diff::diff_files(input).last();
            let rest = diff::diff_files(input).drop_last();
            let after = diff::diff_files(longer);
            &&& is_name_line(line) ==> {
                let path = if "+++ b/"@.is_prefix_of(line) {
                    line.skip(6)
                } else {
                    line.skip(4)
                };
                after == rest.push(
                    (FileView {
                        path: if path.len() == 0 || path == "/dev/null"@ {
                            before.path
                        } else {
                            path
                        },
                        hunks: before.hunks,
                    }),
                )
            }
            &&& is_hunk_header(line) ==> after == rest.push(
                (FileView {
                    path: before.path,
                    hunks: before.hunks.push(
                        (HunkView { context: diff::hunk_context(line), lines: seq![] }),
                    ),
                }),
            )
            &&& !is_name_line(line) && !is_hunk_header(line) ==> if before.hunks.len() > 0
                && line.len() > 0 && (line[0] == ' ' || line[0] == '+' || line[0] == '-') {
                after == rest.push(
                    (FileView {
                        path: before.path,
                        hunks: before.hunks.drop_last().push(
                            (HunkView {
                                context: before.hunks.last().context,
                                lines: before.hunks.last().lines.push(line),
                            }),
                        ),
                    }),
                )
            } else {
                after == diff::diff_files(input)
            }
        },
{
    let lines = pieces::lines_of(input);
    let all = pieces::lines_of(longer);
    assert(all.drop_last() =~= lines);
    lemma_line_kinds(line);
    lemma_closed_while_open(lines);
    lemma_open_hunk_is_last(lines);
    let s = diff::diff_state(lines);
    let t = diff::diff_state(all);
    assert(t == diff::diff_step(s, line));
    let done = diff::diff_files(input);
    match s.file {
        Some(f) => {
            let file = diff::hunk_closed(s).file->0;
            assert(done == s.done.push(file));
            assert(done.drop_last() =~= s.done);
            assert(done.last() == file);
            match s.hunk {
                Some(h) => {
                    assert(file.hunks == f.hunks.push(h));
                    assert(file.hunks.drop_last() =~= f.hunks);
                },
                None => {},
            }
        },
        None => {
            assert(done =~= seq![]);
        },
    }
}

/// A file with hunks has its last one open.
proof fn lemma_open_hunk_is_last(lines: Seq<Seq<char>>)
    ensures
        match diff::diff_state(lines).file {
            Some(f) => f.hunks.len() > 0 ==> diff::diff_state(lines).hunk is Some,
            None => true,
        },
    decreases lines.len(),
{
    if lines.len() > 0 {
        lemma_open_hunk_is_last(lines.drop_last());
    }
}

/// A line `diff --git a/x b/y` names the file `y`.
pub proof fn lemma_header_names_file(old_path: Seq<char>, new_path: Seq<char>)
    requires
        !new_path.contains(' '),
    ensures
        diff::diff_path("diff --git a/"@ + old_path + " b/"@ + new_path) == new_path,
{
    reveal_strlit("diff --git a/");
    reveal_strlit(" b/");
    let lead = "diff --git a/"@ + old_path;
    let line = lead + " b/"@ + new_path;
    let k = lead.len() as int;
    assert(line.subrange(k, k + 3) =~= " b/"@);
    assert(search::stands_at(line, " b/"@, k));
    assert forall|j: int| k < j < line.len() implies line[j] != ' ' by {
        if j >= k + 3 {
            assert(new_path.contains(new_path[j - k - 3]));
        }
    }
    lemma_last_stands(line, " b/"@, k, line.len() - 3);
    assert(line.skip(k + 3) =~= new_path);
}

proof fn lemma_last_stands(s: Seq<char>, p: Seq<char>, k: int, i: int)
    requires
        p.len() > 0,
        0 <= k <= i <= s.len() - p.len(),
        search::stands_at(s, p, k),
        forall|j: int| k < j < s.len() ==> s[j] != p[0],
    ensures
        search::last_sub_index_to(s, p, i) == Some(k),
    decreases i,
{
    if i > k {
        if search::stands_at(s, p, i) {
            assert(s.subrange(i, i + p.len())[0] == s[i]);
        }
        lemma_last_stands(s, p, k, i - 1);
    }
}

/// A line `@@ .. @@ text` carries the text as its context, without the white
/// space around it.
pub proof fn lemma_hunk_header_context(range: Seq<char>, context: Seq<char>)
    requires
        !range.contains('@'),
    ensures
        diff::hunk_context("@@ "@ + range + " @@ "@ + context) == text::trimmed(context),
{
    reveal_strlit("@@ ");
    reveal_strlit(" @@ ");
    let lead = "@@ "@ + range;
    let k = lead.len() as int;
    let line = lead + " @@ "@ + context;
    assert(line.subrange(k, k + 4) =~= " @@ "@);
    assert(search::stands_at(line, " @@ "@, k));
    assert forall|j: int| 0 <= j < k implies !search::stands_at(line, " @@ "@, j) by {
        if search::stands_at(line, " @@ "@, j) {
            lemma_stands_chars(line, " @@ "@, j);
            assert(line[j] == ' ' && line[j + 1] == '@');
            if j + 1 < k && j >= 2 {
                assert(range[j - 2] == '@');
                assert(range.contains(range[j - 2]));
            }
        }
    }
    search::lemma_sub_index_from(line, " @@ "@, 0);
    assert(search::sub_index(line, " @@ "@) == Some(k));
    assert(line.skip(k + 4) =~= context);
}

/// A line `@@ .. @@` carries no context.
pub proof fn lemma_hunk_header_bare(range: Seq<char>)
    requires
        !range.contains('@'),
    ensures
        diff::hunk_context("@@ "@ + range + " @@"@) == Seq::<char>::empty(),
{
    reveal_strlit("@@ ");
    reveal_strlit(" @@ ");
    reveal_strlit(" @@");
    let lead = "@@ "@ + range;
    let k = lead.len() as int;
    let line = lead + " @@"@;
    assert forall|j: int| 0 <= j implies !search::stands_at(line, " @@ "@, j) by {
        if search::stands_at(line, " @@ "@, j) {
            lemma_stands_chars(line, " @@ "@, j);
            assert(line[j] == ' ' && line[j + 1] == '@' && j + 3 < line.len());
            if j >= 2 {
                assert(range[j - 2] == '@');
                assert(range.contains(range[j - 2]));
            }
        }
    }
    search::lemma_sub_index_from(line, " @@ "@, 0);
}

proof fn lemma_stands_chars(s: Seq<char>, p: Seq<char>, j: int)
    requires
        search::stands_at(s, p, j),
    ensures
        forall|i: int| 0 <= i < p.len() ==> s[j + i] == #[trigger] p[i],
        p.len() >= 2 ==> s[j] == p[0] && s[j + 1] == p[1],
{
    assert forall|i: int| 0 <= i < p.len() implies s[j + i] == #[trigger] p[i] by {
        assert(s.subrange(j, j + p.len())[i] == s[j + i]);
    }
    if p.len() >= 2 {
        assert(s[j + 0] == p[0]);
        assert(s[j + 1] == p[1]);
    }
}

} // verus!
