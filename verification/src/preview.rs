//! What a message shows of captured content: a line of it, and its files.

use crate::bytes;
use crate::compress::diff;
use crate::number;
use crate::order;
use crate::pieces;
use crate::search;
use crate::tally;
use crate::text;
use vstd::prelude::*;
use vstd::slice::*;
use vstd::string::*;

verus! {

/// Bytes that a preview may take as it is.
pub const PREVIEW_BYTES: usize = 120;

/// Lines at the end of the output that are searched for a summary.
pub const SUMMARY_LINES: usize = 20;

/// Files that a message names.
pub const TOP_FILES: usize = 3;

/// Percentage of the lines that must look like matches of grep.
pub const GREP_PERCENT: u128 = 30;

// ---------------------------------------------------------------------------
// Truncation
// ---------------------------------------------------------------------------

/// `s`, cut at a character where it takes too many bytes.
pub open spec fn truncated(s: Seq<char>) -> Seq<char> {
    if bytes::byte_len(s) <= PREVIEW_BYTES {
        s
    } else {
        s.take(bytes::chars_within(s, PREVIEW_BYTES - 1) as int) + "…"@
    }
}

/// Cut `s` at a character where it takes more than [`PREVIEW_BYTES`] bytes.
pub fn truncate_preview(s: &str) -> (r: String)
    ensures
        r@ == truncated(s@),
{
    if bytes::str_bytes(s) <= PREVIEW_BYTES {
        s.to_owned()
    } else {
        let chars = text::chars_of(s);
        let n = bytes::fitting_chars(chars.as_slice(), PREVIEW_BYTES - 1);
        let head = slice_subrange(chars.as_slice(), 0, n);
        assert(head@ =~= s@.take(n as int));
        let mut r = text::string_of(head);
        r.append("…");
        r
    }
}

/// A preview takes at most two bytes more than the limit: the mark of a cut
/// takes three, and replaces at least one.
pub proof fn lemma_truncated_fits(s: Seq<char>)
    ensures
        bytes::byte_len(truncated(s)) <= PREVIEW_BYTES + 2,
{
    if bytes::byte_len(s) > PREVIEW_BYTES {
        let n = bytes::chars_within(s, PREVIEW_BYTES - 1) as int;
        bytes::lemma_chars_within(s, PREVIEW_BYTES - 1);
        bytes::lemma_byte_len_concat(s.take(n), "…"@);
        reveal_strlit("…");
        bytes::lemma_byte_len_first("…"@);
        assert("…"@.skip(1) =~= seq![]);
    }
}

// ---------------------------------------------------------------------------
// Unified diffs
// ---------------------------------------------------------------------------

/// The content starts as a unified diff does.
pub open spec fn is_diff(content: Seq<char>) -> bool {
    "diff --git "@.is_prefix_of(text::trimmed_start(content))
}

/// Detect whether `content` is a unified diff (starts with `diff --git`).
pub fn is_unified_diff(content: &str) -> (r: bool)
    ensures
        r == is_diff(content@),
{
    let chars = text::chars_of(content);
    text::starts_with(text::trim_start(chars.as_slice()), "diff --git ")
}

/// The last part of a path: separators and single dots at its end do not count;
/// nothing where it ends in two dots or has no part.
pub open spec fn file_name(path: Seq<char>) -> Option<Seq<char>>
    decreases path.len(),
{
    if path.len() > 0 && path.last() == '/' {
        file_name(path.drop_last())
    } else if "/."@.is_suffix_of(path) && path.len() >= 2 {
        file_name(path.take(path.len() - 2))
    } else {
        let part = search::after_last(path, '/');
        if part.len() == 0 || part == "."@ || part == ".."@ {
            None
        } else {
            Some(part)
        }
    }
}

/// The last part of a path.
pub(crate) fn base_name<'a>(path: &'a [char]) -> (r: Option<&'a [char]>)
    ensures
        match r {
            Some(name) => file_name(path@) == Some(name@),
            None => file_name(path@) is None,
        },
{
    let mut n: usize = path.len();
    assert(path@.take(n as int) =~= path@);
    loop
        invariant
            n <= path@.len(),
            file_name(path@) == file_name(path@.take(n as int)),
        decreases n,
    {
        let rest = slice_subrange(path, 0, n);
        assert(rest@ =~= path@.take(n as int));
        if n > 0 && rest[n - 1] == '/' {
            assert(rest@.drop_last() =~= path@.take(n - 1));
            n -= 1;
        } else if n >= 2 && text::ends_with(rest, "/.") {
            assert(rest@.take(n - 2) =~= path@.take(n - 2));
            n -= 2;
        } else {
            let part = search::rest_after_last(rest, '/');
            if part.len() == 0 || text::equals(part, ".") || text::equals(part, "..") {
                return None;
            } else {
                return Some(part);
            }
        }
    }
}

/// The path is that of a lockfile or of generated content.
pub open spec fn is_generated(path: Seq<char>) -> bool {
    let name = match file_name(path) {
        Some(n) => n,
        None => path,
    };
    name == "package-lock.json"@ || name == "yarn.lock"@ || name == "Cargo.lock"@
        || search::after_last(path, '.') == "lock"@ || ".min.js"@.is_suffix_of(path)
        || ".min.css"@.is_suffix_of(path)
}

/// Check if a file path looks like a generated/lockfile that should be
/// deprioritized in diff preview extraction.
pub fn is_generated_file(path: &str) -> (r: bool)
    ensures
        r == is_generated(path@),
{
    let chars = text::chars_of(path);
    let all = chars.as_slice();
    let name = match base_name(all) {
        Some(n) => n,
        None => all,
    };
    text::equals(name, "package-lock.json") || text::equals(name, "yarn.lock") || text::equals(
        name,
        "Cargo.lock",
    ) || text::equals(search::rest_after_last(all, '.'), "lock") || text::ends_with(all, ".min.js")
        || text::ends_with(all, ".min.css")
}

/// The path of a `+++ b/` line.
pub open spec fn new_path(line: Seq<char>) -> Option<Seq<char>> {
    if "+++ b/"@.is_prefix_of(line) {
        Some(line.skip(6))
    } else {
        None
    }
}

/// The first path of `lines`.
pub open spec fn first_path(lines: Seq<Seq<char>>) -> Option<Seq<char>>
    decreases lines.len(),
{
    if lines.len() == 0 {
        None
    } else {
        match first_path(lines.drop_last()) {
            Some(p) => Some(p),
            None => new_path(lines.last()),
        }
    }
}

/// The first path of `lines` that is not of generated content.
pub open spec fn first_written_path(lines: Seq<Seq<char>>) -> Option<Seq<char>>
    decreases lines.len(),
{
    if lines.len() == 0 {
        None
    } else {
        match first_written_path(lines.drop_last()) {
            Some(p) => Some(p),
            None => match new_path(lines.last()) {
                Some(p) => if is_generated(p) {
                    None
                } else {
                    Some(p)
                },
                None => None,
            },
        }
    }
}

/// The path that stands for a diff: the first that is not of generated content,
/// or the first.
pub open spec fn diff_path_shown(lines: Seq<Seq<char>>) -> Option<Seq<char>> {
    match first_written_path(lines) {
        Some(p) => Some(p),
        None => first_path(lines),
    }
}

fn find_diff_path(lines: &[&[char]]) -> (r: Option<String>)
    ensures
        match r {
            Some(p) => diff_path_shown(text::views(lines@)) == Some(p@),
            None => diff_path_shown(text::views(lines@)) is None,
        },
{
    let ghost all = text::views(lines@);
    let mut first: Option<String> = None;
    let mut written: Option<String> = None;
    let mut i: usize = 0;
    assert(all.take(0) =~= seq![]);
    proof {
        reveal_strlit("+++ b/");
    }
    while i < lines.len()
        invariant
            all == text::views(lines@),
            "+++ b/"@.len() == 6,
            i <= lines@.len(),
            text::opt_text(first) == first_path(all.take(i as int)),
            text::opt_text(written) == first_written_path(all.take(i as int)),
        decreases lines@.len() - i,
    {
        proof {
            assert(all.take(i + 1).drop_last() =~= all.take(i as int));
            assert(all.take(i + 1).last() == lines@[i as int]@);
        }
        let line = lines[i];
        let n = line.len();
        if text::starts_with(line, "+++ b/") {
            let rest = slice_subrange(line, 6, n);
            assert(rest@ =~= line@.skip(6));
            let path = text::string_of(rest);
            if written.is_none() && !is_generated_file(path.as_str()) {
                written = Some(path.clone());
            }
            if first.is_none() {
                first = Some(path);
            }
        }
        i += 1;
    }
    assert(all.take(i as int) =~= all);
    match written {
        Some(p) => Some(p),
        None => first,
    }
}

// ---------------------------------------------------------------------------
// Summaries
// ---------------------------------------------------------------------------

/// What follows the last space; where there is none, the last full stop; where
/// there is none, the last semicolon.
pub open spec fn after_separator(s: Seq<char>) -> Option<Seq<char>> {
    match search::last_char_index(s, ' ') {
        Some(k) => Some(s.skip(k + 1)),
        None => match search::last_char_index(s, '.') {
            Some(k) => Some(s.skip(k + 1)),
            None => match search::last_char_index(s, ';') {
                Some(k) => Some(s.skip(k + 1)),
                None => None,
            },
        },
    }
}

/// The number in front of `keyword`, or zero.
pub open spec fn count_before(line: Seq<char>, keyword: Seq<char>) -> nat {
    match search::sub_index(line, keyword) {
        Some(k) => match after_separator(text::trimmed_end(line.take(k))) {
            Some(n) => match number::unsigned_value(text::trimmed(n), usize::MAX as nat) {
                Some(v) => v,
                None => 0,
            },
            None => 0,
        },
        None => 0,
    }
}

fn rest_after_separator<'a>(s: &'a [char]) -> (r: Option<&'a [char]>)
    ensures
        match r {
            Some(t) => after_separator(s@) == Some(t@),
            None => after_separator(s@) is None,
        },
{
    let n = s.len();
    let found = match search::rfind_char(s, ' ') {
        Some(k) => Some(k),
        None => match search::rfind_char(s, '.') {
            Some(k) => Some(k),
            None => search::rfind_char(s, ';'),
        },
    };
    match found {
        Some(k) => {
            let t = slice_subrange(s, k + 1, n);
            assert(t@ =~= s@.skip(k + 1));
            Some(t)
        },
        None => None,
    }
}

/// Find "N <keyword>" in a test result line and parse N.
pub fn extract_count_before(line: &[char], keyword: &str) -> (n: usize)
    ensures
        n == count_before(line@, keyword@),
{
    proof {
        search::lemma_sub_index_from(line@, keyword@, 0);
    }
    match search::find_sub(line, keyword) {
        Some(k) => {
            let head = slice_subrange(line, 0, k);
            assert(head@ =~= line@.take(k as int));
            match rest_after_separator(text::trim_end(head)) {
                Some(t) => match number::parse_usize(text::trim(t)) {
                    Some(v) => v,
                    None => 0,
                },
                None => 0,
            }
        },
        None => 0,
    }
}

/// Extract the passed count from a Rust `test result:` line.
/// For "test result: ok. 30 passed; 0 failed" it is 30.
pub fn extract_passed_count(line: &str) -> (n: usize)
    ensures
        n == count_before(line@, "passed"@),
{
    let chars = text::chars_of(line);
    extract_count_before(chars.as_slice(), "passed")
}

/// Extract the failed count from a Rust `test result:` line.
/// For "test result: FAILED. 2 passed; 1 failed" it is 1.
pub fn extract_failed_count(line: &str) -> (n: usize)
    ensures
        n == count_before(line@, "failed"@),
{
    let chars = text::chars_of(line);
    extract_count_before(chars.as_slice(), "failed")
}

/// A summary line of the Rust test runner.
pub open spec fn is_test_result(line: Seq<char>) -> bool {
    "test result:"@.is_prefix_of(line)
}

/// A line that is shown outright: the summary of another test runner, or an
/// error of a build.
pub open spec fn is_telling(line: Seq<char>) -> bool {
    ((search::has_sub(line, "passed"@) || search::has_sub(line, "failed"@)) && (search::has_sub(
        line,
        "Tests"@,
    ) || search::has_sub(line, "Test"@))) || "error[E"@.is_prefix_of(line) || "error:"@.is_prefix_of(
        line,
    )
}

/// The line that sums `lines` up, read from their end: the first telling line;
/// else the first test result with failures; else that with the most passed
/// tests, of several the first. `failed` and `best` are those found so far.
pub open spec fn summary(
    lines: Seq<Seq<char>>,
    failed: Option<Seq<char>>,
    best: Option<(Seq<char>, nat)>,
) -> Option<Seq<char>>
    decreases lines.len(),
{
    if lines.len() == 0 {
        match (failed, best) {
            (Some(l), _) => Some(l),
            (None, Some(b)) => Some(b.0),
            (None, None) => None,
        }
    } else {
        let t = text::trimmed(lines.last());
        let rest = lines.drop_last();
        if t.len() == 0 {
            summary(rest, failed, best)
        } else if is_test_result(t) {
            summary(
                rest,
                if failed is None && count_before(t, "failed"@) > 0 {
                    Some(t)
                } else {
                    failed
                },
                match best {
                    None => Some((t, count_before(t, "passed"@))),
                    Some(b) => if count_before(t, "passed"@) > b.1 {
                        Some((t, count_before(t, "passed"@)))
                    } else {
                        best
                    },
                },
            )
        } else if is_telling(t) {
            Some(t)
        } else {
            summary(rest, failed, best)
        }
    }
}

/// A test result with failures is shown whatever else passed, unless another
/// line tells more.
pub proof fn lemma_failures_surface(
    lines: Seq<Seq<char>>,
    failed: Seq<char>,
    best: Option<(Seq<char>, nat)>,
)
    requires
        forall|i: int|
            0 <= i < lines.len() ==> is_test_result(text::trimmed(#[trigger] lines[i]))
                || !is_telling(text::trimmed(lines[i])),
    ensures
        summary(lines, Some(failed), best) == Some(failed),
    decreases lines.len(),
{
    if lines.len() > 0 {
        let t = text::trimmed(lines.last());
        let rest = lines.drop_last();
        assert forall|i: int| 0 <= i < rest.len() implies is_test_result(
            text::trimmed(#[trigger] rest[i]),
        ) || !is_telling(text::trimmed(rest[i])) by {
            assert(rest[i] == lines[i]);
        }
        let next = match best {
            None => Some((t, count_before(t, "passed"@))),
            Some(b) => if count_before(t, "passed"@) > b.1 {
                Some((t, count_before(t, "passed"@)))
            } else {
                best
            },
        };
        lemma_failures_surface(rest, failed, best);
        lemma_failures_surface(rest, failed, next);
        assert(lines[lines.len() - 1] == lines.last());
    }
}

fn is_telling_line(t: &[char]) -> (r: bool)
    ensures
        r == is_telling(t@),
{
    ((search::contains_sub(t, "passed") || search::contains_sub(t, "failed")) && (
    search::contains_sub(t, "Tests") || search::contains_sub(t, "Test"))) || text::starts_with(
        t,
        "error[E",
    ) || text::starts_with(t, "error:")
}

/// What a found line and its count stand for.
pub open spec fn best_view(best: Option<(String, usize)>) -> Option<(Seq<char>, nat)> {
    match best {
        Some(b) => Some((b.0@, b.1 as nat)),
        None => None,
    }
}

fn find_summary(lines: &[&[char]]) -> (r: Option<String>)
    ensures
        text::opt_text(r) == summary(text::views(lines@), None, None),
{
    let ghost all = text::views(lines@);
    let mut failed: Option<String> = None;
    let mut best: Option<(String, usize)> = None;
    let mut i: usize = lines.len();
    assert(all.take(i as int) =~= all);
    while i > 0
        invariant
            all == text::views(lines@),
            i <= lines@.len(),
            summary(all, None, None) == summary(
                all.take(i as int),
                text::opt_text(failed),
                best_view(best),
            ),
        decreases i,
    {
        proof {
            assert(all.take(i as int).drop_last() =~= all.take(i - 1));
            assert(all.take(i as int).last() == lines@[i - 1]@);
        }
        i -= 1;
        let t = text::trim(lines[i]);
        if t.len() == 0 {
        } else if text::starts_with(t, "test result:") {
            let count = extract_count_before(t, "passed");
            if failed.is_none() && extract_count_before(t, "failed") > 0 {
                failed = Some(text::string_of(t));
            }
            let better = match &best {
                None => true,
                Some(b) => count > b.1,
            };
            if better {
                best = Some((text::string_of(t), count));
            }
        } else if is_telling_line(t) {
            return Some(text::string_of(t));
        }
    }
    assert(all.take(0) =~= seq![]);
    match failed {
        Some(l) => Some(l),
        None => match best {
            Some((l, _)) => Some(l),
            None => None,
        },
    }
}

/// The last line that holds more than white space, trimmed.
pub open spec fn last_filled(lines: Seq<Seq<char>>) -> Option<Seq<char>>
    decreases lines.len(),
{
    if lines.len() == 0 {
        None
    } else if text::trimmed(lines.last()).len() > 0 {
        Some(text::trimmed(lines.last()))
    } else {
        last_filled(lines.drop_last())
    }
}

fn find_last_filled(lines: &[&[char]]) -> (r: Option<String>)
    ensures
        text::opt_text(r) == last_filled(text::views(lines@)),
{
    let ghost all = text::views(lines@);
    let mut i: usize = lines.len();
    assert(all.take(i as int) =~= all);
    while i > 0
        invariant
            all == text::views(lines@),
            i <= lines@.len(),
            last_filled(all) == last_filled(all.take(i as int)),
        decreases i,
    {
        proof {
            assert(all.take(i as int).drop_last() =~= all.take(i - 1));
            assert(all.take(i as int).last() == lines@[i - 1]@);
        }
        i -= 1;
        let t = text::trim(lines[i]);
        if t.len() != 0 {
            return Some(text::string_of(t));
        }
    }
    None
}

/// The last lines, at most [`SUMMARY_LINES`].
pub open spec fn tail_of(lines: Seq<Seq<char>>) -> Seq<Seq<char>> {
    if lines.len() <= SUMMARY_LINES {
        lines
    } else {
        lines.skip(lines.len() - SUMMARY_LINES)
    }
}

/// The line that stands for lines that are no diff.
pub open spec fn plain_line_shown(lines: Seq<Seq<char>>) -> Option<Seq<char>> {
    match summary(tail_of(lines), None, None) {
        Some(l) => Some(l),
        None => last_filled(lines),
    }
}

/// The line that stands for content.
pub open spec fn line_shown(content: Seq<char>) -> Option<Seq<char>> {
    let lines = pieces::lines_of(content);
    if is_diff(content) && diff_path_shown(lines) is Some {
        diff_path_shown(lines)
    } else {
        plain_line_shown(lines)
    }
}

/// The preview of content.
pub open spec fn preview_of(content: Seq<char>) -> Seq<char> {
    match line_shown(content) {
        Some(l) => truncated(l),
        None => seq![],
    }
}

/// Extract a one-line preview from captured content.
///
/// Strategy:
/// - For unified diffs: show the first non-generated `+++ b/` file path.
/// - Otherwise: scan the last lines for common summary patterns (test results,
///   error counts, pass/fail). If none found, use the last non-empty line.
///
/// For Rust `test result:` lines, one with failures wins; otherwise the one with
/// the highest `passed` count rather than the last occurrence (which is
/// typically the doc-tests binary with 0 tests).
pub fn extract_preview(content: &str) -> (r: String)
    ensures
        r@ == preview_of(content@),
{
    let chars = text::chars_of(content);
    let lines = pieces::split_lines(chars.as_slice());
    if is_unified_diff(content) {
        if let Some(path) = find_diff_path(lines.as_slice()) {
            return truncate_preview(path.as_str());
        }
    }
    let n = lines.len();
    let start = if n <= SUMMARY_LINES {
        0
    } else {
        n - SUMMARY_LINES
    };
    let tail = slice_subrange(lines.as_slice(), start, n);
    proof {
        assert(text::views(tail@) =~= tail_of(text::views(lines@)));
    }
    let shown = match find_summary(tail) {
        Some(l) => Some(l),
        None => find_last_filled(lines.as_slice()),
    };
    match shown {
        Some(l) => truncate_preview(l.as_str()),
        None => {
            let none = String::new();
            assert(none@ =~= seq![]);
            none
        },
    }
}

// ---------------------------------------------------------------------------
// Files of a diff
// ---------------------------------------------------------------------------

/// The files of a diff.
#[derive(Debug)]
pub struct DiffFileInfo {
    pub file_count: usize,
    /// (path, hunk_count, is_binary) sorted by hunk count descending, top 3.
    pub top_files: Vec<(String, usize, bool)>,
}

/// How far a diff has been read: the files that are complete and the one being
/// read, each with its hunks and whether it is binary.
pub struct DiffTally {
    pub done: Seq<(Seq<char>, nat, bool)>,
    pub file: Option<(Seq<char>, nat, bool)>,
}

/// The files of a diff that has been read to here.
pub open spec fn tally_files(t: DiffTally) -> Seq<(Seq<char>, nat, bool)> {
    match t.file {
        Some(f) => t.done.push(f),
        None => t.done,
    }
}

/// The tally after one more line.
pub open spec fn tally_step(t: DiffTally, line: Seq<char>) -> DiffTally {
    if "diff --git "@.is_prefix_of(line) {
        DiffTally { done: tally_files(t), file: Some((diff::diff_path(line), 0, false)) }
    } else {
        match t.file {
            Some(f) => if "@@ "@.is_prefix_of(line) {
                DiffTally { done: t.done, file: Some((f.0, f.1 + 1, f.2)) }
            } else if "Binary files "@.is_prefix_of(line) && " differ"@.is_suffix_of(line) {
                DiffTally { done: t.done, file: Some((f.0, f.1, true)) }
            } else {
                t
            },
            None => t,
        }
    }
}

/// The tally of lines.
pub open spec fn diff_tally(lines: Seq<Seq<char>>) -> DiffTally
    decreases lines.len(),
{
    if lines.len() == 0 {
        DiffTally { done: seq![], file: None }
    } else {
        tally_step(diff_tally(lines.drop_last()), lines.last())
    }
}

/// The files of a diff with their hunks, in the order in which they come.
pub open spec fn files_of_diff(content: Seq<char>) -> Seq<(Seq<char>, nat, bool)> {
    tally_files(diff_tally(pieces::lines_of(content)))
}

/// The first of `s`, at most [`TOP_FILES`].
pub open spec fn top<T>(s: Seq<T>) -> Seq<T> {
    if s.len() <= TOP_FILES {
        s
    } else {
        s.take(TOP_FILES as int)
    }
}

/// What the state of a tally stands for.
pub open spec fn tally_view(
    done: Seq<(String, usize, bool)>,
    file: Option<(String, usize, bool)>,
) -> DiffTally {
    DiffTally {
        done: order::flagged_views(done),
        file: match file {
            Some(f) => Some(order::flagged_view(f)),
            None => None,
        },
    }
}

/// Analyze unified diff output for file distribution and hunk counts.
///
/// Scans for `diff --git a/X b/Y` headers to extract file paths (using the `b/`
/// side), and counts `@@` lines between consecutive headers as hunks per file.
/// Detects binary files via `Binary files ... differ` lines between headers.
/// Returns the top files by hunk count.
pub fn analyze_diff_files(content: &str) -> (r: DiffFileInfo)
    ensures
        r.file_count == files_of_diff(content@).len(),
        order::flagged_views(r.top_files@) == top(
            order::flagged_ranked(files_of_diff(content@)),
        ),
{
    let chars = text::chars_of(content);
    let lines = pieces::split_lines(chars.as_slice());
    let ghost all = pieces::lines_of(content@);
    let mut done: Vec<(String, usize, bool)> = Vec::new();
    let mut current: Option<(String, usize, bool)> = None;
    let mut i: usize = 0;
    assert(all.take(0) =~= seq![]);
    assert(order::flagged_views(done@) =~= seq![]);
    while i < lines.len()
        invariant
            all == text::views(lines@),
            i <= lines@.len(),
            current matches Some(f) ==> f.1 <= i,
            tally_view(done@, current) == diff_tally(all.take(i as int)),
        decreases lines@.len() - i,
    {
        let ghost before = tally_view(done@, current);
        proof {
            assert(all.take(i + 1).drop_last() =~= all.take(i as int));
            assert(all.take(i + 1).last() == lines@[i as int]@);
        }
        let line = lines[i];
        if text::starts_with(line, "diff --git ") {
            let ghost kept = order::flagged_views(done@);
            if let Some(file) = current {
                done.push(file);
                assert(order::flagged_views(done@) =~= kept.push(order::flagged_view(file)));
            }
            let header = text::string_of(line);
            current = Some((diff::extract_diff_path(header.as_str()), 0, false));
        } else if let Some(file) = current {
            if text::starts_with(line, "@@ ") {
                current = Some((file.0, file.1 + 1, file.2));
            } else if text::starts_with(line, "Binary files ") && text::ends_with(
                line,
                " differ",
            ) {
                current = Some((file.0, file.1, true));
            } else {
                current = Some(file);
            }
        }
        assert(tally_view(done@, current) == tally_step(before, line@));
        i += 1;
    }
    assert(all.take(i as int) =~= all);
    let ghost kept = order::flagged_views(done@);
    if let Some(file) = current {
        done.push(file);
        assert(order::flagged_views(done@) =~= kept.push(order::flagged_view(file)));
    }
    let file_count = done.len();
    assert(order::flagged_views(done@).len() == done@.len());
    let mut ranking = order::rank_flagged(done);
    let ghost whole = order::flagged_views(ranking@);
    if ranking.len() > TOP_FILES {
        ranking.truncate(TOP_FILES);
        assert(order::flagged_views(ranking@) =~= whole.take(TOP_FILES as int));
    }
    DiffFileInfo { file_count, top_files: ranking }
}

// ---------------------------------------------------------------------------
// Files of grep-like output
// ---------------------------------------------------------------------------

/// The files of grep-like output.
#[derive(Debug)]
pub struct GrepFileInfo {
    pub file_count: usize,
    pub top_files: Vec<(String, usize)>,
}

/// The file of a line of the form `file:digits:`.
pub open spec fn match_file(line: Seq<char>) -> Option<Seq<char>> {
    match search::char_index(line, ':') {
        Some(k) => {
            let after = line.skip(k + 1);
            match search::char_index(after, ':') {
                Some(j) => if j > 0 && number::all_digits(after.take(j)) {
                    Some(line.take(k))
                } else {
                    None
                },
                None => None,
            }
        },
        None => None,
    }
}

/// The number of lines that hold more than white space.
pub open spec fn filled_count(lines: Seq<Seq<char>>) -> nat
    decreases lines.len(),
{
    if lines.len() == 0 {
        0
    } else if text::trimmed(lines.last()).len() == 0 {
        filled_count(lines.drop_last())
    } else {
        filled_count(lines.drop_last()) + 1
    }
}

/// The files of the lines of the form `file:digits:`, once per line.
pub open spec fn match_files(lines: Seq<Seq<char>>) -> Seq<Seq<char>>
    decreases lines.len(),
{
    if lines.len() == 0 {
        seq![]
    } else {
        let t = text::trimmed(lines.last());
        match match_file(t) {
            Some(f) => if t.len() == 0 {
                match_files(lines.drop_last())
            } else {
                match_files(lines.drop_last()).push(f)
            },
            None => match_files(lines.drop_last()),
        }
    }
}

/// Enough of the lines look like matches of grep.
pub open spec fn is_grep_like(content: Seq<char>) -> bool {
    let lines = pieces::lines_of(content);
    let total = filled_count(lines);
    total > 0 && match_files(lines).len() * 100 / total >= GREP_PERCENT as nat
}

/// The files of grep-like output with their matches; none of other output.
pub open spec fn files_of_grep(content: Seq<char>) -> Seq<(Seq<char>, nat)> {
    if is_grep_like(content) {
        tally::counted(match_files(pieces::lines_of(content)))
    } else {
        seq![]
    }
}

fn find_match_file(t: &[char]) -> (r: Option<String>)
    ensures
        text::opt_text(r) == match_file(t@),
{
    let n = t.len();
    proof {
        search::lemma_char_index(t@, ':');
    }
    match search::find_char(t, ':') {
        Some(k) => {
            let after = slice_subrange(t, k + 1, n);
            assert(after@ =~= t@.skip(k + 1));
            proof {
                search::lemma_char_index(after@, ':');
            }
            match search::find_char(after, ':') {
                Some(j) => {
                    let between = slice_subrange(after, 0, j);
                    assert(between@ =~= after@.take(j as int));
                    if j > 0 && number::only_digits(between) {
                        let file = slice_subrange(t, 0, k);
                        assert(file@ =~= t@.take(k as int));
                        Some(text::string_of(file))
                    } else {
                        None
                    }
                },
                None => None,
            }
        },
        None => None,
    }
}

/// Analyze grep-like output for file distribution.
///
/// Returns file count and top files by match count. Returns zero/empty if fewer
/// than [`GREP_PERCENT`] percent of lines match the `file:digits:` pattern.
pub fn analyze_grep_files(content: &str) -> (r: GrepFileInfo)
    ensures
        r.file_count == files_of_grep(content@).len(),
        order::entries_view(r.top_files@) == top(order::ranked(files_of_grep(content@))),
{
    let chars = text::chars_of(content);
    let lines = pieces::split_lines(chars.as_slice());
    let ghost all = pieces::lines_of(content@);
    let mut counts = tally::Tally::new();
    let mut total: usize = 0;
    let mut matched: usize = 0;
    let mut i: usize = 0;
    assert(all.take(0) =~= seq![]);
    while i < lines.len()
        invariant
            all == text::views(lines@),
            i <= lines@.len(),
            total <= i,
            matched <= i,
            total == filled_count(all.take(i as int)),
            matched == match_files(all.take(i as int)).len(),
            counts.wf(),
            counts.total() <= i,
            counts.entries() == tally::counted(match_files(all.take(i as int))),
        decreases lines@.len() - i,
    {
        proof {
            assert(all.take(i + 1).drop_last() =~= all.take(i as int));
            assert(all.take(i + 1).last() == lines@[i as int]@);
        }
        let t = text::trim(lines[i]);
        if t.len() != 0 {
            total += 1;
            if let Some(file) = find_match_file(t) {
                proof {
                    let names = match_files(all.take(i as int));
                    assert(names.push(file@).drop_last() =~= names);
                }
                counts.bump(file);
                matched += 1;
            }
        }
        i += 1;
    }
    assert(all.take(i as int) =~= all);
    let none: Vec<(String, usize)> = Vec::new();
    if total == 0 || (matched as u128) * 100 / (total as u128) < GREP_PERCENT {
        proof {
            assert(order::entries_view(none@) =~= seq![]);
            assert(files_of_grep(content@) =~= seq![]);
            assert(order::ranked(seq![]) =~= seq![]);
        }
        return GrepFileInfo { file_count: 0, top_files: none };
    }
    let entries = counts.into_entries();
    let file_count = entries.len();
    assert(order::entries_view(entries@).len() == entries@.len());
    let mut ranking = order::rank(entries);
    let ghost whole = order::entries_view(ranking@);
    if ranking.len() > TOP_FILES {
        ranking.truncate(TOP_FILES);
        assert(order::entries_view(ranking@) =~= whole.take(TOP_FILES as int));
    }
    GrepFileInfo { file_count, top_files: ranking }
}

} // verus!
