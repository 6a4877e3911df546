//! Views of stored content by file.

use crate::compress;
use crate::compress::diff;
use crate::error::CtxlError;
use crate::pieces;
use crate::retrieve::window;
use crate::search;
use crate::settings;
use crate::text;
use vstd::prelude::*;
use vstd::slice::*;
use vstd::string::*;

verus! {

// ---------------------------------------------------------------------------
// Paths
// ---------------------------------------------------------------------------

/// The path in a line of grep output; the whole line where it holds no colon
/// that ends one.
pub open spec fn line_path(line: Seq<char>) -> Seq<char> {
    let t = text::trimmed(line);
    match compress::path_end(t) {
        Some(k) => t.take(k),
        None => t,
    }
}

/// Extract the file path from a grep output line.
///
/// - `content` mode: `file:line:text` gives `file`
/// - `count` mode: `file:count` gives `file`
/// - `files_with_matches` mode: the line is the file path
pub fn extract_grep_line_path<'a>(line: &'a [char]) -> (r: &'a [char])
    ensures
        r@ == line_path(line@),
{
    let t = text::trim(line);
    match compress::path_colon(t) {
        Some(k) => {
            let path = slice_subrange(t, 0, k);
            assert(path@ =~= t@.take(k as int));
            path
        },
        None => t,
    }
}

/// A path without the `./` in front of it.
pub open spec fn without_dot(path: Seq<char>) -> Seq<char> {
    if "./"@.is_prefix_of(path) {
        path.skip(2)
    } else {
        path
    }
}

fn strip_dot<'a>(path: &'a [char]) -> (r: &'a [char])
    ensures
        r@ == without_dot(path@),
{
    let n = path.len();
    if text::starts_with(path, "./") {
        proof {
            reveal_strlit("./");
        }
        let rest = slice_subrange(path, 2, n);
        assert(rest@ =~= path@.skip(2));
        rest
    } else {
        path
    }
}

/// The path is the one asked for, or ends in it behind a separator.
pub open spec fn is_file(stored: Seq<char>, filter: Seq<char>) -> bool {
    let s = without_dot(stored);
    let f = without_dot(filter);
    s == f || (f.is_suffix_of(s) && s.len() > f.len() && (s[s.len() - f.len() - 1] == '/' || s[s.len()
        - f.len() - 1] == '\\'))
}

fn is_file_chars(stored: &[char], filter: &[char]) -> (r: bool)
    ensures
        r == is_file(stored@, filter@),
{
    let s = strip_dot(stored);
    let f = strip_dot(filter);
    if text::same_chars(s, f) {
        return true;
    }
    let n = s.len();
    let m = f.len();
    if n <= m {
        return false;
    }
    let tail = slice_subrange(s, n - m, n);
    proof {
        assert(f@.is_suffix_of(s@) <==> tail@ =~= f@);
    }
    text::same_chars(tail, f) && (s[n - m - 1] == '/' || s[n - m - 1] == '\\')
}

/// Match a stored path against a file that a user asks for.
///
/// Supports both exact match and suffix match: a relative path like `src/lib.rs`
/// matches a stored absolute path `/Users/alex/project/src/lib.rs` as long as
/// the character preceding the suffix is a separator.
///
/// Strips `./` prefix from both sides before comparison so that `./src/lib.rs`
/// matches `src/lib.rs` and vice versa.
pub fn path_matches_file(stored: &str, filter: &str) -> (r: bool)
    ensures
        r == is_file(stored@, filter@),
{
    let s = text::chars_of(stored);
    let f = text::chars_of(filter);
    is_file_chars(s.as_slice(), f.as_slice())
}

// ---------------------------------------------------------------------------
// Globs
// ---------------------------------------------------------------------------

/// `s` matches `pattern`: `*` stands for any characters but `/`, and every other
/// character for itself.
pub open spec fn globs(s: Seq<char>, pattern: Seq<char>) -> bool
    decreases pattern.len(), s.len(),
{
    if pattern.len() == 0 {
        s.len() == 0
    } else if pattern[0] == '*' {
        globs(s, pattern.skip(1)) || (s.len() > 0 && s[0] != '/' && globs(s.skip(1), pattern))
    } else {
        s.len() > 0 && s[0] == pattern[0] && globs(s.skip(1), pattern.skip(1))
    }
}

fn glob_from(s: &[char], i: usize, pattern: &[char], j: usize) -> (r: bool)
    requires
        i <= s@.len(),
        j <= pattern@.len(),
    ensures
        r == globs(s@.skip(i as int), pattern@.skip(j as int)),
    decreases pattern@.len() - j,
{
    let ghost rest = s@.skip(i as int);
    let ghost p = pattern@.skip(j as int);
    if j == pattern.len() {
        return i == s.len();
    }
    proof {
        assert(p[0] == pattern@[j as int]);
        assert(p.skip(1) =~= pattern@.skip(j + 1));
    }
    if pattern[j] == '*' {
        let next = j + 1;
        let mut k: usize = i;
        while k < s.len()
            invariant
                next == j + 1,
                i <= k <= s@.len(),
                j < pattern@.len(),
                pattern@[j as int] == '*',
                p == pattern@.skip(j as int),
                p[0] == '*',
                p.skip(1) == pattern@.skip(j + 1),
                globs(s@.skip(i as int), p) == globs(s@.skip(k as int), p),
            decreases s@.len() - k,
        {
            let ghost here = s@.skip(k as int);
            assert(here[0] == s@[k as int]);
            assert(here.skip(1) =~= s@.skip(k + 1));
            if glob_from(s, k, pattern, next) {
                return true;
            }
            if s[k] == '/' {
                return false;
            }
            k += 1;
        }
        assert(s@.skip(k as int).len() == 0);
        glob_from(s, k, pattern, next)
    } else {
        if i == s.len() || s[i] != pattern[j] {
            if i < s.len() {
                assert(rest[0] == s@[i as int]);
            }
            return false;
        }
        assert(rest[0] == s@[i as int]);
        assert(rest.skip(1) =~= s@.skip(i + 1));
        glob_from(s, i + 1, pattern, j + 1)
    }
}

/// Whether `haystack` matches `pattern`: `*` matches any sequence of chars
/// except `/`.
pub fn glob_match(haystack: &[char], pattern: &[char]) -> (r: bool)
    ensures
        r == globs(haystack@, pattern@),
{
    assert(haystack@.skip(0) =~= haystack@);
    assert(pattern@.skip(0) =~= pattern@);
    glob_from(haystack, 0, pattern, 0)
}

/// The path matches the pattern: the whole path where the pattern holds a `/`,
/// its last part where it does not.
pub open spec fn path_globs(path: Seq<char>, pattern: Seq<char>) -> bool {
    if pattern.contains('/') {
        globs(path, pattern)
    } else {
        globs(search::after_last(path, '/'), pattern)
    }
}

fn path_globs_chars(path: &[char], pattern: &[char]) -> (r: bool)
    ensures
        r == path_globs(path@, pattern@),
{
    if search::has_char(pattern, '/') {
        glob_match(path, pattern)
    } else {
        glob_match(search::rest_after_last(path, '/'), pattern)
    }
}

/// Match a file path against a simple glob pattern.
///
/// Supports `*` (matches any sequence of characters except `/`) and literal
/// characters. Does **not** support `**` (recursive glob). A pattern without a
/// `/`, such as `*.rs`, is matched against the last part of the path.
pub fn matches_glob(path: &str, pattern: &str) -> (r: bool)
    ensures
        r == path_globs(path@, pattern@),
{
    let p = text::chars_of(path);
    let g = text::chars_of(pattern);
    path_globs_chars(p.as_slice(), g.as_slice())
}

/// A star does not reach into another directory: what matches a pattern without
/// `/` holds none.
pub proof fn lemma_star_keeps_directory(s: Seq<char>, pattern: Seq<char>)
    requires
        globs(s, pattern),
        !pattern.contains('/'),
    ensures
        !s.contains('/'),
    decreases pattern.len(), s.len(),
{
    if pattern.len() > 0 {
        let rest = pattern.skip(1);
        assert(pattern.contains(pattern[0]));
        assert(!rest.contains('/')) by {
            if rest.contains('/') {
                let k = choose|k: int| 0 <= k < rest.len() && rest[k] == '/';
                assert(pattern[k + 1] == '/');
            }
        }
        if pattern[0] == '*' && globs(s, rest) {
            lemma_star_keeps_directory(s, rest);
        } else {
            let tail = s.skip(1);
            if pattern[0] == '*' {
                lemma_star_keeps_directory(tail, pattern);
            } else {
                lemma_star_keeps_directory(tail, rest);
            }
            if s.contains('/') {
                let k = choose|k: int| 0 <= k < s.len() && s[k] == '/';
                if k > 0 {
                    assert(tail[k - 1] == '/');
                }
            }
        }
    }
}

/// A pattern without a star matches itself and nothing else.
pub proof fn lemma_literal_glob(s: Seq<char>, pattern: Seq<char>)
    requires
        !pattern.contains('*'),
    ensures
        globs(s, pattern) <==> s == pattern,
    decreases pattern.len(),
{
    if pattern.len() == 0 {
        if s.len() == 0 {
            assert(s =~= pattern);
        }
    } else {
        assert(pattern.contains(pattern[0]));
        let rest = pattern.skip(1);
        assert(!rest.contains('*')) by {
            if rest.contains('*') {
                let k = choose|k: int| 0 <= k < rest.len() && rest[k] == '*';
                assert(pattern[k + 1] == '*');
            }
        }
        if s.len() > 0 {
            lemma_literal_glob(s.skip(1), rest);
            if s.skip(1) == rest && s[0] == pattern[0] {
                assert(s =~= seq![s[0]] + s.skip(1));
                assert(pattern =~= seq![pattern[0]] + rest);
            }
        }
    }
}

// ---------------------------------------------------------------------------
// Selection
// ---------------------------------------------------------------------------

/// Some of the patterns matches.
pub open spec fn any_globs(path: Seq<char>, patterns: Seq<Seq<char>>) -> bool {
    exists|i: int| 0 <= i < patterns.len() && path_globs(path, #[trigger] patterns[i])
}

/// The path is selected: it is the file asked for, or else matches the pattern
/// asked for, and no pattern leaves it out.
pub open spec fn is_selected(
    path: Seq<char>,
    file: Option<Seq<char>>,
    glob: Option<Seq<char>>,
    exclude: Seq<Seq<char>>,
) -> bool {
    (match (file, glob) {
        (Some(f), _) => is_file(path, f),
        (None, Some(g)) => path_globs(path, g),
        (None, None) => true,
    }) && !any_globs(path, exclude)
}

fn matches_any(path: &[char], patterns: &[String]) -> (r: bool)
    ensures
        r == any_globs(path@, text::texts(patterns@)),
{
    let ghost all = text::texts(patterns@);
    let mut i: usize = 0;
    while i < patterns.len()
        invariant
            all == text::texts(patterns@),
            i <= patterns@.len(),
            forall|j: int| 0 <= j < i ==> !path_globs(path@, #[trigger] all[j]),
        decreases patterns@.len() - i,
    {
        let pattern = text::chars_of(patterns[i].as_str());
        if path_globs_chars(path, pattern.as_slice()) {
            assert(path_globs(path@, all[i as int]));
            return true;
        }
        i += 1;
    }
    false
}

fn selects(path: &[char], file: Option<&str>, glob: Option<&str>, exclude: &[String]) -> (r: bool)
    ensures
        r == is_selected(
            path@,
            settings::env_view(file),
            settings::env_view(glob),
            text::texts(exclude@),
        ),
{
    let included = match file {
        Some(f) => {
            let filter = text::chars_of(f);
            is_file_chars(path, filter.as_slice())
        },
        None => match glob {
            Some(g) => {
                let pattern = text::chars_of(g);
                path_globs_chars(path, pattern.as_slice())
            },
            None => true,
        },
    };
    included && !matches_any(path, exclude)
}

// ---------------------------------------------------------------------------
// Grep output
// ---------------------------------------------------------------------------

/// The lines whose paths are selected.
pub open spec fn selected_lines(
    lines: Seq<Seq<char>>,
    file: Option<Seq<char>>,
    glob: Option<Seq<char>>,
    exclude: Seq<Seq<char>>,
) -> Seq<Seq<char>>
    decreases lines.len(),
{
    if lines.len() == 0 {
        seq![]
    } else if is_selected(line_path(lines.last()), file, glob, exclude) {
        selected_lines(lines.drop_last(), file, glob, exclude).push(lines.last())
    } else {
        selected_lines(lines.drop_last(), file, glob, exclude)
    }
}

/// Grep output cut down to the selected files.
pub open spec fn filtered_grep(
    content: Seq<char>,
    file: Option<Seq<char>>,
    glob: Option<Seq<char>>,
    exclude: Seq<Seq<char>>,
) -> Seq<char> {
    let joined = pieces::joined(
        selected_lines(pieces::lines_of(content), file, glob, exclude),
        "\n"@,
    );
    if joined.len() > 0 && window::ends_line(content) {
        joined + "\n"@
    } else {
        joined
    }
}

/// Filter grep content by file path include/exclude patterns.
pub fn filter_grep_content(
    content: &str,
    file: Option<&str>,
    glob: Option<&str>,
    exclude: &[String],
) -> (out: String)
    ensures
        out@ == filtered_grep(
            content@,
            settings::env_view(file),
            settings::env_view(glob),
            text::texts(exclude@),
        ),
{
    let chars = text::chars_of(content);
    let lines = pieces::split_lines(chars.as_slice());
    let ghost all = pieces::lines_of(content@);
    let ghost f = settings::env_view(file);
    let ghost g = settings::env_view(glob);
    let ghost x = text::texts(exclude@);
    let mut kept: Vec<&[char]> = Vec::new();
    let mut i: usize = 0;
    assert(all.take(0) =~= seq![]);
    assert(text::views(kept@) =~= seq![]);
    while i < lines.len()
        invariant
            all == text::views(lines@),
            f == settings::env_view(file),
            g == settings::env_view(glob),
            x == text::texts(exclude@),
            i <= lines@.len(),
            text::views(kept@) == selected_lines(all.take(i as int), f, g, x),
        decreases lines@.len() - i,
    {
        proof {
            assert(all.take(i + 1).drop_last() =~= all.take(i as int));
            assert(all.take(i + 1).last() == lines@[i as int]@);
        }
        let path = extract_grep_line_path(lines[i]);
        if selects(path, file, glob, exclude) {
            let ghost before = text::views(kept@);
            kept.push(lines[i]);
            assert(text::views(kept@) =~= before.push(lines@[i as int]@));
        }
        i += 1;
    }
    assert(all.take(i as int) =~= all);
    let mut out = pieces::join(kept.as_slice(), "\n");
    if out.as_str().unicode_len() > 0 && chars.len() > 0 && chars[chars.len() - 1] == '\n' {
        out.append("\n");
    }
    out
}

// ---------------------------------------------------------------------------
// Diffs
// ---------------------------------------------------------------------------

/// The line starts the section of a file.
pub open spec fn is_header(line: Seq<char>) -> bool {
    "diff --git "@.is_prefix_of(line)
}

/// The first header from `i` on, or the end.
pub open spec fn next_header(lines: Seq<Seq<char>>, i: int) -> int
    decreases lines.len() - i,
{
    if i < 0 || i >= lines.len() || is_header(lines[i]) {
        i
    } else {
        next_header(lines, i + 1)
    }
}

proof fn lemma_next_header(lines: Seq<Seq<char>>, i: int)
    requires
        0 <= i <= lines.len(),
    ensures
        i <= next_header(lines, i) <= lines.len(),
    decreases lines.len() - i,
{
    if i < lines.len() && !is_header(lines[i]) {
        lemma_next_header(lines, i + 1);
    }
}

/// The path of a `+++` line, where it is one.
pub open spec fn plus_path(line: Seq<char>) -> Option<Seq<char>> {
    if "+++ b/"@.is_prefix_of(line) {
        Some(line.skip(6))
    } else if "+++ "@.is_prefix_of(line) {
        Some(line.skip(4))
    } else {
        None
    }
}

/// The path of the first `+++` line of `lines`.
pub open spec fn first_plus_path(lines: Seq<Seq<char>>) -> Option<Seq<char>>
    decreases lines.len(),
{
    if lines.len() == 0 {
        None
    } else {
        match first_plus_path(lines.drop_last()) {
            Some(p) => Some(p),
            None => plus_path(lines.last()),
        }
    }
}

/// The path of a section: that of its first `+++` line, unless that is nothing
/// or `/dev/null`; else that of its header.
pub open spec fn section_path(lines: Seq<Seq<char>>) -> Seq<char> {
    match first_plus_path(lines) {
        Some(p) => if p != "/dev/null"@ && p.len() > 0 {
            p
        } else {
            diff::diff_path(lines[0])
        },
        None => diff::diff_path(lines[0]),
    }
}

/// Lines, each with a line break.
pub open spec fn ended_lines(lines: Seq<Seq<char>>) -> Seq<char>
    decreases lines.len(),
{
    if lines.len() == 0 {
        seq![]
    } else {
        ended_lines(lines.drop_last()) + lines.last() + "\n"@
    }
}

/// The selected sections from the header at `i` on.
pub open spec fn sections_from(
    lines: Seq<Seq<char>>,
    i: int,
    file: Option<Seq<char>>,
    glob: Option<Seq<char>>,
    exclude: Seq<Seq<char>>,
) -> Seq<char>
    decreases lines.len() - i,
    via sections_from_decreases
{
    if i < 0 || i >= lines.len() {
        seq![]
    } else {
        let end = next_header(lines, i + 1);
        let section = lines.subrange(i, end);
        let rest = sections_from(lines, end, file, glob, exclude);
        if is_selected(section_path(section), file, glob, exclude) {
            ended_lines(section) + rest
        } else {
            rest
        }
    }
}

#[via_fn]
proof fn sections_from_decreases(
    lines: Seq<Seq<char>>,
    i: int,
    file: Option<Seq<char>>,
    glob: Option<Seq<char>>,
    exclude: Seq<Seq<char>>,
) {
    if 0 <= i < lines.len() {
        lemma_next_header(lines, i + 1);
    }
}

/// A diff cut down to the selected files.
pub open spec fn filtered_diff(
    content: Seq<char>,
    file: Option<Seq<char>>,
    glob: Option<Seq<char>>,
    exclude: Seq<Seq<char>>,
) -> Seq<char> {
    let lines = pieces::lines_of(content);
    sections_from(lines, next_header(lines, 0), file, glob, exclude)
}

fn find_header(lines: &[&[char]], from: usize) -> (r: usize)
    requires
        from <= lines@.len(),
    ensures
        from <= r <= lines@.len(),
        r == next_header(text::views(lines@), from as int),
{
    let ghost all = text::views(lines@);
    let mut i: usize = from;
    while i < lines.len() && !text::starts_with(lines[i], "diff --git ")
        invariant
            all == text::views(lines@),
            from <= i <= lines@.len(),
            next_header(all, from as int) == next_header(all, i as int),
        decreases lines@.len() - i,
    {
        i += 1;
    }
    i
}

fn find_section_path(lines: &[&[char]]) -> (r: String)
    requires
        lines@.len() > 0,
    ensures
        r@ == section_path(text::views(lines@)),
{
    let ghost all = text::views(lines@);
    let mut found: Option<String> = None;
    let mut i: usize = 0;
    assert(all.take(0) =~= seq![]);
    proof {
        reveal_strlit("+++ b/");
        reveal_strlit("+++ ");
    }
    while i < lines.len() && found.is_none()
        invariant
            all == text::views(lines@),
            "+++ b/"@.len() == 6,
            "+++ "@.len() == 4,
            i <= lines@.len(),
            text::opt_text(found) == first_plus_path(all.take(i as int)),
        decreases lines@.len() - i,
    {
        proof {
            assert(all.take(i + 1).drop_last() =~= all.take(i as int));
            assert(all.take(i + 1).last() == lines@[i as int]@);
        }
        let line = lines[i];
        let n = line.len();
        if text::starts_with(line, "+++ b/") {
            let rest = slice_subrange(line, 6, n);
            assert(rest@ =~= line@.skip(6));
            found = Some(text::string_of(rest));
        } else if text::starts_with(line, "+++ ") {
            let rest = slice_subrange(line, 4, n);
            assert(rest@ =~= line@.skip(4));
            found = Some(text::string_of(rest));
        }
        i += 1;
    }
    proof {
        lemma_first_plus_path(all, i as int);
    }
    let header = text::string_of(lines[0]);
    match found {
        Some(p) => if !text::same_text(p.as_str(), "/dev/null") && p.as_str().unicode_len() > 0 {
            p
        } else {
            diff::extract_diff_path(header.as_str())
        },
        None => diff::extract_diff_path(header.as_str()),
    }
}

proof fn lemma_first_plus_path(lines: Seq<Seq<char>>, i: int)
    requires
        0 <= i <= lines.len(),
        i == lines.len() || first_plus_path(lines.take(i)) is Some,
    ensures
        first_plus_path(lines) == first_plus_path(lines.take(i)),
    decreases lines.len(),
{
    if i == lines.len() {
        assert(lines.take(i) =~= lines);
    } else {
        assert(lines.drop_last().take(i) =~= lines.take(i));
        lemma_first_plus_path(lines.drop_last(), i);
    }
}

fn push_ended_lines(out: &mut String, lines: &[&[char]])
    ensures
        final(out)@ == old(out)@ + ended_lines(text::views(lines@)),
{
    let ghost start = out@;
    let ghost all = text::views(lines@);
    let mut i: usize = 0;
    assert(all.take(0) =~= seq![]);
    assert(out@ =~= start + ended_lines(all.take(0)));
    while i < lines.len()
        invariant
            all == text::views(lines@),
            i <= lines@.len(),
            out@ == start + ended_lines(all.take(i as int)),
        decreases lines@.len() - i,
    {
        proof {
            assert(all.take(i + 1).drop_last() =~= all.take(i as int));
            assert(all.take(i + 1).last() == lines@[i as int]@);
        }
        text::push_chars(out, lines[i]);
        out.append("\n");
        i += 1;
        assert(out@ =~= start + ended_lines(all.take(i as int)));
    }
    assert(all.take(i as int) =~= all);
}

/// Filter diff content by file path include/exclude patterns.
pub fn filter_diff_content(
    content: &str,
    file: Option<&str>,
    glob: Option<&str>,
    exclude: &[String],
) -> (out: String)
    ensures
        out@ == filtered_diff(
            content@,
            settings::env_view(file),
            settings::env_view(glob),
            text::texts(exclude@),
        ),
{
    let chars = text::chars_of(content);
    let lines = pieces::split_lines(chars.as_slice());
    let ghost all = pieces::lines_of(content@);
    let ghost f = settings::env_view(file);
    let ghost g = settings::env_view(glob);
    let ghost x = text::texts(exclude@);
    let ghost total = filtered_diff(content@, f, g, x);
    let mut out = String::new();
    let mut i: usize = find_header(lines.as_slice(), 0);
    assert(out@ + sections_from(all, i as int, f, g, x) =~= total);
    while i < lines.len()
        invariant
            all == text::views(lines@),
            f == settings::env_view(file),
            g == settings::env_view(glob),
            x == text::texts(exclude@),
            i <= lines@.len(),
            out@ + sections_from(all, i as int, f, g, x) == total,
        decreases lines@.len() - i,
    {
        let end = find_header(lines.as_slice(), i + 1);
        let section = slice_subrange(lines.as_slice(), i, end);
        assert(text::views(section@) =~= all.subrange(i as int, end as int));
        let ghost before = out@;
        let ghost rest = sections_from(all, end as int, f, g, x);
        let path = find_section_path(section);
        let path_chars = text::chars_of(path.as_str());
        if selects(path_chars.as_slice(), file, glob, exclude) {
            push_ended_lines(&mut out, section);
            assert(out@ + rest =~= before + (ended_lines(text::views(section@)) + rest));
        }
        i = end;
    }
    assert(out@ =~= total);
    out
}

// ---------------------------------------------------------------------------
// Showing
// ---------------------------------------------------------------------------

/// Content cut down to the selected files; as it is where nothing is asked for.
pub open spec fn filtered(
    content: Seq<char>,
    file: Option<Seq<char>>,
    glob: Option<Seq<char>>,
    exclude: Seq<Seq<char>>,
) -> Seq<char> {
    if file is None && glob is None && exclude.len() == 0 {
        content
    } else if is_header(content) {
        filtered_diff(content, file, glob, exclude)
    } else {
        filtered_grep(content, file, glob, exclude)
    }
}

/// What is shown of stored content that is cut down to the selected files.
pub open spec fn filtered_view(
    own: Option<String>,
    linked: Option<String>,
    file: Option<Seq<char>>,
    glob: Option<Seq<char>>,
    exclude: Seq<Seq<char>>,
    head: nat,
    offset: nat,
) -> Seq<char> {
    let content = window::content_or(own, linked);
    if own is None && content.len() == 0 {
        seq![]
    } else {
        window::offset_bounded(
            window::skipped(filtered(content, file, glob, exclude), offset),
            head,
            offset,
        )
    }
}

/// Return lines from a stored handle filtered by an exact file path or glob
/// pattern. `stored` is the content of the handle, `None` where there is no such
/// handle; `linked` is the content of the blob that the handle is linked to,
/// where it has no content of its own.
///
/// Filtering is applied to the file-path component of each line, or of each
/// section of a diff, before the result is bounded.
///
/// At most one of `file` and `glob` should be `Some`; `file` wins.
pub fn show_filtered(
    handle: &str,
    stored: Option<Option<String>>,
    linked: Option<String>,
    file: Option<&str>,
    glob: Option<&str>,
    exclude: &[String],
    head: usize,
    offset: usize,
) -> (r: Result<String, CtxlError>)
    ensures
        match r {
            Ok(s) => stored matches Some(own) && s@ == filtered_view(
                own,
                linked,
                settings::env_view(file),
                settings::env_view(glob),
                text::texts(exclude@),
                head as nat,
                offset as nat,
            ),
            Err(e) => stored is None && (e matches CtxlError::HandleNotFound(id) && id@
                == handle@),
        },
{
    let own = match stored {
        Some(own) => own,
        None => {
            return Err(CtxlError::HandleNotFound(handle.to_owned()));
        },
    };
    let owns = own.is_some();
    let content = window::resolve_content(own, linked);
    if !owns && content.as_str().unicode_len() == 0 {
        let none = String::new();
        assert(none@ =~= seq![]);
        return Ok(none);
    }
    assert(text::texts(exclude@).len() == exclude@.len());
    let chars = text::chars_of(content.as_str());
    let kept = if file.is_none() && glob.is_none() && exclude.len() == 0 {
        content
    } else if text::starts_with(chars.as_slice(), "diff --git ") {
        filter_diff_content(content.as_str(), file, glob, exclude)
    } else {
        filter_grep_content(content.as_str(), file, glob, exclude)
    };
    let rest = window::apply_offset(kept.as_str(), offset);
    Ok(window::offset_aware_bound(rest.as_str(), head, offset))
}

/// [`show_filtered`] from the first line on, with nothing left out.
pub fn show_grep_file(
    handle: &str,
    stored: Option<Option<String>>,
    linked: Option<String>,
    file: Option<&str>,
    glob: Option<&str>,
    head: usize,
) -> (r: Result<String, CtxlError>)
    ensures
        match r {
            Ok(s) => stored matches Some(own) && s@ == filtered_view(
                own,
                linked,
                settings::env_view(file),
                settings::env_view(glob),
                seq![],
                head as nat,
                0,
            ),
            Err(e) => stored is None && (e matches CtxlError::HandleNotFound(id) && id@
                == handle@),
        },
{
    let none: Vec<String> = Vec::new();
    assert(text::texts(none@) =~= seq![]);
    show_filtered(handle, stored, linked, file, glob, none.as_slice(), head, 0)
}

// ---------------------------------------------------------------------------
// Laws
// ---------------------------------------------------------------------------

/// Filtering keeps lines as they are, in their order: what it keeps is a part of
/// the lines, each of a selected file.
pub proof fn lemma_filter_keeps(
    lines: Seq<Seq<char>>,
    file: Option<Seq<char>>,
    glob: Option<Seq<char>>,
    exclude: Seq<Seq<char>>,
)
    ensures
        selected_lines(lines, file, glob, exclude).len() <= lines.len(),
        forall|i: int|
            0 <= i < selected_lines(lines, file, glob, exclude).len() ==> {
                let l = #[trigger] selected_lines(lines, file, glob, exclude)[i];
                lines.contains(l) && is_selected(line_path(l), file, glob, exclude)
            },
        forall|l: Seq<char>| #[trigger]
            lines.contains(l) && is_selected(line_path(l), file, glob, exclude)
                ==> selected_lines(lines, file, glob, exclude).contains(l),
    decreases lines.len(),
{
    if lines.len() > 0 {
        let shorter = lines.drop_last();
        let last = lines.last();
        lemma_filter_keeps(shorter, file, glob, exclude);
        let before = selected_lines(shorter, file, glob, exclude);
        let kept = selected_lines(lines, file, glob, exclude);
        assert forall|i: int| 0 <= i < kept.len() implies {
            let l = #[trigger] kept[i];
            lines.contains(l) && is_selected(line_path(l), file, glob, exclude)
        } by {
            if i < before.len() {
                assert(kept[i] == before[i]);
                let k = choose|k: int| 0 <= k < shorter.len() && shorter[k] == before[i];
                assert(lines[k] == before[i]);
            } else {
                assert(lines[lines.len() - 1] == last);
            }
        }
        assert forall|l: Seq<char>| #[trigger]
            lines.contains(l) && is_selected(
                line_path(l),
                file,
                glob,
                exclude,
            ) implies kept.contains(l) by {
            let k = choose|k: int| 0 <= k < lines.len() && lines[k] == l;
            if k < shorter.len() {
                assert(shorter[k] == l);
                assert(shorter.contains(l));
                let j = choose|j: int| 0 <= j < before.len() && before[j] == l;
                assert(kept[j] == l);
            } else {
                assert(kept[kept.len() - 1] == l);
            }
        }
    }
}

} // verus!
