//! Entity-level attribution for unified diff output.
//!
//! Given `diff --git` formatted text, [`compress`] returns
//! `(file, entity_name, change_type)` tuples describing *which* function or
//! type was changed and *how* (`"added"` / `"removed"` / `"modified"`).
//!
//! Entity names are resolved in stages:
//! 1. The `@@` hunk header's trailing context string (git populates this with
//!    the enclosing function name for most languages).
//! 2. The syntax tree of the hunk post-image as fallback.
//! 3. `"<unknown>"` when neither succeeds.

use crate::bytes;
use crate::compress;
use crate::compress::code;
use crate::compress::syntax;
use crate::compress::syntax::{NodeView, SyntaxNode};
use crate::order;
use crate::order::Sortable;
use crate::pieces;
use crate::search;
use crate::text;
use vstd::prelude::*;
use vstd::slice::*;
use vstd::string::*;

verus! {

// ---------------------------------------------------------------------------
// Diff parsing
// ---------------------------------------------------------------------------

/// The changes of one file.
pub struct FileDiff {
    pub new_path: String,
    pub hunks: Vec<Hunk>,
}

/// One run of changes.
pub struct Hunk {
    /// Text after `@@ ... @@ `: git's function context hint.
    pub header_context: String,
    /// Raw hunk lines including leading ` `, `+`, `-` sigil.
    pub lines: Vec<String>,
}

/// What a hunk stands for.
pub struct HunkView {
    pub context: Seq<char>,
    pub lines: Seq<Seq<char>>,
}

/// What the changes of a file stand for.
pub struct FileView {
    pub path: Seq<char>,
    pub hunks: Seq<HunkView>,
}

impl View for Hunk {
    type V = HunkView;

    open spec fn view(&self) -> HunkView {
        HunkView { context: self.header_context@, lines: text::texts(self.lines@) }
    }
}

impl View for FileDiff {
    type V = FileView;

    open spec fn view(&self) -> FileView {
        FileView { path: self.new_path@, hunks: hunks_view(self.hunks@) }
    }
}

/// What hunks stand for.
pub open spec fn hunks_view(hunks: Seq<Hunk>) -> Seq<HunkView> {
    hunks.map_values(|h: Hunk| h@)
}

/// What the changes of files stand for.
pub open spec fn files_view(files: Seq<FileDiff>) -> Seq<FileView> {
    files.map_values(|f: FileDiff| f@)
}

/// The path in a `diff --git` line: what follows the last ` b/`, or the text
/// behind the first eleven bytes where they end a character.
pub open spec fn diff_path(line: Seq<char>) -> Seq<char> {
    match search::last_sub_index(line, " b/"@) {
        Some(k) => line.skip(k + 3),
        None => match bytes::boundary(line, 11) {
            Some(k) => line.skip(k),
            None => seq![],
        },
    }
}

/// Extract the path from `diff --git a/foo/bar.rs b/foo/bar.rs`.
pub fn extract_diff_path(line: &str) -> (r: String)
    ensures
        r@ == diff_path(line@),
{
    let chars = text::chars_of(line);
    let line = chars.as_slice();
    let n = line.len();
    proof {
        reveal_strlit(" b/");
    }
    match search::rfind_sub(line, " b/") {
        Some(k) => {
            let path = slice_subrange(line, k + 3, n);
            assert(path@ =~= line@.skip(k + 3));
            text::string_of(path)
        },
        None => match bytes::boundary_at(line, 11) {
            Some(k) => {
                let path = slice_subrange(line, k, n);
                assert(path@ =~= line@.skip(k as int));
                text::string_of(path)
            },
            None => {
                let none = String::new();
                assert(none@ =~= seq![]);
                none
            },
        },
    }
}

/// The function context of `@@ -a,b +c,d @@ <context>`.
pub open spec fn hunk_context(line: Seq<char>) -> Seq<char> {
    match search::sub_index(line, " @@ "@) {
        Some(k) => text::trimmed(line.skip(k + 4)),
        None => seq![],
    }
}

/// Extract the function context from `@@ -a,b +c,d @@ <context>`.
pub fn parse_hunk_context(line: &str) -> (r: String)
    ensures
        r@ == hunk_context(line@),
{
    let chars = text::chars_of(line);
    let line = chars.as_slice();
    let n = line.len();
    proof {
        reveal_strlit(" @@ ");
        search::lemma_sub_index_from(line@, " @@ "@, 0);
    }
    match search::find_sub(line, " @@ ") {
        Some(k) => {
            let rest = slice_subrange(line, k + 4, n);
            assert(rest@ =~= line@.skip(k + 4));
            text::string_of(text::trim(rest))
        },
        None => {
            let none = String::new();
            assert(none@ =~= seq![]);
            none
        },
    }
}

/// How far a diff has been read: the files that are complete, the file being
/// read and the hunk being read.
pub struct DiffState {
    pub done: Seq<FileView>,
    pub file: Option<FileView>,
    pub hunk: Option<HunkView>,
}

/// The hunk being read goes to the file being read.
pub open spec fn hunk_closed(s: DiffState) -> DiffState {
    match (s.hunk, s.file) {
        (Some(h), Some(f)) => DiffState {
            done: s.done,
            file: Some(FileView { path: f.path, hunks: f.hunks.push(h) }),
            hunk: None,
        },
        _ => DiffState { done: s.done, file: s.file, hunk: None },
    }
}

/// The file being read is complete.
pub open spec fn file_closed(s: DiffState) -> DiffState {
    match s.file {
        Some(f) => DiffState { done: s.done.push(f), file: None, hunk: s.hunk },
        None => s,
    }
}

/// The file being read is at `path`, unless that is nothing or `/dev/null`.
pub open spec fn file_renamed(s: DiffState, path: Seq<char>) -> DiffState {
    match s.file {
        Some(f) => if path != "/dev/null"@ && path.len() > 0 {
            DiffState { done: s.done, file: Some(FileView { path, hunks: f.hunks }), hunk: s.hunk }
        } else {
            s
        },
        None => s,
    }
}

/// A line that a hunk keeps: context, addition or removal.
pub open spec fn is_hunk_line(line: Seq<char>) -> bool {
    line.len() > 0 && (line[0] == ' ' || line[0] == '+' || line[0] == '-')
}

/// The state after one more line.
pub open spec fn diff_step(s: DiffState, line: Seq<char>) -> DiffState {
    if "diff --git "@.is_prefix_of(line) {
        let closed = file_closed(hunk_closed(s));
        DiffState {
            done: closed.done,
            file: Some(FileView { path: diff_path(line), hunks: seq![] }),
            hunk: closed.hunk,
        }
    } else if "+++ b/"@.is_prefix_of(line) {
        file_renamed(s, line.skip(6))
    } else if "+++ "@.is_prefix_of(line) {
        file_renamed(s, line.skip(4))
    } else if "@@ "@.is_prefix_of(line) {
        let closed = hunk_closed(s);
        DiffState {
            done: closed.done,
            file: closed.file,
            hunk: Some(HunkView { context: hunk_context(line), lines: seq![] }),
        }
    } else {
        match s.hunk {
            Some(h) => if is_hunk_line(line) {
                DiffState {
                    done: s.done,
                    file: s.file,
                    hunk: Some(HunkView { context: h.context, lines: h.lines.push(line) }),
                }
            } else {
                s
            },
            None => s,
        }
    }
}

/// The state after `lines`.
pub open spec fn diff_state(lines: Seq<Seq<char>>) -> DiffState
    decreases lines.len(),
{
    if lines.len() == 0 {
        DiffState { done: seq![], file: None, hunk: None }
    } else {
        diff_step(diff_state(lines.drop_last()), lines.last())
    }
}

/// The files of a diff.
pub open spec fn diff_files(input: Seq<char>) -> Seq<FileView> {
    file_closed(hunk_closed(diff_state(pieces::lines_of(input)))).done
}

/// What the state of a parse stands for.
pub open spec fn state_view(
    done: Seq<FileDiff>,
    file: Option<FileDiff>,
    hunk: Option<Hunk>,
) -> DiffState {
    DiffState {
        done: files_view(done),
        file: match file {
            Some(f) => Some(f@),
            None => None,
        },
        hunk: match hunk {
            Some(h) => Some(h@),
            None => None,
        },
    }
}

/// Hand the hunk being read to the file being read.
fn flush_hunk(hunk: Option<Hunk>, section: Option<FileDiff>) -> (r: Option<FileDiff>)
    ensures
        forall|done: Seq<FileDiff>| #[trigger]
            state_view(done, r, None) == hunk_closed(state_view(done, section, hunk)),
{
    match (hunk, section) {
        (Some(h), Some(sec)) => {
            let mut sec = sec;
            let ghost before = hunks_view(sec.hunks@);
            sec.hunks.push(h);
            assert(hunks_view(sec.hunks@) =~= before.push(h@));
            Some(sec)
        },
        (_, section) => section,
    }
}

/// Add the file being read to those that are complete.
fn flush_section(section: Option<FileDiff>, sections: &mut Vec<FileDiff>)
    ensures
        forall|hunk: Option<Hunk>| #[trigger]
            state_view(final(sections)@, None, hunk) == file_closed(
                state_view(old(sections)@, section, hunk),
            ),
{
    let ghost before = files_view(sections@);
    if let Some(sec) = section {
        sections.push(sec);
        assert(files_view(sections@) =~= before.push(sec@));
    }
}

/// Put the file being read at `path`, unless that is nothing or `/dev/null`.
fn rename_section(section: Option<FileDiff>, path: &[char]) -> (r: Option<FileDiff>)
    ensures
        forall|done: Seq<FileDiff>, hunk: Option<Hunk>| #[trigger]
            state_view(done, r, hunk) == file_renamed(state_view(done, section, hunk), path@),
{
    match section {
        Some(sec) => if !text::equals(path, "/dev/null") && path.len() > 0 {
            Some(FileDiff { new_path: text::string_of(path), hunks: sec.hunks })
        } else {
            Some(sec)
        },
        None => None,
    }
}

/// Read the files and hunks of a diff.
pub fn parse_diff(diff_text: &str) -> (sections: Vec<FileDiff>)
    ensures
        files_view(sections@) == diff_files(diff_text@),
{
    let chars = text::chars_of(diff_text);
    let lines = pieces::split_lines(chars.as_slice());
    let ghost all = pieces::lines_of(diff_text@);
    let mut sections: Vec<FileDiff> = Vec::new();
    let mut current: Option<FileDiff> = None;
    let mut current_hunk: Option<Hunk> = None;
    let mut i: usize = 0;
    assert(all.take(0) =~= seq![]);
    assert(files_view(sections@) =~= seq![]);
    proof {
        reveal_strlit("diff --git ");
        reveal_strlit("+++ b/");
        reveal_strlit("+++ ");
    }
    while i < lines.len()
        invariant
            all == text::views(lines@),
            i <= lines@.len(),
            "+++ b/"@.len() == 6,
            "+++ "@.len() == 4,
            state_view(sections@, current, current_hunk) == diff_state(all.take(i as int)),
        decreases lines@.len() - i,
    {
        let line = lines[i];
        let n = line.len();
        let ghost before = state_view(sections@, current, current_hunk);
        proof {
            assert(all.take(i + 1).drop_last() =~= all.take(i as int));
            assert(all.take(i + 1).last() == line@);
        }
        if text::starts_with(line, "diff --git ") {
            let open = flush_hunk(current_hunk, current);
            assert(state_view(sections@, open, None) == hunk_closed(before));
            flush_section(open, &mut sections);
            assert(state_view(sections@, None, None) == file_closed(hunk_closed(before)));
            let none: Vec<Hunk> = Vec::new();
            let header = text::string_of(line);
            let file = FileDiff { new_path: extract_diff_path(header.as_str()), hunks: none };
            proof {
                assert(hunks_view(none@) =~= seq![]);
                assert(file@ == FileView { path: diff_path(line@), hunks: seq![] });
            }
            current = Some(file);
            current_hunk = None;
        } else if text::starts_with(line, "+++ b/") {
            let path = slice_subrange(line, 6, n);
            assert(path@ =~= line@.skip(6));
            current = rename_section(current, path);
            assert(state_view(sections@, current, current_hunk) == file_renamed(before, path@));
        } else if text::starts_with(line, "+++ ") {
            let path = slice_subrange(line, 4, n);
            assert(path@ =~= line@.skip(4));
            current = rename_section(current, path);
            assert(state_view(sections@, current, current_hunk) == file_renamed(before, path@));
        } else if text::starts_with(line, "@@ ") {
            current = flush_hunk(current_hunk, current);
            assert(state_view(sections@, current, None) == hunk_closed(before));
            let none: Vec<String> = Vec::new();
            let header = text::string_of(line);
            let hunk = Hunk { header_context: parse_hunk_context(header.as_str()), lines: none };
            proof {
                assert(text::texts(none@) =~= seq![]);
                assert(hunk@ == HunkView { context: hunk_context(line@), lines: seq![] });
            }
            current_hunk = Some(hunk);
        } else if let Some(hunk) = current_hunk {
            let mut hunk = hunk;
            if n > 0 && (line[0] == ' ' || line[0] == '+' || line[0] == '-') {
                let ghost kept = text::texts(hunk.lines@);
                hunk.lines.push(text::string_of(line));
                assert(text::texts(hunk.lines@) =~= kept.push(line@));
            }
            current_hunk = Some(hunk);
        }
        assert(state_view(sections@, current, current_hunk) == diff_step(before, line@));
        i += 1;
    }
    assert(all.take(i as int) =~= all);
    let ghost end = state_view(sections@, current, current_hunk);
    let open = flush_hunk(current_hunk, current);
    assert(state_view(sections@, open, None) == hunk_closed(end));
    flush_section(open, &mut sections);
    assert(state_view(sections@, None, None) == file_closed(hunk_closed(end)));
    sections
}

// ---------------------------------------------------------------------------
// Entity resolution
// ---------------------------------------------------------------------------

/// What `char::is_alphanumeric` says of a character.
pub uninterp spec fn alphanumeric(c: char) -> bool;

/// Calls `char::is_alphanumeric`. Trusted: the answer is a function of the
/// character; of ASCII it holds for the letters and the digits.
#[verifier::external_body]
fn is_alphanumeric(c: char) -> (r: bool)
    ensures
        r == alphanumeric(c),
        c as u32 <= 0x7f ==> r == (compress::is_ascii_letter(c) || '0' <= c <= '9'),
{
    c.is_alphanumeric()
}

/// A character that a name may hold.
pub open spec fn is_name_char(c: char) -> bool {
    alphanumeric(c) || c == '_'
}

/// The number of characters of the name at the start of `s`.
pub open spec fn name_len(s: Seq<char>) -> nat
    decreases s.len(),
{
    if s.len() == 0 || !is_name_char(s[0]) {
        0
    } else {
        1 + name_len(s.skip(1))
    }
}

fn leading_name(s: &[char]) -> (n: usize)
    ensures
        n == name_len(s@),
        n <= s@.len(),
{
    let mut n: usize = 0;
    assert(s@.skip(0) =~= s@);
    while n < s.len() && (s[n] == '_' || is_alphanumeric(s[n]))
        invariant
            n <= s@.len(),
            name_len(s@) == n + name_len(s@.skip(n as int)),
        decreases s@.len() - n,
    {
        assert(s@.skip(n as int).skip(1) =~= s@.skip(n + 1));
        n += 1;
    }
    n
}

/// The words that stand in front of the name of a function or type. Words such
/// as `public` are not among them: there the next word is the return type.
pub open spec fn prefixes() -> Seq<Seq<char>> {
    seq![
        "pub async fn "@,
        "async fn "@,
        "pub fn "@,
        "fn "@,
        "async function "@,
        "export async function "@,
        "export function "@,
        "export default function "@,
        "export class "@,
        "function "@,
        "def "@,
        "class "@,
        "struct "@,
        "enum "@,
        "impl "@,
        "interface "@,
        "func "@,
    ]
}

fn context_prefixes() -> (out: Vec<&'static str>)
    ensures
        out@.map_values(|p: &str| p@) == prefixes(),
{
    let out: Vec<&'static str> = vec![
        "pub async fn ",
        "async fn ",
        "pub fn ",
        "fn ",
        "async function ",
        "export async function ",
        "export function ",
        "export default function ",
        "export class ",
        "function ",
        "def ",
        "class ",
        "struct ",
        "enum ",
        "impl ",
        "interface ",
        "func ",
    ];
    assert(out@.map_values(|p: &str| p@) =~= prefixes());
    out
}

/// The name behind the first of the prefixes from `i` on that is followed by
/// one.
pub open spec fn named_after(s: Seq<char>, i: int) -> Option<Seq<char>>
    decreases prefixes().len() - i,
{
    if i < 0 || i >= prefixes().len() {
        None
    } else {
        let p = prefixes()[i];
        let rest = s.skip(p.len() as int);
        if p.is_prefix_of(s) && name_len(rest) > 0 {
            Some(rest.take(name_len(rest) as int))
        } else {
            named_after(s, i + 1)
        }
    }
}

/// The number of characters before the first `(`, `{` or `<`.
pub open spec fn head_len(s: Seq<char>) -> nat
    decreases s.len(),
{
    if s.len() == 0 || s[0] == '(' || s[0] == '{' || s[0] == '<' {
        0
    } else {
        1 + head_len(s.skip(1))
    }
}

/// The name of the function or type in a git context string.
pub open spec fn context_name(ctx: Seq<char>) -> Seq<char> {
    match named_after(text::trimmed(ctx), 0) {
        Some(name) => name,
        None => text::trimmed(ctx.take(head_len(ctx) as int)),
    }
}

/// Extract a function/type name from a git context string like
/// `fn my_function(x: i32)` or `class Foo {`.
pub fn extract_entity_name_from_context(ctx: &str) -> (r: String)
    ensures
        r@ == context_name(ctx@),
{
    let chars = text::chars_of(ctx);
    let trimmed = text::trim(chars.as_slice());
    let n = trimmed.len();
    let words = context_prefixes();
    let mut i: usize = 0;
    while i < words.len()
        invariant
            words@.map_values(|p: &str| p@) == prefixes(),
            i <= words@.len(),
            n == trimmed@.len(),
            named_after(trimmed@, 0) == named_after(trimmed@, i as int),
            context_name(ctx@) == match named_after(trimmed@, 0) {
                Some(name) => name,
                None => text::trimmed(ctx@.take(head_len(ctx@) as int)),
            },
        decreases words@.len() - i,
    {
        let word = words[i];
        assert(words@.map_values(|p: &str| p@)[i as int] == word@);
        if text::starts_with(trimmed, word) {
            let skip = text::chars_of(word).len();
            let rest = slice_subrange(trimmed, skip, n);
            assert(rest@ =~= trimmed@.skip(skip as int));
            let len = leading_name(rest);
            if len > 0 {
                let name = slice_subrange(rest, 0, len);
                assert(name@ =~= rest@.take(len as int));
                return text::string_of(name);
            }
        }
        i += 1;
    }
    let mut end: usize = 0;
    assert(ctx@.skip(0) =~= ctx@);
    while end < chars.len() && chars[end] != '(' && chars[end] != '{' && chars[end] != '<'
        invariant
            chars@ == ctx@,
            end <= chars@.len(),
            head_len(ctx@) == end + head_len(ctx@.skip(end as int)),
        decreases chars@.len() - end,
    {
        assert(ctx@.skip(end as int).skip(1) =~= ctx@.skip(end + 1));
        end += 1;
    }
    let head = slice_subrange(chars.as_slice(), 0, end);
    assert(head@ =~= ctx@.take(end as int));
    text::string_of(text::trim(head))
}

/// A hunk line without its sigil.
pub open spec fn without_sigil(line: Seq<char>) -> Seq<char> {
    if line.len() > 0 && (line[0] == '+' || line[0] == ' ') {
        line.skip(1)
    } else {
        line
    }
}

/// A hunk line that starts with `c`.
pub open spec fn has_sigil(line: Seq<char>, c: char) -> bool {
    line.len() > 0 && line[0] == c
}

/// The lines that stand after the change: all but the removed ones.
pub open spec fn post_lines(lines: Seq<Seq<char>>) -> Seq<Seq<char>>
    decreases lines.len(),
{
    if lines.len() == 0 {
        seq![]
    } else if has_sigil(lines.last(), '-') {
        post_lines(lines.drop_last())
    } else {
        post_lines(lines.drop_last()).push(without_sigil(lines.last()))
    }
}

/// The row of the first added line among the lines that stand after the
/// change.
pub open spec fn first_added(lines: Seq<Seq<char>>) -> Option<nat>
    decreases lines.len(),
{
    if lines.len() == 0 {
        None
    } else {
        match first_added(lines.drop_last()) {
            Some(row) => Some(row),
            None => if has_sigil(lines.last(), '+') {
                Some(post_lines(lines.drop_last()).len())
            } else {
                None
            },
        }
    }
}

fn starts_with_char(line: &str, c: char) -> (r: bool)
    ensures
        r == has_sigil(line@, c),
{
    let mut chars = line.chars();
    match chars.next() {
        Some(first) => first == c,
        None => false,
    }
}

/// The text after the change and the row in it of the first added line.
pub fn post_image(hunk: &Hunk) -> (r: (String, Option<usize>))
    ensures
        r.0@ == pieces::joined(post_lines(hunk@.lines), "\n"@),
        match r.1 {
            Some(row) => first_added(hunk@.lines) == Some(row as nat),
            None => first_added(hunk@.lines) is None,
        },
{
    let ghost all = hunk@.lines;
    let mut kept: Vec<String> = Vec::new();
    let mut row: Option<usize> = None;
    let mut i: usize = 0;
    assert(all.take(0) =~= seq![]);
    assert(text::texts(kept@) =~= seq![]);
    while i < hunk.lines.len()
        invariant
            all == text::texts(hunk.lines@),
            i <= hunk.lines@.len(),
            text::texts(kept@) == post_lines(all.take(i as int)),
            match row {
                Some(r) => first_added(all.take(i as int)) == Some(r as nat),
                None => first_added(all.take(i as int)) is None,
            },
        decreases hunk.lines@.len() - i,
    {
        proof {
            assert(all.take(i + 1).drop_last() =~= all.take(i as int));
            assert(text::texts(kept@).len() == kept@.len());
        }
        let line = text::chars_of(hunk.lines[i].as_str());
        let n = line.len();
        if n > 0 && line[0] == '-' {
        } else {
            if n > 0 && line[0] == '+' && row.is_none() {
                row = Some(kept.len());
            }
            let ghost before = text::texts(kept@);
            if n > 0 && (line[0] == '+' || line[0] == ' ') {
                let rest = slice_subrange(line.as_slice(), 1, n);
                assert(rest@ =~= line@.skip(1));
                kept.push(text::string_of(rest));
            } else {
                kept.push(text::string_of(line.as_slice()));
            }
            assert(text::texts(kept@) =~= before.push(without_sigil(all[i as int])));
        }
        i += 1;
    }
    assert(all.take(i as int) =~= all);
    (pieces::join_strings(kept.as_slice(), "\n"), row)
}

/// Nodes of kind `kind` name a function or type in `language`.
pub open spec fn is_entity_kind(language: Seq<char>, kind: Seq<char>) -> bool {
    if language == "rust"@ {
        kind == "function_item"@ || kind == "struct_item"@ || kind == "enum_item"@ || kind
            == "trait_item"@
    } else if code::is_script(language) {
        kind == "function_declaration"@ || kind == "method_definition"@ || kind
            == "class_declaration"@
    } else if language == "python"@ {
        kind == "function_definition"@ || kind == "class_definition"@
    } else if language == "go"@ {
        kind == "function_declaration"@ || kind == "method_declaration"@
    } else if language == "java"@ {
        kind == "method_declaration"@ || kind == "class_declaration"@
    } else {
        false
    }
}

fn has_entity_kind(language: &str, kind: &str) -> (r: bool)
    ensures
        r == is_entity_kind(language@, kind@),
{
    if text::same_text(language, "rust") {
        text::same_text(kind, "function_item") || text::same_text(kind, "struct_item")
            || text::same_text(kind, "enum_item") || text::same_text(kind, "trait_item")
    } else if text::same_text(language, "typescript") || text::same_text(language, "tsx")
        || text::same_text(language, "javascript") || text::same_text(language, "jsx") {
        text::same_text(kind, "function_declaration") || text::same_text(kind, "method_definition")
            || text::same_text(kind, "class_declaration")
    } else if text::same_text(language, "python") {
        text::same_text(kind, "function_definition") || text::same_text(kind, "class_definition")
    } else if text::same_text(language, "go") {
        text::same_text(kind, "function_declaration") || text::same_text(kind, "method_declaration")
    } else if text::same_text(language, "java") {
        text::same_text(kind, "method_declaration") || text::same_text(kind, "class_declaration")
    } else {
        false
    }
}

/// The name of the function or type that a node defines. A name field whose
/// ends are no character boundaries of the source names nothing.
pub open spec fn entity_name(node: NodeView, source: Seq<char>, language: Seq<char>) -> Option<
    Seq<char>,
> {
    if is_entity_kind(language, node.kind) {
        match node.name {
            Some((start, end)) => bytes::text_between(source, start as int, end as int),
            None => None,
        }
    } else {
        None
    }
}

/// Extract the name of the function or type that a node defines.
pub fn entity_name_from_node(node: &SyntaxNode, source: &[char], language: &str) -> (r: Option<
    String,
>)
    ensures
        match r {
            Some(name) => entity_name(node@, source@, language@) == Some(name@),
            None => entity_name(node@, source@, language@) is None,
        },
{
    if !has_entity_kind(language, node.kind.as_str()) {
        return None;
    }
    match node.name {
        Some((start, end)) => match bytes::slice_between(source, start, end) {
            Some(name) => Some(text::string_of(name)),
            None => None,
        },
        None => None,
    }
}

/// Of the functions and types among `nodes` that span `row`, the name and the
/// number of rows of the one with the fewest, the first of several.
pub open spec fn innermost(
    nodes: Seq<NodeView>,
    source: Seq<char>,
    row: nat,
    language: Seq<char>,
) -> Option<(Seq<char>, int)>
    decreases nodes.len(),
{
    if nodes.len() == 0 {
        None
    } else {
        let before = innermost(nodes.drop_last(), source, row, language);
        let node = nodes.last();
        let rows = node.end_row - node.start_row;
        match entity_name(node, source, language) {
            Some(name) => if node.start_row <= row <= node.end_row && (before matches Some(b)
                ==> rows < b.1) {
                Some((name, rows))
            } else {
                before
            },
            None => before,
        }
    }
}

/// Find the innermost named entity that spans `target_row` in the tree.
pub fn find_enclosing_entity(
    nodes: &[SyntaxNode],
    source: &str,
    target_row: usize,
    language: &str,
) -> (r: Option<String>)
    ensures
        match r {
            Some(name) => innermost(
                syntax::nodes_view(nodes@),
                source@,
                target_row as nat,
                language@,
            ) matches Some(found) && found.0 == name@,
            None => innermost(
                syntax::nodes_view(nodes@),
                source@,
                target_row as nat,
                language@,
            ) is None,
        },
{
    let ghost view = syntax::nodes_view(nodes@);
    let chars = text::chars_of(source);
    let mut best: Option<(String, usize)> = None;
    let mut i: usize = 0;
    assert(view.take(0) =~= seq![]);
    while i < nodes.len()
        invariant
            view == syntax::nodes_view(nodes@),
            chars@ == source@,
            i <= nodes@.len(),
            match best {
                Some((name, rows)) => innermost(
                    view.take(i as int),
                    source@,
                    target_row as nat,
                    language@,
                ) == Some((name@, rows as int)),
                None => innermost(
                    view.take(i as int),
                    source@,
                    target_row as nat,
                    language@,
                ) is None,
            },
        decreases nodes@.len() - i,
    {
        proof {
            assert(view.take(i + 1).drop_last() =~= view.take(i as int));
            assert(view.take(i + 1).last() == nodes@[i as int]@);
        }
        let start = nodes[i].start_row;
        let end = nodes[i].end_row;
        if let Some(name) = entity_name_from_node(&nodes[i], chars.as_slice(), language) {
            if start <= target_row && target_row <= end {
                let rows = end - start;
                let closer = match &best {
                    Some(b) => rows < b.1,
                    None => true,
                };
                if closer {
                    best = Some((name, rows));
                }
            }
        }
        i += 1;
    }
    assert(view.take(i as int) =~= view);
    match best {
        Some((name, _)) => Some(name),
        None => None,
    }
}

/// The entity that encloses the first added row, given the nodes of the text
/// after the change. A tree with a syntax error names none.
pub open spec fn entity_in(
    nodes: Seq<NodeView>,
    source: Seq<char>,
    row: nat,
    language: Seq<char>,
) -> Option<Seq<char>> {
    if nodes.len() > 0 && nodes[0].has_error {
        None
    } else {
        match innermost(nodes, source, row, language) {
            Some(found) => Some(found.0),
            None => None,
        }
    }
}

/// The entity that encloses the first added row of a hunk.
pub open spec fn hunk_entity(hunk: HunkView, language: Seq<char>) -> Option<Seq<char>> {
    let source = pieces::joined(post_lines(hunk.lines), "\n"@);
    match (code::grammar_for(language), first_added(hunk.lines)) {
        (Some(grammar), Some(row)) => match syntax::syntax_of(source, grammar) {
            Some(nodes) => entity_in(nodes, source, row, language),
            None => None,
        },
        _ => None,
    }
}

/// The entity that encloses `row`, given the nodes of the text after the
/// change.
pub fn entity_from_nodes(nodes: &[SyntaxNode], source: &str, row: usize, language: &str) -> (r:
    Option<String>)
    ensures
        match r {
            Some(name) => entity_in(syntax::nodes_view(nodes@), source@, row as nat, language@)
                == Some(name@),
            None => entity_in(syntax::nodes_view(nodes@), source@, row as nat, language@) is None,
        },
{
    if nodes.len() > 0 && nodes[0].has_error {
        return None;
    }
    find_enclosing_entity(nodes, source, row, language)
}

/// Parse the hunk's post-image and return the enclosing entity name for the
/// first `+` line. Hunks that only remove have no line to look up.
pub fn entity_from_hunk_ts(hunk: &Hunk, language: &str) -> (r: Option<String>)
    ensures
        match r {
            Some(name) => hunk_entity(hunk@, language@) == Some(name@),
            None => hunk_entity(hunk@, language@) is None,
        },
{
    let (source, row) = post_image(hunk);
    match (code::grammar_for_language(language), row) {
        (Some(grammar), Some(row)) => match syntax::syntax_nodes(source.as_str(), &grammar) {
            Some(nodes) => entity_from_nodes(nodes.as_slice(), source.as_str(), row, language),
            None => None,
        },
        _ => None,
    }
}

/// The entity that a hunk belongs to.
pub open spec fn entity_of(hunk: HunkView, language: Option<Seq<char>>) -> Seq<char> {
    if hunk.context.len() > 0 && context_name(hunk.context).len() > 0 {
        context_name(hunk.context)
    } else {
        match language {
            Some(l) => match hunk_entity(hunk, l) {
                Some(name) => name,
                None => "<unknown>"@,
            },
            None => "<unknown>"@,
        }
    }
}

/// The entity that a hunk belongs to: by the hunk header where it names one,
/// else by the syntax tree.
pub fn resolve_entity(hunk: &Hunk, language: Option<&str>) -> (r: String)
    ensures
        r@ == entity_of(
            hunk@,
            match language {
                Some(l) => Some(l@),
                None => None,
            },
        ),
{
    let name = extract_entity_name_from_context(hunk.header_context.as_str());
    if hunk.header_context.as_str().unicode_len() > 0 && name.as_str().unicode_len() > 0 {
        return name;
    }
    match language {
        Some(l) => match entity_from_hunk_ts(hunk, l) {
            Some(name) => name,
            None => "<unknown>".to_owned(),
        },
        None => "<unknown>".to_owned(),
    }
}

// ---------------------------------------------------------------------------
// Change type classification
// ---------------------------------------------------------------------------

/// Some line starts with `c`.
pub open spec fn any_sigil(lines: Seq<Seq<char>>, c: char) -> bool {
    exists|i: int| 0 <= i < lines.len() && has_sigil(#[trigger] lines[i], c)
}

/// The kind of change that the lines of a hunk make.
pub open spec fn change_of(lines: Seq<Seq<char>>) -> Seq<char> {
    if any_sigil(lines, '+') && !any_sigil(lines, '-') {
        "added"@
    } else if any_sigil(lines, '-') && !any_sigil(lines, '+') {
        "removed"@
    } else {
        "modified"@
    }
}

fn has_any_sigil(lines: &[String], c: char) -> (r: bool)
    ensures
        r == any_sigil(text::texts(lines@), c),
{
    let ghost all = text::texts(lines@);
    let mut i: usize = 0;
    while i < lines.len()
        invariant
            all == text::texts(lines@),
            i <= lines@.len(),
            forall|j: int| 0 <= j < i ==> !has_sigil(#[trigger] all[j], c),
        decreases lines@.len() - i,
    {
        if starts_with_char(lines[i].as_str(), c) {
            assert(has_sigil(all[i as int], c));
            return true;
        }
        i += 1;
    }
    false
}

/// Classify a hunk as `"added"`, `"removed"` or `"modified"`.
pub fn classify_change(hunk: &Hunk) -> (r: String)
    ensures
        r@ == change_of(hunk@.lines),
{
    let has_added = has_any_sigil(hunk.lines.as_slice(), '+');
    let has_removed = has_any_sigil(hunk.lines.as_slice(), '-');
    if has_added && !has_removed {
        "added".to_owned()
    } else if has_removed && !has_added {
        "removed".to_owned()
    } else {
        "modified".to_owned()
    }
}

// ---------------------------------------------------------------------------
// Entry deduplication
// ---------------------------------------------------------------------------

/// What a tuple of strings stands for.
pub open spec fn triple_view(t: (String, String, String)) -> (Seq<char>, Seq<char>, Seq<char>) {
    (t.0@, t.1@, t.2@)
}

/// What tuples of strings stand for.
pub open spec fn triples_view(s: Seq<(String, String, String)>) -> Seq<
    (Seq<char>, Seq<char>, Seq<char>),
> {
    s.map_values(|t: (String, String, String)| triple_view(t))
}

/// Two tuples speak of the same file and entity.
pub open spec fn same_key(
    a: (Seq<char>, Seq<char>, Seq<char>),
    b: (Seq<char>, Seq<char>, Seq<char>),
) -> bool {
    a.0 == b.0 && a.1 == b.1
}

/// The first entry from `i` on that speaks of the same file and entity as `e`.
pub open spec fn key_index(
    entries: Seq<(Seq<char>, Seq<char>, Seq<char>)>,
    e: (Seq<char>, Seq<char>, Seq<char>),
    i: int,
) -> Option<int>
    decreases entries.len() - i,
{
    if i < 0 || i >= entries.len() {
        None
    } else if same_key(entries[i], e) {
        Some(i)
    } else {
        key_index(entries, e, i + 1)
    }
}

/// The entries with `e` worked in: conflicting changes become `modified`.
pub open spec fn merged_with(
    entries: Seq<(Seq<char>, Seq<char>, Seq<char>)>,
    e: (Seq<char>, Seq<char>, Seq<char>),
) -> Seq<(Seq<char>, Seq<char>, Seq<char>)> {
    match key_index(entries, e, 0) {
        Some(k) => if entries[k].2 == e.2 {
            entries
        } else {
            entries.update(k, (e.0, e.1, "modified"@))
        },
        None => entries.push(e),
    }
}

/// One entry per file and entity, in the order in which they came.
pub open spec fn merged_all(entries: Seq<(Seq<char>, Seq<char>, Seq<char>)>) -> Seq<
    (Seq<char>, Seq<char>, Seq<char>),
>
    decreases entries.len(),
{
    if entries.len() == 0 {
        seq![]
    } else {
        merged_with(merged_all(entries.drop_last()), entries.last())
    }
}

/// `a` comes before `b` by file, then by entity.
pub open spec fn key_before(
    a: (Seq<char>, Seq<char>, Seq<char>),
    b: (Seq<char>, Seq<char>, Seq<char>),
) -> bool {
    order::lex_before(a.0, b.0) || (a.0 == b.0 && order::lex_before(a.1, b.1))
}

/// One entry per file and entity, by file and then by entity.
pub open spec fn merged_entries(entries: Seq<(Seq<char>, Seq<char>, Seq<char>)>) -> Seq<
    (Seq<char>, Seq<char>, Seq<char>),
> {
    order::sorted(
        merged_all(entries),
        |a: (Seq<char>, Seq<char>, Seq<char>), b: (Seq<char>, Seq<char>, Seq<char>)|
            key_before(a, b),
    )
}

pub(crate) proof fn lemma_key_order(
    a: (Seq<char>, Seq<char>, Seq<char>),
    b: (Seq<char>, Seq<char>, Seq<char>),
    c: (Seq<char>, Seq<char>, Seq<char>),
)
    ensures
        key_before(a, b) && key_before(b, c) ==> key_before(a, c),
        !key_before(a, b) && key_before(a, c) ==> key_before(b, c),
        !key_before(a, a),
{
    order::lemma_lex_total(a.0, a.0);
    order::lemma_lex_total(a.1, a.1);
    order::lemma_lex_total(a.0, b.0);
    order::lemma_lex_total(a.1, b.1);
    if order::lex_before(a.0, b.0) && order::lex_before(b.0, c.0) {
        order::lemma_lex_transitive(a.0, b.0, c.0);
    }
    if order::lex_before(a.1, b.1) && order::lex_before(b.1, c.1) {
        order::lemma_lex_transitive(a.1, b.1, c.1);
    }
    if !order::lex_before(a.0, b.0) && order::lex_before(a.0, c.0) {
        order::lemma_lex_between(a.0, b.0, c.0);
    }
    if !order::lex_before(a.1, b.1) && order::lex_before(a.1, c.1) {
        order::lemma_lex_between(a.1, b.1, c.1);
    }
}

impl Sortable for (String, String, String) {
    open spec fn precedes(&self, other: &Self) -> bool {
        key_before(triple_view(*self), triple_view(*other))
    }

    proof fn lemma_order() {
        let before = |a: Self, b: Self| a.precedes(&b);
        assert forall|a: Self, b: Self, c: Self| #[trigger]
            before(a, b) && #[trigger] before(b, c) implies before(a, c) by {
            lemma_key_order(triple_view(a), triple_view(b), triple_view(c));
        }
        assert forall|a: Self, b: Self, c: Self|
            !(#[trigger] before(a, b)) && (#[trigger] before(a, c)) implies before(b, c) by {
            lemma_key_order(triple_view(a), triple_view(b), triple_view(c));
        }
        assert forall|a: Self| !(#[trigger] before(a, a)) by {
            lemma_key_order(triple_view(a), triple_view(a), triple_view(a));
        }
    }

    fn comes_before(&self, other: &Self) -> (r: bool) {
        order::text_before(self.0.as_str(), other.0.as_str()) || (text::same_text(
            self.0.as_str(),
            other.0.as_str(),
        ) && order::text_before(self.1.as_str(), other.1.as_str()))
    }
}

fn find_key(entries: &Vec<(String, String, String)>, file: &str, entity: &str) -> (r: Option<usize>)
    ensures
        forall|change: Seq<char>|
            text::same_index(
                r,
                #[trigger] key_index(triples_view(entries@), (file@, entity@, change), 0),
            ),
        r matches Some(k) ==> k < entries@.len() && entries@[k as int].0@ == file@
            && entries@[k as int].1@ == entity@,
{
    let ghost view = triples_view(entries@);
    let mut i: usize = 0;
    while i < entries.len()
        invariant
            view == triples_view(entries@),
            i <= entries@.len(),
            forall|change: Seq<char>| #[trigger]
                key_index(view, (file@, entity@, change), 0) == key_index(
                    view,
                    (file@, entity@, change),
                    i as int,
                ),
        decreases entries@.len() - i,
    {
        if text::same_text(entries[i].0.as_str(), file) && text::same_text(
            entries[i].1.as_str(),
            entity,
        ) {
            return Some(i);
        }
        i += 1;
    }
    None
}

/// Merge entries that speak of the same file and entity: conflicting change
/// types collapse to `"modified"`. The result is sorted by file and entity.
pub fn merge_entries(entries: Vec<(String, String, String)>) -> (out: Vec<
    (String, String, String),
>)
    ensures
        triples_view(out@) == merged_entries(triples_view(entries@)),
{
    let ghost all = triples_view(entries@);
    let mut out: Vec<(String, String, String)> = Vec::new();
    let mut i: usize = 0;
    assert(all.take(0) =~= seq![]);
    assert(triples_view(out@) =~= seq![]);
    while i < entries.len()
        invariant
            all == triples_view(entries@),
            i <= entries@.len(),
            triples_view(out@) == merged_all(all.take(i as int)),
        decreases entries@.len() - i,
    {
        let ghost before = triples_view(out@);
        let ghost e = all[i as int];
        proof {
            assert(all.take(i + 1).drop_last() =~= all.take(i as int));
        }
        let file = entries[i].0.clone();
        let entity = entries[i].1.clone();
        let change = entries[i].2.clone();
        assert(e == (file@, entity@, change@));
        match find_key(&out, file.as_str(), entity.as_str()) {
            Some(k) => {
                assert(key_index(before, e, 0) == Some(k as int));
                if !text::same_text(out[k].2.as_str(), change.as_str()) {
                    out.set(k, (file, entity, "modified".to_owned()));
                    assert(triples_view(out@) =~= before.update(k as int, (e.0, e.1, "modified"@)));
                }
            },
            None => {
                assert(key_index(before, e, 0) is None);
                out.push((file, entity, change));
                assert(triples_view(out@) =~= before.push(e));
            },
        }
        i += 1;
    }
    assert(all.take(i as int) =~= all);
    proof {
        order::lemma_sorted_map(
            out@,
            |t: (String, String, String)| triple_view(t),
            |a: (String, String, String), b: (String, String, String)| a.precedes(&b),
            |a: (Seq<char>, Seq<char>, Seq<char>), b: (Seq<char>, Seq<char>, Seq<char>)|
                key_before(a, b),
        );
    }
    order::sort(out)
}

// ---------------------------------------------------------------------------
// Language detection
// ---------------------------------------------------------------------------

/// The language of the file at `path`, by its extension.
pub open spec fn language_of(path: Seq<char>) -> Option<Seq<char>> {
    compress::language_for(search::after_last(path, '.'))
}

/// The language of the file at `path`, by its extension.
pub fn detect_language(path: &str) -> (r: Option<String>)
    ensures
        match r {
            Some(l) => language_of(path@) == Some(l@),
            None => language_of(path@) is None,
        },
{
    let chars = text::chars_of(path);
    let ext = text::string_of(search::rest_after_last(chars.as_slice(), '.'));
    match compress::language_from_extension(ext.as_str()) {
        Some(l) => Some(l.to_owned()),
        None => None,
    }
}

// ---------------------------------------------------------------------------
// Attribution
// ---------------------------------------------------------------------------

/// The entries of the hunks of one file.
pub open spec fn file_entries(path: Seq<char>, hunks: Seq<HunkView>) -> Seq<
    (Seq<char>, Seq<char>, Seq<char>),
> {
    hunks.map_values(|h: HunkView| (path, entity_of(h, language_of(path)), change_of(h.lines)))
}

/// The entries of the hunks of all files.
pub open spec fn all_entries(files: Seq<FileView>) -> Seq<(Seq<char>, Seq<char>, Seq<char>)>
    decreases files.len(),
{
    if files.len() == 0 {
        seq![]
    } else {
        all_entries(files.drop_last()) + file_entries(files.last().path, files.last().hunks)
    }
}

/// Append the entries of the hunks of one file.
fn push_file_entries(out: &mut Vec<(String, String, String)>, section: &FileDiff)
    ensures
        triples_view(final(out)@) == triples_view(old(out)@) + file_entries(
            section@.path,
            section@.hunks,
        ),
{
    let detected = detect_language(section.new_path.as_str());
    let lang: Option<&str> = match &detected {
        Some(l) => Some(l.as_str()),
        None => None,
    };
    let ghost start = triples_view(out@);
    let ghost entries = file_entries(section@.path, section@.hunks);
    let mut i: usize = 0;
    assert(triples_view(out@) =~= start + entries.take(0));
    while i < section.hunks.len()
        invariant
            entries == file_entries(section@.path, section@.hunks),
            i <= section.hunks@.len(),
            compress::same_language(lang, language_of(section@.path)),
            triples_view(out@) == start + entries.take(i as int),
        decreases section.hunks@.len() - i,
    {
        let entity = resolve_entity(&section.hunks[i], lang);
        let change = classify_change(&section.hunks[i]);
        let ghost before = triples_view(out@);
        out.push((section.new_path.clone(), entity, change));
        i += 1;
        proof {
            assert(triples_view(out@) =~= before.push((section@.path, entity@, change@)));
            assert(section@.hunks[i - 1] == section.hunks@[i - 1]@);
            assert(triples_view(out@) =~= start + entries.take(i as int));
        }
    }
    assert(entries.take(i as int) =~= entries);
}

/// Analyse `diff_text` and return entity-level attribution tuples.
///
/// Each element is `(file, entity_name, change_type)` where `change_type` is
/// `"added"`, `"removed"`, or `"modified"`.
///
/// Duplicate `(file, entity)` pairs from multiple hunks are merged: conflicting
/// change types collapse to `"modified"`.
pub fn compress(diff_text: &str) -> (out: Vec<(String, String, String)>)
    ensures
        triples_view(out@) == merged_entries(all_entries(diff_files(diff_text@))),
{
    let sections = parse_diff(diff_text);
    let ghost files = files_view(sections@);
    let mut entries: Vec<(String, String, String)> = Vec::new();
    let mut i: usize = 0;
    assert(files.take(0) =~= seq![]);
    assert(triples_view(entries@) =~= seq![]);
    while i < sections.len()
        invariant
            files == files_view(sections@),
            i <= sections@.len(),
            triples_view(entries@) == all_entries(files.take(i as int)),
        decreases sections@.len() - i,
    {
        proof {
            assert(files.take(i + 1).drop_last() =~= files.take(i as int));
            assert(files.take(i + 1).last() == sections@[i as int]@);
        }
        push_file_entries(&mut entries, &sections[i]);
        i += 1;
    }
    assert(files.take(i as int) =~= files);
    merge_entries(entries)
}

// ---------------------------------------------------------------------------
// Laws
// ---------------------------------------------------------------------------

/// All of `entries` that speak of the same file and entity as `e` make the
/// change `change`.
pub open spec fn all_agree(
    entries: Seq<(Seq<char>, Seq<char>, Seq<char>)>,
    e: (Seq<char>, Seq<char>, Seq<char>),
    change: Seq<char>,
) -> bool {
    forall|i: int|
        0 <= i < entries.len() && same_key(#[trigger] entries[i], e) ==> entries[i].2 == change
}

/// Some of `entries` speaks of the same file and entity as `e`.
pub open spec fn has_key(
    entries: Seq<(Seq<char>, Seq<char>, Seq<char>)>,
    e: (Seq<char>, Seq<char>, Seq<char>),
) -> bool {
    exists|i: int| 0 <= i < entries.len() && same_key(#[trigger] entries[i], e)
}

proof fn lemma_key_index(
    entries: Seq<(Seq<char>, Seq<char>, Seq<char>)>,
    e: (Seq<char>, Seq<char>, Seq<char>),
    i: int,
)
    requires
        0 <= i,
    ensures
        match key_index(entries, e, i) {
            Some(k) => i <= k < entries.len() && same_key(entries[k], e),
            None => forall|j: int| i <= j < entries.len() ==> !same_key(#[trigger] entries[j], e),
        },
    decreases entries.len() - i,
{
    if i < entries.len() && !same_key(entries[i], e) {
        lemma_key_index(entries, e, i + 1);
    }
}

/// Merging keeps one entry for every file and entity that occurs and no other;
/// it makes the change on which all of them agree, or `modified` where they do
/// not.
pub proof fn lemma_merged_all(entries: Seq<(Seq<char>, Seq<char>, Seq<char>)>)
    ensures
        forall|i: int, j: int|
            0 <= i < j < merged_all(entries).len() ==> !same_key(
                #[trigger] merged_all(entries)[i],
                #[trigger] merged_all(entries)[j],
            ),
        forall|e: (Seq<char>, Seq<char>, Seq<char>)| #[trigger]
            has_key(entries, e) == has_key(merged_all(entries), e),
        forall|k: int|
            0 <= k < merged_all(entries).len() ==> {
                let m = #[trigger] merged_all(entries)[k];
                all_agree(entries, m, m.2) || m.2 == "modified"@
            },
        forall|k: int, change: Seq<char>|
            0 <= k < merged_all(entries).len() && #[trigger] all_agree(
                entries,
                merged_all(entries)[k],
                change,
            ) ==> merged_all(entries)[k].2 == change,
    decreases entries.len(),
{
    if entries.len() > 0 {
        let shorter = entries.drop_last();
        let e = entries.last();
        let before = merged_all(shorter);
        let after = merged_all(entries);
        lemma_merged_all(shorter);
        lemma_key_index(before, e, 0);
        assert(entries =~= shorter.push(e));
        assert forall|x: (Seq<char>, Seq<char>, Seq<char>)| #[trigger]
            has_key(entries, x) == has_key(after, x) by {
            assert(has_key(shorter, x) == has_key(before, x));
            lemma_has_key_push(shorter, e, x);
            match key_index(before, e, 0) {
                Some(k) => {
                    assert forall|y: (Seq<char>, Seq<char>, Seq<char>)|
                        has_key(before, y) == has_key(after, y) by {
                        if has_key(before, y) {
                            let i = choose|i: int|
                                0 <= i < before.len() && same_key(#[trigger] before[i], y);
                            assert(same_key(after[i], y));
                        }
                        if has_key(after, y) {
                            let i = choose|i: int|
                                0 <= i < after.len() && same_key(#[trigger] after[i], y);
                            assert(same_key(before[i], y));
                        }
                    }
                    if same_key(e, x) {
                        assert(same_key(before[k], x));
                    }
                },
                None => {
                    lemma_has_key_push(before, e, x);
                },
            }
        }
        assert forall|k: int| 0 <= k < after.len() implies {
            let m = #[trigger] after[k];
            all_agree(entries, m, m.2) || m.2 == "modified"@
        } by {
            let m = after[k];
            match key_index(before, e, 0) {
                Some(j) => {
                    assert(all_agree(shorter, before[k], before[k].2) || before[k].2
                        == "modified"@);
                    if k != j {
                        assert(!same_key(before[k], before[j]));
                        assert(m == before[k]);
                    }
                },
                None => {
                    if k < before.len() {
                        assert(m == before[k]);
                        assert(all_agree(shorter, before[k], before[k].2) || before[k].2
                            == "modified"@);
                    } else {
                        assert(!has_key(before, e));
                        assert(!has_key(shorter, e));
                    }
                },
            }
        }
        assert forall|k: int, change: Seq<char>|
            0 <= k < after.len() && #[trigger] all_agree(
                entries,
                after[k],
                change,
            ) implies after[k].2 == change by {
            let m = after[k];
            assert(all_agree(shorter, m, change)) by {
                assert forall|i: int|
                    0 <= i < shorter.len() && same_key(#[trigger] shorter[i], m) implies shorter[i].2
                    == change by {
                    assert(entries[i] == shorter[i]);
                }
            }
            assert(entries[entries.len() - 1] == e);
            match key_index(before, e, 0) {
                Some(j) => {
                    assert(same_key(before[k], m));
                    assert(all_agree(shorter, before[k], change));
                    assert(before[k].2 == change);
                },
                None => {
                    if k < before.len() {
                        assert(all_agree(shorter, before[k], change));
                    }
                },
            }
        }
    }
}

proof fn lemma_has_key_push(
    entries: Seq<(Seq<char>, Seq<char>, Seq<char>)>,
    e: (Seq<char>, Seq<char>, Seq<char>),
    x: (Seq<char>, Seq<char>, Seq<char>),
)
    ensures
        has_key(entries.push(e), x) == (has_key(entries, x) || same_key(e, x)),
{
    let longer = entries.push(e);
    if has_key(entries, x) {
        let i = choose|i: int| 0 <= i < entries.len() && same_key(#[trigger] entries[i], x);
        assert(same_key(longer[i], x));
    }
    if same_key(e, x) {
        assert(same_key(longer[entries.len() as int], x));
    }
    if has_key(longer, x) {
        let i = choose|i: int| 0 <= i < longer.len() && same_key(#[trigger] longer[i], x);
        if i < entries.len() {
            assert(same_key(entries[i], x));
        }
    }
}

} // verus!
