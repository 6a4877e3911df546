//! Bounded views of stored content.

use crate::error::{joined_text, CtxlError};
use crate::number;
use crate::pieces;
use crate::search;
use crate::text;
use vstd::prelude::*;
use vstd::slice::*;
use vstd::string::*;

verus! {

/// Lines that a view shows where nothing else is asked for.
pub const DEFAULT_HEAD: usize = 80;

/// Lines reserved for the tail section when a view is cut.
pub const TAIL_LINES: usize = 10;

/// What part of stored content to show.
#[derive(Debug)]
pub struct ShowOpts {
    pub head: usize,
    pub tail: Option<usize>,
    /// Number of lines to skip before applying head/tail bounds.
    pub offset: usize,
    /// When true, the compressed body is shown instead of the raw content, which
    /// takes its place with a note where there is none.
    pub compressed: bool,
}

impl Default for ShowOpts {
    fn default() -> (o: Self)
        ensures
            o == (ShowOpts { head: DEFAULT_HEAD, tail: None, offset: 0, compressed: false }),
    {
        ShowOpts { head: DEFAULT_HEAD, tail: None, offset: 0, compressed: false }
    }
}

// ---------------------------------------------------------------------------
// Cutting
// ---------------------------------------------------------------------------

/// `s` ends in a line break.
pub open spec fn ends_line(s: Seq<char>) -> bool {
    s.len() > 0 && s.last() == '\n'
}

fn ends_in_break(s: &[char]) -> (r: bool)
    ensures
        r == ends_line(s@),
{
    s.len() > 0 && s[s.len() - 1] == '\n'
}

/// `s` without its first `offset` lines.
pub open spec fn skipped(s: Seq<char>, offset: nat) -> Seq<char> {
    let lines = pieces::lines_of(s);
    if offset == 0 {
        s
    } else if offset >= lines.len() {
        seq![]
    } else if ends_line(s) {
        pieces::joined(lines.skip(offset as int), "\n"@) + "\n"@
    } else {
        pieces::joined(lines.skip(offset as int), "\n"@)
    }
}

/// Skip the first `offset` lines from `content`, preserving trailing newline.
///
/// Returns the full text unchanged when `offset` is 0, or an empty string when
/// `offset` exceeds the line count.
pub fn apply_offset(content: &str, offset: usize) -> (r: String)
    ensures
        r@ == skipped(content@, offset as nat),
{
    if offset == 0 {
        return content.to_owned();
    }
    let chars = text::chars_of(content);
    let lines = pieces::split_lines(chars.as_slice());
    let n = lines.len();
    assert(text::views(lines@).len() == n);
    if offset >= n {
        let r = String::new();
        assert(r@ =~= seq![]);
        return r;
    }
    let rest = slice_subrange(lines.as_slice(), offset, n);
    assert(text::views(rest@) =~= text::views(lines@).skip(offset as int));
    let mut r = pieces::join(rest, "\n");
    if ends_in_break(chars.as_slice()) {
        r.append("\n");
    }
    r
}

/// The first of `s`, at most `n`.
pub open spec fn first_of<T>(s: Seq<T>, n: nat) -> Seq<T> {
    if s.len() <= n {
        s
    } else {
        s.take(n as int)
    }
}

/// Lines on a page: each ends in a line break, but for a page that holds nothing
/// else than one empty line, which is empty.
pub open spec fn page_text(lines: Seq<Seq<char>>) -> Seq<char> {
    let j = pieces::joined(lines, "\n"@);
    if j.len() == 0 {
        j
    } else {
        j + "\n"@
    }
}

/// The first `max` lines of `s` as a page.
pub open spec fn head_page(s: Seq<char>, max: nat) -> Seq<char> {
    page_text(first_of(pieces::lines_of(s), max))
}

/// The first `max_lines` lines of `content` as a page.
pub fn head_slice(content: &str, max_lines: usize) -> (r: String)
    ensures
        r@ == head_page(content@, max_lines as nat),
{
    let chars = text::chars_of(content);
    let lines = pieces::split_lines(chars.as_slice());
    let n = if lines.len() <= max_lines {
        lines.len()
    } else {
        max_lines
    };
    let head = slice_subrange(lines.as_slice(), 0, n);
    assert(text::views(head@) =~= first_of(text::views(lines@), max_lines as nat));
    let mut r = pieces::join(head, "\n");
    if r.as_str().unicode_len() > 0 {
        r.append("\n");
    }
    r
}

/// A note on the lines that are shown.
pub open spec fn showing(lead: Seq<char>, shown: nat, total: nat) -> Seq<char> {
    lead + number::decimal(shown) + " of "@ + number::decimal(total) + " lines)\n"@
}

/// Append a note on the lines that are shown.
fn push_showing(out: &mut String, lead: &str, shown: usize, total: usize)
    ensures
        final(out)@ == old(out)@ + showing(lead@, shown as nat, total as nat),
{
    let ghost start = out@;
    out.append(lead);
    number::push_count(out, shown);
    out.append(" of ");
    number::push_count(out, total);
    out.append(" lines)\n");
    assert(out@ =~= start + showing(lead@, shown as nat, total as nat));
}

/// All lines of `s`, with the line break at its end.
pub open spec fn whole(s: Seq<char>) -> Seq<char> {
    let j = pieces::joined(pieces::lines_of(s), "\n"@);
    if ends_line(s) {
        j + "\n"@
    } else {
        j
    }
}

/// The line that stands for the lines that are left out.
pub open spec fn omission(omitted: nat) -> Seq<char> {
    "... ("@ + number::decimal(omitted) + " lines omitted) ..."@
}

/// `s` cut to `max` lines: its head, and where there is room its tail.
pub open spec fn bounded(s: Seq<char>, max: nat) -> Seq<char> {
    let lines = pieces::lines_of(s);
    let total = lines.len();
    if total <= max {
        whole(s)
    } else if max <= TAIL_LINES + 2 {
        pieces::joined(lines.take(max as int), "\n"@) + "\n"@ + showing("(showing "@, max, total)
    } else {
        let head = max - TAIL_LINES - 1;
        pieces::joined(
            lines.take(head).push(omission((total - head - TAIL_LINES) as nat)) + lines.skip(
                total - TAIL_LINES,
            ),
            "\n"@,
        ) + "\n"@ + showing("(showing "@, max, total)
    }
}

/// Truncate `content` to at most `max_lines` lines using a head+tail strategy.
///
/// When truncation is needed, shows the first lines, a separator, and the last
/// [`TAIL_LINES`] lines. This captures both initial context (headers,
/// compilation messages) and final summaries (test results, exit status).
pub fn bound_lines(content: &str, max_lines: usize) -> (r: String)
    ensures
        r@ == bounded(content@, max_lines as nat),
{
    let chars = text::chars_of(content);
    let lines = pieces::split_lines(chars.as_slice());
    let ghost all = text::views(lines@);
    let total = lines.len();
    if total <= max_lines {
        let mut r = pieces::join(lines.as_slice(), "\n");
        if ends_in_break(chars.as_slice()) {
            r.append("\n");
        }
        return r;
    }
    if max_lines <= TAIL_LINES + 2 {
        let head = slice_subrange(lines.as_slice(), 0, max_lines);
        assert(text::views(head@) =~= all.take(max_lines as int));
        let mut r = pieces::join(head, "\n");
        r.append("\n");
        push_showing(&mut r, "(showing ", max_lines, total);
        return r;
    }
    let head_count = max_lines - TAIL_LINES - 1;
    let omitted = total - head_count - TAIL_LINES;
    let mut note = "... (".to_owned();
    number::push_count(&mut note, omitted);
    note.append(" lines omitted) ...");
    let note_chars = text::chars_of(note.as_str());
    let mut parts: Vec<&[char]> = Vec::new();
    let mut i: usize = 0;
    assert(text::views(parts@) =~= all.take(0));
    while i < head_count
        invariant
            all == text::views(lines@),
            i <= head_count <= lines@.len(),
            text::views(parts@) == all.take(i as int),
        decreases head_count - i,
    {
        let ghost before = text::views(parts@);
        parts.push(lines[i]);
        assert(text::views(parts@) =~= before.push(all[i as int]));
        i += 1;
        assert(text::views(parts@) =~= all.take(i as int));
    }
    parts.push(note_chars.as_slice());
    let ghost head = all.take(head_count as int).push(omission(omitted as nat));
    assert(text::views(parts@) =~= head);
    let start = total - TAIL_LINES;
    let mut j: usize = start;
    assert(text::views(parts@) =~= head + all.subrange(start as int, j as int));
    while j < total
        invariant
            all == text::views(lines@),
            start <= j <= total,
            total == lines@.len(),
            text::views(parts@) == head + all.subrange(start as int, j as int),
        decreases total - j,
    {
        let ghost before = text::views(parts@);
        parts.push(lines[j]);
        assert(text::views(parts@) =~= before.push(all[j as int]));
        j += 1;
        assert(text::views(parts@) =~= head + all.subrange(start as int, j as int));
    }
    assert(all.subrange(start as int, total as int) =~= all.skip(start as int));
    let mut r = pieces::join(parts.as_slice(), "\n");
    r.append("\n");
    push_showing(&mut r, "(showing ", max_lines, total);
    r
}

/// The last `max` lines of `s`.
pub open spec fn tail_part(s: Seq<char>, max: nat) -> Seq<char> {
    let lines = pieces::lines_of(s);
    let total = lines.len();
    if total <= max {
        whole(s)
    } else {
        pieces::joined(lines.skip(total - max), "\n"@) + "\n"@ + showing(
            "(showing last "@,
            max,
            total,
        )
    }
}

/// Return the last `max_lines` lines from `content`.
///
/// When the text has fewer than `max_lines` lines, returns the full content.
pub fn tail_lines(content: &str, max_lines: usize) -> (r: String)
    ensures
        r@ == tail_part(content@, max_lines as nat),
{
    let chars = text::chars_of(content);
    let lines = pieces::split_lines(chars.as_slice());
    let ghost all = text::views(lines@);
    let total = lines.len();
    if total <= max_lines {
        let mut r = pieces::join(lines.as_slice(), "\n");
        if ends_in_break(chars.as_slice()) {
            r.append("\n");
        }
        return r;
    }
    let start = total - max_lines;
    let tail = slice_subrange(lines.as_slice(), start, total);
    assert(text::views(tail@) =~= all.skip(start as int));
    let mut r = pieces::join(tail, "\n");
    r.append("\n");
    push_showing(&mut r, "(showing last ", max_lines, total);
    r
}

/// A page where lines are skipped, and a cut view where none are.
pub open spec fn offset_bounded(s: Seq<char>, max: nat, offset: nat) -> Seq<char> {
    if offset > 0 {
        head_page(s, max)
    } else {
        bounded(s, max)
    }
}

/// When `offset > 0`, return a simple head slice (no head+tail split). When
/// `offset == 0`, delegate to [`bound_lines`] for the head+tail strategy.
///
/// A tail section would take lines of the next page from one that is reached
/// with an offset: consecutive pages would not tile.
pub fn offset_aware_bound(content: &str, max_lines: usize, offset: usize) -> (r: String)
    ensures
        r@ == offset_bounded(content@, max_lines as nat, offset as nat),
{
    if offset > 0 {
        head_slice(content, max_lines)
    } else {
        bound_lines(content, max_lines)
    }
}

// ---------------------------------------------------------------------------
// Showing
// ---------------------------------------------------------------------------

/// The part of `s` that `opts` asks for.
pub open spec fn part_shown(s: Seq<char>, opts: ShowOpts) -> Seq<char> {
    let rest = skipped(s, opts.offset as nat);
    match opts.tail {
        Some(n) => tail_part(rest, n as nat),
        None => offset_bounded(rest, opts.head as nat, opts.offset as nat),
    }
}

/// The part of `content` that `opts` asks for.
pub fn show_part(content: &str, opts: &ShowOpts) -> (r: String)
    ensures
        r@ == part_shown(content@, *opts),
{
    let rest = apply_offset(content, opts.offset);
    match opts.tail {
        Some(n) => tail_lines(rest.as_str(), n),
        None => offset_aware_bound(rest.as_str(), opts.head, opts.offset),
    }
}

/// What is stored under a handle.
#[derive(Debug)]
pub struct StoredContent {
    /// The compressed body, where there is one.
    pub compressed_body: Option<String>,
    /// The content; absent where the handle is linked to a blob of the global
    /// cache.
    pub content: Option<String>,
}

/// The content of a handle: its own, or that of the blob it is linked to, or
/// nothing.
pub open spec fn content_or(own: Option<String>, linked: Option<String>) -> Seq<char> {
    match own {
        Some(c) => c@,
        None => match linked {
            Some(c) => c@,
            None => seq![],
        },
    }
}

/// The content of a handle: its own, or that of the blob it is linked to, or
/// nothing.
pub fn resolve_content(own: Option<String>, linked: Option<String>) -> (s: String)
    ensures
        s@ == content_or(own, linked),
{
    match own {
        Some(c) => c,
        None => match linked {
            Some(c) => c,
            None => {
                let s = String::new();
                assert(s@ =~= seq![]);
                s
            },
        },
    }
}

/// The note on content that has no compressed body.
pub open spec fn raw_note() -> Seq<char> {
    "(No structural compression available for this handle — showing raw content)\n"@
}

/// What is shown of stored content.
pub open spec fn shown(stored: StoredContent, linked: Option<String>, opts: ShowOpts) -> Seq<char> {
    let content = content_or(stored.content, linked);
    if opts.compressed {
        match stored.compressed_body {
            Some(body) => part_shown(body@, opts),
            None => if content.len() == 0 {
                raw_note()
            } else {
                raw_note() + part_shown(content, opts)
            },
        }
    } else if content.len() == 0 && stored.content is None {
        seq![]
    } else {
        part_shown(content, opts)
    }
}

/// Return the stored content for `handle`, bounded as `opts` asks for. `linked`
/// is the content of the blob that the handle is linked to, where it has no
/// content of its own.
///
/// When `opts.compressed` is true, the compressed body is returned instead of
/// the raw content; the content takes its place with a note where there is
/// none.
pub fn show(
    handle: &str,
    stored: Option<StoredContent>,
    linked: Option<String>,
    opts: &ShowOpts,
) -> (r: Result<String, CtxlError>)
    ensures
        match r {
            Ok(s) => stored matches Some(st) && s@ == shown(st, linked, *opts),
            Err(e) => stored is None && (e matches CtxlError::HandleNotFound(id) && id@
                == handle@),
        },
{
    let st = match stored {
        Some(st) => st,
        None => {
            return Err(CtxlError::HandleNotFound(handle.to_owned()));
        },
    };
    let owns = st.content.is_some();
    if opts.compressed {
        if let Some(body) = &st.compressed_body {
            return Ok(show_part(body.as_str(), opts));
        }
        let content = resolve_content(st.content, linked);
        let note = "(No structural compression available for this handle — showing raw content)\n";
        if content.as_str().unicode_len() == 0 {
            return Ok(note.to_owned());
        }
        let part = show_part(content.as_str(), opts);
        return Ok(joined_text(note, part.as_str()));
    }
    let content = resolve_content(st.content, linked);
    if content.as_str().unicode_len() == 0 && !owns {
        let none = String::new();
        assert(none@ =~= seq![]);
        return Ok(none);
    }
    Ok(show_part(content.as_str(), opts))
}

// ---------------------------------------------------------------------------
// Laws
// ---------------------------------------------------------------------------

/// Content none of whose lines ends in a carriage return: its lines read back
/// as they are.
pub open spec fn has_plain_lines(s: Seq<char>) -> bool {
    forall|i: int|
        0 <= i < pieces::lines_of(s).len() ==> pieces::is_plain_line(
            #[trigger] pieces::lines_of(s)[i],
        )
}

/// Skipping lines leaves the lines behind them.
pub proof fn lemma_skipped_lines(s: Seq<char>, offset: nat)
    requires
        has_plain_lines(s),
        offset <= pieces::lines_of(s).len(),
    ensures
        pieces::lines_of(skipped(s, offset)) == pieces::lines_of(s).skip(offset as int),
{
    let lines = pieces::lines_of(s);
    if offset == 0 {
        assert(lines.skip(0) =~= lines);
    } else if offset == lines.len() {
        assert(lines.skip(offset as int) =~= seq![]);
        assert(pieces::lines_of(seq![]) =~= seq![]);
    } else {
        let rest = lines.skip(offset as int);
        assert forall|i: int| 0 <= i < rest.len() implies pieces::is_plain_line(
            #[trigger] rest[i],
        ) by {
            assert(rest[i] == lines[offset + i]);
        }
        pieces::lemma_lines_of_joined(rest);
        if !ends_line(s) {
            pieces::lemma_last_line(s);
        }
    }
}

/// The lines from `offset` on, at most `count`.
pub open spec fn window(lines: Seq<Seq<char>>, offset: nat, count: nat) -> Seq<Seq<char>> {
    if offset >= lines.len() {
        seq![]
    } else {
        first_of(lines.skip(offset as int), count)
    }
}

/// A page that is reached with an offset shows exactly the lines from there on.
pub proof fn lemma_page_shows_window(s: Seq<char>, opts: ShowOpts)
    requires
        has_plain_lines(s),
        opts.offset > 0,
        opts.tail is None,
    ensures
        part_shown(s, opts) == page_text(
            window(pieces::lines_of(s), opts.offset as nat, opts.head as nat),
        ),
{
    let lines = pieces::lines_of(s);
    if opts.offset <= lines.len() {
        lemma_skipped_lines(s, opts.offset as nat);
        if opts.offset == lines.len() {
            assert(lines.skip(opts.offset as int) =~= seq![]);
        }
    } else {
        assert(pieces::lines_of(Seq::<char>::empty()) =~= seq![]);
    }
}

/// Consecutive pages tile: two pages, one behind the other, show what one page
/// of both lengths shows. A page that holds nothing else than an empty line is
/// empty itself and is left aside.
pub proof fn lemma_pages_tile(lines: Seq<Seq<char>>, offset: nat, first: nat, second: nat)
    requires
        window(lines, offset, first).len() == 0 || pieces::joined(
            window(lines, offset, first),
            "\n"@,
        ).len() > 0,
        window(lines, offset + first, second).len() == 0 || pieces::joined(
            window(lines, offset + first, second),
            "\n"@,
        ).len() > 0,
    ensures
        page_text(window(lines, offset, first)) + page_text(window(lines, offset + first, second))
            == page_text(window(lines, offset, first + second)),
{
    reveal_strlit("\n");
    let a = window(lines, offset, first);
    let b = window(lines, offset + first, second);
    let c = window(lines, offset, first + second);
    assert(a + b =~= c);
    if a.len() == 0 {
        assert(c =~= b);
        assert(page_text(a) + page_text(b) =~= page_text(b));
    } else if b.len() == 0 {
        assert(c =~= a);
        assert(page_text(a) + page_text(b) =~= page_text(a));
    } else {
        pieces::lemma_joined_concat(a, b, "\n"@);
        assert(page_text(a) + page_text(b) =~= page_text(c));
    }
}

/// A view with room for all lines leaves none out: its lines are those of the
/// content.
pub proof fn lemma_bounded_whole(s: Seq<char>, max: nat)
    requires
        has_plain_lines(s),
        pieces::lines_of(s).len() <= max,
    ensures
        pieces::lines_of(bounded(s, max)) == pieces::lines_of(s),
{
    let lines = pieces::lines_of(s);
    if lines.len() == 0 {
        if s.len() > 0 {
            search::lemma_char_index(s, '\n');
        }
        assert(bounded(s, max) =~= seq![]);
    } else {
        pieces::lemma_lines_of_joined(lines);
        if !ends_line(s) {
            if s.len() == 0 {
                assert(lines.len() == 0);
            }
            pieces::lemma_last_line(s);
        }
    }
}

/// What is stored comes back: a view with room for all lines has the lines of the
/// content, be it the handle's own or that of the blob it is linked to.
pub proof fn lemma_stored_is_shown(
    content: Seq<char>,
    stored: StoredContent,
    linked: Option<String>,
    opts: ShowOpts,
)
    requires
        content_or(stored.content, linked) == content,
        has_plain_lines(content),
        !opts.compressed,
        opts.offset == 0,
        opts.tail is None,
        pieces::lines_of(content).len() <= opts.head,
    ensures
        pieces::lines_of(shown(stored, linked, opts)) == pieces::lines_of(content),
{
    lemma_bounded_whole(content, opts.head as nat);
}

/// Content in which no carriage return stands before a line break.
pub open spec fn has_plain_breaks(s: Seq<char>) -> bool {
    forall|i: int| 0 < i < s.len() && #[trigger] s[i] == '\n' ==> s[i - 1] != '\r'
}

/// All lines of content with plain line breaks are the content itself.
proof fn lemma_whole_same(s: Seq<char>)
    requires
        has_plain_breaks(s),
    ensures
        whole(s) == s,
    decreases s.len(),
{
    reveal_strlit("\n");
    let nl = "\n"@;
    search::lemma_char_index(s, '\n');
    if s.len() > 0 {
        match search::char_index(s, '\n') {
            Some(k) => {
                let line = s.take(k);
                let rest = s.skip(k + 1);
                assert(pieces::without_cr(line) == line) by {
                    assert(s[k] == '\n');
                }
                assert forall|i: int| 0 < i < rest.len() && #[trigger] rest[i] == '\n' implies rest[i
                    - 1] != '\r' by {
                    assert(s[k + 1 + i] == '\n');
                }
                lemma_whole_same(rest);
                let others = pieces::lines_of(rest);
                let lines = seq![line] + others;
                if rest.len() == 0 {
                    assert(lines =~= seq![line]);
                    assert(line + nl =~= s);
                } else {
                    search::lemma_char_index(rest, '\n');
                    assert(others.len() > 0);
                    pieces::lemma_joined_first(lines, nl);
                    assert(lines.skip(1) =~= others);
                    assert(ends_line(rest) == ends_line(s));
                    assert(line + nl + rest =~= s);
                    assert(whole(s) =~= line + nl + whole(rest));
                }
            },
            None => {
                assert(pieces::lines_of(s) =~= seq![s]);
                if ends_line(s) {
                    assert(s[s.len() - 1] == '\n');
                }
            },
        }
    }
}

/// What is stored comes back as it is, where there is room for all lines and no
/// carriage return stands before a line break.
pub proof fn lemma_stored_comes_back(
    content: Seq<char>,
    stored: StoredContent,
    linked: Option<String>,
    opts: ShowOpts,
)
    requires
        content_or(stored.content, linked) == content,
        has_plain_breaks(content),
        !opts.compressed,
        opts.offset == 0,
        opts.tail is None,
        pieces::lines_of(content).len() <= opts.head,
    ensures
        shown(stored, linked, opts) == content,
{
    lemma_whole_same(content);
}

/// Lines that each end in a line break, and then the lines of the rest.
proof fn lemma_line_count(parts: Seq<Seq<char>>, rest: Seq<char>)
    requires
        parts.len() > 0,
        forall|i: int| 0 <= i < parts.len() ==> !(#[trigger] parts[i]).contains('\n'),
    ensures
        pieces::lines_of(pieces::joined(parts, "\n"@) + "\n"@ + rest).len() == parts.len()
            + pieces::lines_of(rest).len(),
    decreases parts.len(),
{
    reveal_strlit("\n");
    let nl = "\n"@;
    let first = parts[0];
    if parts.len() == 1 {
        assert(first + nl + rest =~= first.push('\n') + rest);
        pieces::lemma_lines_first(first, rest);
    } else {
        let others = parts.skip(1);
        pieces::lemma_joined_first(parts, nl);
        assert forall|i: int| 0 <= i < others.len() implies !(#[trigger] others[i]).contains(
            '\n',
        ) by {
            assert(others[i] == parts[i + 1]);
        }
        lemma_line_count(others, rest);
        let tail = pieces::joined(others, nl) + nl + rest;
        assert(pieces::joined(parts, nl) + nl + rest =~= first.push('\n') + tail);
        pieces::lemma_lines_first(first, tail);
    }
}

/// Joined lines are no more than there were.
proof fn lemma_joined_count(parts: Seq<Seq<char>>)
    requires
        forall|i: int| 0 <= i < parts.len() ==> !(#[trigger] parts[i]).contains('\n'),
    ensures
        pieces::lines_of(pieces::joined(parts, "\n"@)).len() <= parts.len(),
{
    reveal_strlit("\n");
    let nl = "\n"@;
    if parts.len() == 1 {
        pieces::lemma_lines_without_ending(parts[0]);
    } else if parts.len() > 1 {
        let head = parts.drop_last();
        assert forall|i: int| 0 <= i < head.len() implies !(#[trigger] head[i]).contains('\n') by {
            assert(head[i] == parts[i]);
        }
        lemma_line_count(head, parts.last());
        pieces::lemma_lines_without_ending(parts.last());
    }
}

/// A note is one line.
proof fn lemma_note_is_line(lead: Seq<char>, shown: nat, total: nat)
    requires
        !lead.contains('\n'),
    ensures
        pieces::lines_of(showing(lead, shown, total)).len() == 1,
{
    reveal_strlit(" of ");
    reveal_strlit(" lines)\n");
    reveal_strlit(" lines)");
    let a = number::decimal(shown);
    let b = number::decimal(total);
    number::lemma_decimal_digits(shown);
    number::lemma_decimal_digits(total);
    let line = lead + a + " of "@ + b + " lines)"@;
    assert forall|i: int| 0 <= i < line.len() implies line[i] != '\n' by {
        if i < lead.len() {
            assert(lead.contains(lead[i]));
        } else if i < lead.len() + a.len() {
            assert(line[i] == a[i - lead.len()]);
        } else if i >= lead.len() + a.len() + 4 && i < lead.len() + a.len() + 4 + b.len() {
            assert(line[i] == b[i - lead.len() - a.len() - 4]);
        }
    }
    assert(showing(lead, shown, total) =~= line.push('\n') + Seq::<char>::empty());
    pieces::lemma_lines_first(line, Seq::<char>::empty());
    assert(pieces::lines_of(Seq::<char>::empty()).len() == 0);
}

proof fn lemma_omission_unbroken(omitted: nat)
    ensures
        !omission(omitted).contains('\n'),
{
    reveal_strlit("... (");
    reveal_strlit(" lines omitted) ...");
    number::lemma_decimal_digits(omitted);
    let a = number::decimal(omitted);
    let line = omission(omitted);
    assert forall|i: int| 0 <= i < line.len() implies line[i] != '\n' by {
        if 5 <= i < 5 + a.len() {
            assert(line[i] == a[i - 5]);
        }
    }
}

proof fn lemma_page_count(lines: Seq<Seq<char>>)
    requires
        forall|i: int| 0 <= i < lines.len() ==> !(#[trigger] lines[i]).contains('\n'),
    ensures
        pieces::lines_of(page_text(lines)).len() <= lines.len(),
{
    let j = pieces::joined(lines, "\n"@);
    if j.len() > 0 {
        lemma_line_count(lines, Seq::<char>::empty());
        assert(j + "\n"@ + Seq::<char>::empty() =~= j + "\n"@);
    }
}

proof fn lemma_whole_count(s: Seq<char>)
    ensures
        pieces::lines_of(whole(s)).len() <= pieces::lines_of(s).len(),
{
    let lines = pieces::lines_of(s);
    pieces::lemma_lines_unbroken(s);
    lemma_joined_count(lines);
    if ends_line(s) {
        search::lemma_char_index(s, '\n');
        assert(lines.len() > 0);
        lemma_line_count(lines, Seq::<char>::empty());
        let j = pieces::joined(lines, "\n"@);
        assert(j + "\n"@ + Seq::<char>::empty() =~= j + "\n"@);
    }
}

/// The number of lines that `opts` asks for.
pub open spec fn limit_of(opts: ShowOpts) -> nat {
    match opts.tail {
        Some(n) => n as nat,
        None => opts.head as nat,
    }
}

/// A view is bounded: it has no more lines than it is asked for, and one for the
/// note on what it leaves out. Where no lines are asked for, an empty line
/// stands in front of the note.
pub proof fn lemma_view_is_bounded(s: Seq<char>, opts: ShowOpts)
    ensures
        pieces::lines_of(part_shown(s, opts)).len() <= if limit_of(opts) == 0 {
            2
        } else {
            limit_of(opts) + 1
        },
{
    let rest = skipped(s, opts.offset as nat);
    let lines = pieces::lines_of(rest);
    let max = limit_of(opts);
    pieces::lemma_lines_unbroken(rest);
    if opts.offset > 0 && opts.tail is None {
        lemma_page_count(first_of(lines, max));
    } else if lines.len() <= max {
        lemma_whole_count(rest);
    } else {
        reveal_strlit("(showing ");
        reveal_strlit("(showing last ");
        reveal_strlit("\n");
        let note = match opts.tail {
            Some(_) => showing("(showing last "@, max, lines.len()),
            None => showing("(showing "@, max, lines.len()),
        };
        lemma_note_is_line("(showing "@, max, lines.len());
        lemma_note_is_line("(showing last "@, max, lines.len());
        let kept = match opts.tail {
            Some(_) => lines.skip(lines.len() - max),
            None => if max <= TAIL_LINES + 2 {
                lines.take(max as int)
            } else {
                let head = max - TAIL_LINES - 1;
                lines.take(head).push(omission((lines.len() - head - TAIL_LINES) as nat))
                    + lines.skip(lines.len() - TAIL_LINES)
            },
        };
        assert(part_shown(s, opts) == pieces::joined(kept, "\n"@) + "\n"@ + note);
        assert forall|i: int| 0 <= i < kept.len() implies !(#[trigger] kept[i]).contains('\n') by {
            lemma_omission_unbroken((lines.len() - (max - TAIL_LINES - 1) - TAIL_LINES) as nat);
        }
        if kept.len() == 0 {
            assert(pieces::joined(kept, "\n"@) + "\n"@ + note =~= Seq::<char>::empty().push('\n')
                + note);
            pieces::lemma_lines_first(Seq::<char>::empty(), note);
        } else {
            lemma_line_count(kept, note);
        }
    }
}

} // verus!
