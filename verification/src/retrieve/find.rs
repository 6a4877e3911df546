//! Search in stored content.
//!
//! A full-text match marks the tokens that it finds, and the lines that hold a
//! mark are the result. Where there is none, lines that hold the query as a
//! substring are, in any case: they catch partial tokens.

use crate::error::{joined_text, CtxlError};
use crate::number;
use crate::pieces;
use crate::query;
use crate::retrieve::window;
use crate::search;
use crate::text;
use vstd::prelude::*;
use vstd::slice::*;
use vstd::string::*;

verus! {

/// What a full-text match puts in front of a token that it finds.
pub const MATCH_START: &'static str = "\x01";

/// What a full-text match puts behind a token that it finds.
pub const MATCH_END: &'static str = "\x02";

// ---------------------------------------------------------------------------
// Queries
// ---------------------------------------------------------------------------

/// The query is refused with `e`: it is empty, or holds regex syntax.
pub open spec fn refused(q: Seq<char>, e: CtxlError) -> bool {
    if text::trimmed(q).len() == 0 {
        e is EmptyQuery
    } else {
        query::regex_message(q) matches Some(msg) && (e matches CtxlError::RegexInQuery(m) && m@
            == "error: "@ + msg)
    }
}

/// The query is accepted.
pub open spec fn accepted(q: Seq<char>) -> bool {
    text::trimmed(q).len() > 0 && query::regex_message(q) is None
}

/// The FTS5 phrase for a query, or the error for a query that is empty or holds
/// regex syntax.
pub fn search_phrase(q: &str) -> (r: Result<String, CtxlError>)
    ensures
        match r {
            Ok(p) => accepted(q@) && p@ == query::sanitized(q@),
            Err(e) => !accepted(q@) && refused(q@, e),
        },
{
    let chars = text::chars_of(q);
    if text::trim(chars.as_slice()).len() == 0 {
        return Err(CtxlError::EmptyQuery);
    }
    match query::detect_regex_metacharacters(q) {
        Some(m) => Err(CtxlError::RegexInQuery(joined_text("error: ", m.as_str()))),
        None => Ok(query::sanitize_fts5_query(q)),
    }
}

// ---------------------------------------------------------------------------
// Marked lines
// ---------------------------------------------------------------------------

/// A line with its number, counted from one.
pub open spec fn numbered(i: int, line: Seq<char>) -> Seq<char> {
    number::decimal((i + 1) as nat) + ":"@ + line
}

fn write_numbered(i: usize, line: &[char]) -> (s: String)
    requires
        i < usize::MAX,
    ensures
        s@ == numbered(i as int, line@),
{
    let mut s = number::decimal_string(i as u128 + 1);
    s.append(":");
    text::push_chars(&mut s, line);
    s
}

/// A line without marks.
pub open spec fn unmarked(line: Seq<char>) -> Seq<char> {
    pieces::replaced(pieces::replaced(line, MATCH_START@, ""@), MATCH_END@, ""@)
}

/// The lines that hold a mark, without marks and with their numbers.
pub open spec fn marked_lines(lines: Seq<Seq<char>>) -> Seq<Seq<char>>
    decreases lines.len(),
{
    if lines.len() == 0 {
        seq![]
    } else {
        let before = marked_lines(lines.drop_last());
        if search::has_sub(lines.last(), MATCH_START@) {
            before.push(numbered(lines.len() - 1, unmarked(lines.last())))
        } else {
            before
        }
    }
}

/// The first lines of marked content that hold a mark, at most `limit`, without
/// marks and with their numbers.
pub fn collect_marked(highlighted: &str, limit: usize) -> (out: Vec<String>)
    ensures
        text::texts(out@) == window::first_of(
            marked_lines(pieces::lines_of(highlighted@)),
            limit as nat,
        ),
{
    let chars = text::chars_of(highlighted);
    let lines = pieces::split_lines(chars.as_slice());
    let ghost all = pieces::lines_of(highlighted@);
    let mut out: Vec<String> = Vec::new();
    let mut i: usize = 0;
    proof {
        reveal_strlit("\x01");
        reveal_strlit("\x02");
        assert(all.take(0) =~= seq![]);
        assert(text::texts(out@) =~= seq![]);
    }
    while i < lines.len()
        invariant
            all == text::views(lines@),
            MATCH_START@.len() == 1,
            MATCH_END@.len() == 1,
            i <= lines@.len(),
            text::texts(out@) == window::first_of(
                marked_lines(all.take(i as int)),
                limit as nat,
            ),
        decreases lines@.len() - i,
    {
        let ghost before = text::texts(out@);
        let ghost so_far = marked_lines(all.take(i as int));
        proof {
            assert(all.take(i + 1).drop_last() =~= all.take(i as int));
            assert(all.take(i + 1).last() == lines@[i as int]@);
            assert(before.len() == out@.len());
        }
        if search::contains_sub(lines[i], MATCH_START) {
            if out.len() < limit {
                let half = pieces::replace(lines[i], MATCH_START, "");
                let clean = pieces::replace(half.as_slice(), MATCH_END, "");
                let s = write_numbered(i, clean.as_slice());
                out.push(s);
                assert(text::texts(out@) =~= before.push(s@));
                assert(window::first_of(so_far.push(s@), limit as nat) =~= so_far.push(s@));
            } else {
                assert(window::first_of(marked_lines(all.take(i + 1)), limit as nat)
                    =~= window::first_of(so_far, limit as nat));
            }
        }
        i += 1;
    }
    assert(all.take(i as int) =~= all);
    out
}

// ---------------------------------------------------------------------------
// Substrings
// ---------------------------------------------------------------------------

/// The lowercase form of a text.
pub uninterp spec fn lowercase(s: Seq<char>) -> Seq<char>;

/// Calls `str::to_lowercase`. Trusted: the result is a function of the text.
#[verifier::external_body]
fn to_lowercase(s: &str) -> (r: String)
    ensures
        r@ == lowercase(s@),
{
    s.to_lowercase()
}

/// The lines whose lowercase forms hold `needle`, with their numbers.
pub open spec fn holding_lines(
    lines: Seq<Seq<char>>,
    lowered: Seq<Seq<char>>,
    needle: Seq<char>,
) -> Seq<Seq<char>>
    decreases lines.len(),
{
    if lines.len() == 0 || lowered.len() == 0 {
        seq![]
    } else {
        let before = holding_lines(lines.drop_last(), lowered.drop_last(), needle);
        if search::has_sub(lowered.last(), needle) {
            before.push(numbered(lines.len() - 1, lines.last()))
        } else {
            before
        }
    }
}

/// The first lines whose lowercase forms hold `needle`, at most `limit`, with
/// their numbers.
pub fn collect_holding(lines: &[&[char]], lowered: &[String], needle: &str, limit: usize) -> (out:
    Vec<String>)
    requires
        lines@.len() == lowered@.len(),
    ensures
        text::texts(out@) == window::first_of(
            holding_lines(text::views(lines@), text::texts(lowered@), needle@),
            limit as nat,
        ),
{
    let ghost all = text::views(lines@);
    let ghost low = text::texts(lowered@);
    let mut out: Vec<String> = Vec::new();
    let mut i: usize = 0;
    proof {
        assert(all.take(0) =~= seq![]);
        assert(text::texts(out@) =~= seq![]);
    }
    while i < lines.len()
        invariant
            all == text::views(lines@),
            low == text::texts(lowered@),
            lines@.len() == lowered@.len(),
            i <= lines@.len(),
            text::texts(out@) == window::first_of(
                holding_lines(all.take(i as int), low.take(i as int), needle@),
                limit as nat,
            ),
        decreases lines@.len() - i,
    {
        let ghost before = text::texts(out@);
        let ghost so_far = holding_lines(all.take(i as int), low.take(i as int), needle@);
        proof {
            assert(all.take(i + 1).drop_last() =~= all.take(i as int));
            assert(low.take(i + 1).drop_last() =~= low.take(i as int));
            assert(all.take(i + 1).last() == lines@[i as int]@);
            assert(low.take(i + 1).last() == lowered@[i as int]@);
            assert(before.len() == out@.len());
        }
        let chars = text::chars_of(lowered[i].as_str());
        if search::contains_sub(chars.as_slice(), needle) {
            if out.len() < limit {
                let s = write_numbered(i, lines[i]);
                out.push(s);
                assert(text::texts(out@) =~= before.push(s@));
                assert(window::first_of(so_far.push(s@), limit as nat) =~= so_far.push(s@));
            } else {
                assert(window::first_of(
                    holding_lines(all.take(i + 1), low.take(i + 1), needle@),
                    limit as nat,
                ) =~= window::first_of(so_far, limit as nat));
            }
        }
        i += 1;
    }
    assert(all.take(i as int) =~= all);
    assert(low.take(i as int) =~= low);
    out
}

/// The lowercase forms of lines.
pub open spec fn lowered_lines(lines: Seq<Seq<char>>) -> Seq<Seq<char>> {
    lines.map_values(|l: Seq<char>| lowercase(l))
}

fn lower_lines(lines: &[&[char]]) -> (out: Vec<String>)
    ensures
        text::texts(out@) == lowered_lines(text::views(lines@)),
{
    let ghost all = lowered_lines(text::views(lines@));
    let mut out: Vec<String> = Vec::new();
    let mut i: usize = 0;
    while i < lines.len()
        invariant
            all == lowered_lines(text::views(lines@)),
            i <= lines@.len(),
            text::texts(out@) == all.take(i as int),
        decreases lines@.len() - i,
    {
        let ghost before = text::texts(out@);
        let line = text::string_of(lines[i]);
        let low = to_lowercase(line.as_str());
        out.push(low);
        i += 1;
        proof {
            assert(text::texts(out@) =~= before.push(low@));
            assert(text::texts(out@) =~= all.take(i as int));
        }
    }
    assert(all.take(i as int) =~= all);
    out
}

/// The lines that hold the query in any case, with their numbers.
pub open spec fn substring_lines(content: Seq<char>, q: Seq<char>) -> Seq<Seq<char>> {
    let lines = pieces::lines_of(content);
    holding_lines(lines, lowered_lines(lines), lowercase(q))
}

/// The first lines that hold the query in any case, at most `limit`, with their
/// numbers.
pub fn collect_substring(content: &str, q: &str, limit: usize) -> (out: Vec<String>)
    ensures
        text::texts(out@) == window::first_of(substring_lines(content@, q@), limit as nat),
{
    let chars = text::chars_of(content);
    let lines = pieces::split_lines(chars.as_slice());
    let lowered = lower_lines(lines.as_slice());
    let needle = to_lowercase(q);
    proof {
        assert(text::texts(lowered@).len() == lowered@.len());
        assert(text::views(lines@).len() == lines@.len());
    }
    collect_holding(lines.as_slice(), lowered.as_slice(), needle.as_str(), limit)
}

// ---------------------------------------------------------------------------
// Search in one handle
// ---------------------------------------------------------------------------

/// The result of a search in content, given the content as the full-text match
/// marks it, where it matches.
pub open spec fn found_lines(
    content: Seq<char>,
    highlighted: Option<Seq<char>>,
    q: Seq<char>,
    limit: nat,
) -> Seq<Seq<char>> {
    let marked = match highlighted {
        Some(h) => window::first_of(marked_lines(pieces::lines_of(h)), limit),
        None => seq![],
    };
    if content.len() == 0 {
        seq![]
    } else if marked.len() > 0 {
        marked
    } else {
        window::first_of(substring_lines(content, q), limit)
    }
}

/// Return lines from the stored content of a handle that match `q`, bounded to
/// `limit` results.
///
/// `content` is the content of the handle, `None` where there is no such
/// handle, and `highlighted` the content as the full-text match marks it, `None`
/// where it does not match. [`search_phrase`] gives the phrase for the match.
pub fn search(
    handle: &str,
    content: Option<String>,
    highlighted: Option<String>,
    q: &str,
    limit: usize,
) -> (r: Result<Vec<String>, CtxlError>)
    ensures
        match r {
            Ok(lines) => accepted(q@) && (content matches Some(c) && text::texts(lines@)
                == found_lines(c@, text::opt_text(highlighted), q@, limit as nat)),
            Err(e) => if accepted(q@) {
                content is None && (e matches CtxlError::HandleNotFound(id) && id@ == handle@)
            } else {
                refused(q@, e)
            },
        },
{
    if let Err(e) = search_phrase(q) {
        return Err(e);
    }
    let c = match content {
        Some(c) => c,
        None => {
            return Err(CtxlError::HandleNotFound(handle.to_owned()));
        },
    };
    let none: Vec<String> = Vec::new();
    assert(text::texts(none@) =~= seq![]);
    if c.as_str().unicode_len() == 0 {
        return Ok(none);
    }
    let marked = match highlighted {
        Some(h) => collect_marked(h.as_str(), limit),
        None => none,
    };
    assert(text::texts(marked@).len() == marked@.len());
    if marked.len() > 0 {
        return Ok(marked);
    }
    Ok(collect_substring(c.as_str(), q, limit))
}

// ---------------------------------------------------------------------------
// Search in all handles
// ---------------------------------------------------------------------------

/// A single match from cross-handle search.
#[derive(Debug)]
pub struct CrossHandleMatch {
    pub handle_id: String,
    pub tool: String,
    pub line: String,
}

/// A handle that a search reads.
#[derive(Debug)]
pub struct SearchRow {
    pub handle_id: String,
    pub tool: String,
    /// The content of the handle, marked where a full-text match found it.
    pub content: String,
}

/// What a match stands for: handle, tool and line.
pub open spec fn match_view(m: CrossHandleMatch) -> (Seq<char>, Seq<char>, Seq<char>) {
    (m.handle_id@, m.tool@, m.line@)
}

/// What matches stand for.
pub open spec fn matches_view(s: Seq<CrossHandleMatch>) -> Seq<(Seq<char>, Seq<char>, Seq<char>)> {
    s.map_values(|m: CrossHandleMatch| match_view(m))
}

/// What a row stands for: handle, tool and content.
pub open spec fn row_view(r: SearchRow) -> (Seq<char>, Seq<char>, Seq<char>) {
    (r.handle_id@, r.tool@, r.content@)
}

/// What rows stand for.
pub open spec fn rows_view(s: Seq<SearchRow>) -> Seq<(Seq<char>, Seq<char>, Seq<char>)> {
    s.map_values(|r: SearchRow| row_view(r))
}

/// The lines of a row that match: those with a mark, or those that hold the
/// query.
pub open spec fn row_lines(content: Seq<char>, q: Option<Seq<char>>) -> Seq<Seq<char>> {
    match q {
        Some(query) => substring_lines(content, query),
        None => marked_lines(pieces::lines_of(content)),
    }
}

/// The matches of a row.
pub open spec fn row_matches(row: (Seq<char>, Seq<char>, Seq<char>), q: Option<Seq<char>>) -> Seq<
    (Seq<char>, Seq<char>, Seq<char>),
> {
    row_lines(row.2, q).map_values(|l: Seq<char>| (row.0, row.1, l))
}

/// The matches of rows, one row after the other.
pub open spec fn all_matches(
    rows: Seq<(Seq<char>, Seq<char>, Seq<char>)>,
    q: Option<Seq<char>>,
) -> Seq<(Seq<char>, Seq<char>, Seq<char>)>
    decreases rows.len(),
{
    if rows.len() == 0 {
        seq![]
    } else {
        all_matches(rows.drop_last(), q) + row_matches(rows.last(), q)
    }
}

/// The first matches of rows, at most `limit`. Without a query the rows are
/// marked.
fn collect_rows(rows: &[SearchRow], q: Option<&str>, limit: usize) -> (out: Vec<CrossHandleMatch>)
    ensures
        matches_view(out@) == window::first_of(
            all_matches(rows_view(rows@), crate::settings::env_view(q)),
            limit as nat,
        ),
{
    let ghost all = rows_view(rows@);
    let ghost query = crate::settings::env_view(q);
    let mut out: Vec<CrossHandleMatch> = Vec::new();
    let mut i: usize = 0;
    proof {
        assert(all.take(0) =~= seq![]);
        assert(matches_view(out@) =~= seq![]);
    }
    while i < rows.len()
        invariant
            all == rows_view(rows@),
            query == crate::settings::env_view(q),
            i <= rows@.len(),
            out@.len() <= limit,
            matches_view(out@) == window::first_of(
                all_matches(all.take(i as int), query),
                limit as nat,
            ),
        decreases rows@.len() - i,
    {
        let ghost so_far = all_matches(all.take(i as int), query);
        let ghost own = row_matches(all[i as int], query);
        proof {
            assert(all.take(i + 1).drop_last() =~= all.take(i as int));
            assert(all.take(i + 1).last() == row_view(rows@[i as int]));
            assert(matches_view(out@).len() == out@.len());
        }
        let left = limit - out.len();
        let ghost before = matches_view(out@);
        let lines = match q {
            Some(text) => collect_substring(rows[i].content.as_str(), text, left),
            None => collect_marked(rows[i].content.as_str(), left),
        };
        let ghost kept = text::texts(lines@);
        assert(kept == window::first_of(row_lines(all[i as int].2, query), left as nat));
        let ghost added = kept.map_values(
            |l: Seq<char>| (all[i as int].0, all[i as int].1, l),
        );
        let mut j: usize = 0;
        assert(matches_view(out@) =~= before + added.take(0));
        while j < lines.len()
            invariant
                all == rows_view(rows@),
                i < rows@.len(),
                kept == text::texts(lines@),
                added == kept.map_values(|l: Seq<char>| (all[i as int].0, all[i as int].1, l)),
                j <= lines@.len(),
                out@.len() == before.len() + j,
                matches_view(out@) == before + added.take(j as int),
            decreases lines@.len() - j,
        {
            let ghost v = matches_view(out@);
            let m = CrossHandleMatch {
                handle_id: rows[i].handle_id.clone(),
                tool: rows[i].tool.clone(),
                line: lines[j].clone(),
            };
            out.push(m);
            j += 1;
            proof {
                assert(matches_view(out@) =~= v.push(match_view(m)));
                assert(added[j - 1] == match_view(m));
                assert(matches_view(out@) =~= before + added.take(j as int));
            }
        }
        proof {
            assert(added.take(j as int) =~= added);
            assert(added =~= window::first_of(own, left as nat));
            assert(all_matches(all.take(i + 1), query) == so_far + own);
            if so_far.len() <= limit {
                assert(before == so_far);
                assert(window::first_of(so_far + own, limit as nat) =~= so_far + window::first_of(
                    own,
                    left as nat,
                ));
            } else {
                assert(left == 0);
                assert(added =~= seq![]);
                assert(window::first_of(so_far + own, limit as nat) =~= before + added);
            }
        }
        i += 1;
    }
    assert(all.take(i as int) =~= all);
    out
}

/// The first lines with a mark among rows that a full-text match has marked, at
/// most `limit`.
pub fn search_all_marked(rows: &[SearchRow], limit: usize) -> (out: Vec<CrossHandleMatch>)
    ensures
        matches_view(out@) == window::first_of(
            all_matches(rows_view(rows@), None),
            limit as nat,
        ),
{
    collect_rows(rows, None, limit)
}

/// The first lines that hold the query among rows, at most `limit`: what a
/// search falls back to where a full-text match finds nothing.
pub fn search_all_substring(rows: &[SearchRow], q: &str, limit: usize) -> (out: Vec<
    CrossHandleMatch,
>)
    ensures
        matches_view(out@) == window::first_of(
            all_matches(rows_view(rows@), Some(q@)),
            limit as nat,
        ),
{
    collect_rows(rows, Some(q), limit)
}

/// Handles that a search in all of them looks at.
pub const SCANNED_HANDLES: usize = 10;

/// The result of a search in all handles: the marked lines of the first rows that
/// a full-text match found, or else the lines of the most recent rows that hold
/// the query. At most [`SCANNED_HANDLES`] rows of each are read.
pub open spec fn found_in_all(
    marked: Seq<(Seq<char>, Seq<char>, Seq<char>)>,
    recent: Seq<(Seq<char>, Seq<char>, Seq<char>)>,
    q: Seq<char>,
    limit: nat,
) -> Seq<(Seq<char>, Seq<char>, Seq<char>)> {
    let scanned = window::first_of(marked, SCANNED_HANDLES as nat);
    let first = window::first_of(all_matches(scanned, None), limit);
    if first.len() > 0 {
        first
    } else {
        let latest = window::first_of(recent, SCANNED_HANDLES as nat);
        window::first_of(all_matches(latest, Some(q)), limit)
    }
}

/// The first rows, at most [`SCANNED_HANDLES`].
fn scanned_rows(rows: &[SearchRow]) -> (r: &[SearchRow])
    ensures
        rows_view(r@) == window::first_of(rows_view(rows@), SCANNED_HANDLES as nat),
{
    let n = if rows.len() < SCANNED_HANDLES {
        rows.len()
    } else {
        SCANNED_HANDLES
    };
    let r = slice_subrange(rows, 0, n);
    assert(rows_view(r@) =~= window::first_of(rows_view(rows@), SCANNED_HANDLES as nat));
    r
}

/// Search across all handles: `marked` are the rows that a full-text match of
/// [`search_phrase`] found, by relevance, and `recent` the most recent ones. At
/// most [`SCANNED_HANDLES`] of each are read.
pub fn search_all(marked: &[SearchRow], recent: &[SearchRow], q: &str, limit: usize) -> (r: Result<
    Vec<CrossHandleMatch>,
    CtxlError,
>)
    ensures
        match r {
            Ok(out) => accepted(q@) && matches_view(out@) == found_in_all(
                rows_view(marked@),
                rows_view(recent@),
                q@,
                limit as nat,
            ),
            Err(e) => !accepted(q@) && refused(q@, e),
        },
{
    if let Err(e) = search_phrase(q) {
        return Err(e);
    }
    let first = search_all_marked(scanned_rows(marked), limit);
    assert(matches_view(first@).len() == first@.len());
    if first.len() > 0 {
        Ok(first)
    } else {
        Ok(search_all_substring(scanned_rows(recent), q, limit))
    }
}

/// Matches grouped by handle: a header where the handle changes, with an empty
/// line in front of all but the first.
pub open spec fn grouped_text(matches: Seq<(Seq<char>, Seq<char>, Seq<char>)>) -> Seq<char>
    decreases matches.len(),
{
    if matches.len() == 0 {
        seq![]
    } else {
        let before = grouped_text(matches.drop_last());
        let m = matches.last();
        let n = matches.len();
        if n == 1 {
            before + "--- "@ + m.0 + " ("@ + m.1 + ") ---\n"@ + m.2 + "\n"@
        } else if matches[n - 2].0 != m.0 {
            before + "\n"@ + "--- "@ + m.0 + " ("@ + m.1 + ") ---\n"@ + m.2 + "\n"@
        } else {
            before + m.2 + "\n"@
        }
    }
}

/// Format cross-handle search results grouped by handle.
pub fn format_search_all(matches: &[CrossHandleMatch]) -> (out: String)
    ensures
        out@ == grouped_text(matches_view(matches@)),
{
    let ghost all = matches_view(matches@);
    let mut out = String::new();
    let mut i: usize = 0;
    proof {
        assert(all.take(0) =~= seq![]);
        assert(out@ =~= seq![]);
    }
    while i < matches.len()
        invariant
            all == matches_view(matches@),
            i <= matches@.len(),
            out@ == grouped_text(all.take(i as int)),
        decreases matches@.len() - i,
    {
        proof {
            assert(all.take(i + 1).drop_last() =~= all.take(i as int));
            assert(all.take(i + 1).last() == match_view(matches@[i as int]));
            if i > 0 {
                assert(all.take(i + 1)[i - 1] == match_view(matches@[i - 1]));
            }
        }
        let m = &matches[i];
        if i == 0 {
            out.append("--- ");
            out.append(m.handle_id.as_str());
            out.append(" (");
            out.append(m.tool.as_str());
            out.append(") ---\n");
        } else if !text::same_text(matches[i - 1].handle_id.as_str(), m.handle_id.as_str()) {
            out.append("\n");
            out.append("--- ");
            out.append(m.handle_id.as_str());
            out.append(" (");
            out.append(m.tool.as_str());
            out.append(") ---\n");
        }
        out.append(m.line.as_str());
        out.append("\n");
        i += 1;
    }
    assert(all.take(i as int) =~= all);
    out
}

// ---------------------------------------------------------------------------
// Laws
// ---------------------------------------------------------------------------

/// A search gives no more results than it is asked for.
pub proof fn lemma_limit_kept(
    content: Seq<char>,
    highlighted: Option<Seq<char>>,
    q: Seq<char>,
    limit: nat,
)
    ensures
        found_lines(content, highlighted, q, limit).len() <= limit,
{
}

/// A search in all handles gives no more results than it is asked for.
pub proof fn lemma_limit_kept_in_all(
    marked: Seq<(Seq<char>, Seq<char>, Seq<char>)>,
    recent: Seq<(Seq<char>, Seq<char>, Seq<char>)>,
    q: Seq<char>,
    limit: nat,
)
    ensures
        found_in_all(marked, recent, q, limit).len() <= limit,
{
}

/// Only so many handles are looked at: rows behind them do not matter.
pub proof fn lemma_scanned_handles(
    marked: Seq<(Seq<char>, Seq<char>, Seq<char>)>,
    recent: Seq<(Seq<char>, Seq<char>, Seq<char>)>,
    q: Seq<char>,
    limit: nat,
)
    ensures
        found_in_all(marked, recent, q, limit) == found_in_all(
            window::first_of(marked, SCANNED_HANDLES as nat),
            window::first_of(recent, SCANNED_HANDLES as nat),
            q,
            limit,
        ),
{
}

} // verus!
