//! Mode-aware previews of stored grep output.
//!
//! The mode of the output decides: `content`, `files_with_matches` or `count`.
//! Any other mode falls back to a head/tail preview.

use crate::compress;
use crate::compress::passthrough;
use crate::number;
use crate::order;
use crate::pieces;
use crate::search;
use crate::tally;
use crate::text;
use vstd::prelude::*;
use vstd::slice::*;
use vstd::string::*;

verus! {

/// Maximum lines per side (head/tail) in a content-mode preview.
pub const MAX_PREVIEW_LINES: usize = 10;

/// Maximum files to show in a file manifest.
pub const MAX_MANIFEST_FILES: usize = 20;

// ---------------------------------------------------------------------------
// Reading grep lines
// ---------------------------------------------------------------------------

/// The path of a content-mode line, where it has one that is not empty.
pub open spec fn content_path(line: Seq<char>) -> Option<Seq<char>> {
    let t = text::trimmed(line);
    match compress::path_end(t) {
        Some(k) => if k == 0 {
            None
        } else {
            Some(t.take(k))
        },
        None => None,
    }
}

/// The paths of the content-mode lines that have one.
pub open spec fn content_paths(lines: Seq<Seq<char>>) -> Seq<Seq<char>>
    decreases lines.len(),
{
    if lines.len() == 0 {
        seq![]
    } else {
        match content_path(lines.last()) {
            Some(p) => content_paths(lines.drop_last()).push(p),
            None => content_paths(lines.drop_last()),
        }
    }
}

/// The files of content-mode output with their match counts, most matches
/// first.
pub open spec fn content_file_counts(content: Seq<char>) -> Seq<(Seq<char>, nat)> {
    order::ranked(tally::counted(content_paths(pieces::lines_of(content))))
}

/// Extract the file path from a content-mode grep line.
///
/// Handles `file:line_number:text` and `file:text` formats.
/// Returns `None` for empty lines.
pub fn extract_content_file_path(line: &[char]) -> (r: Option<String>)
    ensures
        match r {
            Some(p) => content_path(line@) == Some(p@),
            None => content_path(line@) is None,
        },
{
    let trimmed = text::trim(line);
    match compress::path_colon(trimmed) {
        Some(end) => {
            if end == 0 {
                None
            } else {
                let path = slice_subrange(trimmed, 0, end);
                assert(path@ =~= trimmed@.take(end as int));
                Some(text::string_of(path))
            }
        },
        None => None,
    }
}

/// Parse per-file match counts from `content` mode grep output.
///
/// Each line has the format `file:line_number:content` or just `file:content`.
/// Returns a list of `(file, count)` sorted descending by match count.
pub fn parse_content_file_counts(content: &str) -> (out: Vec<(String, usize)>)
    ensures
        order::entries_view(out@) == content_file_counts(content@),
{
    let chars = text::chars_of(content);
    let lines = pieces::split_lines(chars.as_slice());
    let ghost all = pieces::lines_of(content@);
    let mut counts = tally::Tally::new();
    let mut i: usize = 0;
    assert(all.take(0) =~= seq![]);
    while i < lines.len()
        invariant
            all == text::views(lines@),
            i <= lines@.len(),
            counts.wf(),
            counts.total() <= i,
            counts.entries() == tally::counted(content_paths(all.take(i as int))),
        decreases lines@.len() - i,
    {
        proof {
            assert(all.take(i + 1).drop_last() =~= all.take(i as int));
            assert(all.take(i + 1).last() == lines@[i as int]@);
        }
        if let Some(file) = extract_content_file_path(lines[i]) {
            proof {
                let paths = content_paths(all.take(i as int));
                assert(paths.push(file@).drop_last() =~= paths);
            }
            counts.bump(file);
        }
        i += 1;
    }
    assert(all.take(i as int) =~= all);
    order::rank(counts.into_entries())
}

/// The file and the count of a count-mode line (`file:count`).
pub open spec fn count_row(line: Seq<char>) -> Option<(Seq<char>, nat)> {
    let t = text::trimmed(line);
    match search::last_char_index(t, ':') {
        Some(k) => match number::unsigned_value(t.skip(k + 1), usize::MAX as nat) {
            Some(n) => if k == 0 {
                None
            } else {
                Some((t.take(k), n))
            },
            None => None,
        },
        None => None,
    }
}

/// The rows of the count-mode lines that hold one.
pub open spec fn count_rows(lines: Seq<Seq<char>>) -> Seq<(Seq<char>, nat)>
    decreases lines.len(),
{
    if lines.len() == 0 {
        seq![]
    } else {
        match count_row(lines.last()) {
            Some(row) => count_rows(lines.drop_last()).push(row),
            None => count_rows(lines.drop_last()),
        }
    }
}

/// The rows of count-mode output, largest count first.
pub open spec fn count_file_counts(content: Seq<char>) -> Seq<(Seq<char>, nat)> {
    order::ranked(count_rows(pieces::lines_of(content)))
}

/// The file and the count of a count-mode line.
fn parse_count_line(line: &[char]) -> (r: Option<(String, usize)>)
    ensures
        match r {
            Some(e) => count_row(line@) == Some(order::entry_view(e)),
            None => count_row(line@) is None,
        },
{
    let trimmed = text::trim(line);
    let n = trimmed.len();
    match search::rfind_char(trimmed, ':') {
        Some(k) => {
            let digits = slice_subrange(trimmed, k + 1, n);
            assert(digits@ =~= trimmed@.skip(k + 1));
            match number::parse_usize(digits) {
                Some(count) => {
                    if k == 0 {
                        None
                    } else {
                        let file = slice_subrange(trimmed, 0, k);
                        assert(file@ =~= trimmed@.take(k as int));
                        Some((text::string_of(file), count))
                    }
                },
                None => None,
            }
        },
        None => None,
    }
}

/// Parse per-file match counts from `count` mode grep output.
///
/// Each line has the format `file:count`; the last colon separates the two.
/// Returns a list of `(file, count)` sorted descending by count.
pub fn parse_count_file_counts(content: &str) -> (out: Vec<(String, usize)>)
    ensures
        order::entries_view(out@) == count_file_counts(content@),
{
    let chars = text::chars_of(content);
    let lines = pieces::split_lines(chars.as_slice());
    let ghost all = pieces::lines_of(content@);
    let mut rows: Vec<(String, usize)> = Vec::new();
    let mut i: usize = 0;
    assert(all.take(0) =~= seq![]);
    assert(order::entries_view(rows@) =~= seq![]);
    while i < lines.len()
        invariant
            all == text::views(lines@),
            i <= lines@.len(),
            order::entries_view(rows@) == count_rows(all.take(i as int)),
        decreases lines@.len() - i,
    {
        proof {
            assert(all.take(i + 1).drop_last() =~= all.take(i as int));
            assert(all.take(i + 1).last() == lines@[i as int]@);
        }
        if let Some(row) = parse_count_line(lines[i]) {
            let ghost before = order::entries_view(rows@);
            rows.push(row);
            assert(order::entries_view(rows@) =~= before.push(order::entry_view(row)));
        }
        i += 1;
    }
    assert(all.take(i as int) =~= all);
    order::rank(rows)
}

// ---------------------------------------------------------------------------
// Manifests
// ---------------------------------------------------------------------------

/// The smaller of two numbers.
pub open spec fn smaller(a: nat, b: nat) -> nat {
    if a <= b {
        a
    } else {
        b
    }
}

/// One line per file with its number of matches.
pub open spec fn match_lines(entries: Seq<(Seq<char>, nat)>) -> Seq<char>
    decreases entries.len(),
{
    if entries.len() == 0 {
        seq![]
    } else {
        let e = entries.last();
        match_lines(entries.drop_last()) + "  "@ + e.0 + " ("@ + number::decimal(e.1) + " match"@
            + if e.1 == 1 {
            ""@
        } else {
            "es"@
        } + ")\n"@
    }
}

/// One line per file with its count.
pub open spec fn count_lines(entries: Seq<(Seq<char>, nat)>) -> Seq<char>
    decreases entries.len(),
{
    if entries.len() == 0 {
        seq![]
    } else {
        let e = entries.last();
        count_lines(entries.drop_last()) + "  "@ + e.0 + ": "@ + number::decimal(e.1) + "\n"@
    }
}

/// A note on the files that a manifest leaves out.
pub open spec fn more_files(total: nat, shown: nat) -> Seq<char> {
    if total > shown {
        "  ... ["@ + number::decimal((total - shown) as nat) + " more files]\n"@
    } else {
        seq![]
    }
}

/// Append the note on the files that a manifest leaves out.
fn push_more_files(out: &mut String, total: usize, shown: usize)
    ensures
        final(out)@ == old(out)@ + more_files(total as nat, shown as nat),
{
    let ghost start = out@;
    if total > shown {
        out.append("  ... [");
        number::push_count(out, total - shown);
        out.append(" more files]\n");
        assert(out@ =~= start + more_files(total as nat, shown as nat));
    } else {
        assert(out@ =~= start + more_files(total as nat, shown as nat));
    }
}

/// The preview of content-mode output.
pub open spec fn content_preview(content: Seq<char>, threshold: nat) -> Seq<char> {
    let counts = content_file_counts(content);
    let shown = smaller(counts.len(), MAX_MANIFEST_FILES as nat);
    "Top files by match count:\n"@ + match_lines(counts.take(shown as int)) + more_files(
        counts.len(),
        shown,
    ) + "Sample output ("@ + number::decimal(pieces::lines_of(content).len())
        + " lines total):\n"@ + passthrough::preview_of(content, threshold)
}

/// Preview for `content` mode (`file:line_number:text` lines).
///
/// Returns a formatted string with:
/// - a file manifest sorted descending by match count
/// - a head/tail preview of matching lines (capped at `threshold` lines per side)
pub fn grep_preview_content(content: &str, threshold: usize) -> (out: String)
    ensures
        out@ == content_preview(content@, threshold as nat),
{
    let chars = text::chars_of(content);
    let total_lines = pieces::split_lines(chars.as_slice()).len();
    let preview = passthrough::preview(content, threshold);
    let counts = parse_content_file_counts(content);
    let total = counts.len();
    let shown = if total <= MAX_MANIFEST_FILES {
        total
    } else {
        MAX_MANIFEST_FILES
    };
    let ghost entries = content_file_counts(content@);
    let mut out = String::from_str("Top files by match count:\n");
    let ghost head = out@;
    let mut i: usize = 0;
    assert(entries.take(0) =~= seq![]);
    assert(out@ =~= head + match_lines(entries.take(0)));
    while i < shown
        invariant
            entries == order::entries_view(counts@),
            i <= shown <= counts@.len(),
            out@ == head + match_lines(entries.take(i as int)),
        decreases shown - i,
    {
        let count = counts[i].1;
        out.append("  ");
        out.append(counts[i].0.as_str());
        out.append(" (");
        number::push_count(&mut out, count);
        out.append(" match");
        if count == 1 {
            out.append("");
        } else {
            out.append("es");
        }
        out.append(")\n");
        proof {
            assert(entries.take(i + 1).drop_last() =~= entries.take(i as int));
            assert(entries.take(i + 1).last() == order::entry_view(counts@[i as int]));
        }
        i += 1;
        assert(out@ =~= head + match_lines(entries.take(i as int)));
    }
    push_more_files(&mut out, total, shown);
    out.append("Sample output (");
    number::push_count(&mut out, total_lines);
    out.append(" lines total):\n");
    out.append(preview.as_str());
    out
}

/// The preview of count-mode output.
pub open spec fn count_preview(content: Seq<char>, threshold: nat) -> Seq<char> {
    let counts = count_file_counts(content);
    let cap = if threshold >= MAX_MANIFEST_FILES {
        threshold
    } else {
        MAX_MANIFEST_FILES as nat
    };
    let shown = smaller(counts.len(), cap);
    text::trimmed_end(
        "Files with match counts:\n"@ + count_lines(counts.take(shown as int)) + more_files(
            counts.len(),
            shown,
        ),
    )
}

/// Preview for `count` mode (`file:count` lines).
///
/// Returns a formatted string with a file manifest derived from `file:N` rows.
/// `threshold` bounds the number of files shown (minimum `MAX_MANIFEST_FILES`).
pub fn grep_preview_count(content: &str, threshold: usize) -> (out: String)
    ensures
        out@ == count_preview(content@, threshold as nat),
{
    let counts = parse_count_file_counts(content);
    let total = counts.len();
    let cap = if threshold >= MAX_MANIFEST_FILES {
        threshold
    } else {
        MAX_MANIFEST_FILES
    };
    let shown = if total <= cap {
        total
    } else {
        cap
    };
    let ghost entries = count_file_counts(content@);
    let mut out = String::from_str("Files with match counts:\n");
    let ghost head = out@;
    let mut i: usize = 0;
    assert(entries.take(0) =~= seq![]);
    assert(out@ =~= head + count_lines(entries.take(0)));
    while i < shown
        invariant
            entries == order::entries_view(counts@),
            i <= shown <= counts@.len(),
            out@ == head + count_lines(entries.take(i as int)),
        decreases shown - i,
    {
        out.append("  ");
        out.append(counts[i].0.as_str());
        out.append(": ");
        number::push_count(&mut out, counts[i].1);
        out.append("\n");
        proof {
            assert(entries.take(i + 1).drop_last() =~= entries.take(i as int));
            assert(entries.take(i + 1).last() == order::entry_view(counts@[i as int]));
        }
        i += 1;
        assert(out@ =~= head + count_lines(entries.take(i as int)));
    }
    push_more_files(&mut out, total, shown);
    let all = text::chars_of(out.as_str());
    text::string_of(text::trim_end(all.as_slice()))
}

// ---------------------------------------------------------------------------
// Block messages
// ---------------------------------------------------------------------------

/// The note that a message carries when fewer lines were stored than there
/// were.
pub open spec fn stored_note(stored: Option<usize>, total: Option<usize>) -> Seq<char> {
    match (stored, total) {
        (Some(s), Some(t)) => if s < t {
            ", stored first "@ + number::decimal(s as nat) + " of "@ + number::decimal(t as nat)
                + " lines"@
        } else {
            seq![]
        },
        _ => seq![],
    }
}

/// The note that a message carries when fewer lines were stored than there
/// were.
pub fn format_stored_note(stored: Option<usize>, total: Option<usize>) -> (out: String)
    ensures
        out@ == stored_note(stored, total),
{
    let mut out = String::new();
    if let Some(s) = stored {
        if let Some(t) = total {
            if s < t {
                out.append(", stored first ");
                number::push_count(&mut out, s);
                out.append(" of ");
                number::push_count(&mut out, t);
                out.append(" lines");
                assert(out@ =~= stored_note(stored, total));
                return out;
            }
        }
    }
    assert(out@ =~= stored_note(stored, total));
    out
}

/// The lines that hold more than white space.
pub open spec fn filled_lines(lines: Seq<Seq<char>>) -> Seq<Seq<char>>
    decreases lines.len(),
{
    if lines.len() == 0 {
        seq![]
    } else if text::trimmed(lines.last()).len() == 0 {
        filled_lines(lines.drop_last())
    } else {
        filled_lines(lines.drop_last()).push(lines.last())
    }
}

/// The lines of `content` that hold more than white space.
fn split_filled_lines<'a>(content: &'a [char]) -> (out: Vec<&'a [char]>)
    ensures
        text::views(out@) == filled_lines(pieces::lines_of(content@)),
{
    let lines = pieces::split_lines(content);
    let ghost all = pieces::lines_of(content@);
    let mut out: Vec<&'a [char]> = Vec::new();
    let mut i: usize = 0;
    assert(all.take(0) =~= seq![]);
    assert(text::views(out@) =~= seq![]);
    while i < lines.len()
        invariant
            all == text::views(lines@),
            i <= lines@.len(),
            text::views(out@) == filled_lines(all.take(i as int)),
        decreases lines@.len() - i,
    {
        proof {
            assert(all.take(i + 1).drop_last() =~= all.take(i as int));
            assert(all.take(i + 1).last() == lines@[i as int]@);
        }
        if text::trim(lines[i]).len() != 0 {
            let ghost before = text::views(out@);
            out.push(lines[i]);
            assert(text::views(out@) =~= before.push(lines@[i as int]@));
        }
        i += 1;
    }
    assert(all.take(i as int) =~= all);
    out
}

/// One indented line per file.
pub open spec fn file_lines(files: Seq<Seq<char>>) -> Seq<char>
    decreases files.len(),
{
    if files.len() == 0 {
        seq![]
    } else {
        file_lines(files.drop_last()) + "  "@ + files.last() + "\n"@
    }
}

/// The hint that ends a message on grep output.
pub open spec fn files_hint(handle: Seq<char>) -> Seq<char> {
    "Run: ctxl files "@ + handle + "  |  ctxl show "@ + handle
}

/// The block message for grep output.
pub open spec fn grep_message(
    content: Seq<char>,
    mode: Seq<char>,
    handle: Seq<char>,
    num_matches: nat,
    num_files: nat,
    note: Seq<char>,
) -> Seq<char> {
    if mode == "content"@ {
        "[ctxl] Grep output captured ("@ + number::decimal(num_matches) + " matches, "@
            + number::decimal(num_files) + " files"@ + note + ") → "@ + handle + "\n"@
            + content_preview(content, MAX_PREVIEW_LINES as nat) + "\n"@ + files_hint(handle)
    } else if mode == "files_with_matches"@ {
        let files = filled_lines(pieces::lines_of(content));
        let shown = smaller(files.len(), MAX_MANIFEST_FILES as nat);
        "[ctxl] Grep output captured ("@ + number::decimal(files.len()) + " files with matches"@
            + note + ") → "@ + handle + "\nFiles ("@ + number::decimal(shown) + " shown):\n"@
            + file_lines(files.take(shown as int)) + more_files(files.len(), shown) + files_hint(
            handle,
        )
    } else if mode == "count"@ {
        "[ctxl] Grep output captured (count mode"@ + note + ") → "@ + handle + "\n"@
            + count_preview(content, MAX_PREVIEW_LINES as nat) + "\n"@ + files_hint(handle)
    } else {
        "[ctxl] Grep output captured (unknown mode"@ + note + ") → "@ + handle + "\n"@
            + passthrough::preview_of(content, MAX_PREVIEW_LINES as nat) + "\nRun: ctxl show "@
            + handle
    }
}

/// Append the hint that ends a message on grep output.
fn push_files_hint(out: &mut String, handle_id: &str)
    ensures
        final(out)@ == old(out)@ + files_hint(handle_id@),
{
    let ghost start = out@;
    out.append("Run: ctxl files ");
    out.append(handle_id);
    out.append("  |  ctxl show ");
    out.append(handle_id);
    assert(out@ =~= start + files_hint(handle_id@));
}

/// Generate a mode-aware block message for a stored Grep handle.
///
/// The message includes:
/// - a header referencing the handle ID and summary stats
/// - a mode-specific preview (file manifest, head/tail matches, or counts)
/// - a `ctxl show` retrieval hint
///
/// `filenames` and `num_matches` are the fields of the grep result.
pub fn grep_preview(
    content: &str,
    mode: &str,
    handle_id: &str,
    num_matches: u64,
    filenames: &[String],
) -> (out: String)
    ensures
        out@ == grep_message(
            content@,
            mode@,
            handle_id@,
            num_matches as nat,
            filenames@.len(),
            seq![],
        ),
{
    grep_preview_ex(content, mode, handle_id, num_matches, filenames, None, None)
}

/// Extended grep preview with optional stored/total line counts for truncation
/// transparency.
pub fn grep_preview_ex(
    content: &str,
    mode: &str,
    handle_id: &str,
    num_matches: u64,
    filenames: &[String],
    stored_lines: Option<usize>,
    total_lines: Option<usize>,
) -> (out: String)
    ensures
        out@ == grep_message(
            content@,
            mode@,
            handle_id@,
            num_matches as nat,
            filenames@.len(),
            stored_note(stored_lines, total_lines),
        ),
{
    let note = format_stored_note(stored_lines, total_lines);
    if text::same_text(mode, "content") {
        let body = grep_preview_content(content, MAX_PREVIEW_LINES);
        let mut out = String::from_str("[ctxl] Grep output captured (");
        number::push_decimal(&mut out, num_matches as u128);
        out.append(" matches, ");
        number::push_count(&mut out, filenames.len());
        out.append(" files");
        out.append(note.as_str());
        out.append(") → ");
        out.append(handle_id);
        out.append("\n");
        out.append(body.as_str());
        out.append("\n");
        push_files_hint(&mut out, handle_id);
        out
    } else if text::same_text(mode, "files_with_matches") {
        let chars = text::chars_of(content);
        let files = split_filled_lines(chars.as_slice());
        let total = files.len();
        let shown = if total <= MAX_MANIFEST_FILES {
            total
        } else {
            MAX_MANIFEST_FILES
        };
        let ghost names = filled_lines(pieces::lines_of(content@));
        let mut out = String::from_str("[ctxl] Grep output captured (");
        number::push_count(&mut out, total);
        out.append(" files with matches");
        out.append(note.as_str());
        out.append(") → ");
        out.append(handle_id);
        out.append("\nFiles (");
        number::push_count(&mut out, shown);
        out.append(" shown):\n");
        let ghost head = out@;
        let mut i: usize = 0;
        assert(names.take(0) =~= seq![]);
        assert(out@ =~= head + file_lines(names.take(0)));
        while i < shown
            invariant
                names == text::views(files@),
                i <= shown <= files@.len(),
                out@ == head + file_lines(names.take(i as int)),
            decreases shown - i,
        {
            out.append("  ");
            text::push_chars(&mut out, files[i]);
            out.append("\n");
            proof {
                assert(names.take(i + 1).drop_last() =~= names.take(i as int));
                assert(names.take(i + 1).last() == files@[i as int]@);
            }
            i += 1;
            assert(out@ =~= head + file_lines(names.take(i as int)));
        }
        push_more_files(&mut out, total, shown);
        push_files_hint(&mut out, handle_id);
        out
    } else if text::same_text(mode, "count") {
        let body = grep_preview_count(content, MAX_PREVIEW_LINES);
        let mut out = String::from_str("[ctxl] Grep output captured (count mode");
        out.append(note.as_str());
        out.append(") → ");
        out.append(handle_id);
        out.append("\n");
        out.append(body.as_str());
        out.append("\n");
        push_files_hint(&mut out, handle_id);
        out
    } else {
        let body = passthrough::preview(content, MAX_PREVIEW_LINES);
        let mut out = String::from_str("[ctxl] Grep output captured (unknown mode");
        out.append(note.as_str());
        out.append(") → ");
        out.append(handle_id);
        out.append("\n");
        out.append(body.as_str());
        out.append("\nRun: ctxl show ");
        out.append(handle_id);
        out
    }
}

} // verus!
