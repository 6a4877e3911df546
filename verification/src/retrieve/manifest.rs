//! The files that stored content speaks of.

use crate::compress::diff;
use crate::compress::grep_preview;
use crate::error::CtxlError;
use crate::number;
use crate::order;
use crate::pieces;
use crate::retrieve::filter;
use crate::retrieve::window;
use crate::tally::Tally;
use crate::tally;
use crate::text;
use vstd::prelude::*;
use vstd::slice::*;
use vstd::string::*;

verus! {

// ---------------------------------------------------------------------------
// Diffs
// ---------------------------------------------------------------------------

/// What is known of a diff after some of its lines: the files whose sections
/// are over, with their hunk counts, and the file whose section is open.
pub struct DiffManifest {
    pub over: Seq<(Seq<char>, nat)>,
    pub open: Option<(Seq<char>, nat)>,
}

/// The files of a manifest, the open one last.
pub open spec fn all_files(m: DiffManifest) -> Seq<(Seq<char>, nat)> {
    match m.open {
        Some(f) => m.over.push(f),
        None => m.over,
    }
}

/// The manifest of a diff after one more line: a header opens the section of a
/// file; a `+++` line names the file anew, unless it names none; a `@@` line is
/// a hunk.
pub open spec fn manifest_step(m: DiffManifest, line: Seq<char>) -> DiffManifest {
    if filter::is_header(line) {
        DiffManifest { over: all_files(m), open: Some((diff::diff_path(line), 0)) }
    } else {
        match (filter::plus_path(line), m.open) {
            (Some(p), Some(f)) => if p != "/dev/null"@ && p.len() > 0 {
                DiffManifest { over: m.over, open: Some((p, f.1)) }
            } else {
                m
            },
            (None, Some(f)) => if "@@ "@.is_prefix_of(line) {
                DiffManifest { over: m.over, open: Some((f.0, f.1 + 1)) }
            } else {
                m
            },
            (_, None) => m,
        }
    }
}

/// The manifest of a diff after `lines`.
pub open spec fn manifest_after(lines: Seq<Seq<char>>) -> DiffManifest
    decreases lines.len(),
{
    if lines.len() == 0 {
        DiffManifest { over: seq![], open: None }
    } else {
        manifest_step(manifest_after(lines.drop_last()), lines.last())
    }
}

/// The files of a diff with their hunk counts, the most hunks first.
pub open spec fn diff_file_counts(content: Seq<char>) -> Seq<(Seq<char>, nat)> {
    order::ranked(all_files(manifest_after(pieces::lines_of(content))))
}

/// The path that a `+++` line names.
fn named_path(line: &[char]) -> (r: Option<String>)
    ensures
        text::opt_text(r) == filter::plus_path(line@),
{
    let n = line.len();
    proof {
        reveal_strlit("+++ b/");
        reveal_strlit("+++ ");
    }
    if text::starts_with(line, "+++ b/") {
        let rest = slice_subrange(line, 6, n);
        assert(rest@ =~= line@.skip(6));
        Some(text::string_of(rest))
    } else if text::starts_with(line, "+++ ") {
        let rest = slice_subrange(line, 4, n);
        assert(rest@ =~= line@.skip(4));
        Some(text::string_of(rest))
    } else {
        None
    }
}

/// What an open section stands for.
spec fn open_view(f: Option<(String, usize)>) -> Option<(Seq<char>, nat)> {
    match f {
        Some(e) => Some(order::entry_view(e)),
        None => None,
    }
}

/// Extract file manifest with hunk counts from unified diff content.
pub fn files_diff(content: &str) -> (out: Vec<(String, usize)>)
    ensures
        order::entries_view(out@) == diff_file_counts(content@),
{
    let chars = text::chars_of(content);
    let lines = pieces::split_lines(chars.as_slice());
    let ghost all = pieces::lines_of(content@);
    let mut over: Vec<(String, usize)> = Vec::new();
    let mut open: Option<(String, usize)> = None;
    let mut i: usize = 0;
    assert(all.take(0) =~= seq![]);
    assert(order::entries_view(over@) =~= seq![]);
    while i < lines.len()
        invariant
            all == text::views(lines@),
            i <= lines@.len(),
            open matches Some(f) ==> f.1 <= i,
            order::entries_view(over@) == manifest_after(all.take(i as int)).over,
            open_view(open) == manifest_after(all.take(i as int)).open,
        decreases lines@.len() - i,
    {
        proof {
            assert(all.take(i + 1).drop_last() =~= all.take(i as int));
            assert(all.take(i + 1).last() == lines@[i as int]@);
        }
        let line = lines[i];
        let ghost before = order::entries_view(over@);
        if text::starts_with(line, "diff --git ") {
            if let Some(f) = open {
                over.push(f);
                assert(order::entries_view(over@) =~= before.push(order::entry_view(f)));
            }
            let header = text::string_of(line);
            open = Some((diff::extract_diff_path(header.as_str()), 0));
        } else if let Some(f) = open {
            match named_path(line) {
                Some(p) => {
                    if !text::same_text(p.as_str(), "/dev/null") && p.as_str().unicode_len() > 0 {
                        open = Some((p, f.1));
                    } else {
                        open = Some(f);
                    }
                },
                None => {
                    if text::starts_with(line, "@@ ") {
                        open = Some((f.0, f.1 + 1));
                    } else {
                        open = Some(f);
                    }
                },
            }
        }
        i += 1;
    }
    assert(all.take(i as int) =~= all);
    let ghost before = order::entries_view(over@);
    if let Some(f) = open {
        over.push(f);
        assert(order::entries_view(over@) =~= before.push(order::entry_view(f)));
    }
    order::rank(over)
}

// ---------------------------------------------------------------------------
// Grep output
// ---------------------------------------------------------------------------

/// The paths of lines, where they have one.
pub open spec fn line_paths(lines: Seq<Seq<char>>) -> Seq<Seq<char>>
    decreases lines.len(),
{
    if lines.len() == 0 {
        seq![]
    } else if filter::line_path(lines.last()).len() == 0 {
        line_paths(lines.drop_last())
    } else {
        line_paths(lines.drop_last()).push(filter::line_path(lines.last()))
    }
}

/// The files of grep output with the number of their lines, the most first.
pub open spec fn line_file_counts(content: Seq<char>) -> Seq<(Seq<char>, nat)> {
    order::ranked(tally::counted(line_paths(pieces::lines_of(content))))
}

fn count_line_paths(content: &str) -> (out: Vec<(String, usize)>)
    ensures
        order::entries_view(out@) == line_file_counts(content@),
{
    let chars = text::chars_of(content);
    let lines = pieces::split_lines(chars.as_slice());
    let ghost all = pieces::lines_of(content@);
    let mut counts = Tally::new();
    let mut i: usize = 0;
    assert(all.take(0) =~= seq![]);
    while i < lines.len()
        invariant
            all == text::views(lines@),
            i <= lines@.len(),
            counts.wf(),
            counts.total() <= i,
            counts.entries() == tally::counted(line_paths(all.take(i as int))),
        decreases lines@.len() - i,
    {
        proof {
            assert(all.take(i + 1).drop_last() =~= all.take(i as int));
            assert(all.take(i + 1).last() == lines@[i as int]@);
        }
        let path = filter::extract_grep_line_path(lines[i]);
        if path.len() > 0 {
            proof {
                let paths = line_paths(all.take(i as int));
                assert(paths.push(path@).drop_last() =~= paths);
            }
            counts.bump(text::string_of(path));
        }
        i += 1;
    }
    assert(all.take(i as int) =~= all);
    order::rank(counts.into_entries())
}

/// One entry for each line that holds more than white space.
pub open spec fn listed_files(lines: Seq<Seq<char>>) -> Seq<(Seq<char>, nat)>
    decreases lines.len(),
{
    if lines.len() == 0 {
        seq![]
    } else if text::trimmed(lines.last()).len() == 0 {
        listed_files(lines.drop_last())
    } else {
        listed_files(lines.drop_last()).push((text::trimmed(lines.last()), 1))
    }
}

fn list_files(content: &str) -> (out: Vec<(String, usize)>)
    ensures
        order::entries_view(out@) == listed_files(pieces::lines_of(content@)),
{
    let chars = text::chars_of(content);
    let lines = pieces::split_lines(chars.as_slice());
    let ghost all = pieces::lines_of(content@);
    let mut out: Vec<(String, usize)> = Vec::new();
    let mut i: usize = 0;
    assert(all.take(0) =~= seq![]);
    assert(order::entries_view(out@) =~= seq![]);
    while i < lines.len()
        invariant
            all == text::views(lines@),
            i <= lines@.len(),
            order::entries_view(out@) == listed_files(all.take(i as int)),
        decreases lines@.len() - i,
    {
        proof {
            assert(all.take(i + 1).drop_last() =~= all.take(i as int));
            assert(all.take(i + 1).last() == lines@[i as int]@);
        }
        let file = text::trim(lines[i]);
        if file.len() > 0 {
            let ghost before = order::entries_view(out@);
            let entry = (text::string_of(file), 1usize);
            out.push(entry);
            assert(order::entries_view(out@) =~= before.push(order::entry_view(entry)));
        }
        i += 1;
    }
    assert(all.take(i as int) =~= all);
    out
}

// ---------------------------------------------------------------------------
// Tables
// ---------------------------------------------------------------------------

/// The largest count.
pub open spec fn largest(entries: Seq<(Seq<char>, nat)>) -> nat
    decreases entries.len(),
{
    if entries.len() == 0 {
        0
    } else {
        let m = largest(entries.drop_last());
        if entries.last().1 > m {
            entries.last().1
        } else {
            m
        }
    }
}

/// The counts together.
pub open spec fn sum(entries: Seq<(Seq<char>, nat)>) -> nat
    decreases entries.len(),
{
    if entries.len() == 0 {
        0
    } else {
        sum(entries.drop_last()) + entries.last().1
    }
}

/// The width of the column of counts: that of the largest count, or that of the
/// label where it is wider.
pub open spec fn count_width(entries: Seq<(Seq<char>, nat)>, label: Seq<char>) -> nat {
    let digits = number::decimal(largest(entries)).len();
    if digits > label.len() {
        digits
    } else {
        label.len()
    }
}

/// A row of the table.
pub open spec fn table_row(cell: Seq<char>, width: nat, file: Seq<char>) -> Seq<char> {
    number::aligned_right(cell, width, ' ') + "  "@ + file
}

/// The rows of the files.
pub open spec fn file_rows(entries: Seq<(Seq<char>, nat)>, width: nat) -> Seq<Seq<char>> {
    entries.map_values(|e: (Seq<char>, nat)| table_row(number::decimal(e.1), width, e.0))
}

/// The last row of the table.
pub open spec fn total_row(entries: Seq<(Seq<char>, nat)>, lower: Seq<char>) -> Seq<char> {
    "("@ + number::decimal(entries.len()) + " files, "@ + number::decimal(sum(entries))
        + " total "@ + lower + ")"@
}

/// A table of files and counts under a label.
pub open spec fn file_table(
    entries: Seq<(Seq<char>, nat)>,
    label: Seq<char>,
    lower: Seq<char>,
) -> Seq<Seq<char>> {
    if entries.len() == 0 {
        seq!["(no files)"@]
    } else {
        let width = count_width(entries, label);
        (seq![table_row(label, width, "File"@)] + file_rows(entries, width)).push(
            total_row(entries, lower),
        )
    }
}

fn write_row(cell: &str, width: usize, file: &str) -> (row: String)
    ensures
        row@ == table_row(cell@, width as nat, file@),
{
    let mut row = String::new();
    number::push_aligned(&mut row, cell, width, ' ');
    row.append("  ");
    row.append(file);
    assert(row@ =~= table_row(cell@, width as nat, file@));
    row
}

fn find_largest(entries: &[(String, usize)]) -> (m: usize)
    ensures
        m == largest(order::entries_view(entries@)),
{
    let ghost all = order::entries_view(entries@);
    let mut m: usize = 0;
    let mut i: usize = 0;
    assert(all.take(0) =~= seq![]);
    while i < entries.len()
        invariant
            all == order::entries_view(entries@),
            i <= entries@.len(),
            m == largest(all.take(i as int)),
        decreases entries@.len() - i,
    {
        assert(all.take(i + 1).drop_last() =~= all.take(i as int));
        if entries[i].1 > m {
            m = entries[i].1;
        }
        i += 1;
    }
    assert(all.take(i as int) =~= all);
    m
}

fn add_up(entries: &[(String, usize)]) -> (n: u128)
    ensures
        n == sum(order::entries_view(entries@)),
{
    let ghost all = order::entries_view(entries@);
    let total = entries.len();
    let mut n: u128 = 0;
    let mut i: usize = 0;
    assert(all.take(0) =~= seq![]);
    while i < total
        invariant
            all == order::entries_view(entries@),
            total == entries@.len(),
            i <= total,
            n == sum(all.take(i as int)),
            n <= i * usize::MAX,
        decreases total - i,
    {
        assert(all.take(i + 1).drop_last() =~= all.take(i as int));
        assert((i + 1) * usize::MAX == i * usize::MAX + usize::MAX) by (nonlinear_arith);
        assert((i + 1) * usize::MAX <= u64::MAX * u64::MAX) by (nonlinear_arith)
            requires
                i + 1 <= usize::MAX,
                usize::MAX <= u64::MAX,
        ;
        n = n + entries[i].1 as u128;
        i += 1;
    }
    assert(all.take(i as int) =~= all);
    n
}

/// Format file counts as a right-aligned table under a label, which stands in
/// lower case in the last row.
pub fn format_file_table_labeled(entries: &[(String, usize)], label: &str, lower: &str) -> (rows:
    Vec<String>)
    ensures
        text::texts(rows@) == file_table(order::entries_view(entries@), label@, lower@),
{
    let ghost all = order::entries_view(entries@);
    let mut rows: Vec<String> = Vec::new();
    if entries.len() == 0 {
        rows.push("(no files)".to_owned());
        assert(text::texts(rows@) =~= seq!["(no files)"@]);
        return rows;
    }
    let digits = number::decimal_string(find_largest(entries) as u128);
    let digits_len = digits.as_str().unicode_len();
    let label_len = label.unicode_len();
    let width = if digits_len > label_len {
        digits_len
    } else {
        label_len
    };
    let ghost first = table_row(label@, width as nat, "File"@);
    rows.push(write_row(label, width, "File"));
    assert(text::texts(rows@) =~= seq![first] + file_rows(all, width as nat).take(0));
    let mut i: usize = 0;
    while i < entries.len()
        invariant
            all == order::entries_view(entries@),
            i <= entries@.len(),
            text::texts(rows@) == seq![first] + file_rows(all, width as nat).take(i as int),
        decreases entries@.len() - i,
    {
        let cell = number::decimal_string(entries[i].1 as u128);
        let row = write_row(cell.as_str(), width, entries[i].0.as_str());
        let ghost before = text::texts(rows@);
        rows.push(row);
        assert(text::texts(rows@) =~= before.push(row@));
        i += 1;
        assert(text::texts(rows@) =~= seq![first] + file_rows(all, width as nat).take(i as int));
    }
    assert(file_rows(all, width as nat).take(i as int) =~= file_rows(all, width as nat));
    let mut last = "(".to_owned();
    number::push_count(&mut last, entries.len());
    last.append(" files, ");
    number::push_decimal(&mut last, add_up(entries));
    last.append(" total ");
    last.append(lower);
    last.append(")");
    let ghost before = text::texts(rows@);
    rows.push(last);
    assert(text::texts(rows@) =~= before.push(last@));
    rows
}

/// The table of the files that content speaks of.
pub open spec fn manifest(content: Seq<char>, output_mode: Seq<char>) -> Seq<Seq<char>> {
    if filter::is_header(content) {
        file_table(diff_file_counts(content), "Hunks"@, "hunks"@)
    } else {
        let entries = if output_mode == "count"@ {
            grep_preview::count_file_counts(content)
        } else if output_mode == "files_with_matches"@ {
            listed_files(pieces::lines_of(content))
        } else {
            line_file_counts(content)
        };
        file_table(entries, "Matches"@, "matches"@)
    }
}

/// Compute the file manifest from content and output mode.
pub fn files_with_content(content: &str, output_mode: &str) -> (rows: Vec<String>)
    ensures
        text::texts(rows@) == manifest(content@, output_mode@),
{
    let chars = text::chars_of(content);
    if text::starts_with(chars.as_slice(), "diff --git ") {
        let entries = files_diff(content);
        return format_file_table_labeled(entries.as_slice(), "Hunks", "hunks");
    }
    let entries = if text::same_text(output_mode, "count") {
        grep_preview::parse_count_file_counts(content)
    } else if text::same_text(output_mode, "files_with_matches") {
        list_files(content)
    } else {
        count_line_paths(content)
    };
    format_file_table_labeled(entries.as_slice(), "Matches", "matches")
}

/// Return the file manifest of a stored handle. `stored` is its content and
/// output mode, `None` where there is no such handle; `linked` is the content of
/// the blob that the handle is linked to, where it has no content of its own.
pub fn files(
    handle: &str,
    stored: Option<(Option<String>, String)>,
    linked: Option<String>,
) -> (r: Result<Vec<String>, CtxlError>)
    ensures
        match r {
            Ok(rows) => stored matches Some(row) && text::texts(rows@) == (if row.0 is None
                && window::content_or(row.0, linked).len() == 0 {
                seq![]
            } else {
                manifest(window::content_or(row.0, linked), row.1@)
            }),
            Err(e) => stored is None && (e matches CtxlError::HandleNotFound(id) && id@
                == handle@),
        },
{
    match stored {
        None => Err(CtxlError::HandleNotFound(handle.to_owned())),
        Some((own, output_mode)) => {
            let owns = own.is_some();
            let content = window::resolve_content(own, linked);
            if !owns && content.as_str().unicode_len() == 0 {
                let none: Vec<String> = Vec::new();
                assert(text::texts(none@) =~= seq![]);
                return Ok(none);
            }
            Ok(files_with_content(content.as_str(), output_mode.as_str()))
        },
    }
}

/// [`files`], under the name that it has for search results.
pub fn files_grep(
    handle: &str,
    stored: Option<(Option<String>, String)>,
    linked: Option<String>,
) -> (r: Result<Vec<String>, CtxlError>)
    ensures
        match r {
            Ok(rows) => stored matches Some(row) && text::texts(rows@) == (if row.0 is None
                && window::content_or(row.0, linked).len() == 0 {
                seq![]
            } else {
                manifest(window::content_or(row.0, linked), row.1@)
            }),
            Err(e) => stored is None && (e matches CtxlError::HandleNotFound(id) && id@
                == handle@),
        },
{
    files(handle, stored, linked)
}

// ---------------------------------------------------------------------------
// Laws
// ---------------------------------------------------------------------------

proof fn lemma_sum_inserted(
    sorted: Seq<(Seq<char>, nat)>,
    x: (Seq<char>, nat),
    before: spec_fn((Seq<char>, nat), (Seq<char>, nat)) -> bool,
)
    ensures
        sum(order::inserted(sorted, x, before)) == sum(sorted) + x.1,
    decreases sorted.len(),
{
    if sorted.len() > 0 && before(x, sorted.last()) {
        let rest = order::inserted(sorted.drop_last(), x, before);
        lemma_sum_inserted(sorted.drop_last(), x, before);
        assert(rest.push(sorted.last()).drop_last() =~= rest);
    } else {
        assert(sorted.push(x).drop_last() =~= sorted);
    }
}

proof fn lemma_sum_sorted(
    entries: Seq<(Seq<char>, nat)>,
    before: spec_fn((Seq<char>, nat), (Seq<char>, nat)) -> bool,
)
    ensures
        sum(order::sorted(entries, before)) == sum(entries),
    decreases entries.len(),
{
    if entries.len() > 0 {
        lemma_sum_sorted(entries.drop_last(), before);
        lemma_sum_inserted(
            order::sorted(entries.drop_last(), before),
            entries.last(),
            before,
        );
    }
}

proof fn lemma_sum_update(entries: Seq<(Seq<char>, nat)>, k: int, e: (Seq<char>, nat))
    requires
        0 <= k < entries.len(),
    ensures
        sum(entries.update(k, e)) == sum(entries) - entries[k].1 + e.1,
    decreases entries.len(),
{
    let updated = entries.update(k, e);
    if k == entries.len() - 1 {
        assert(updated.drop_last() =~= entries.drop_last());
    } else {
        assert(updated.drop_last() =~= entries.drop_last().update(k, e));
        lemma_sum_update(entries.drop_last(), k, e);
    }
}

proof fn lemma_sum_counted(names: Seq<Seq<char>>)
    ensures
        sum(tally::counted(names)) == names.len(),
    decreases names.len(),
{
    if names.len() > 0 {
        let entries = tally::counted(names.drop_last());
        let name = names.last();
        lemma_sum_counted(names.drop_last());
        tally::lemma_entry_index(entries, name);
        match tally::entry_index(entries, name) {
            Some(k) => {
                lemma_sum_update(entries, k, (name, entries[k].1 + 1));
            },
            None => {
                assert(entries.push((name, 1)).drop_last() =~= entries);
            },
        }
    }
}

/// The counts of the table of grep output add up to the number of its lines that
/// have a path.
pub proof fn lemma_total_is_lines(content: Seq<char>)
    ensures
        sum(line_file_counts(content)) == line_paths(pieces::lines_of(content)).len(),
{
    let entries = tally::counted(line_paths(pieces::lines_of(content)));
    lemma_sum_counted(line_paths(pieces::lines_of(content)));
    lemma_sum_sorted(
        entries,
        |a: (Seq<char>, nat), b: (Seq<char>, nat)| order::ranks_before(a, b),
    );
}

} // verus!
