//! Laws of the tables of files.

use crate::compress::diff;
use crate::compress::diff::FileView;
use crate::compress::grep_preview;
use crate::laws::diff as diff_laws;
use crate::laws::text as text_laws;
use crate::number;
use crate::order;
use crate::pieces;
use crate::retrieve::filter;
use crate::retrieve::manifest;
use crate::tally;
use crate::text;
use vstd::prelude::*;
use vstd::string::*;

verus! {

// ---------------------------------------------------------------------------
// Rankings
// ---------------------------------------------------------------------------

/// `b` does not belong in front of `a`: it does not count more, and among equal
/// counts its name does not come first.
pub open spec fn in_rank_order(a: (Seq<char>, nat), b: (Seq<char>, nat)) -> bool {
    a.1 > b.1 || (a.1 == b.1 && !order::lex_before(b.0, a.0))
}

/// Ranking puts the largest counts first, equal ones by name, and neither adds
/// nor drops an entry.
pub proof fn lemma_ranked(entries: Seq<(Seq<char>, nat)>)
    ensures
        order::ranked(entries).len() == entries.len(),
        order::ranked(entries).to_multiset() == entries.to_multiset(),
        forall|i: int, j: int|
            0 <= i < j < entries.len() ==> in_rank_order(
                #[trigger] order::ranked(entries)[i],
                #[trigger] order::ranked(entries)[j],
            ),
{
    let before = |a: (Seq<char>, nat), b: (Seq<char>, nat)| order::ranks_before(a, b);
    assert(order::is_order(before)) by {
        assert forall|a: (Seq<char>, nat), b: (Seq<char>, nat), c: (Seq<char>, nat)| #[trigger]
            before(a, b) && #[trigger] before(b, c) implies before(a, c) by {
            order::lemma_rank_order(a, b, c);
        }
        assert forall|a: (Seq<char>, nat), b: (Seq<char>, nat), c: (Seq<char>, nat)|
            !(#[trigger] before(a, b)) && (#[trigger] before(a, c)) implies before(b, c) by {
            order::lemma_rank_order(a, b, c);
        }
        assert forall|a: (Seq<char>, nat)| !(#[trigger] before(a, a)) by {
            order::lemma_rank_order(a, a, a);
        }
    }
    order::lemma_sorted_in_order(entries, before);
    let sorted = order::ranked(entries);
    assert forall|i: int, j: int| 0 <= i < j < entries.len() implies in_rank_order(
        #[trigger] sorted[i],
        #[trigger] sorted[j],
    ) by {
        assert(!before(sorted[j], sorted[i]));
    }
}

/// The counts of entries together, taken from the front.
pub open spec fn count_total(entries: Seq<(Seq<char>, nat)>) -> nat
    decreases entries.len(),
{
    if entries.len() == 0 {
        0
    } else {
        entries[0].1 + count_total(entries.skip(1))
    }
}

proof fn lemma_total_push(entries: Seq<(Seq<char>, nat)>, e: (Seq<char>, nat))
    ensures
        count_total(entries.push(e)) == count_total(entries) + e.1,
    decreases entries.len(),
{
    if entries.len() == 0 {
        assert(entries.push(e).skip(1) =~= entries);
    } else {
        assert(entries.push(e).skip(1) =~= entries.skip(1).push(e));
        lemma_total_push(entries.skip(1), e);
    }
}

proof fn lemma_total_is_sum(entries: Seq<(Seq<char>, nat)>)
    ensures
        manifest::sum(entries) == count_total(entries),
    decreases entries.len(),
{
    if entries.len() > 0 {
        lemma_total_is_sum(entries.drop_last());
        lemma_total_push(entries.drop_last(), entries.last());
        assert(entries.drop_last().push(entries.last()) =~= entries);
    }
}

proof fn lemma_sum_inserted(
    sorted: Seq<(Seq<char>, nat)>,
    x: (Seq<char>, nat),
    before: spec_fn((Seq<char>, nat), (Seq<char>, nat)) -> bool,
)
    ensures
        count_total(order::inserted(sorted, x, before)) == count_total(sorted) + x.1,
    decreases sorted.len(),
{
    if sorted.len() > 0 && before(x, sorted.last()) {
        let head = sorted.drop_last();
        lemma_sum_inserted(head, x, before);
        lemma_total_push(order::inserted(head, x, before), sorted.last());
        lemma_total_push(head, sorted.last());
        assert(head.push(sorted.last()) =~= sorted);
    } else {
        lemma_total_push(sorted, x);
    }
}

proof fn lemma_total_sorted(
    entries: Seq<(Seq<char>, nat)>,
    before: spec_fn((Seq<char>, nat), (Seq<char>, nat)) -> bool,
)
    ensures
        count_total(order::sorted(entries, before)) == count_total(entries),
    decreases entries.len(),
{
    if entries.len() > 0 {
        lemma_total_sorted(entries.drop_last(), before);
        lemma_sum_inserted(order::sorted(entries.drop_last(), before), entries.last(), before);
        lemma_total_push(entries.drop_last(), entries.last());
        assert(entries.drop_last().push(entries.last()) =~= entries);
    }
}

pub(crate) proof fn lemma_total_ranked(entries: Seq<(Seq<char>, nat)>)
    ensures
        count_total(order::ranked(entries)) == count_total(entries),
{
    lemma_total_sorted(
        entries,
        |a: (Seq<char>, nat), b: (Seq<char>, nat)| order::ranks_before(a, b),
    );
}

/// The counts of names add up to the number of names.
pub proof fn lemma_total_counted(names: Seq<Seq<char>>)
    ensures
        count_total(tally::counted(names)) == names.len(),
    decreases names.len(),
{
    if names.len() > 0 {
        let entries = tally::counted(names.drop_last());
        let name = names.last();
        lemma_total_counted(names.drop_last());
        tally::lemma_entry_index(entries, name);
        match tally::entry_index(entries, name) {
            Some(k) => {
                lemma_total_update(entries, k, (name, entries[k].1 + 1));
            },
            None => {
                lemma_total_push(entries, (name, 1));
            },
        }
    }
}

proof fn lemma_total_update(entries: Seq<(Seq<char>, nat)>, k: int, e: (Seq<char>, nat))
    requires
        0 <= k < entries.len(),
    ensures
        count_total(entries.update(k, e)) == count_total(entries) - entries[k].1 + e.1,
    decreases entries.len(),
{
    let updated = entries.update(k, e);
    if k == 0 {
        assert(updated.skip(1) =~= entries.skip(1));
    } else {
        assert(updated.skip(1) =~= entries.skip(1).update(k - 1, e));
        lemma_total_update(entries.skip(1), k - 1, e);
    }
}

// ---------------------------------------------------------------------------
// Diffs
// ---------------------------------------------------------------------------

/// A file with the number of its hunks.
pub open spec fn hunks_of(files: Seq<FileView>) -> Seq<(Seq<char>, nat)> {
    files.map_values(|f: FileView| (f.path, f.hunks.len()))
}

/// The manifest of a diff and the reading of it agree: the manifest ranks the
/// files that are read by the number of their hunks.
pub proof fn lemma_manifest_is_of_files(content: Seq<char>)
    ensures
        manifest::diff_file_counts(content) == order::ranked(hunks_of(diff::diff_files(content))),
{
    let lines = pieces::lines_of(content);
    lemma_same_files(lines);
}

proof fn lemma_same_files(lines: Seq<Seq<char>>)
    ensures
        ({
            let m = manifest::manifest_after(lines);
            let s = diff::hunk_closed(diff::diff_state(lines));
            &&& m.over == hunks_of(s.done)
            &&& match (m.open, s.file) {
                (Some(o), Some(f)) => o == (f.path, f.hunks.len()),
                (None, None) => true,
                _ => false,
            }
            &&& manifest::all_files(m) == hunks_of(diff::file_closed(s).done)
        }),
    decreases lines.len(),
{
    if lines.len() == 0 {
        assert(hunks_of(seq![]) =~= seq![]);
    } else {
        lemma_same_files(lines.drop_last());
        diff_laws::lemma_line_kinds(lines.last());
        let m = manifest::manifest_after(lines);
        let s = diff::hunk_closed(diff::diff_state(lines));
        assert(m.over =~= hunks_of(s.done));
        assert(manifest::all_files(m) =~= hunks_of(diff::file_closed(s).done));
    }
}

/// The manifest of a diff has one entry for each line that opens the section of
/// a file, and where the first line opens one its counts add up to the number of
/// lines that open a hunk.
pub proof fn lemma_manifest_counts(content: Seq<char>)
    ensures
        manifest::diff_file_counts(content).len() == diff_laws::header_count(
            pieces::lines_of(content),
        ),
        count_total(manifest::diff_file_counts(content)) <= diff_laws::hunk_header_count(
            pieces::lines_of(content),
        ),
        "diff --git "@.is_prefix_of(content) ==> count_total(manifest::diff_file_counts(content))
            == diff_laws::hunk_header_count(pieces::lines_of(content)),
{
    let files = diff::diff_files(content);
    lemma_manifest_is_of_files(content);
    diff_laws::lemma_files_are_sections(content);
    lemma_ranked(hunks_of(files));
    lemma_total_ranked(hunks_of(files));
    lemma_hunk_total(files);
}

proof fn lemma_hunk_total(files: Seq<FileView>)
    ensures
        count_total(hunks_of(files)) == diff_laws::hunk_total(files),
    decreases files.len(),
{
    if files.len() > 0 {
        lemma_hunk_total(files.drop_last());
        let last = (files.last().path, files.last().hunks.len());
        lemma_total_push(hunks_of(files.drop_last()), last);
        assert(hunks_of(files) =~= hunks_of(files.drop_last()).push(last));
    } else {
        assert(hunks_of(files) =~= seq![]);
    }
}

// ---------------------------------------------------------------------------
// Tables
// ---------------------------------------------------------------------------

/// A table has one row for the labels, one for each entry and one for the
/// totals. The row of an entry ends in the name of the file, behind its count.
pub proof fn lemma_table(
    entries: Seq<(Seq<char>, nat)>,
    label: Seq<char>,
    lower: Seq<char>,
)
    ensures
        ({
            let rows = manifest::file_table(entries, label, lower);
            &&& entries.len() == 0 ==> rows == seq!["(no files)"@]
            &&& entries.len() > 0 ==> {
                &&& rows.len() == entries.len() + 2
                &&& (label + "  File"@).is_suffix_of(rows[0])
                &&& forall|i: int|
                    0 <= i < entries.len() ==> (number::decimal((#[trigger] entries[i]).1) + "  "@
                        + entries[i].0).is_suffix_of(rows[i + 1])
                &&& rows.last() == "("@ + number::decimal(entries.len()) + " files, "@
                    + number::decimal(count_total(entries)) + " total "@ + lower + ")"@
            }
        }),
{
    let rows = manifest::file_table(entries, label, lower);
    if entries.len() > 0 {
        reveal_strlit("  File");
        reveal_strlit("  ");
        reveal_strlit("File");
        let width = manifest::count_width(entries, label);
        lemma_total_is_sum(entries);
        assert(label + "  File"@ =~= label + "  "@ + "File"@);
        lemma_row(label, width, "File"@);
        assert forall|i: int| 0 <= i < entries.len() implies (number::decimal(
            (#[trigger] entries[i]).1,
        ) + "  "@ + entries[i].0).is_suffix_of(rows[i + 1]) by {
            lemma_row(number::decimal(entries[i].1), width, entries[i].0);
        }
    }
}

/// The rows of a table are aligned: the column of counts is as wide in every row,
/// so that the files stand below each other.
pub proof fn lemma_aligned(entries: Seq<(Seq<char>, nat)>, label: Seq<char>, lower: Seq<char>)
    requires
        entries.len() > 0,
    ensures
        ({
            let rows = manifest::file_table(entries, label, lower);
            let width = rows[0].len() - 6;
            &&& forall|i: int|
                0 <= i < entries.len() ==> rows[i + 1].len() == width + 2 + (
                #[trigger] entries[i]).0.len()
        }),
{
    reveal_strlit("  ");
    reveal_strlit("File");
    let rows = manifest::file_table(entries, label, lower);
    let width = manifest::count_width(entries, label);
    assert(rows[0] == manifest::table_row(label, width, "File"@));
    assert forall|i: int| 0 <= i < entries.len() implies rows[i + 1].len() == rows[0].len() - 6 + 2
        + (#[trigger] entries[i]).0.len() by {
        lemma_largest(entries, i);
        lemma_decimal_grows(entries[i].1, manifest::largest(entries));
        assert(rows[i + 1] == manifest::table_row(
            number::decimal(entries[i].1),
            width,
            entries[i].0,
        ));
    }
}

proof fn lemma_largest(entries: Seq<(Seq<char>, nat)>, i: int)
    requires
        0 <= i < entries.len(),
    ensures
        entries[i].1 <= manifest::largest(entries),
    decreases entries.len(),
{
    if i < entries.len() - 1 {
        assert(entries.drop_last()[i] == entries[i]);
        lemma_largest(entries.drop_last(), i);
    }
}

proof fn lemma_decimal_grows(a: nat, b: nat)
    requires
        a <= b,
    ensures
        number::decimal(a).len() <= number::decimal(b).len(),
    decreases b,
{
    if b >= 10 && a >= 10 {
        lemma_decimal_grows(a / 10, b / 10);
    } else if b >= 10 {
        assert(number::decimal(b).len() >= 1);
    }
}

proof fn lemma_row(cell: Seq<char>, width: nat, file: Seq<char>)
    ensures
        (cell + "  "@ + file).is_suffix_of(manifest::table_row(cell, width, file)),
{
    let row = manifest::table_row(cell, width, file);
    let end = cell + "  "@ + file;
    let pad = row.len() - end.len();
    assert(row.subrange(pad, row.len() as int) =~= end);
}

/// The table of a diff ends in the number of lines that open the section of a
/// file and the number of lines that open a hunk.
pub proof fn lemma_diff_table_total(content: Seq<char>, output_mode: Seq<char>)
    requires
        "diff --git "@.is_prefix_of(content),
    ensures
        ({
            let lines = pieces::lines_of(content);
            let rows = manifest::manifest(content, output_mode);
            &&& rows.len() == diff_laws::header_count(lines) + 2
            &&& rows.last() == "("@ + number::decimal(diff_laws::header_count(lines))
                + " files, "@ + number::decimal(diff_laws::hunk_header_count(lines))
                + " total hunks)"@
        }),
{
    let lines = pieces::lines_of(content);
    let entries = manifest::diff_file_counts(content);
    lemma_manifest_counts(content);
    lemma_table(entries, "Hunks"@, "hunks"@);
    diff_laws::lemma_first_line_is_header(content);
    diff_laws::lemma_header_counts(lines);
    reveal_strlit(" total ");
    reveal_strlit("hunks");
    reveal_strlit(")");
    reveal_strlit(" total hunks)");
    let lead = "("@ + number::decimal(entries.len()) + " files, "@ + number::decimal(
        count_total(entries),
    );
    assert(lead + " total "@ + "hunks"@ + ")"@ =~= lead + " total hunks)"@);
}

// ---------------------------------------------------------------------------
// Grep output
// ---------------------------------------------------------------------------

/// How many of `lines` have the path `path`.
pub open spec fn lines_at(lines: Seq<Seq<char>>, path: Seq<char>) -> nat {
    lines.filter(|line: Seq<char>| filter::line_path(line) == path).len()
}

proof fn lemma_occurrences(lines: Seq<Seq<char>>, path: Seq<char>)
    requires
        path.len() > 0,
    ensures
        tally::occurrences(manifest::line_paths(lines), path) == lines_at(lines, path),
    decreases lines.len(),
{
    reveal(Seq::filter);
    if lines.len() > 0 {
        lemma_occurrences(lines.drop_last(), path);
        let before = manifest::line_paths(lines.drop_last());
        let own = filter::line_path(lines.last());
        assert(before.push(own).drop_last() =~= before);
    }
}

proof fn lemma_no_empty_path(lines: Seq<Seq<char>>)
    ensures
        forall|i: int|
            0 <= i < manifest::line_paths(lines).len() ==> (#[trigger] manifest::line_paths(
                lines,
            )[i]).len() > 0,
        tally::occurrences(manifest::line_paths(lines), seq![]) == 0,
    decreases lines.len(),
{
    if lines.len() > 0 {
        lemma_no_empty_path(lines.drop_last());
        let before = manifest::line_paths(lines.drop_last());
        let own = filter::line_path(lines.last());
        assert(before.push(own).drop_last() =~= before);
    }
}

/// The manifest of grep output has one entry for each path of its lines, with
/// the number of lines at that path, and no other.
pub proof fn lemma_line_counts(content: Seq<char>)
    ensures
        ({
            let lines = pieces::lines_of(content);
            let entries = manifest::line_file_counts(content);
            &&& forall|e: (Seq<char>, nat)| #[trigger]
                entries.contains(e) ==> e.0.len() > 0 && e.1 == lines_at(lines, e.0) && e.1 >= 1
            &&& forall|i: int|
                0 <= i < lines.len() && filter::line_path(#[trigger] lines[i]).len() > 0
                    ==> entries.contains(
                    (filter::line_path(lines[i]), lines_at(lines, filter::line_path(lines[i]))),
                )
            &&& entries.no_duplicates()
        }),
{
    let lines = pieces::lines_of(content);
    let paths = manifest::line_paths(lines);
    let counted = tally::counted(paths);
    let entries = manifest::line_file_counts(content);
    tally::lemma_counted(paths);
    lemma_ranked(counted);
    lemma_no_empty_path(lines);
    assert forall|e: (Seq<char>, nat)| entries.contains(e) == counted.contains(e) by {
        lemma_same_items(entries, counted, e);
    }
    assert forall|e: (Seq<char>, nat)| #[trigger] entries.contains(e) implies e.0.len() > 0 && e.1
        == lines_at(lines, e.0) && e.1 >= 1 by {
        assert(counted.contains(e));
        let k = counted.index_of(e);
        assert(counted[k] == e);
        if e.0.len() == 0 {
            assert(e.0 =~= seq![]);
        }
        lemma_occurrences(lines, e.0);
    }
    assert forall|i: int|
        0 <= i < lines.len() && filter::line_path(
            #[trigger] lines[i],
        ).len() > 0 implies entries.contains(
        (filter::line_path(lines[i]), lines_at(lines, filter::line_path(lines[i]))),
    ) by {
        let path = filter::line_path(lines[i]);
        lemma_occurrences(lines, path);
        lemma_some_line(lines, i);
        tally::lemma_entry_index(counted, path);
        let k = tally::entry_index(counted, path)->0;
        assert(counted[k] == (path, lines_at(lines, path)));
        assert(counted.contains(counted[k]));
    }
    assert(counted.no_duplicates()) by {
        assert forall|i: int, j: int|
            0 <= i < counted.len() && 0 <= j < counted.len() && i != j implies counted[i]
            != counted[j] by {
            if i < j {
                assert(counted[i].0 != counted[j].0);
            } else {
                assert(counted[j].0 != counted[i].0);
            }
        }
    }
    assert(entries.no_duplicates()) by {
        counted.lemma_multiset_has_no_duplicates();
        entries.lemma_multiset_has_no_duplicates_conv();
    }
}

pub(crate) proof fn lemma_same_items<T>(a: Seq<T>, b: Seq<T>, x: T)
    requires
        a.to_multiset() == b.to_multiset(),
    ensures
        a.contains(x) == b.contains(x),
{
    broadcast use vstd::seq_lib::group_to_multiset_ensures;

    assert(a.contains(x) <==> a.to_multiset().count(x) > 0);
    assert(b.contains(x) <==> b.to_multiset().count(x) > 0);
}

proof fn lemma_some_line(lines: Seq<Seq<char>>, i: int)
    requires
        0 <= i < lines.len(),
    ensures
        lines_at(lines, filter::line_path(lines[i])) > 0,
    decreases lines.len(),
{
    reveal(Seq::filter);
    if i < lines.len() - 1 {
        assert(lines.drop_last()[i] == lines[i]);
        lemma_some_line(lines.drop_last(), i);
    }
}

/// A list of files gives one entry for each line that holds more than white
/// space, in the order of the lines.
pub proof fn lemma_listed(lines: Seq<Seq<char>>)
    ensures
        manifest::listed_files(lines) == lines.filter(
            |line: Seq<char>| text::trimmed(line).len() > 0,
        ).map_values(|line: Seq<char>| (text::trimmed(line), 1nat)),
    decreases lines.len(),
{
    reveal(Seq::filter);
    let keep = |line: Seq<char>| text::trimmed(line).len() > 0;
    let entry = |line: Seq<char>| (text::trimmed(line), 1nat);
    if lines.len() > 0 {
        let head = lines.drop_last();
        lemma_listed(head);
        if keep(lines.last()) {
            assert(head.filter(keep).push(lines.last()).map_values(entry) =~= head.filter(
                keep,
            ).map_values(entry).push(entry(lines.last())));
        }
    } else {
        assert(lines.filter(keep).map_values(entry) =~= seq![]);
    }
}

/// A line `file:count` gives the file and the count; lines of another shape give
/// nothing.
pub proof fn lemma_count_row(file: Seq<char>, count: nat)
    requires
        file.len() > 0,
        count <= usize::MAX,
        !text::is_white_space(file[0]),
    ensures
        grep_preview::count_row(file + ":"@ + number::decimal(count)) == Some((file, count)),
{
    reveal_strlit(":");
    let digits = number::decimal(count);
    let line = file + ":"@ + digits;
    number::lemma_decimal_digits(count);
    text_laws::lemma_decimal_value(count);
    assert(digits.len() > 0) by {
        reveal_with_fuel(number::decimal, 1);
    }
    assert(line.last() == digits.last());
    assert('0' <= digits[digits.len() - 1] <= '9');
    text_laws::lemma_trimmed_is(line);
    let k = file.len() as int;
    assert(line[k] == ':');
    assert forall|j: int| k < j < line.len() implies line[j] != ':' by {
        assert(line[j] == digits[j - k - 1]);
    }
    text_laws::lemma_last_char(line, ':', k);
    assert(line.skip(k + 1) =~= digits);
    assert(line.take(k) =~= file);
}

} // verus!
