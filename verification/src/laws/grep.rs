//! Laws of collapsed grep output and its previews.

use crate::compress::grep_dedup;
use crate::compress::grep_preview;
use crate::laws::manifest as manifest_laws;
use crate::laws::text as text_laws;
use crate::number;
use crate::order;
use crate::pieces;
use crate::search;
use crate::tally;
use crate::text;
use vstd::prelude::*;
use vstd::string::*;

verus! {

// ---------------------------------------------------------------------------
// Clusters
// ---------------------------------------------------------------------------

/// The bits in which two fingerprints differ.
pub open spec fn differing(x: u64, y: u64) -> nat {
    grep_dedup::ones(x ^ y)
}

/// Each cluster is founded by a line, whose text and fingerprint it has.
pub open spec fn are_founded(
    lines: Seq<Seq<char>>,
    hashes: Seq<u64>,
    clusters: Seq<(u64, Seq<char>, nat)>,
) -> bool {
    forall|c: int| 0 <= c < clusters.len() ==> #[trigger] is_founded(lines, hashes, clusters[c])
}

/// A line has the text and the fingerprint of the cluster.
pub open spec fn is_founded(
    lines: Seq<Seq<char>>,
    hashes: Seq<u64>,
    cluster: (u64, Seq<char>, nat),
) -> bool {
    cluster.2 >= 1 && exists|k: int|
        0 <= k < lines.len() && #[trigger] lines[k] == cluster.1 && hashes[k] == cluster.0
}

/// A fingerprint lies within three bits of that of a cluster.
pub open spec fn is_covered(h: u64, clusters: Seq<(u64, Seq<char>, nat)>) -> bool {
    exists|c: int| 0 <= c < clusters.len() && differing(h, (#[trigger] clusters[c]).0) <= 3
}

/// No cluster lies within three bits of an earlier one.
pub open spec fn are_apart(clusters: Seq<(u64, Seq<char>, nat)>) -> bool {
    forall|a: int, b: int|
        0 <= a < b < clusters.len() ==> differing(
            (#[trigger] clusters[b]).0,
            (#[trigger] clusters[a]).0,
        ) > 3
}

/// The clusters of lines: each is founded by a line, whose text and fingerprint
/// it has; every line lies within three bits of the founder of a cluster; and no
/// founder lies within three bits of an earlier one.
pub proof fn lemma_clusters(lines: Seq<Seq<char>>, hashes: Seq<u64>)
    requires
        lines.len() == hashes.len(),
    ensures
        are_founded(lines, hashes, grep_dedup::clusters_of(lines, hashes)),
        forall|k: int|
            0 <= k < lines.len() ==> is_covered(
                #[trigger] hashes[k],
                grep_dedup::clusters_of(lines, hashes),
            ),
        are_apart(grep_dedup::clusters_of(lines, hashes)),
    decreases lines.len(),
{
    if lines.len() > 0 {
        let head = lines.drop_last();
        let low = hashes.drop_last();
        lemma_clusters(head, low);
        let before = grep_dedup::clusters_of(head, low);
        let clusters = grep_dedup::clusters_of(lines, hashes);
        lemma_near(before, hashes.last(), 0);
        assert forall|c: int| 0 <= c < before.len() implies clusters[c].0 == before[c].0
            && clusters[c].1 == before[c].1 by {}
        lemma_still_founded(lines, hashes, before, clusters);
        assert forall|k: int| 0 <= k < lines.len() implies is_covered(
            #[trigger] hashes[k],
            clusters,
        ) by {
            if k < head.len() {
                assert(low[k] == hashes[k]);
                assert(is_covered(low[k], before));
                let c = choose|c: int|
                    0 <= c < before.len() && differing(low[k], (#[trigger] before[c]).0) <= 3;
                assert(clusters[c].0 == before[c].0);
            } else {
                match grep_dedup::near_index(before, hashes.last(), 0) {
                    Some(c) => {
                        assert(differing(hashes[k], clusters[c].0) <= 3);
                    },
                    None => {
                        let c = before.len() as int;
                        lemma_no_bits(hashes[k]);
                        assert(differing(hashes[k], clusters[c].0) <= 3);
                    },
                }
            }
        }
        assert(are_apart(clusters)) by {
            assert forall|a: int, b: int| 0 <= a < b < clusters.len() implies differing(
                (#[trigger] clusters[b]).0,
                (#[trigger] clusters[a]).0,
            ) > 3 by {
                assert(before[a].0 == clusters[a].0);
                if b < before.len() {
                    assert(before[b].0 == clusters[b].0);
                    assert(differing(before[b].0, before[a].0) > 3);
                } else {
                    assert(!grep_dedup::near(hashes.last(), before[a].0));
                }
            }
        }
    }
}

proof fn lemma_still_founded(
    lines: Seq<Seq<char>>,
    hashes: Seq<u64>,
    before: Seq<(u64, Seq<char>, nat)>,
    clusters: Seq<(u64, Seq<char>, nat)>,
)
    requires
        lines.len() > 0,
        lines.len() == hashes.len(),
        are_founded(lines.drop_last(), hashes.drop_last(), before),
        clusters == grep_dedup::joined_by(before, lines.last(), hashes.last()),
    ensures
        are_founded(lines, hashes, clusters),
{
    let head = lines.drop_last();
    let low = hashes.drop_last();
    lemma_near(before, hashes.last(), 0);
    assert forall|c: int| 0 <= c < clusters.len() implies #[trigger] is_founded(
        lines,
        hashes,
        clusters[c],
    ) by {
        if c < before.len() {
            assert(is_founded(head, low, before[c]));
            let k = choose|k: int|
                0 <= k < head.len() && #[trigger] head[k] == before[c].1 && low[k]
                    == before[c].0;
            assert(lines[k] == head[k] && hashes[k] == low[k]);
        } else {
            let k = lines.len() - 1;
            assert(lines[k] == clusters[c].1);
        }
    }
}

proof fn lemma_no_bits(x: u64)
    ensures
        grep_dedup::ones(x ^ x) == 0,
{
    assert(x ^ x == 0) by (bit_vector);
    assert(grep_dedup::ones(0) == 0);
}

proof fn lemma_near(clusters: Seq<(u64, Seq<char>, nat)>, h: u64, i: int)
    requires
        0 <= i,
    ensures
        match grep_dedup::near_index(clusters, h, i) {
            Some(k) => i <= k < clusters.len() && grep_dedup::near(h, clusters[k].0) && (forall|
                j: int,
            |
                i <= j < k ==> !grep_dedup::near(h, (#[trigger] clusters[j]).0)),
            None => forall|j: int|
                i <= j < clusters.len() ==> !grep_dedup::near(h, (#[trigger] clusters[j]).0),
        },
    decreases clusters.len() - i,
{
    if i < clusters.len() && !grep_dedup::near(h, clusters[i].0) {
        lemma_near(clusters, h, i + 1);
    }
}

/// A line joins the first cluster that it lies near, which grows by one; the
/// others stay as they are.
pub proof fn lemma_line_joins(clusters: Seq<(u64, Seq<char>, nat)>, line: Seq<char>, h: u64, k: int)
    requires
        0 <= k < clusters.len(),
        differing(h, clusters[k].0) <= 3,
        forall|j: int| 0 <= j < k ==> differing(h, (#[trigger] clusters[j]).0) > 3,
    ensures
        grep_dedup::joined_by(clusters, line, h) == clusters.update(
            k,
            (clusters[k].0, clusters[k].1, clusters[k].2 + 1),
        ),
{
    lemma_near(clusters, h, 0);
    assert(grep_dedup::near(h, clusters[k].0));
    match grep_dedup::near_index(clusters, h, 0) {
        Some(i) => {
            if i < k {
                assert(differing(h, clusters[i].0) > 3);
            }
        },
        None => {},
    }
}

// ---------------------------------------------------------------------------
// Reading lines
// ---------------------------------------------------------------------------

/// A line `file:12:text` belongs to `file` and is compared by `text`: the number
/// of the line plays no part.
pub proof fn lemma_numbered_line(file: Seq<char>, line_number: nat, rest: Seq<char>)
    requires
        file.len() > 1,
        !file.contains(':'),
    ensures
        grep_dedup::file_of(file + ":"@ + number::decimal(line_number) + ":"@ + rest) == file,
        grep_dedup::match_content(file + ":"@ + number::decimal(line_number) + ":"@ + rest) == rest,
{
    reveal_strlit(":");
    let digits = number::decimal(line_number);
    text_laws::lemma_decimal_value(line_number);
    let line = file + ":"@ + digits + ":"@ + rest;
    let k = file.len() as int;
    assert forall|j: int| 0 <= j < k implies line[j] != ':' by {
        assert(file.contains(file[j]));
    }
    search::lemma_char_index_is(line, ':', k);
    let after = line.skip(k + 1);
    assert(after =~= digits + ":"@ + rest);
    assert forall|j: int| 0 <= j < digits.len() implies after[j] != ':' by {
        assert(number::is_digit(digits[j]));
    }
    search::lemma_char_index_is(after, ':', digits.len() as int);
    assert(after.take(digits.len() as int) =~= digits);
    assert(after.skip(digits.len() as int + 1) =~= rest);
    assert(line.take(k) =~= file);
}

/// A line `file:text` is compared by all that follows the file, unless digits and
/// a colon stand in front.
pub proof fn lemma_unnumbered_line(file: Seq<char>, word: Seq<char>, rest: Seq<char>)
    requires
        file.len() > 1,
        !file.contains(':'),
        !word.contains(':'),
        !number::all_digits(word),
    ensures
        grep_dedup::match_content(file + ":"@ + word + ":"@ + rest) == word + ":"@ + rest,
        grep_dedup::match_content(file + ":"@ + word) == word,
{
    reveal_strlit(":");
    let line = file + ":"@ + word + ":"@ + rest;
    let bare = file + ":"@ + word;
    let k = file.len() as int;
    assert forall|j: int| 0 <= j < k implies line[j] != ':' && bare[j] != ':' by {
        assert(file.contains(file[j]));
    }
    search::lemma_char_index_is(line, ':', k);
    search::lemma_char_index_is(bare, ':', k);
    let after = line.skip(k + 1);
    assert(after =~= word + ":"@ + rest);
    assert(bare.skip(k + 1) =~= word);
    assert forall|j: int| 0 <= j < word.len() implies after[j] != ':' by {
        assert(word.contains(word[j]));
    }
    search::lemma_char_index_is(after, ':', word.len() as int);
    assert(after.take(word.len() as int) =~= word);
    search::lemma_char_index(word, ':');
    match search::char_index(word, ':') {
        Some(j) => {
            assert(word.contains(word[j]));
        },
        None => {},
    }
}

/// A line without a path belongs to no known file.
pub proof fn lemma_unknown_file(line: Seq<char>)
    requires
        !line.contains(':'),
    ensures
        grep_dedup::file_of(line) == "<unknown>"@,
        grep_dedup::match_content(line) == line,
{
    search::lemma_char_index(line, ':');
    match search::char_index(line, ':') {
        Some(k) => {
            assert(line.contains(line[k]));
        },
        None => {},
    }
}

/// The lines that are grouped are those that hold more than white space, each
/// without the white space around it, in order.
pub proof fn lemma_grouped_lines(lines: Seq<Seq<char>>)
    ensures
        grep_dedup::trimmed_lines(lines) == lines.filter(
            |line: Seq<char>| text::trimmed(line).len() > 0,
        ).map_values(|line: Seq<char>| text::trimmed(line)),
    decreases lines.len(),
{
    reveal(Seq::filter);
    let keep = |line: Seq<char>| text::trimmed(line).len() > 0;
    let bare = |line: Seq<char>| text::trimmed(line);
    if lines.len() > 0 {
        let head = lines.drop_last();
        lemma_grouped_lines(head);
        if keep(lines.last()) {
            assert(head.filter(keep).push(lines.last()).map_values(bare) =~= head.filter(
                keep,
            ).map_values(bare).push(bare(lines.last())));
        }
    } else {
        assert(lines.filter(keep).map_values(bare) =~= seq![]);
    }
}

/// The group of a file holds the lines that belong to it, in order.
pub proof fn lemma_group_lines(lines: Seq<Seq<char>>, file: Seq<char>)
    ensures
        grep_dedup::lines_in(lines, file) == lines.filter(
            |line: Seq<char>| grep_dedup::file_of(line) == file,
        ),
        grep_dedup::lines_in(lines, file).len() == tally::occurrences(
            grep_dedup::files_of(lines),
            file,
        ),
    decreases lines.len(),
{
    reveal(Seq::filter);
    if lines.len() > 0 {
        lemma_group_lines(lines.drop_last(), file);
        assert(grep_dedup::files_of(lines).drop_last() =~= grep_dedup::files_of(
            lines.drop_last(),
        ));
    }
}

/// The groups: one for each file of the lines, headed by the number of its lines;
/// the numbers add up to all lines.
pub proof fn lemma_groups(input: Seq<char>)
    ensures
        ({
            let lines = grep_dedup::trimmed_lines(pieces::lines_of(input));
            let groups = order::ranked(tally::counted(grep_dedup::files_of(lines)));
            &&& forall|i: int|
                0 <= i < groups.len() ==> (#[trigger] groups[i]).1 == lines.filter(
                    |line: Seq<char>| grep_dedup::file_of(line) == groups[i].0,
                ).len()
            &&& forall|k: int|
                0 <= k < lines.len() ==> exists|i: int|
                    0 <= i < groups.len() && (#[trigger] groups[i]).0 == grep_dedup::file_of(
                        #[trigger] lines[k],
                    )
            &&& manifest_laws::count_total(groups) == lines.len()
        }),
{
    let lines = grep_dedup::trimmed_lines(pieces::lines_of(input));
    let files = grep_dedup::files_of(lines);
    let counted = tally::counted(files);
    let groups = order::ranked(counted);
    tally::lemma_counted(files);
    manifest_laws::lemma_ranked(counted);
    manifest_laws::lemma_total_counted(files);
    manifest_laws::lemma_total_ranked(counted);
    assert forall|i: int| 0 <= i < groups.len() implies (#[trigger] groups[i]).1 == lines.filter(
        |line: Seq<char>| grep_dedup::file_of(line) == groups[i].0,
    ).len() by {
        manifest_laws::lemma_same_items(groups, counted, groups[i]);
        assert(groups.contains(groups[i]));
        let k = counted.index_of(groups[i]);
        assert(counted[k] == groups[i]);
        lemma_group_lines(lines, groups[i].0);
    }
    assert forall|k: int| 0 <= k < lines.len() implies exists|i: int|
        0 <= i < groups.len() && (#[trigger] groups[i]).0 == grep_dedup::file_of(
            #[trigger] lines[k],
        ) by {
        let file = grep_dedup::file_of(lines[k]);
        lemma_occurs(files, k);
        assert(files[k] == file);
        tally::lemma_entry_index(counted, file);
        let j = tally::entry_index(counted, file)->0;
        manifest_laws::lemma_same_items(groups, counted, counted[j]);
        assert(counted.contains(counted[j]));
        let i = groups.index_of(counted[j]);
        assert(groups[i].0 == file);
    }
}

proof fn lemma_occurs(names: Seq<Seq<char>>, k: int)
    requires
        0 <= k < names.len(),
    ensures
        tally::occurrences(names, names[k]) > 0,
    decreases names.len(),
{
    if k < names.len() - 1 {
        assert(names.drop_last()[k] == names[k]);
        lemma_occurs(names.drop_last(), k);
    }
}

/// The text of groups is that of each, one after the other.
pub proof fn lemma_groups_one_by_one(
    a: Seq<(Seq<char>, nat)>,
    b: Seq<(Seq<char>, nat)>,
    lines: Seq<Seq<char>>,
)
    ensures
        grep_dedup::groups_text(a + b, lines) == grep_dedup::groups_text(a, lines)
            + grep_dedup::groups_text(b, lines),
    decreases b.len(),
{
    if b.len() == 0 {
        assert(a + b =~= a);
        assert(grep_dedup::groups_text(a, lines) + grep_dedup::groups_text(b, lines)
            =~= grep_dedup::groups_text(a, lines));
    } else {
        assert((a + b).drop_last() =~= a + b.drop_last());
        lemma_groups_one_by_one(a, b.drop_last(), lines);
        assert(grep_dedup::groups_text(a + b, lines) =~= grep_dedup::groups_text(a, lines)
            + grep_dedup::groups_text(b, lines));
    }
}

// ---------------------------------------------------------------------------
// Previews
// ---------------------------------------------------------------------------

/// The files of content-mode output: one entry for each path of the lines, with
/// the number of lines at it, and no other.
pub proof fn lemma_content_files(content: Seq<char>)
    ensures
        ({
            let lines = pieces::lines_of(content);
            let entries = grep_preview::content_file_counts(content);
            &&& forall|i: int|
                0 <= i < entries.len() ==> (#[trigger] entries[i]).1 == lines.filter(
                    |line: Seq<char>| grep_preview::content_path(line) == Some(entries[i].0),
                ).len() && entries[i].1 >= 1
            &&& forall|k: int|
                0 <= k < lines.len() && grep_preview::content_path(#[trigger] lines[k]) is Some
                    ==> exists|i: int|
                    0 <= i < entries.len() && Some((#[trigger] entries[i]).0)
                        == grep_preview::content_path(lines[k])
            &&& manifest_laws::count_total(entries) == lines.filter(
                |line: Seq<char>| grep_preview::content_path(line) is Some,
            ).len()
        }),
{
    let lines = pieces::lines_of(content);
    let paths = grep_preview::content_paths(lines);
    let counted = tally::counted(paths);
    let entries = grep_preview::content_file_counts(content);
    tally::lemma_counted(paths);
    manifest_laws::lemma_ranked(counted);
    manifest_laws::lemma_total_counted(paths);
    manifest_laws::lemma_total_ranked(counted);
    lemma_path_count(lines);
    assert forall|i: int| 0 <= i < entries.len() implies (#[trigger] entries[i]).1
        == lines.filter(
        |line: Seq<char>| grep_preview::content_path(line) == Some(entries[i].0),
    ).len() && entries[i].1 >= 1 by {
        manifest_laws::lemma_same_items(entries, counted, entries[i]);
        assert(entries.contains(entries[i]));
        let k = counted.index_of(entries[i]);
        assert(counted[k] == entries[i]);
        lemma_path_matches(lines, entries[i].0);
    }
    assert forall|k: int|
        0 <= k < lines.len() && grep_preview::content_path(
            #[trigger] lines[k],
        ) is Some implies exists|i: int|
        0 <= i < entries.len() && Some((#[trigger] entries[i]).0) == grep_preview::content_path(
            lines[k],
        ) by {
        let path = grep_preview::content_path(lines[k])->0;
        lemma_path_matches(lines, path);
        lemma_some_at(lines, k, path);
        tally::lemma_entry_index(counted, path);
        let j = tally::entry_index(counted, path)->0;
        manifest_laws::lemma_same_items(entries, counted, counted[j]);
        assert(counted.contains(counted[j]));
        let i = entries.index_of(counted[j]);
        assert(entries[i].0 == path);
    }
}

proof fn lemma_some_at(lines: Seq<Seq<char>>, k: int, path: Seq<char>)
    requires
        0 <= k < lines.len(),
        grep_preview::content_path(lines[k]) == Some(path),
    ensures
        lines.filter(|line: Seq<char>| grep_preview::content_path(line) == Some(path)).len() > 0,
    decreases lines.len(),
{
    reveal(Seq::filter);
    if k < lines.len() - 1 {
        assert(lines.drop_last()[k] == lines[k]);
        lemma_some_at(lines.drop_last(), k, path);
    }
}

proof fn lemma_path_count(lines: Seq<Seq<char>>)
    ensures
        grep_preview::content_paths(lines).len() == lines.filter(
            |line: Seq<char>| grep_preview::content_path(line) is Some,
        ).len(),
    decreases lines.len(),
{
    reveal(Seq::filter);
    if lines.len() > 0 {
        lemma_path_count(lines.drop_last());
    }
}

proof fn lemma_path_matches(lines: Seq<Seq<char>>, path: Seq<char>)
    ensures
        tally::occurrences(grep_preview::content_paths(lines), path) == lines.filter(
            |line: Seq<char>| grep_preview::content_path(line) == Some(path),
        ).len(),
    decreases lines.len(),
{
    reveal(Seq::filter);
    if lines.len() > 0 {
        lemma_path_matches(lines.drop_last(), path);
        let before = grep_preview::content_paths(lines.drop_last());
        match grep_preview::content_path(lines.last()) {
            Some(p) => {
                assert(before.push(p).drop_last() =~= before);
            },
            None => {},
        }
    }
}

/// The rows of count-mode output are those that its lines hold, one for each.
pub proof fn lemma_count_rows(lines: Seq<Seq<char>>)
    ensures
        grep_preview::count_rows(lines) == lines.filter(
            |line: Seq<char>| grep_preview::count_row(line) is Some,
        ).map_values(|line: Seq<char>| grep_preview::count_row(line)->0),
    decreases lines.len(),
{
    reveal(Seq::filter);
    let keep = |line: Seq<char>| grep_preview::count_row(line) is Some;
    let row = |line: Seq<char>| grep_preview::count_row(line)->0;
    if lines.len() > 0 {
        let head = lines.drop_last();
        lemma_count_rows(head);
        if keep(lines.last()) {
            assert(head.filter(keep).push(lines.last()).map_values(row) =~= head.filter(
                keep,
            ).map_values(row).push(row(lines.last())));
        }
    } else {
        assert(lines.filter(keep).map_values(row) =~= seq![]);
    }
}

/// One line of a list of files with their matches.
pub open spec fn match_line(e: (Seq<char>, nat)) -> Seq<char> {
    "  "@ + e.0 + " ("@ + number::decimal(e.1) + if e.1 == 1 {
        " match)"@
    } else {
        " matches)"@
    }
}

/// The preview of content-mode output reads, line for line: a heading; the first
/// files of the ranking, at most twenty; how many more there are; how many lines
/// there are; and the two ends of the output.
pub proof fn lemma_content_preview(content: Seq<char>, threshold: nat)
    ensures
        ({
            let counts = grep_preview::content_file_counts(content);
            let shown = if counts.len() <= 20 {
                counts.len()
            } else {
                20
            };
            let listed = Seq::new(shown, |i: int| match_line(counts[i]));
            let more = if counts.len() > 20 {
                seq!["  ... ["@ + number::decimal((counts.len() - 20) as nat) + " more files]"@]
            } else {
                Seq::<Seq<char>>::empty()
            };
            let total = "Sample output ("@ + number::decimal(pieces::lines_of(content).len())
                + " lines total):"@;
            grep_preview::content_preview(content, threshold) == pieces::joined(
                seq!["Top files by match count:"@] + listed + more + seq![total],
                "\n"@,
            ) + "\n"@ + crate::compress::passthrough::preview_of(content, threshold)
        }),
{
    reveal_strlit("Top files by match count:\n");
    reveal_strlit("Top files by match count:");
    reveal_strlit(" lines total):\n");
    reveal_strlit(" lines total):");
    reveal_strlit(" more files]\n");
    reveal_strlit(" more files]");
    reveal_strlit("\n");
    let nl = "\n"@;
    let counts = grep_preview::content_file_counts(content);
    let shown = if counts.len() <= 20 {
        counts.len()
    } else {
        20
    };
    let listed = Seq::new(shown, |i: int| match_line(counts[i]));
    let more = if counts.len() > 20 {
        seq!["  ... ["@ + number::decimal((counts.len() - 20) as nat) + " more files]"@]
    } else {
        Seq::<Seq<char>>::empty()
    };
    let total = "Sample output ("@ + number::decimal(pieces::lines_of(content).len())
        + " lines total):"@;
    let top = seq!["Top files by match count:"@];
    lemma_match_lines(counts.take(shown as int));
    assert(listed =~= counts.take(shown as int).map_values(
        |e: (Seq<char>, nat)| match_line(e),
    ));
    lemma_ended_concat(top, listed);
    lemma_ended_concat(top + listed, more);
    lemma_ended_concat(top + listed + more, seq![total]);
    lemma_ended_one(top[0]);
    lemma_ended_one(total);
    if counts.len() > 20 {
        lemma_ended_one(more[0]);
        assert(grep_preview::more_files(counts.len(), shown) =~= ended(more));
    } else {
        assert(grep_preview::more_files(counts.len(), shown) =~= ended(more));
    }
    lemma_ended_is_joined(top + listed + more + seq![total]);
    let end = crate::compress::passthrough::preview_of(content, threshold);
    assert("Top files by match count:\n"@ =~= ended(top));
    assert(grep_preview::content_preview(content, threshold) =~= ended(top) + ended(listed)
        + ended(more) + ended(seq![total]) + end);
}

/// Lines, each with a line break.
pub open spec fn ended(lines: Seq<Seq<char>>) -> Seq<char>
    decreases lines.len(),
{
    if lines.len() == 0 {
        seq![]
    } else {
        ended(lines.drop_last()) + lines.last() + "\n"@
    }
}

proof fn lemma_ended_one(line: Seq<char>)
    ensures
        ended(seq![line]) == line + "\n"@,
{
    assert(seq![line].drop_last() =~= Seq::<Seq<char>>::empty());
    assert(ended(Seq::<Seq<char>>::empty()) =~= seq![]);
    assert(ended(seq![line]) =~= line + "\n"@);
}

proof fn lemma_ended_concat(a: Seq<Seq<char>>, b: Seq<Seq<char>>)
    ensures
        ended(a + b) == ended(a) + ended(b),
    decreases b.len(),
{
    if b.len() == 0 {
        assert(a + b =~= a);
        assert(ended(a) + ended(b) =~= ended(a));
    } else {
        assert((a + b).drop_last() =~= a + b.drop_last());
        lemma_ended_concat(a, b.drop_last());
        assert(ended(a + b) =~= ended(a) + ended(b));
    }
}

proof fn lemma_ended_is_joined(lines: Seq<Seq<char>>)
    requires
        lines.len() > 0,
    ensures
        ended(lines) == pieces::joined(lines, "\n"@) + "\n"@,
    decreases lines.len(),
{
    if lines.len() == 1 {
        assert(ended(lines.drop_last()) =~= seq![]);
        assert(ended(lines) =~= lines[0] + "\n"@);
    } else {
        lemma_ended_is_joined(lines.drop_last());
    }
}

proof fn lemma_match_lines(entries: Seq<(Seq<char>, nat)>)
    ensures
        grep_preview::match_lines(entries) == ended(
            entries.map_values(|e: (Seq<char>, nat)| match_line(e)),
        ),
    decreases entries.len(),
{
    let lines = entries.map_values(|e: (Seq<char>, nat)| match_line(e));
    if entries.len() > 0 {
        lemma_match_lines(entries.drop_last());
        assert(lines.drop_last() =~= entries.drop_last().map_values(
            |e: (Seq<char>, nat)| match_line(e),
        ));
        reveal_strlit(" match");
        reveal_strlit("es");
        reveal_strlit("");
        reveal_strlit(")\n");
        reveal_strlit("\n");
        reveal_strlit(" match)");
        reveal_strlit(" matches)");
        let e = entries.last();
        let before = ended(lines.drop_last());
        let plural = if e.1 == 1 {
            ""@
        } else {
            "es"@
        };
        assert(" match"@ + plural + ")\n"@ =~= if e.1 == 1 {
            " match)"@ + "\n"@
        } else {
            " matches)"@ + "\n"@
        });
        let lead = "  "@ + e.0 + " ("@ + number::decimal(e.1);
        assert(before + "  "@ + e.0 + " ("@ + number::decimal(e.1) + " match"@ + plural + ")\n"@
            =~= before + lead + (" match"@ + plural + ")\n"@));
        assert(ended(lines) =~= before + match_line(e) + "\n"@);
        assert(grep_preview::match_lines(entries) =~= ended(lines));
    } else {
        assert(ended(lines) =~= seq![]);
    }
}

/// The files that a message lists are the lines that hold more than white space.
pub proof fn lemma_filled_lines(lines: Seq<Seq<char>>)
    ensures
        grep_preview::filled_lines(lines) == lines.filter(
            |line: Seq<char>| text::trimmed(line).len() > 0,
        ),
    decreases lines.len(),
{
    reveal(Seq::filter);
    if lines.len() > 0 {
        lemma_filled_lines(lines.drop_last());
    }
}

/// A content-mode line `file:text` is at `file`; one without a colon, or that
/// starts with one, is at no file.
pub proof fn lemma_content_path(file: Seq<char>, rest: Seq<char>, line: Seq<char>)
    requires
        file.len() > 1,
        !file.contains(':'),
        !text::is_white_space(file[0]),
        rest.len() > 0 ==> !text::is_white_space(rest.last()),
        !line.contains(':') && text_laws::is_tight(line),
    ensures
        grep_preview::content_path(file + ":"@ + rest) == Some(file),
        grep_preview::content_path(":"@ + rest) is None,
        grep_preview::content_path(line) is None,
{
    reveal_strlit(":");
    let s = file + ":"@ + rest;
    let k = file.len() as int;
    assert(s.last() == if rest.len() > 0 {
        rest.last()
    } else {
        ':'
    });
    text_laws::lemma_trimmed_is(s);
    assert forall|j: int| 0 <= j < k implies s[j] != ':' by {
        assert(file.contains(file[j]));
    }
    search::lemma_char_index_is(s, ':', k);
    assert(s.take(k) =~= file);
    let t = ":"@ + rest;
    assert(t[0] == ':');
    assert(t.last() == if rest.len() > 0 {
        rest.last()
    } else {
        ':'
    });
    text_laws::lemma_trimmed_is(t);
    search::lemma_char_index_is(t, ':', 0);
    text_laws::lemma_trimmed_is(line);
    search::lemma_char_index(line, ':');
    match search::char_index(line, ':') {
        Some(j) => {
            assert(line.contains(line[j]));
        },
        None => {},
    }
}

/// Every cluster is shown by its first line and the number of its lines, in
/// order.
pub proof fn lemma_representatives(clusters: Seq<(u64, Seq<char>, nat)>)
    ensures
        grep_dedup::representatives(clusters).len() == clusters.len(),
        forall|i: int|
            0 <= i < clusters.len() ==> (#[trigger] grep_dedup::representatives(clusters)[i]).0
                == clusters[i].1 && grep_dedup::representatives(clusters)[i].1 == clusters[i].2,
{
}

} // verus!
