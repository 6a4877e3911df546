//! SimHash near-duplicate dedup for grep output.
//!
//! Collapses near-identical lines (Hamming distance at most
//! [`HAMMING_THRESHOLD`]) to a representative and a count, then groups the
//! results by file, the files with the most matches first.

use crate::compress;
use crate::number;
use crate::order;
use crate::pieces;
use crate::search;
use crate::tally;
use crate::text;
use vstd::prelude::*;
use vstd::slice::*;
use vstd::string::*;

verus! {

/// Hamming distance threshold for treating two lines as near-duplicates.
pub const HAMMING_THRESHOLD: u32 = 3;

// ---------------------------------------------------------------------------
// Similarity
// ---------------------------------------------------------------------------

/// The fingerprint that `simhash::simhash` gives a text.
pub uninterp spec fn simhash_of(content: Seq<char>) -> u64;

/// Calls `simhash::simhash`. Trusted: the fingerprint is a function of the
/// text alone; the hasher behind it starts from fixed keys.
#[verifier::external_body]
fn fingerprint(content: &str) -> (h: u64)
    ensures
        h == simhash_of(content@),
{
    simhash::simhash(content)
}

/// The number of bits of `x` that are set.
pub open spec fn ones(x: u64) -> nat
    decreases x,
{
    if x == 0 {
        0
    } else {
        (x % 2) as nat + ones(x / 2)
    }
}

/// Calls `simhash::hamming_distance`. Trusted: the result is the number of bits
/// in which the two hashes differ.
#[verifier::external_body]
fn distance(x: u64, y: u64) -> (d: u32)
    ensures
        d == ones(x ^ y),
{
    simhash::hamming_distance(x, y)
}

/// Two fingerprints are close enough to count as one.
pub open spec fn near(x: u64, y: u64) -> bool {
    ones(x ^ y) <= HAMMING_THRESHOLD
}

// ---------------------------------------------------------------------------
// Reading lines
// ---------------------------------------------------------------------------

/// The file that a content-mode line belongs to.
pub open spec fn file_of(line: Seq<char>) -> Seq<char> {
    match compress::path_end(line) {
        Some(k) => if k == 0 {
            "<unknown>"@
        } else {
            line.take(k)
        },
        None => "<unknown>"@,
    }
}

/// Extract the file path from a content-mode grep line (`file:line_no:text`).
pub fn extract_file_path(line: &[char]) -> (r: String)
    ensures
        r@ == file_of(line@),
{
    match compress::path_colon(line) {
        Some(end) => if end == 0 {
            "<unknown>".to_owned()
        } else {
            let path = slice_subrange(line, 0, end);
            assert(path@ =~= line@.take(end as int));
            text::string_of(path)
        },
        None => "<unknown>".to_owned(),
    }
}

/// The part of a content-mode line behind the path and the line number.
pub open spec fn match_content(line: Seq<char>) -> Seq<char> {
    match compress::path_end(line) {
        Some(k) => {
            let rest = line.skip(k + 1);
            match search::char_index(rest, ':') {
                Some(j) => if number::all_digits(rest.take(j)) {
                    rest.skip(j + 1)
                } else {
                    rest
                },
                None => rest,
            }
        },
        None => line,
    }
}

/// Extract the match content from a grep line, stripping the `file:lineno:`
/// prefix.
///
/// Handles both `file:lineno:content` and `file:content` formats. Line numbers
/// are metadata and do not affect the comparison of lines.
pub fn extract_match_content<'a>(line: &'a [char]) -> (r: &'a [char])
    ensures
        r@ == match_content(line@),
{
    let n = line.len();
    match compress::path_colon(line) {
        Some(k) => {
            let rest = slice_subrange(line, k + 1, n);
            assert(rest@ =~= line@.skip(k + 1));
            proof {
                search::lemma_char_index(rest@, ':');
            }
            let m = rest.len();
            match search::find_char(rest, ':') {
                Some(j) => {
                    let digits = slice_subrange(rest, 0, j);
                    assert(digits@ =~= rest@.take(j as int));
                    if number::only_digits(digits) {
                        let content = slice_subrange(rest, j + 1, m);
                        assert(content@ =~= rest@.skip(j + 1));
                        content
                    } else {
                        rest
                    }
                },
                None => rest,
            }
        },
        None => line,
    }
}

// ---------------------------------------------------------------------------
// Clustering
// ---------------------------------------------------------------------------

/// The first cluster from `i` on whose fingerprint is near `h`.
pub open spec fn near_index(clusters: Seq<(u64, Seq<char>, nat)>, h: u64, i: int) -> Option<int>
    decreases clusters.len() - i,
{
    if i < 0 || i >= clusters.len() {
        None
    } else if near(h, clusters[i].0) {
        Some(i)
    } else {
        near_index(clusters, h, i + 1)
    }
}

/// The clusters after `line`: it joins the first one that it is near to, or
/// founds a new one.
pub open spec fn joined_by(
    clusters: Seq<(u64, Seq<char>, nat)>,
    line: Seq<char>,
    h: u64,
) -> Seq<(u64, Seq<char>, nat)> {
    match near_index(clusters, h, 0) {
        Some(i) => clusters.update(i, (clusters[i].0, clusters[i].1, clusters[i].2 + 1)),
        None => clusters.push((h, line, 1)),
    }
}

/// The clusters of lines with the given fingerprints: fingerprint and text of
/// the line that founded each, and its size.
pub open spec fn clusters_of(lines: Seq<Seq<char>>, hashes: Seq<u64>) -> Seq<
    (u64, Seq<char>, nat),
>
    decreases lines.len(),
{
    if lines.len() == 0 || hashes.len() == 0 {
        seq![]
    } else {
        joined_by(
            clusters_of(lines.drop_last(), hashes.drop_last()),
            lines.last(),
            hashes.last(),
        )
    }
}

/// The representative and the size of each cluster.
pub open spec fn representatives(clusters: Seq<(u64, Seq<char>, nat)>) -> Seq<(Seq<char>, nat)> {
    clusters.map_values(|c: (u64, Seq<char>, nat)| (c.1, c.2))
}

/// The sizes of all clusters together.
pub open spec fn total_size(clusters: Seq<(u64, Seq<char>, nat)>) -> nat
    decreases clusters.len(),
{
    if clusters.len() == 0 {
        0
    } else {
        total_size(clusters.drop_last()) + clusters.last().2
    }
}

proof fn lemma_near_index(clusters: Seq<(u64, Seq<char>, nat)>, h: u64, i: int)
    requires
        0 <= i,
    ensures
        near_index(clusters, h, i) matches Some(k) ==> i <= k < clusters.len() && near(
            h,
            clusters[k].0,
        ),
    decreases clusters.len() - i,
{
    if i < clusters.len() && !near(h, clusters[i].0) {
        lemma_near_index(clusters, h, i + 1);
    }
}

proof fn lemma_total_size_update(clusters: Seq<(u64, Seq<char>, nat)>, i: int)
    requires
        0 <= i < clusters.len(),
    ensures
        total_size(clusters.update(i, (clusters[i].0, clusters[i].1, clusters[i].2 + 1)))
            == total_size(clusters) + 1,
        clusters[i].2 <= total_size(clusters),
    decreases clusters.len(),
{
    let next = clusters.update(i, (clusters[i].0, clusters[i].1, clusters[i].2 + 1));
    if i == clusters.len() - 1 {
        assert(next.drop_last() =~= clusters.drop_last());
    } else {
        lemma_total_size_update(clusters.drop_last(), i);
        assert(next.drop_last() =~= clusters.drop_last().update(
            i,
            (clusters[i].0, clusters[i].1, clusters[i].2 + 1),
        ));
    }
}

/// Collapsing loses no line: every line is counted in exactly one cluster.
pub proof fn lemma_clusters_keep_count(lines: Seq<Seq<char>>, hashes: Seq<u64>)
    requires
        lines.len() == hashes.len(),
    ensures
        total_size(clusters_of(lines, hashes)) == lines.len(),
    decreases lines.len(),
{
    if lines.len() > 0 {
        let before = clusters_of(lines.drop_last(), hashes.drop_last());
        lemma_clusters_keep_count(lines.drop_last(), hashes.drop_last());
        lemma_near_index(before, hashes.last(), 0);
        match near_index(before, hashes.last(), 0) {
            Some(i) => {
                lemma_total_size_update(before, i);
            },
            None => {
                let c = (hashes.last(), lines.last(), 1nat);
                assert(before.push(c).drop_last() =~= before);
            },
        }
    }
}

/// What clusters stand for.
pub open spec fn clusters_view(clusters: Seq<(u64, String, usize)>) -> Seq<(u64, Seq<char>, nat)> {
    clusters.map_values(|c: (u64, String, usize)| (c.0, c.1@, c.2 as nat))
}

/// The position of the first cluster that `h` is near to.
fn find_near(clusters: &Vec<(u64, String, usize)>, h: u64) -> (r: Option<usize>)
    ensures
        text::same_index(r, near_index(clusters_view(clusters@), h, 0)),
        r matches Some(k) ==> k < clusters@.len(),
{
    let ghost view = clusters_view(clusters@);
    let mut i: usize = 0;
    while i < clusters.len()
        invariant
            view == clusters_view(clusters@),
            i <= clusters@.len(),
            near_index(view, h, 0) == near_index(view, h, i as int),
        decreases clusters@.len() - i,
    {
        if distance(h, clusters[i].0) <= HAMMING_THRESHOLD {
            return Some(i);
        }
        i += 1;
    }
    None
}

/// Greedy clustering: collapse lines whose fingerprints are near into
/// `(representative, cluster_size)` pairs, in the order in which the clusters
/// were founded.
pub fn cluster_lines(lines: &[String], hashes: &[u64]) -> (out: Vec<(String, usize)>)
    requires
        lines@.len() == hashes@.len(),
    ensures
        order::entries_view(out@) == representatives(clusters_of(text::texts(lines@), hashes@)),
{
    let ghost all = text::texts(lines@);
    let mut clusters: Vec<(u64, String, usize)> = Vec::new();
    let mut i: usize = 0;
    assert(clusters_view(clusters@) =~= seq![]);
    assert(all.take(0) =~= seq![]);
    while i < lines.len()
        invariant
            all == text::texts(lines@),
            lines@.len() == hashes@.len(),
            i <= lines@.len(),
            clusters_view(clusters@) == clusters_of(all.take(i as int), hashes@.take(i as int)),
        decreases lines@.len() - i,
    {
        let h = hashes[i];
        let ghost before = clusters_view(clusters@);
        proof {
            assert(all.take(i + 1).drop_last() =~= all.take(i as int));
            assert(hashes@.take(i + 1).drop_last() =~= hashes@.take(i as int));
            lemma_clusters_keep_count(all.take(i as int), hashes@.take(i as int));
        }
        match find_near(&clusters, h) {
            Some(k) => {
                proof {
                    lemma_total_size_update(before, k as int);
                }
                let count = clusters[k].2 + 1;
                let found = clusters[k].0;
                let line = clusters[k].1.clone();
                clusters.set(k, (found, line, count));
                assert(clusters_view(clusters@) =~= joined_by(before, all[i as int], h));
            },
            None => {
                clusters.push((h, lines[i].clone(), 1));
                assert(clusters_view(clusters@) =~= joined_by(before, all[i as int], h));
            },
        }
        i += 1;
    }
    assert(all.take(i as int) =~= all);
    assert(hashes@.take(i as int) =~= hashes@);
    let mut out: Vec<(String, usize)> = Vec::new();
    let ghost whole = clusters_view(clusters@);
    let mut j: usize = 0;
    while j < clusters.len()
        invariant
            whole == clusters_view(clusters@),
            j <= clusters@.len(),
            order::entries_view(out@) == representatives(whole.take(j as int)),
        decreases clusters@.len() - j,
    {
        let ghost done = order::entries_view(out@);
        out.push((clusters[j].1.clone(), clusters[j].2));
        j += 1;
        proof {
            let c = whole[j - 1];
            assert(representatives(whole.take(j as int)) =~= representatives(
                whole.take(j - 1),
            ).push((c.1, c.2)));
            assert(order::entries_view(out@) =~= done.push((c.1, c.2)));
        }
    }
    assert(whole.take(j as int) =~= whole);
    out
}

/// The fingerprints of the contents of lines.
pub open spec fn content_hashes(lines: Seq<Seq<char>>) -> Seq<u64> {
    lines.map_values(|line: Seq<char>| simhash_of(match_content(line)))
}

/// The fingerprints of the contents of lines.
pub fn hash_contents(lines: &[String]) -> (out: Vec<u64>)
    ensures
        out@ == content_hashes(text::texts(lines@)),
{
    let mut out: Vec<u64> = Vec::new();
    let mut i: usize = 0;
    while i < lines.len()
        invariant
            i <= lines@.len(),
            out@ == content_hashes(text::texts(lines@)).take(i as int),
        decreases lines@.len() - i,
    {
        let chars = text::chars_of(lines[i].as_str());
        let content = text::string_of(extract_match_content(chars.as_slice()));
        out.push(fingerprint(content.as_str()));
        i += 1;
        assert(out@ =~= content_hashes(text::texts(lines@)).take(i as int));
    }
    assert(out@ =~= content_hashes(text::texts(lines@)));
    out
}

/// Greedy SimHash clustering of lines by their match content: file path and
/// line number are stripped before hashing, so lines like `a.rs:1:foo` and
/// `a.rs:2:foo` hash identically.
pub fn simhash_dedup(lines: &[String]) -> (out: Vec<(String, usize)>)
    ensures
        order::entries_view(out@) == deduped(text::texts(lines@)),
{
    let hashes = hash_contents(lines);
    cluster_lines(lines, hashes.as_slice())
}

/// The clusters of lines by their contents.
pub open spec fn deduped(lines: Seq<Seq<char>>) -> Seq<(Seq<char>, nat)> {
    representatives(clusters_of(lines, content_hashes(lines)))
}

// ---------------------------------------------------------------------------
// Grouping by file
// ---------------------------------------------------------------------------

/// The lines that hold more than white space, trimmed.
pub open spec fn trimmed_lines(lines: Seq<Seq<char>>) -> Seq<Seq<char>>
    decreases lines.len(),
{
    if lines.len() == 0 {
        seq![]
    } else {
        let t = text::trimmed(lines.last());
        if t.len() == 0 {
            trimmed_lines(lines.drop_last())
        } else {
            trimmed_lines(lines.drop_last()).push(t)
        }
    }
}

/// The lines that hold more than white space, trimmed.
fn split_trimmed_lines(input: &[char]) -> (out: Vec<String>)
    ensures
        text::texts(out@) == trimmed_lines(pieces::lines_of(input@)),
{
    let lines = pieces::split_lines(input);
    let ghost all = pieces::lines_of(input@);
    let mut out: Vec<String> = Vec::new();
    let mut i: usize = 0;
    assert(all.take(0) =~= seq![]);
    assert(text::texts(out@) =~= seq![]);
    while i < lines.len()
        invariant
            all == text::views(lines@),
            i <= lines@.len(),
            text::texts(out@) == trimmed_lines(all.take(i as int)),
        decreases lines@.len() - i,
    {
        proof {
            assert(all.take(i + 1).drop_last() =~= all.take(i as int));
            assert(all.take(i + 1).last() == lines@[i as int]@);
        }
        let trimmed = text::trim(lines[i]);
        if trimmed.len() != 0 {
            let ghost before = text::texts(out@);
            out.push(text::string_of(trimmed));
            assert(text::texts(out@) =~= before.push(trimmed@));
        }
        i += 1;
    }
    assert(all.take(i as int) =~= all);
    out
}

/// The files of lines.
pub open spec fn files_of(lines: Seq<Seq<char>>) -> Seq<Seq<char>> {
    lines.map_values(|line: Seq<char>| file_of(line))
}

/// The lines that belong to `file`.
pub open spec fn lines_in(lines: Seq<Seq<char>>, file: Seq<char>) -> Seq<Seq<char>>
    decreases lines.len(),
{
    if lines.len() == 0 {
        seq![]
    } else if file_of(lines.last()) == file {
        lines_in(lines.drop_last(), file).push(lines.last())
    } else {
        lines_in(lines.drop_last(), file)
    }
}

/// The lines that belong to `file`.
fn select_lines(lines: &[String], files: &[String], file: &str) -> (out: Vec<String>)
    requires
        text::texts(files@) == files_of(text::texts(lines@)),
    ensures
        text::texts(out@) == lines_in(text::texts(lines@), file@),
{
    let ghost all = text::texts(lines@);
    let mut out: Vec<String> = Vec::new();
    let mut i: usize = 0;
    assert(all.take(0) =~= seq![]);
    assert(text::texts(out@) =~= seq![]);
    assert(text::texts(files@).len() == all.len());
    while i < lines.len()
        invariant
            all == text::texts(lines@),
            text::texts(files@) == files_of(all),
            files@.len() == lines@.len(),
            i <= lines@.len(),
            text::texts(out@) == lines_in(all.take(i as int), file@),
        decreases lines@.len() - i,
    {
        proof {
            assert(all.take(i + 1).drop_last() =~= all.take(i as int));
            assert(text::texts(files@)[i as int] == file_of(all[i as int]));
        }
        if text::same_text(files[i].as_str(), file) {
            let ghost before = text::texts(out@);
            out.push(lines[i].clone());
            assert(text::texts(out@) =~= before.push(all[i as int]));
        }
        i += 1;
    }
    assert(all.take(i as int) =~= all);
    out
}

/// The files of lines.
fn list_files(lines: &[String]) -> (out: Vec<String>)
    ensures
        text::texts(out@) == files_of(text::texts(lines@)),
{
    let mut out: Vec<String> = Vec::new();
    let mut i: usize = 0;
    while i < lines.len()
        invariant
            i <= lines@.len(),
            text::texts(out@) == files_of(text::texts(lines@)).take(i as int),
        decreases lines@.len() - i,
    {
        let ghost before = text::texts(out@);
        let chars = text::chars_of(lines[i].as_str());
        let file = extract_file_path(chars.as_slice());
        out.push(file);
        assert(text::texts(out@) =~= before.push(file@));
        i += 1;
        assert(text::texts(out@) =~= files_of(text::texts(lines@)).take(i as int));
    }
    assert(text::texts(out@) =~= files_of(text::texts(lines@)));
    out
}

/// Count names.
fn count_names(names: &[String]) -> (out: Vec<(String, usize)>)
    ensures
        order::entries_view(out@) == tally::counted(text::texts(names@)),
{
    let ghost all = text::texts(names@);
    let mut counts = tally::Tally::new();
    let mut i: usize = 0;
    assert(all.take(0) =~= seq![]);
    while i < names.len()
        invariant
            all == text::texts(names@),
            i <= names@.len(),
            counts.wf(),
            counts.total() <= i,
            counts.entries() == tally::counted(all.take(i as int)),
        decreases names@.len() - i,
    {
        assert(all.take(i + 1).drop_last() =~= all.take(i as int));
        counts.bump(names[i].clone());
        i += 1;
    }
    assert(all.take(i as int) =~= all);
    counts.into_entries()
}

// ---------------------------------------------------------------------------
// Rendering
// ---------------------------------------------------------------------------

/// One line per cluster, with its size where it is more than one.
pub open spec fn cluster_text(clusters: Seq<(Seq<char>, nat)>) -> Seq<char>
    decreases clusters.len(),
{
    if clusters.len() == 0 {
        seq![]
    } else {
        let c = clusters.last();
        if c.1 > 1 {
            cluster_text(clusters.drop_last()) + c.0 + "  [×"@ + number::decimal(c.1) + "]\n"@
        } else {
            cluster_text(clusters.drop_last()) + c.0 + "\n"@
        }
    }
}

/// The group of one file: its header, its clusters and an empty line.
pub open spec fn group_text(file: Seq<char>, count: nat, clusters: Seq<(Seq<char>, nat)>) -> Seq<
    char,
> {
    "=== "@ + file + " ("@ + number::decimal(count) + " "@ + if count == 1 {
        "match"@
    } else {
        "matches"@
    } + ") ===\n"@ + cluster_text(clusters) + "\n"@
}

/// Append the group of one file.
pub fn push_group(out: &mut String, file: &str, count: usize, clusters: &[(String, usize)])
    ensures
        final(out)@ == old(out)@ + group_text(
            file@,
            count as nat,
            order::entries_view(clusters@),
        ),
{
    let ghost start = out@;
    let ghost all = order::entries_view(clusters@);
    out.append("=== ");
    out.append(file);
    out.append(" (");
    number::push_count(out, count);
    out.append(" ");
    if count == 1 {
        out.append("match");
    } else {
        out.append("matches");
    }
    out.append(") ===\n");
    let ghost head = out@;
    let mut i: usize = 0;
    assert(all.take(0) =~= seq![]);
    assert(out@ =~= head + cluster_text(all.take(0)));
    while i < clusters.len()
        invariant
            all == order::entries_view(clusters@),
            i <= clusters@.len(),
            out@ == head + cluster_text(all.take(i as int)),
        decreases clusters@.len() - i,
    {
        proof {
            assert(all.take(i + 1).drop_last() =~= all.take(i as int));
            assert(all.take(i + 1).last() == order::entry_view(clusters@[i as int]));
        }
        out.append(clusters[i].0.as_str());
        if clusters[i].1 > 1 {
            out.append("  [×");
            number::push_count(out, clusters[i].1);
            out.append("]\n");
        } else {
            out.append("\n");
        }
        i += 1;
        assert(out@ =~= head + cluster_text(all.take(i as int)));
    }
    assert(all.take(i as int) =~= all);
    out.append("\n");
    assert(out@ =~= start + group_text(file@, count as nat, all));
}

/// The groups of the files in `files`, one after the other.
pub open spec fn groups_text(files: Seq<(Seq<char>, nat)>, lines: Seq<Seq<char>>) -> Seq<char>
    decreases files.len(),
{
    if files.len() == 0 {
        seq![]
    } else {
        let f = files.last();
        groups_text(files.drop_last(), lines) + group_text(f.0, f.1, deduped(lines_in(lines, f.0)))
    }
}

/// Content-mode output with near-duplicates collapsed, grouped by file.
pub open spec fn compressed(input: Seq<char>) -> Seq<char> {
    let lines = trimmed_lines(pieces::lines_of(input));
    text::trimmed_end(groups_text(order::ranked(tally::counted(files_of(lines))), lines))
}

/// Compress grep content-mode output by SimHash near-duplicate deduplication.
///
/// Each line is expected in `file:line_number:content` (or `file:content`)
/// format. Lines are grouped by file, SimHash-deduped within each group, then
/// the groups are sorted by match count descending.
///
/// Each group header shows the file name and match count. Collapsed duplicates
/// are annotated with `[×N]`.
///
/// Returns an empty string for empty input.
pub fn compress(input: &str) -> (out: String)
    ensures
        out@ == compressed(input@),
{
    let chars = text::chars_of(input);
    let lines = split_trimmed_lines(chars.as_slice());
    let files = list_files(lines.as_slice());
    let counts = order::rank(count_names(files.as_slice()));
    let ghost all = text::texts(lines@);
    let ghost ranking = order::entries_view(counts@);
    let mut out = String::new();
    let mut i: usize = 0;
    assert(ranking.take(0) =~= seq![]);
    assert(out@ =~= seq![]);
    while i < counts.len()
        invariant
            all == text::texts(lines@),
            ranking == order::entries_view(counts@),
            text::texts(files@) == files_of(all),
            i <= counts@.len(),
            out@ == groups_text(ranking.take(i as int), all),
        decreases counts@.len() - i,
    {
        proof {
            assert(ranking.take(i + 1).drop_last() =~= ranking.take(i as int));
            assert(ranking.take(i + 1).last() == order::entry_view(counts@[i as int]));
        }
        let own = select_lines(lines.as_slice(), files.as_slice(), counts[i].0.as_str());
        let clusters = simhash_dedup(own.as_slice());
        push_group(&mut out, counts[i].0.as_str(), counts[i].1, clusters.as_slice());
        i += 1;
    }
    assert(ranking.take(i as int) =~= ranking);
    let whole = text::chars_of(out.as_str());
    text::string_of(text::trim_end(whole.as_slice()))
}

} // verus!
