//! Laws of views by file.

use crate::compress;
use crate::compress::diff;
use crate::laws::diff as diff_laws;
use crate::laws::text as text_laws;
use crate::pieces;
use crate::retrieve::filter;
use crate::retrieve::window;
use crate::search;
use crate::text;
use vstd::prelude::*;
use vstd::string::*;

verus! {

// ---------------------------------------------------------------------------
// Paths of lines
// ---------------------------------------------------------------------------

/// A line `file:rest` has the path `file`.
pub proof fn lemma_line_path(file: Seq<char>, rest: Seq<char>)
    requires
        !file.contains(':'),
        file.len() != 1,
        file.len() > 0 ==> !text::is_white_space(file[0]),
        rest.len() > 0 ==> !text::is_white_space(rest.last()),
    ensures
        filter::line_path(file + ":"@ + rest) == file,
{
    reveal_strlit(":");
    let line = file + ":"@ + rest;
    assert(line[0] == if file.len() > 0 {
        file[0]
    } else {
        ':'
    });
    assert(line.last() == if rest.len() > 0 {
        rest.last()
    } else {
        ':'
    });
    text_laws::lemma_trimmed_is(line);
    lemma_first_colon(line, file);
    assert(line.take(file.len() as int) =~= file);
}

proof fn lemma_first_colon(line: Seq<char>, file: Seq<char>)
    requires
        file.len() < line.len(),
        line[file.len() as int] == ':',
        forall|j: int| 0 <= j < file.len() ==> line[j] == file[j],
        !file.contains(':'),
    ensures
        search::char_index(line, ':') == Some(file.len() as int),
{
    assert forall|j: int| 0 <= j < file.len() implies line[j] != ':' by {
        assert(file.contains(file[j]));
    }
    search::lemma_char_index_is(line, ':', file.len() as int);
}

/// The colon of a drive letter does not end the path: a line `C:\dir:rest` has
/// the path `C:\dir`.
pub proof fn lemma_drive_path(drive: char, sep: char, path: Seq<char>, rest: Seq<char>)
    requires
        'a' <= drive <= 'z' || 'A' <= drive <= 'Z',
        sep == '\\' || sep == '/',
        !path.contains(':'),
        rest.len() > 0 ==> !text::is_white_space(rest.last()),
    ensures
        filter::line_path(seq![drive, ':', sep] + path + ":"@ + rest) == seq![drive, ':', sep]
            + path,
{
    reveal_strlit(":");
    let file = seq![drive, ':', sep] + path;
    let line = file + ":"@ + rest;
    assert(line[0] == drive && line[1] == ':' && line[2] == sep);
    assert(line.last() == if rest.len() > 0 {
        rest.last()
    } else {
        ':'
    });
    text_laws::lemma_trimmed_is(line);
    search::lemma_char_index_is(line, ':', 1);
    let k = file.len() as int;
    assert(line[k] == ':');
    assert forall|j: int| 2 <= j < k implies line[j] != ':' by {
        if j > 2 {
            assert(path.contains(path[j - 3]));
        }
    }
    search::lemma_char_index_from(line, ':', 2);
    assert(compress::path_end(line) == Some(k));
    assert(line.take(k) =~= file);
}

/// A line without a colon is a path.
pub proof fn lemma_whole_line_path(line: Seq<char>)
    requires
        !line.contains(':'),
        text_laws::is_tight(line),
    ensures
        filter::line_path(line) == line,
{
    text_laws::lemma_trimmed_is(line);
    search::lemma_char_index(line, ':');
    match search::char_index(line, ':') {
        Some(k) => {
            assert(line.contains(line[k]));
        },
        None => {},
    }
}

// ---------------------------------------------------------------------------
// Files
// ---------------------------------------------------------------------------

/// A file is the one asked for where its path is, or ends in, the one asked for,
/// from a separator on, and in no other case.
pub proof fn lemma_is_file(stored: Seq<char>, asked: Seq<char>)
    requires
        !"./"@.is_prefix_of(stored),
        !"./"@.is_prefix_of(asked),
    ensures
        filter::is_file(stored, asked) <==> stored == asked || exists|dir: Seq<char>|
            stored == #[trigger] dir.push('/') + asked || stored == dir.push('\\') + asked,
{
    if filter::is_file(stored, asked) && stored != asked {
        let k = stored.len() - asked.len() - 1;
        let dir = stored.take(k);
        assert(stored.subrange(k + 1, stored.len() as int) == asked);
        assert(stored =~= dir.push(stored[k]) + asked);
        assert(stored == dir.push('/') + asked || stored == dir.push('\\') + asked);
    }
    if exists|dir: Seq<char>|
        stored == #[trigger] dir.push('/') + asked || stored == dir.push('\\') + asked {
        let dir = choose|dir: Seq<char>|
            stored == #[trigger] dir.push('/') + asked || stored == dir.push('\\') + asked;
        let k = dir.len() as int;
        assert(stored.subrange(k + 1, stored.len() as int) =~= asked);
        assert(stored[k] == '/' || stored[k] == '\\');
    }
}

/// A `./` in front of either path makes no difference.
pub proof fn lemma_dot_makes_no_difference(stored: Seq<char>, asked: Seq<char>)
    requires
        !"./"@.is_prefix_of(stored),
        !"./"@.is_prefix_of(asked),
    ensures
        filter::is_file("./"@ + stored, asked) == filter::is_file(stored, asked),
        filter::is_file(stored, "./"@ + asked) == filter::is_file(stored, asked),
{
    reveal_strlit("./");
    assert(("./"@ + stored).subrange(0, 2) =~= "./"@);
    assert(("./"@ + asked).subrange(0, 2) =~= "./"@);
    assert(("./"@ + stored).skip(2) =~= stored);
    assert(("./"@ + asked).skip(2) =~= asked);
}

// ---------------------------------------------------------------------------
// Globs
// ---------------------------------------------------------------------------

/// A star stands for any characters but `/`: what a pattern with one star matches
/// is what starts and ends as it does, with no `/` between.
pub proof fn lemma_star(s: Seq<char>, lead: Seq<char>, trail: Seq<char>)
    requires
        !lead.contains('*'),
        !trail.contains('*'),
    ensures
        filter::globs(s, lead.push('*') + trail) <==> exists|middle: Seq<char>|
            s == #[trigger] (lead + middle) + trail && !middle.contains('/'),
    decreases lead.len() + s.len(),
{
    let pattern = lead.push('*') + trail;
    if lead.len() > 0 {
        let rest = lead.skip(1);
        assert(lead.contains(lead[0]));
        assert(pattern[0] == lead[0]);
        assert(pattern.skip(1) =~= rest.push('*') + trail);
        assert(!rest.contains('*')) by {
            if rest.contains('*') {
                let k = choose|k: int| 0 <= k < rest.len() && rest[k] == '*';
                assert(lead[k + 1] == '*');
            }
        }
        if s.len() > 0 {
            let tail = s.skip(1);
            lemma_star(tail, rest, trail);
            if filter::globs(s, pattern) {
                let middle = choose|middle: Seq<char>|
                    tail == #[trigger] (rest + middle) + trail && !middle.contains('/');
                assert(s =~= (lead + middle) + trail) by {
                    assert(s =~= seq![s[0]] + tail);
                    assert(lead =~= seq![lead[0]] + rest);
                }
            }
            if exists|middle: Seq<char>|
                s == #[trigger] (lead + middle) + trail && !middle.contains('/') {
                let middle = choose|middle: Seq<char>|
                    s == #[trigger] (lead + middle) + trail && !middle.contains('/');
                assert(s[0] == lead[0]);
                assert(tail =~= (rest + middle) + trail);
            }
        }
    } else {
        assert(pattern[0] == '*');
        assert(pattern.skip(1) =~= trail);
        filter::lemma_literal_glob(s, trail);
        let none = Seq::<char>::empty();
        if s == trail {
            assert(s =~= (lead + none) + trail);
            assert(!none.contains('/'));
        }
        if s.len() > 0 {
            let tail = s.skip(1);
            lemma_star(tail, lead, trail);
            if s[0] != '/' && filter::globs(tail, pattern) {
                let middle = choose|middle: Seq<char>|
                    tail == #[trigger] (lead + middle) + trail && !middle.contains('/');
                let longer = seq![s[0]] + middle;
                assert(s =~= seq![s[0]] + tail);
                assert((lead + middle) + trail =~= middle + trail);
                assert(s =~= (lead + longer) + trail);
                assert(!longer.contains('/')) by {
                    if longer.contains('/') {
                        let k = choose|k: int| 0 <= k < longer.len() && longer[k] == '/';
                        assert(middle[k - 1] == '/');
                    }
                }
            }
            if exists|middle: Seq<char>|
                s == #[trigger] (lead + middle) + trail && !middle.contains('/') {
                let middle = choose|middle: Seq<char>|
                    s == #[trigger] (lead + middle) + trail && !middle.contains('/');
                if middle.len() == 0 {
                    assert(s =~= trail);
                } else {
                    let shorter = middle.skip(1);
                    assert(s[0] == middle[0]);
                    assert(middle.contains(middle[0]));
                    assert(tail =~= (lead + shorter) + trail);
                    assert(!shorter.contains('/')) by {
                        if shorter.contains('/') {
                            let k = choose|k: int| 0 <= k < shorter.len() && shorter[k] == '/';
                            assert(middle[k + 1] == '/');
                        }
                    }
                }
            }
        } else {
            if exists|middle: Seq<char>|
                s == #[trigger] (lead + middle) + trail && !middle.contains('/') {
                let middle = choose|middle: Seq<char>|
                    s == #[trigger] (lead + middle) + trail && !middle.contains('/');
                assert(s.len() == lead.len() + middle.len() + trail.len());
                assert(s =~= trail);
            }
        }
    }
}

/// A pattern without `/` is held against the last part of a path, whatever
/// directories are in front; one with `/` against the whole path.
pub proof fn lemma_pattern_scope(dir: Seq<char>, name: Seq<char>, pattern: Seq<char>)
    requires
        !name.contains('/'),
    ensures
        !pattern.contains('/') ==> filter::path_globs(dir.push('/') + name, pattern)
            == filter::globs(name, pattern) && filter::path_globs(name, pattern) == filter::globs(
            name,
            pattern,
        ),
        pattern.contains('/') ==> filter::path_globs(dir.push('/') + name, pattern)
            == filter::globs(dir.push('/') + name, pattern),
{
    text_laws::lemma_after_last(dir, '/', name);
}

// ---------------------------------------------------------------------------
// Selection
// ---------------------------------------------------------------------------

/// What is selected: a pattern that leaves files out has the last word, a file
/// that is asked for goes before a pattern that is, and where neither is asked
/// for all is selected.
pub proof fn lemma_selection(
    path: Seq<char>,
    file: Option<Seq<char>>,
    glob: Option<Seq<char>>,
    exclude: Seq<Seq<char>>,
)
    ensures
        forall|i: int|
            0 <= i < exclude.len() && filter::path_globs(path, #[trigger] exclude[i])
                ==> !filter::is_selected(path, file, glob, exclude),
        (forall|i: int|
            0 <= i < exclude.len() ==> !filter::path_globs(path, #[trigger] exclude[i]))
            ==> filter::is_selected(path, file, glob, exclude) == match file {
            Some(f) => filter::is_file(path, f),
            None => match glob {
                Some(g) => filter::path_globs(path, g),
                None => true,
            },
        },
{
}

/// Grep output cut down to files keeps each line at a selected path, and no
/// other, in order.
pub proof fn lemma_grep_filter(
    content: Seq<char>,
    file: Option<Seq<char>>,
    glob: Option<Seq<char>>,
    exclude: Seq<Seq<char>>,
)
    requires
        window::has_plain_lines(content),
        forall|i: int|
            0 <= i < pieces::lines_of(content).len() ==> (#[trigger] pieces::lines_of(
                content,
            )[i]).len() > 0,
    ensures
        pieces::lines_of(filter::filtered_grep(content, file, glob, exclude)) == pieces::lines_of(
            content,
        ).filter(
            |line: Seq<char>|
                filter::is_selected(filter::line_path(line), file, glob, exclude),
        ),
{
    let lines = pieces::lines_of(content);
    let keep = |line: Seq<char>|
        filter::is_selected(filter::line_path(line), file, glob, exclude);
    lemma_selected_is_filter(lines, file, glob, exclude);
    filter::lemma_filter_keeps(lines, file, glob, exclude);
    let kept = filter::selected_lines(lines, file, glob, exclude);
    assert forall|i: int| 0 <= i < kept.len() implies pieces::is_plain_line(#[trigger] kept[i])
        && kept[i].len() > 0 by {
        let k = lines.index_of(kept[i]);
        assert(lines[k] == kept[i]);
    }
    if kept.len() > 0 {
        pieces::lemma_lines_of_joined(kept);
        assert(kept[kept.len() - 1].len() > 0);
    } else {
        assert(pieces::lines_of(Seq::<char>::empty()) =~= kept);
        assert(filter::filtered_grep(content, file, glob, exclude) =~= Seq::<char>::empty());
    }
}

proof fn lemma_selected_is_filter(
    lines: Seq<Seq<char>>,
    file: Option<Seq<char>>,
    glob: Option<Seq<char>>,
    exclude: Seq<Seq<char>>,
)
    ensures
        filter::selected_lines(lines, file, glob, exclude) == lines.filter(
            |line: Seq<char>|
                filter::is_selected(filter::line_path(line), file, glob, exclude),
        ),
    decreases lines.len(),
{
    reveal(Seq::filter);
    if lines.len() > 0 {
        lemma_selected_is_filter(lines.drop_last(), file, glob, exclude);
    }
}

// ---------------------------------------------------------------------------
// Sections of diffs
// ---------------------------------------------------------------------------

proof fn lemma_header_from(lines: Seq<Seq<char>>, i: int)
    requires
        0 <= i <= lines.len(),
    ensures
        i <= filter::next_header(lines, i) <= lines.len(),
        forall|j: int|
            i <= j < filter::next_header(lines, i) ==> !diff_laws::is_header(#[trigger] lines[j]),
        filter::next_header(lines, i) < lines.len() ==> diff_laws::is_header(
            lines[filter::next_header(lines, i)],
        ),
    decreases lines.len() - i,
{
    if i < lines.len() && !filter::is_header(lines[i]) {
        lemma_header_from(lines, i + 1);
    }
}

proof fn lemma_header_is(lines: Seq<Seq<char>>, i: int, k: int)
    requires
        0 <= i <= k <= lines.len(),
        forall|j: int| i <= j < k ==> !diff_laws::is_header(#[trigger] lines[j]),
        k < lines.len() ==> diff_laws::is_header(lines[k]),
    ensures
        filter::next_header(lines, i) == k,
{
    lemma_header_from(lines, i);
}

proof fn lemma_sections_behind(
    a: Seq<Seq<char>>,
    b: Seq<Seq<char>>,
    i: int,
    file: Option<Seq<char>>,
    glob: Option<Seq<char>>,
    exclude: Seq<Seq<char>>,
)
    requires
        0 <= i <= b.len(),
    ensures
        filter::sections_from(a + b, a.len() + i, file, glob, exclude) == filter::sections_from(
            b,
            i,
            file,
            glob,
            exclude,
        ),
    decreases b.len() - i,
{
    let all = a + b;
    if i < b.len() {
        lemma_header_from(b, i + 1);
        let end = filter::next_header(b, i + 1);
        assert forall|j: int| a.len() + i + 1 <= j < a.len() + end implies !diff_laws::is_header(
            #[trigger] all[j],
        ) by {
            assert(all[j] == b[j - a.len()]);
        }
        lemma_header_is(all, a.len() + i + 1, a.len() + end);
        assert(all.subrange(a.len() + i, a.len() + end) =~= b.subrange(i, end));
        lemma_sections_behind(a, b, end, file, glob, exclude);
    }
}

proof fn lemma_sections_front(
    a: Seq<Seq<char>>,
    b: Seq<Seq<char>>,
    i: int,
    file: Option<Seq<char>>,
    glob: Option<Seq<char>>,
    exclude: Seq<Seq<char>>,
)
    requires
        0 <= i <= a.len(),
        b.len() > 0,
        diff_laws::is_header(b[0]),
    ensures
        filter::sections_from(a + b, i, file, glob, exclude) == filter::sections_from(
            a,
            i,
            file,
            glob,
            exclude,
        ) + filter::sections_from(b, 0, file, glob, exclude),
    decreases a.len() - i,
{
    let all = a + b;
    let rest = filter::sections_from(b, 0, file, glob, exclude);
    if i < a.len() {
        lemma_header_from(a, i + 1);
        let end = filter::next_header(a, i + 1);
        assert forall|j: int| i + 1 <= j < end implies !diff_laws::is_header(
            #[trigger] all[j],
        ) by {
            assert(all[j] == a[j]);
        }
        assert(all[end] == if end < a.len() {
            a[end]
        } else {
            b[0]
        });
        lemma_header_is(all, i + 1, end);
        assert(all.subrange(i, end) =~= a.subrange(i, end));
        lemma_sections_front(a, b, end, file, glob, exclude);
        assert(filter::sections_from(all, i, file, glob, exclude) =~= filter::sections_from(
            a,
            i,
            file,
            glob,
            exclude,
        ) + rest);
    } else {
        lemma_sections_behind(a, b, 0, file, glob, exclude);
        assert(filter::sections_from(a, i, file, glob, exclude) + rest =~= rest);
    }
}

/// Cutting two diffs, one after the other, down to files is cutting each down.
pub proof fn lemma_diffs_cut_one_by_one(
    first: Seq<char>,
    second: Seq<char>,
    file: Option<Seq<char>>,
    glob: Option<Seq<char>>,
    exclude: Seq<Seq<char>>,
)
    requires
        first.len() > 0 ==> first.last() == '\n',
        "diff --git "@.is_prefix_of(second),
    ensures
        filter::filtered_diff(first + second, file, glob, exclude) == filter::filtered_diff(
            first,
            file,
            glob,
            exclude,
        ) + filter::filtered_diff(second, file, glob, exclude),
{
    let a = pieces::lines_of(first);
    let b = pieces::lines_of(second);
    pieces::lemma_lines_concat(first, second);
    diff_laws::lemma_first_line_is_header(second);
    lemma_header_is(b, 0, 0);
    lemma_header_from(a, 0);
    let start = filter::next_header(a, 0);
    let all = a + b;
    assert forall|j: int| 0 <= j < start implies !diff_laws::is_header(#[trigger] all[j]) by {
        assert(all[j] == a[j]);
    }
    assert(all[start] == if start < a.len() {
        a[start]
    } else {
        b[0]
    });
    lemma_header_is(all, 0, start);
    lemma_sections_front(a, b, start, file, glob, exclude);
}

/// The section of one file stays with all its lines where its file is selected,
/// and goes with all of them where it is not.
pub proof fn lemma_section_stays_or_goes(
    section: Seq<char>,
    file: Option<Seq<char>>,
    glob: Option<Seq<char>>,
    exclude: Seq<Seq<char>>,
)
    requires
        window::has_plain_lines(section),
        "diff --git "@.is_prefix_of(section),
        diff_laws::header_count(pieces::lines_of(section)) == 1,
    ensures
        pieces::lines_of(filter::filtered_diff(section, file, glob, exclude))
            == if filter::is_selected(
            filter::section_path(pieces::lines_of(section)),
            file,
            glob,
            exclude,
        ) {
            pieces::lines_of(section)
        } else {
            seq![]
        },
{
    let lines = pieces::lines_of(section);
    diff_laws::lemma_first_line_is_header(section);
    lemma_only_header(lines);
    lemma_header_is(lines, 0, 0);
    lemma_header_is(lines, 1, lines.len() as int);
    assert(lines.subrange(0, lines.len() as int) =~= lines);
    let rest = filter::sections_from(lines, lines.len() as int, file, glob, exclude);
    assert(rest =~= seq![]);
    assert(filter::ended_lines(lines) + rest =~= filter::ended_lines(lines));
    lemma_ended_lines(lines);
    assert(pieces::lines_of(Seq::<char>::empty()) =~= seq![]);
    assert(filter::filtered_diff(section, file, glob, exclude) == if filter::is_selected(
        filter::section_path(lines),
        file,
        glob,
        exclude,
    ) {
        filter::ended_lines(lines)
    } else {
        rest
    });
}

proof fn lemma_only_header(lines: Seq<Seq<char>>)
    requires
        lines.len() > 0,
        diff_laws::is_header(lines[0]),
        diff_laws::header_count(lines) == 1,
    ensures
        forall|j: int| 1 <= j < lines.len() ==> !diff_laws::is_header(#[trigger] lines[j]),
    decreases lines.len(),
{
    reveal(Seq::filter);
    if lines.len() > 1 {
        let head = lines.drop_last();
        assert(head[0] == lines[0]);
        diff_laws::lemma_header_counts(head);
        lemma_only_header(head);
        assert forall|j: int| 1 <= j < lines.len() implies !diff_laws::is_header(
            #[trigger] lines[j],
        ) by {
            if j < head.len() {
                assert(head[j] == lines[j]);
            }
        }
    }
}

proof fn lemma_ended_is_joined(lines: Seq<Seq<char>>)
    requires
        lines.len() > 0,
    ensures
        filter::ended_lines(lines) == pieces::joined(lines, "\n"@) + "\n"@,
    decreases lines.len(),
{
    if lines.len() == 1 {
        assert(filter::ended_lines(lines.drop_last()) =~= seq![]);
        assert(filter::ended_lines(lines) =~= lines[0] + "\n"@);
    } else {
        lemma_ended_is_joined(lines.drop_last());
    }
}

proof fn lemma_ended_lines(lines: Seq<Seq<char>>)
    requires
        lines.len() > 0,
        forall|i: int| 0 <= i < lines.len() ==> pieces::is_plain_line(#[trigger] lines[i]),
    ensures
        pieces::lines_of(filter::ended_lines(lines)) == lines,
{
    lemma_ended_is_joined(lines);
    pieces::lemma_lines_of_joined(lines);
}

/// A section is of the file that its first `+++` line names. Where that line is
/// missing or names no file, it is of the file that the header names.
pub proof fn lemma_section_path(lines: Seq<Seq<char>>, k: int)
    requires
        0 <= k < lines.len(),
        diff_laws::is_name_line(lines[k]),
        forall|j: int| 0 <= j < k ==> !diff_laws::is_name_line(#[trigger] lines[j]),
    ensures
        filter::section_path(lines) == {
            let path = if "+++ b/"@.is_prefix_of(lines[k]) {
                lines[k].skip(6)
            } else {
                lines[k].skip(4)
            };
            if path.len() == 0 || path == "/dev/null"@ {
                diff::diff_path(lines[0])
            } else {
                path
            }
        },
{
    lemma_first_plus(lines, k);
    diff_laws::lemma_line_kinds(lines[k]);
}

proof fn lemma_first_plus(lines: Seq<Seq<char>>, k: int)
    requires
        0 <= k < lines.len(),
        diff_laws::is_name_line(lines[k]),
        forall|j: int| 0 <= j < k ==> !diff_laws::is_name_line(#[trigger] lines[j]),
    ensures
        filter::first_plus_path(lines) == filter::plus_path(lines[k]),
        filter::plus_path(lines[k]) is Some,
    decreases lines.len(),
{
    let head = lines.drop_last();
    if k < head.len() {
        assert(head[k] == lines[k]);
        assert forall|j: int| 0 <= j < k implies !diff_laws::is_name_line(#[trigger] head[j]) by {
            assert(head[j] == lines[j]);
        }
        lemma_first_plus(head, k);
    } else {
        assert forall|j: int| 0 <= j < head.len() implies !diff_laws::is_name_line(
            #[trigger] head[j],
        ) by {
            assert(head[j] == lines[j]);
        }
        lemma_no_plus(head);
    }
}

proof fn lemma_no_plus(lines: Seq<Seq<char>>)
    requires
        forall|j: int| 0 <= j < lines.len() ==> !diff_laws::is_name_line(#[trigger] lines[j]),
    ensures
        filter::first_plus_path(lines) is None,
    decreases lines.len(),
{
    if lines.len() > 0 {
        let head = lines.drop_last();
        assert forall|j: int| 0 <= j < head.len() implies !diff_laws::is_name_line(
            #[trigger] head[j],
        ) by {
            assert(head[j] == lines[j]);
        }
        lemma_no_plus(head);
        diff_laws::lemma_line_kinds(lines[lines.len() - 1]);
    }
}

/// A section without a `+++` line is of the file that its header names.
pub proof fn lemma_section_path_without_name(lines: Seq<Seq<char>>)
    requires
        lines.len() > 0,
        forall|j: int| 0 <= j < lines.len() ==> !diff_laws::is_name_line(#[trigger] lines[j]),
    ensures
        filter::section_path(lines) == diff::diff_path(lines[0]),
{
    lemma_no_plus(lines);
}

/// Content is cut down as a diff where it starts as one and as grep output where
/// it does not, and stays as it is where nothing is asked for.
pub proof fn lemma_filtered(
    content: Seq<char>,
    file: Option<Seq<char>>,
    glob: Option<Seq<char>>,
    exclude: Seq<Seq<char>>,
)
    ensures
        filter::filtered(content, None, None, seq![]) == content,
        file is Some || glob is Some || exclude.len() > 0 ==> filter::filtered(
            content,
            file,
            glob,
            exclude,
        ) == if "diff --git "@.is_prefix_of(content) {
            filter::filtered_diff(content, file, glob, exclude)
        } else {
            filter::filtered_grep(content, file, glob, exclude)
        },
{
}

} // verus!
