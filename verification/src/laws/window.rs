//! Laws of the views of stored content.

use crate::number;
use crate::pieces;
use crate::retrieve::window;
use crate::retrieve::window::{ShowOpts, StoredContent};
use vstd::prelude::*;
use vstd::string::*;

verus! {

/// A line as it reads back from a view: a view ends lines with a plain line
/// break, so a carriage return at the end of a line counts to the line break.
pub open spec fn reads(line: Seq<char>) -> Seq<char> {
    if line.len() > 0 && line.last() == '\r' {
        line.drop_last()
    } else {
        line
    }
}

/// Lines that are joined and end in a line break read back, in front of the
/// lines of the rest.
pub proof fn lemma_reads_back(parts: Seq<Seq<char>>, rest: Seq<char>)
    requires
        parts.len() > 0,
        forall|i: int| 0 <= i < parts.len() ==> !(#[trigger] parts[i]).contains('\n'),
    ensures
        pieces::lines_of(pieces::joined(parts, "\n"@) + "\n"@ + rest) == parts.map_values(
            |line: Seq<char>| reads(line),
        ) + pieces::lines_of(rest),
    decreases parts.len(),
{
    reveal_strlit("\n");
    let nl = "\n"@;
    let first = parts[0];
    let shown = parts.map_values(|line: Seq<char>| reads(line));
    if parts.len() == 1 {
        assert(first + nl + rest =~= first.push('\n') + rest);
        pieces::lemma_lines_first(first, rest);
        assert(shown =~= seq![reads(first)]);
    } else {
        let others = parts.skip(1);
        pieces::lemma_joined_first(parts, nl);
        assert forall|i: int| 0 <= i < others.len() implies !(#[trigger] others[i]).contains(
            '\n',
        ) by {
            assert(others[i] == parts[i + 1]);
        }
        lemma_reads_back(others, rest);
        let tail = pieces::joined(others, nl) + nl + rest;
        assert(pieces::joined(parts, nl) + nl + rest =~= first.push('\n') + tail);
        pieces::lemma_lines_first(first, tail);
        assert(shown + pieces::lines_of(rest) =~= seq![reads(first)] + (others.map_values(
            |line: Seq<char>| reads(line),
        ) + pieces::lines_of(rest)));
    }
}

/// The note that ends a cut view.
pub open spec fn note(lead: Seq<char>, shown: nat, total: nat) -> Seq<char> {
    lead + number::decimal(shown) + " of "@ + number::decimal(total) + " lines)"@
}

/// The line that stands for lines that are left out.
pub open spec fn gap(omitted: nat) -> Seq<char> {
    "... ("@ + number::decimal(omitted) + " lines omitted) ..."@
}

proof fn lemma_note(lead: Seq<char>, shown: nat, total: nat)
    requires
        !lead.contains('\n'),
    ensures
        pieces::lines_of(window::showing(lead, shown, total)) == seq![note(lead, shown, total)],
{
    reveal_strlit(" of ");
    reveal_strlit(" lines)\n");
    reveal_strlit(" lines)");
    let a = number::decimal(shown);
    let b = number::decimal(total);
    number::lemma_decimal_digits(shown);
    number::lemma_decimal_digits(total);
    let line = note(lead, shown, total);
    assert forall|i: int| 0 <= i < line.len() implies line[i] != '\n' by {
        if i < lead.len() {
            assert(lead.contains(lead[i]));
        } else if i < lead.len() + a.len() {
            assert(line[i] == a[i - lead.len()]);
        } else if i >= lead.len() + a.len() + 4 && i < lead.len() + a.len() + 4 + b.len() {
            assert(line[i] == b[i - lead.len() - a.len() - 4]);
        }
    }
    assert(line.last() == ')');
    assert(window::showing(lead, shown, total) =~= line.push('\n') + Seq::<char>::empty());
    pieces::lemma_lines_first(line, Seq::<char>::empty());
    assert(pieces::lines_of(Seq::<char>::empty()) =~= seq![]);
    assert(seq![line] + Seq::<Seq<char>>::empty() =~= seq![line]);
}

proof fn lemma_gap(omitted: nat)
    ensures
        !gap(omitted).contains('\n'),
        gap(omitted).last() == '.',
        gap(omitted).len() > 0,
{
    reveal_strlit("... (");
    reveal_strlit(" lines omitted) ...");
    number::lemma_decimal_digits(omitted);
    let a = number::decimal(omitted);
    let line = gap(omitted);
    assert forall|i: int| 0 <= i < line.len() implies line[i] != '\n' by {
        if 5 <= i < 5 + a.len() {
            assert(line[i] == a[i - 5]);
        }
    }
}

/// A cut view of content with more lines than it has room for, and room for both
/// ends: it shows the first lines of the content, then one line on how many are
/// left out, then the last ten lines of the content, then the note.
pub proof fn lemma_cut_view(s: Seq<char>, max: nat)
    requires
        12 < max < pieces::lines_of(s).len(),
    ensures
        ({
            let lines = pieces::lines_of(s);
            let view = pieces::lines_of(window::bounded(s, max));
            &&& view.len() == max + 1
            &&& forall|k: int| 0 <= k < max - 11 ==> #[trigger] view[k] == reads(lines[k])
            &&& view[max - 11] == gap((lines.len() - max + 1) as nat)
            &&& forall|k: int|
                0 <= k < 10 ==> view[max - 10 + k] == reads(#[trigger] lines[lines.len() - 10 + k])
            &&& view[max as int] == note("(showing "@, max, lines.len())
        }),
{
    let lines = pieces::lines_of(s);
    let total = lines.len();
    pieces::lemma_lines_unbroken(s);
    reveal_strlit("(showing ");
    let omitted = (total - max + 1) as nat;
    lemma_gap(omitted);
    lemma_note("(showing "@, max, total);
    let parts = lines.take(max - 11).push(gap(omitted)) + lines.skip(total - 10);
    assert forall|i: int| 0 <= i < parts.len() implies !(#[trigger] parts[i]).contains('\n') by {
        if i < max - 11 {
            assert(parts[i] == lines[i]);
        } else if i > max - 11 {
            assert(parts[i] == lines[total - 10 + (i - (max - 10))]);
        }
    }
    let end = window::showing("(showing "@, max, total);
    lemma_reads_back(parts, end);
    assert(window::bounded(s, max) == pieces::joined(parts, "\n"@) + "\n"@ + end);
    let view = pieces::lines_of(window::bounded(s, max));
    let shown = parts.map_values(|line: Seq<char>| reads(line));
    assert(view == shown + seq![note("(showing "@, max, total)]);
    assert forall|k: int| 0 <= k < 10 implies view[max - 10 + k] == reads(
        #[trigger] lines[total - 10 + k],
    ) by {
        assert(parts[max - 10 + k] == lines[total - 10 + k]);
    }
}

/// A cut view without room for both ends shows the first lines, then the note.
pub proof fn lemma_cut_view_short(s: Seq<char>, max: nat)
    requires
        0 < max <= 12,
        max < pieces::lines_of(s).len(),
    ensures
        ({
            let lines = pieces::lines_of(s);
            let view = pieces::lines_of(window::bounded(s, max));
            &&& view.len() == max + 1
            &&& forall|k: int| 0 <= k < max ==> #[trigger] view[k] == reads(lines[k])
            &&& view[max as int] == note("(showing "@, max, lines.len())
        }),
{
    let lines = pieces::lines_of(s);
    pieces::lemma_lines_unbroken(s);
    reveal_strlit("(showing ");
    lemma_note("(showing "@, max, lines.len());
    let parts = lines.take(max as int);
    assert forall|i: int| 0 <= i < parts.len() implies !(#[trigger] parts[i]).contains('\n') by {
        assert(parts[i] == lines[i]);
    }
    lemma_reads_back(parts, window::showing("(showing "@, max, lines.len()));
}

/// The tail of content with more lines than are asked for: the last lines, then
/// the note.
pub proof fn lemma_tail_view(s: Seq<char>, max: nat)
    requires
        0 < max < pieces::lines_of(s).len(),
    ensures
        ({
            let lines = pieces::lines_of(s);
            let view = pieces::lines_of(window::tail_part(s, max));
            &&& view.len() == max + 1
            &&& forall|k: int|
                0 <= k < max ==> #[trigger] view[k] == reads(lines[lines.len() - max + k])
            &&& view[max as int] == note("(showing last "@, max, lines.len())
        }),
{
    let lines = pieces::lines_of(s);
    pieces::lemma_lines_unbroken(s);
    reveal_strlit("(showing last ");
    lemma_note("(showing last "@, max, lines.len());
    let parts = lines.skip(lines.len() - max);
    assert forall|i: int| 0 <= i < parts.len() implies !(#[trigger] parts[i]).contains('\n') by {
        assert(parts[i] == lines[lines.len() - max + i]);
    }
    lemma_reads_back(parts, window::showing("(showing last "@, max, lines.len()));
}

/// The tail of content with no more lines than are asked for is all of it, as is
/// a view with room for all of it.
pub proof fn lemma_whole_view(s: Seq<char>, max: nat)
    requires
        window::has_plain_lines(s),
        pieces::lines_of(s).len() <= max,
    ensures
        pieces::lines_of(window::tail_part(s, max)) == pieces::lines_of(s),
        pieces::lines_of(window::bounded(s, max)) == pieces::lines_of(s),
{
    window::lemma_bounded_whole(s, max);
}

/// A page that is reached with an offset shows the lines of the content from
/// there on, as many as are asked for or are left. A page that would hold nothing
/// else than one empty line is empty.
pub proof fn lemma_page_lines(s: Seq<char>, opts: ShowOpts)
    requires
        window::has_plain_lines(s),
        0 < opts.offset < pieces::lines_of(s).len(),
        0 < opts.head,
        opts.tail is None,
        pieces::lines_of(s)[opts.offset as int].len() > 0,
    ensures
        ({
            let lines = pieces::lines_of(s);
            let left = lines.len() - opts.offset;
            let view = pieces::lines_of(window::part_shown(s, opts));
            &&& view.len() == if opts.head <= left {
                opts.head as int
            } else {
                left
            }
            &&& forall|k: int| 0 <= k < view.len() ==> #[trigger] view[k] == lines[opts.offset + k]
        }),
{
    let lines = pieces::lines_of(s);
    window::lemma_page_shows_window(s, opts);
    let page = window::window(lines, opts.offset as nat, opts.head as nat);
    assert(page[0] == lines[opts.offset as int]);
    assert forall|i: int| 0 <= i < page.len() implies pieces::is_plain_line(#[trigger] page[i]) by {
        assert(page[i] == lines[opts.offset + i]);
    }
    pieces::lemma_lines_of_joined(page);
    if page.len() >= 2 {
        pieces::lemma_joined_first(page, "\n"@);
    }
    assert(pieces::joined(page, "\n"@).len() > 0);
}

/// Which part of what is stored a view is taken from. A view of the compressed
/// body is one of that body; a view of the content is one of the handle's own
/// content, or else of the content it is linked to; and where there is no
/// compressed body to show, a line says so in front of the content.
pub proof fn lemma_shown_source(stored: StoredContent, linked: Option<String>, opts: ShowOpts)
    ensures
        opts.compressed ==> (stored.compressed_body matches Some(body) ==> window::shown(
            stored,
            linked,
            opts,
        ) == window::part_shown(body@, opts)),
        !opts.compressed ==> (stored.content matches Some(c) ==> window::shown(stored, linked, opts)
            == window::part_shown(c@, opts)),
        !opts.compressed && stored.content is None ==> (linked matches Some(c) ==> c@.len() > 0
            ==> window::shown(stored, linked, opts) == window::part_shown(c@, opts)),
        opts.compressed && stored.compressed_body is None ==> (stored.content matches Some(c)
            ==> c@.len() > 0 ==> {
            let view = pieces::lines_of(window::shown(stored, linked, opts));
            view == seq![
                "(No structural compression available for this handle — showing raw content)"@,
            ] + pieces::lines_of(window::part_shown(c@, opts))
        }),
        stored.content is None && linked is None && !opts.compressed ==> window::shown(
            stored,
            linked,
            opts,
        ).len() == 0,
{
    if opts.compressed && stored.compressed_body is None {
        if let Some(c) = stored.content {
            reveal_strlit(
                "(No structural compression available for this handle — showing raw content)\n",
            );
            reveal_strlit(
                "(No structural compression available for this handle — showing raw content)",
            );
            let line = "(No structural compression available for this handle — showing raw content)"@;
            assert(window::raw_note() =~= line.push('\n'));
            assert(line.last() == ')');
            assert(!line.contains('\n'));
            pieces::lemma_lines_first(line, window::part_shown(c@, opts));
        }
    }
}

} // verus!
