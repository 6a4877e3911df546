//! The identity, cut down to its two ends where it is long.

use crate::number;
use crate::pieces;
use crate::text;
use vstd::prelude::*;
use vstd::slice::*;
use vstd::string::*;

verus! {

/// The first and the last `max` of more than `2 * max` lines, with a note
/// between them; fewer lines as they are.
pub open spec fn preview_of(input: Seq<char>, max: nat) -> Seq<char> {
    let lines = pieces::lines_of(input);
    if lines.len() <= 2 * max {
        input
    } else {
        pieces::joined(lines.take(max as int), "\n"@) + "\n... ["@ + number::decimal(
            (lines.len() - 2 * max) as nat,
        ) + " lines elided] ...\n"@ + pieces::joined(lines.skip(lines.len() - max), "\n"@)
    }
}

/// Return a head/tail preview of `input` capped at `max_lines` per side.
///
/// If `input` has more than `2 * max_lines` lines the function returns:
///   - the first `max_lines` lines
///   - an elision marker indicating how many lines were omitted
///   - the last `max_lines` lines
///
/// If `input` has `<= 2 * max_lines` lines, the full content is returned
/// unchanged.
pub fn preview(input: &str, max_lines: usize) -> (out: String)
    ensures
        out@ == preview_of(input@, max_lines as nat),
{
    let chars = text::chars_of(input);
    let lines = pieces::split_lines(chars.as_slice());
    let total = lines.len();
    if total as u128 <= 2 * (max_lines as u128) {
        return input.to_owned();
    }
    let omitted = total - 2 * max_lines;
    let head = slice_subrange(lines.as_slice(), 0, max_lines);
    let tail = slice_subrange(lines.as_slice(), total - max_lines, total);
    let ghost all = pieces::lines_of(input@);
    proof {
        assert(text::views(head@) =~= all.take(max_lines as int));
        assert(text::views(tail@) =~= all.skip(total - max_lines));
    }
    let mut out = pieces::join(head, "\n");
    out.append("\n... [");
    number::push_count(&mut out, omitted);
    out.append(" lines elided] ...\n");
    let end = pieces::join(tail, "\n");
    out.append(end.as_str());
    out
}

} // verus!
