//! Laws of dates, of JSON and of what is read off payloads.

use crate::cache;
use crate::cache::GitOutput;
use crate::cli::epoch;
use crate::cli::route;
use crate::cli::route::Peeked;
use crate::cli::session;
use crate::cli::stats;
use crate::compress::json as flat;
use crate::index;
use crate::index::ContentType;
use crate::intercept;
use crate::intercept::{Capture, ToolResponse};
use crate::intercept_grep;
use crate::intercept_grep::{GrepCapture, GrepToolResponse};
use crate::json;
use crate::json::JsonView;
use crate::number;
use crate::order;
use crate::pieces;
use crate::record;
use crate::record::{CallRow, RecordPayload};
use crate::text;
use vstd::prelude::*;
use vstd::string::*;

verus! {

// ---------------------------------------------------------------------------
// Dates
// ---------------------------------------------------------------------------

/// The last day of a month: 28 or 29 in February, else 30 or 31. February has 29
/// days in years that four divides, but not in those that a hundred does, unless
/// four hundred does.
pub open spec fn last_day(y: int, m: int) -> int {
    if m == 2 {
        if y % 400 == 0 || (y % 4 == 0 && y % 100 != 0) {
            29
        } else {
            28
        }
    } else if m == 4 || m == 6 || m == 9 || m == 11 {
        30
    } else {
        31
    }
}

/// The calendar starts on the first of January 1970, and each day is followed by
/// the next: in the same month, on the first of the next month, or on the first
/// of January.
pub proof fn lemma_calendar(days: int, y: int, m: int, d: int)
    requires
        epoch::is_date(days, y, m, d),
    ensures
        epoch::is_date(0, 1970, 1, 1),
        1 <= d <= last_day(y, m),
        d < last_day(y, m) ==> epoch::is_date(days + 1, y, m, d + 1),
        d == last_day(y, m) && m < 12 ==> epoch::is_date(days + 1, y, m + 1, 1),
        d == last_day(y, m) && m == 12 ==> epoch::is_date(days + 1, y + 1, 1, 1),
{
    reveal_with_fuel(epoch::days_before_month, 13);
    if m == 12 {
        assert(epoch::days_before_year(y + 1) == epoch::days_before_year(y) + epoch::year_len(y));
    }
}

/// A time of day is written with hours, minutes and seconds of two digits.
pub proof fn lemma_time_of_day(y: int, m: int, d: int, hour: int, minute: int, second: int)
    requires
        0 <= hour < 24,
        0 <= minute < 60,
        0 <= second < 60,
    ensures
        epoch::time_text(y, m, d, 3600 * hour + 60 * minute + second) == number::aligned_right(
            number::decimal(y as nat),
            4,
            '0',
        ) + "-"@ + number::aligned_right(number::decimal(m as nat), 2, '0') + "-"@
            + number::aligned_right(number::decimal(d as nat), 2, '0') + " "@
            + number::aligned_right(number::decimal(hour as nat), 2, '0') + ":"@
            + number::aligned_right(number::decimal(minute as nat), 2, '0') + ":"@
            + number::aligned_right(number::decimal(second as nat), 2, '0') + " UTC"@,
{
    let t = 3600 * hour + 60 * minute + second;
    assert(t / 3600 == hour);
    assert(t % 3600 == 60 * minute + second);
    assert((60 * minute + second) / 60 == minute);
    assert(t % 60 == second);
}

// ---------------------------------------------------------------------------
// JSON
// ---------------------------------------------------------------------------

/// The lines of flattened JSON: one `path = value` for each value that is neither
/// null nor an empty text, and no other; in alphabetic order.
pub proof fn lemma_flat_lines(members: Seq<(Seq<char>, JsonView)>)
    ensures
        flat::member_lines(members) == members.filter(
            |m: (Seq<char>, JsonView)|
                m.1 != JsonView::Null && m.1 != JsonView::Text(seq![]),
        ).map_values(|m: (Seq<char>, JsonView)| m.0 + " = "@ + flat::scalar_text(m.1)),
        order::alphabetic(flat::member_lines(members)).to_multiset() == flat::member_lines(
            members,
        ).to_multiset(),
        forall|i: int, j: int|
            0 <= i < j < flat::member_lines(members).len() ==> !order::lex_before(
                #[trigger] order::alphabetic(flat::member_lines(members))[j],
                #[trigger] order::alphabetic(flat::member_lines(members))[i],
            ),
{
    lemma_flat_members(members);
    let lines = flat::member_lines(members);
    let before = |a: Seq<char>, b: Seq<char>| order::lex_before(a, b);
    assert(order::is_order(before)) by {
        assert forall|a: Seq<char>, b: Seq<char>, c: Seq<char>| #[trigger]
            before(a, b) && #[trigger] before(b, c) implies before(a, c) by {
            order::lemma_lex_transitive(a, b, c);
        }
        assert forall|a: Seq<char>, b: Seq<char>, c: Seq<char>|
            !(#[trigger] before(a, b)) && (#[trigger] before(a, c)) implies before(b, c) by {
            order::lemma_lex_between(a, b, c);
        }
        assert forall|a: Seq<char>| !(#[trigger] before(a, a)) by {
            order::lemma_lex_total(a, a);
        }
    }
    order::lemma_sorted_in_order(lines, before);
    assert forall|i: int, j: int| 0 <= i < j < lines.len() implies !order::lex_before(
        #[trigger] order::alphabetic(lines)[j],
        #[trigger] order::alphabetic(lines)[i],
    ) by {
        assert(!before(order::alphabetic(lines)[j], order::alphabetic(lines)[i]));
    }
}

proof fn lemma_flat_members(members: Seq<(Seq<char>, JsonView)>)
    ensures
        flat::member_lines(members) == members.filter(
            |m: (Seq<char>, JsonView)|
                m.1 != JsonView::Null && m.1 != JsonView::Text(seq![]),
        ).map_values(|m: (Seq<char>, JsonView)| m.0 + " = "@ + flat::scalar_text(m.1)),
    decreases members.len(),
{
    reveal(Seq::filter);
    let keep = |m: (Seq<char>, JsonView)|
        m.1 != JsonView::Null && m.1 != JsonView::Text(seq![]);
    let line = |m: (Seq<char>, JsonView)| m.0 + " = "@ + flat::scalar_text(m.1);
    if members.len() > 0 {
        let head = members.drop_last();
        let last = members.last();
        lemma_flat_members(head);
        assert(flat::is_omitted(last.1) == !keep(last)) by {
            match last.1 {
                JsonView::Text(s) => {
                    if s.len() == 0 {
                        assert(s =~= seq![]);
                    }
                },
                _ => {},
            }
        }
        if keep(last) {
            assert(head.filter(keep).push(last).map_values(line) =~= head.filter(
                keep,
            ).map_values(line).push(line(last)));
        }
    } else {
        assert(members.filter(keep).map_values(line) =~= seq![]);
    }
}

/// The value of a scalar is written as it is.
pub proof fn lemma_scalar_text(s: Seq<char>, n: Seq<char>)
    ensures
        flat::scalar_text(JsonView::Text(s)) == s,
        flat::scalar_text(JsonView::Number(n)) == n,
        flat::scalar_text(JsonView::Bool(true)) == "true"@,
        flat::scalar_text(JsonView::Bool(false)) == "false"@,
{
}

/// What is stored of an input: text as it came, JSON flattened.
pub proof fn lemma_stored_by_type(input: Seq<char>)
    ensures
        index::stored_content(input, ContentType::Text) == input,
        index::stored_content(input, ContentType::Json) == flat::compressed(input),
{
}

// ---------------------------------------------------------------------------
// Payloads
// ---------------------------------------------------------------------------

/// What is read off a payload: the name of the tool, the session, the command and
/// the directory; that of the input goes before that of the payload.
pub proof fn lemma_peeked(p: Peeked, payload: JsonView)
    requires
        route::reads_off(p, Some(payload)),
    ensures
        p.tool_name@ == json::text_field_or(payload, "tool_name"@, ""@),
        text::opt_text(p.session_id) == json::text_field(payload, "session_id"@),
        text::opt_text(p.tool_use_id) == json::text_field(payload, "tool_use_id"@),
        json::field(payload, "tool_input"@) matches Some(input) ==> text::opt_text(p.command)
            == json::text_field(input, "command"@) && text::opt_text(p.tool_input) == Some(
            json::compact(json::canonical(input)),
        ) && (json::text_field(input, "cwd"@) is Some ==> text::opt_text(p.cwd) == json::text_field(
            input,
            "cwd"@,
        )) && (json::text_field(input, "cwd"@) is None ==> text::opt_text(p.cwd)
            == json::text_field(payload, "cwd"@)),
        json::field(payload, "tool_input"@) is None ==> p.command is None && p.tool_input is None
            && text::opt_text(p.cwd) == json::text_field(payload, "cwd"@),
{
}

/// What is recorded of a call: its tool, its ID, its directory and its input; and
/// of text that it answered the number of lines.
pub proof fn lemma_recorded(row: CallRow, payload: RecordPayload)
    requires
        record::records(row, payload),
    ensures
        row.tool == payload.tool_name,
        row.tool_use_id == payload.tool_use_id,
        row.cwd == payload.cwd,
        payload.tool_input matches Some(j) ==> (row.params matches Some(p) && p@ == json::compact(
            json::canonical(j@),
        )),
        payload.tool_input is None ==> row.params is None,
        payload.content matches Some(j) ==> (j@ matches JsonView::Text(s) ==> row.line_count
            is Some && (pieces::lines_of(s).len() <= i64::MAX && pieces::lines_of(s).len()
            <= usize::MAX ==> row.line_count == Some(pieces::lines_of(s).len() as i64))),
        payload.content is None ==> row.line_count is None && row.token_est is None,
{
}

/// What is captured of the output of a command holds both streams, and counts
/// their lines and bytes.
pub proof fn lemma_capture(
    c: Capture,
    tool_name: Option<String>,
    resp: ToolResponse,
    tool_input: Option<String>,
    out: Seq<u8>,
    err: Seq<u8>,
)
    requires
        intercept::captures(c, tool_name, resp, tool_input, out, err),
    ensures
        c.line_count == pieces::lines_of(c.content@).len(),
        c.byte_count == out.len() + err.len(),
        tool_name matches Some(n) ==> c.tool@ == n@ && !c.tool_missing,
        tool_name is None ==> c.tool@ == "Bash"@ && c.tool_missing,
        resp.stderr is None ==> (resp.stdout matches Some(o) ==> c.content@ == o@),
        resp.stdout is None ==> (resp.stderr matches Some(e) ==> c.content@ == e@),
{
    reveal_strlit("");
    if resp.stderr is None {
        if let Some(o) = resp.stdout {
            assert(o@ + ""@ =~= o@);
        }
    }
    if resp.stdout is None {
        if let Some(e) = resp.stderr {
            assert(""@ + e@ =~= e@);
        }
    }
}

/// What is captured of a search result is all of its content.
pub proof fn lemma_search_capture(
    c: GrepCapture,
    tool_name: Option<String>,
    resp: GrepToolResponse,
    tool_input: Option<String>,
)
    requires
        intercept_grep::captures(c, tool_name, resp, tool_input),
    ensures
        resp.content matches Some(s) ==> c.content@ == s@,
        c.line_count == pieces::lines_of(c.content@).len(),
        resp.mode matches Some(m) ==> c.mode@ == m@,
        resp.mode is None ==> c.mode@ == "content"@,
        tool_name matches Some(n) ==> c.tool@ == n@ && !c.tool_missing,
        tool_name is None ==> c.tool@ == "Grep"@ && c.tool_missing,
{
}

/// The answer of the hook puts the message in place of the output, keeps the
/// flags, and leaves nothing of the error stream.
pub proof fn lemma_hook_answer(message: Seq<char>, resp: ToolResponse)
    ensures
        intercept::bash_output(message, resp) matches JsonView::Object(m) && m.len() == 5
            && m.contains(("stdout"@, JsonView::Text(message))) && m.contains(
            ("stderr"@, JsonView::Text(""@)),
        ) && m.contains(("interrupted"@, JsonView::Bool(resp.interrupted == Some(true))))
            && m.contains(("isImage"@, JsonView::Bool(resp.is_image == Some(true)))) && m.contains(
            ("noOutputExpected"@, JsonView::Bool(resp.no_output_expected == Some(true))),
        ),
{
    let m = intercept::bash_output(message, resp)->Object_0;
    assert(m.contains(m[0]) && m.contains(m[1]) && m.contains(m[2]));
    assert(m.contains(m[3]) && m.contains(m[4]));
}

/// A handle is a letter of a kind, an underscore and six to eight hex digits.
pub proof fn lemma_handle_form(kind: char, digits: Seq<char>)
    ensures
        session::is_handle(seq![kind, '_'] + digits) <==> (kind == 'b' || kind == 'g' || kind
            == 'i') && 6 <= digits.len() <= 8 && forall|i: int|
            0 <= i < digits.len() ==> ('0' <= #[trigger] digits[i] <= '9' || 'a' <= digits[i]
                <= 'f' || 'A' <= digits[i] <= 'F'),
{
    let s = seq![kind, '_'] + digits;
    if session::is_handle(s) {
        assert forall|i: int| 0 <= i < digits.len() implies ('0' <= #[trigger] digits[i] <= '9'
            || 'a' <= digits[i] <= 'f' || 'A' <= digits[i] <= 'F') by {
            assert(session::is_hex_char(s[i + 2]));
        }
    }
    if (kind == 'b' || kind == 'g' || kind == 'i') && 6 <= digits.len() <= 8 && (forall|i: int|
        0 <= i < digits.len() ==> ('0' <= #[trigger] digits[i] <= '9' || 'a' <= digits[i] <= 'f'
            || 'A' <= digits[i] <= 'F')) {
        assert forall|i: int| 2 <= i < s.len() implies session::is_hex_char(#[trigger] s[i]) by {
            assert(s[i] == digits[i - 2]);
        }
    }
}

/// A worktree is clean only where git says so: it succeeded and listed nothing.
pub proof fn lemma_clean_worktree(answer: Option<GitOutput>)
    ensures
        !cache::is_dirty_answer(answer) <==> (answer matches Some(o) && o.success && o.stdout@.len()
            == 0),
{
}

/// What was retrieved and what was not make up a hundred percent.
pub proof fn lemma_remainder(percent: nat)
    ensures
        percent <= 100 ==> percent + stats::remainder(percent) == 100,
        percent > 100 ==> stats::remainder(percent) == 0,
{
}

} // verus!
