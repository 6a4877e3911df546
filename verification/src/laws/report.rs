//! Laws of reports: statistics, the doctor, JSON answers and messages.

use crate::bytes;
use crate::cache;
use crate::cache::{CacheCheckResult, GitOutput};
use crate::cli::figures;
use crate::cli::report;
use crate::cli::request;
use crate::cli::route;
use crate::cli::route::{Gate, InterceptAction};
use crate::cli::session;
use crate::cli::stats;
use crate::cli::stats::StatsFigures;
use crate::compress::grep_preview;
use crate::db::DbError;
use crate::debug;
use crate::doctor;
use crate::doctor::{DoctorReport, Liveness, ScanView, Thresholds};
use crate::error;
use crate::error::CtxlError;
use crate::global_db;
use crate::global_db::{CumulativeStats, GlobalDbError, SessionCounts, SessionSummary};
use crate::index;
use crate::index::{ContentType, IndexResult};
use crate::intercept;
use crate::intercept_grep;
use crate::intercept_grep::GrepToolResponse;
use crate::json;
use crate::json::JsonView;
use crate::laws::capture as capture_laws;
use crate::laws::session as session_laws;
use crate::number;
use crate::pieces;
use crate::preview;
use crate::query;
use crate::record;
use crate::retrieve::find;
use crate::retrieve::rows::InspectResult;
use crate::text;
use vstd::prelude::*;
use vstd::string::*;

verus! {

// ---------------------------------------------------------------------------
// Small decisions
// ---------------------------------------------------------------------------

/// A search result that was kept in part says so, and one that was kept whole
/// says nothing.
pub proof fn lemma_stored_note(stored: usize, total: usize)
    ensures
        stored < total ==> grep_preview::stored_note(Some(stored), Some(total))
            == ", stored first "@ + number::decimal(stored as nat) + " of "@ + number::decimal(
            total as nat,
        ) + " lines"@,
        stored >= total ==> grep_preview::stored_note(Some(stored), Some(total)).len() == 0,
        grep_preview::stored_note(None, Some(total)).len() == 0,
        grep_preview::stored_note(Some(stored), None).len() == 0,
{
}

/// The count of matches is the reported one. Where none is reported, or zero
/// beside lines that were found, it is the count of lines.
pub proof fn lemma_matches_shown(reported: u64, lines: nat)
    ensures
        reported > 0 ==> intercept_grep::matches_shown(Some(reported), lines) == reported,
        intercept_grep::matches_shown(Some(0), lines) == lines,
        intercept_grep::matches_shown(None, lines) == lines,
{
}

/// A type that was asked for is taken; without one the input decides.
pub proof fn lemma_type_taken(input: Seq<char>, asked: ContentType)
    ensures
        index::type_of(input, Some(asked)) == asked,
        index::type_of(input, None) == index::detected_type(input),
{
}

/// Three names stand for the three types, and no other name for any.
pub proof fn lemma_type_names(name: Seq<char>)
    ensures
        request::type_named("html"@) == Some(ContentType::Html),
        request::type_named("json"@) == Some(ContentType::Json),
        request::type_named("text"@) == Some(ContentType::Text),
        request::type_named(name) is None <==> name != "html"@ && name != "json"@ && name
            != "text"@,
{
    reveal_strlit("html");
    reveal_strlit("json");
    reveal_strlit("text");
    assert("html"@[0] == 'h' && "json"@[0] == 'j' && "text"@[0] == 't');
}

/// What git printed counts where it succeeded, and is nothing where it failed or
/// could not be run.
pub proof fn lemma_git_text(o: GitOutput)
    ensures
        o.success ==> cache::git_text(Some(o)) == Some(text::trimmed(cache::lossy(o.stdout@))),
        !o.success ==> cache::git_text(Some(o)) is None,
        cache::git_text(None) is None,
{
}

/// A result is kept in the cache only of a clean repository with a commit.
pub proof fn lemma_may_cache(root: Seq<char>, head: Seq<char>)
    ensures
        intercept::may_cache(Some(root), false, Some(head)),
        !intercept::may_cache(Some(root), true, Some(head)),
        !intercept::may_cache(None, false, Some(head)),
        !intercept::may_cache(Some(root), false, None),
{
}

/// A query that is blank or holds regex syntax is refused, each with its error;
/// every other is accepted.
pub proof fn lemma_query_refused(q: Seq<char>, e: CtxlError)
    ensures
        find::accepted(q) ==> !find::refused(q, e),
        find::refused(q, e) ==> e is EmptyQuery || e is RegexInQuery,
        find::refused(q, e) && e is EmptyQuery ==> text::trimmed(q).len() == 0,
        find::refused(q, e) && e is RegexInQuery ==> query::has_regex(q) && text::trimmed(q).len()
            > 0,
        text::trimmed(q).len() > 0 && !query::has_regex(q) ==> find::accepted(q),
{
}

/// The time to wait for a busy store is the number that is set, and five seconds
/// where none is.
pub proof fn lemma_timeout(n: int, other: Seq<char>)
    requires
        i64::MIN <= n <= i64::MAX,
        record::signed_value(other) is None,
    ensures
        record::timeout_ms(Some(number::signed_decimal(n))) == n,
        record::timeout_ms(Some(other)) == 5000,
        record::timeout_ms(None) == 5000,
{
    session_laws::lemma_signed(n);
}

/// A command is captured unless it is one of this program, and a search always
/// is. What reads or writes files is recorded where recording is on, and nothing
/// is done about other tools.
pub proof fn lemma_action(
    command: Seq<char>,
    norecord: bool,
    bin: Option<Seq<char>>,
    other: Seq<char>,
)
    requires
        other != "Bash"@ && other != "Grep"@ && other != "Read"@ && other != "Edit"@,
        other != "Write"@ && other != "Glob"@,
    ensures
        route::action_for("Bash"@, Some(command), norecord, bin) == if route::is_own_command(
            command,
            bin,
        ) {
            InterceptAction::Nothing
        } else {
            InterceptAction::Command
        },
        route::action_for("Bash"@, None, norecord, bin) == InterceptAction::Command,
        route::action_for("Grep"@, None, norecord, bin) == InterceptAction::Search,
        !norecord ==> {
            &&& route::action_for("Read"@, None, norecord, bin) == InterceptAction::Record
            &&& route::action_for("Edit"@, None, norecord, bin) == InterceptAction::Record
            &&& route::action_for("Write"@, None, norecord, bin) == InterceptAction::Record
            &&& route::action_for("Glob"@, None, norecord, bin) == InterceptAction::Record
        },
        norecord ==> route::action_for("Read"@, None, norecord, bin) == InterceptAction::Nothing,
        route::action_for(other, None, norecord, bin) == InterceptAction::Nothing,
{
    reveal_strlit("Bash");
    reveal_strlit("Grep");
    reveal_strlit("Read");
    reveal_strlit("Edit");
    reveal_strlit("Write");
    reveal_strlit("Glob");
    assert("Bash"@[0] == 'B' && "Grep"@[0] == 'G' && "Read"@[0] == 'R' && "Edit"@[0] == 'E');
    assert("Write"@[0] == 'W' && "Glob"@[0] == 'G' && "Glob"@[1] == 'l' && "Grep"@[1] == 'r');
}

/// No call is let in while interception is turned off, without a session, or
/// under a name that is none of a session; commands and searches are let in
/// otherwise.
pub proof fn lemma_let_in(enabled: Option<Seq<char>>, sid: Seq<char>, tool: Seq<char>, norecord: bool)
    requires
        enabled != Some("0"@),
    ensures
        route::gate_for(Some("0"@), Some(sid), tool, norecord) == Gate::Off,
        route::gate_for(enabled, None, tool, norecord) == Gate::NoSession,
        !session::is_session_id(sid) ==> route::gate_for(enabled, Some(sid), tool, norecord)
            == Gate::BadSession,
        session::is_session_id(sid) ==> {
            &&& route::gate_for(enabled, Some(sid), "Bash"@, norecord) == Gate::Open
            &&& route::gate_for(enabled, Some(sid), "Grep"@, norecord) == Gate::Open
            &&& route::gate_for(enabled, Some(sid), "Read"@, norecord) == if norecord {
                Gate::Ignore
            } else {
                Gate::Open
            }
        },
{
    reveal_strlit("Bash");
    reveal_strlit("Grep");
    reveal_strlit("Read");
    assert("Bash"@[0] == 'B' && "Grep"@[0] == 'G' && "Read"@[0] == 'R');
}

/// The ID of a session is not empty and has letters, digits, underscores and
/// hyphens, nothing else.
pub proof fn lemma_session_id(s: Seq<char>)
    ensures
        session::is_session_id(s) <==> s.len() > 0 && forall|i: int|
            0 <= i < s.len() ==> ('a' <= #[trigger] s[i] <= 'z' || 'A' <= s[i] <= 'Z' || '0' <= s[i]
                <= '9' || s[i] == '_' || s[i] == '-'),
{
    if session::is_session_id(s) {
        assert forall|i: int| 0 <= i < s.len() implies ('a' <= #[trigger] s[i] <= 'z' || 'A' <= s[i]
            <= 'Z' || '0' <= s[i] <= '9' || s[i] == '_' || s[i] == '-') by {
            assert(session::is_session_char(s[i]));
        }
    }
}

/// The number of files is told of a diff, and of output that names files; of no
/// other.
pub proof fn lemma_files_told(content: Seq<char>)
    ensures
        preview::is_diff(content) ==> intercept::file_total(content) == Some(
            preview::files_of_diff(content).len(),
        ),
        !preview::is_diff(content) && preview::files_of_grep(content).len() > 0
            ==> intercept::file_total(content) == Some(preview::files_of_grep(content).len()),
        !preview::is_diff(content) && preview::files_of_grep(content).len() == 0
            ==> intercept::file_total(content) is None,
{
}

/// Of a page in HTML, scripts, styles and what stands around the text are left
/// out, and nothing else.
pub proof fn lemma_tags_left_out(tag: Seq<char>)
    ensures
        index::skip_tags().contains(tag) <==> tag == "script"@ || tag == "style"@ || tag == "nav"@
            || tag == "footer"@ || tag == "aside"@ || tag == "header"@ || tag == "noscript"@,
{
    let tags = index::skip_tags();
    assert(tags.contains(tags[0]) && tags.contains(tags[1]) && tags.contains(tags[2]));
    assert(tags.contains(tags[3]) && tags.contains(tags[4]) && tags.contains(tags[5]));
    assert(tags.contains(tags[6]));
}

/// Every proposed query is put in a command that searches for it, in order.
pub proof fn lemma_proposed_commands(queries: Seq<Seq<char>>)
    ensures
        query::search_commands(queries).len() == queries.len(),
        forall|i: int|
            0 <= i < queries.len() ==> #[trigger] query::search_commands(queries)[i]
                == "ctxl search <handle> \""@ + queries[i] + "\""@,
{
}

/// The key of what is written through is that of its parameters, whatever the
/// tool and the content. Without parameters it is that of the tool, the mode and
/// the content together.
pub proof fn lemma_write_through_key(
    params: Seq<char>,
    tool: Seq<char>,
    mode: Seq<char>,
    content: Seq<char>,
)
    ensures
        intercept::write_through_hash(Some(params), tool, mode, content) == cache::text_hash(
            cache::normalized(params),
        ),
        intercept::write_through_hash(None, tool, mode, content) == cache::text_hash(
            tool + ":"@ + mode + ":"@ + cache::text_hash(content),
        ),
{
}

// ---------------------------------------------------------------------------
// JSON
// ---------------------------------------------------------------------------

/// The totals as JSON have every total under its name.
pub proof fn lemma_totals_members(t: CumulativeStats)
    ensures
        stats::totals_tree(t) matches JsonView::Object(m) && m.len() == 12 && m.contains(
            ("sessions_count"@, json::integer_tree(t.sessions_count as int)),
        ) && m.contains(("handles_count"@, json::integer_tree(t.handles_count as int)))
            && m.contains(("tokens_intercepted"@, json::integer_tree(t.tokens_intercepted as int)))
            && m.contains(("bytes_intercepted"@, json::integer_tree(t.bytes_intercepted as int)))
            && m.contains(("calls_count"@, json::integer_tree(t.calls_count as int)))
            && m.contains(("calls_intercepted"@, json::integer_tree(t.calls_intercepted as int)))
            && m.contains(("retrieval_calls"@, json::integer_tree(t.retrieval_calls as int)))
            && m.contains(("retrieval_tokens"@, json::integer_tree(t.retrieval_tokens as int)))
            && m.contains(("handles_retrieved"@, json::integer_tree(t.handles_retrieved as int)))
            && m.contains(("total_retrievals"@, json::integer_tree(t.total_retrievals as int)))
            && m.contains(("earliest_cleaned"@, json::optional_text_tree(t.earliest_cleaned)))
            && m.contains(("latest_cleaned"@, json::optional_text_tree(t.latest_cleaned))),
{
    let m = stats::totals_tree(t)->Object_0;
    assert(m.contains(m[0]) && m.contains(m[1]) && m.contains(m[2]) && m.contains(m[3]));
    assert(m.contains(m[4]) && m.contains(m[5]) && m.contains(m[6]) && m.contains(m[7]));
    assert(m.contains(m[8]) && m.contains(m[9]) && m.contains(m[10]) && m.contains(m[11]));
}

/// A session as JSON has all that is known of it under its name.
pub proof fn lemma_summary_members(s: SessionSummary)
    ensures
        stats::summary_tree(s) matches JsonView::Object(m) && m.len() == 11 && m.contains(
            ("session_id"@, JsonView::Text(s.session_id@)),
        ) && m.contains(("handles_count"@, json::integer_tree(s.handles_count as int)))
            && m.contains(("tokens_intercepted"@, json::integer_tree(s.tokens_intercepted as int)))
            && m.contains(("bytes_intercepted"@, json::integer_tree(s.bytes_intercepted as int)))
            && m.contains(("calls_count"@, json::integer_tree(s.calls_count as int)))
            && m.contains(("calls_intercepted"@, json::integer_tree(s.calls_intercepted as int)))
            && m.contains(("retrieval_calls"@, json::integer_tree(s.retrieval_calls as int)))
            && m.contains(("retrieval_tokens"@, json::integer_tree(s.retrieval_tokens as int)))
            && m.contains(("handles_retrieved"@, json::integer_tree(s.handles_retrieved as int)))
            && m.contains(("total_retrievals"@, json::integer_tree(s.total_retrievals as int)))
            && m.contains(("cleaned_at"@, json::optional_text_tree(s.cleaned_at))),
{
    let m = stats::summary_tree(s)->Object_0;
    assert(m.contains(m[0]) && m.contains(m[1]) && m.contains(m[2]) && m.contains(m[3]));
    assert(m.contains(m[4]) && m.contains(m[5]) && m.contains(m[6]) && m.contains(m[7]));
    assert(m.contains(m[8]) && m.contains(m[9]) && m.contains(m[10]));
}

/// The statistics as JSON have the totals, and every session in order.
pub proof fn lemma_stats_members(t: CumulativeStats, sessions: Seq<SessionSummary>)
    ensures
        json::field(stats::stats_tree(t, sessions), "cumulative"@) == Some(stats::totals_tree(t)),
        json::field(stats::stats_tree(t, sessions), "sessions"@) matches Some(JsonView::Array(items))
            && items.len() == sessions.len() && forall|i: int|
            0 <= i < sessions.len() ==> #[trigger] items[i] == stats::summary_tree(sessions[i]),
{
    reveal_strlit("cumulative");
    reveal_strlit("sessions");
    assert("cumulative"@[0] == 'c' && "sessions"@[0] == 's');
    reveal_with_fuel(json::member_index, 3);
}

/// The answer of the hook is found under the names that a hook's answer has.
pub proof fn lemma_envelope(output: JsonView)
    ensures
        json::field(intercept::hook_envelope(output), "hookSpecificOutput"@) matches Some(inner)
            && json::field(inner, "hookEventName"@) == Some(JsonView::Text("PostToolUse"@))
            && json::field(inner, "updatedToolOutput"@) == Some(output),
{
    reveal_strlit("hookEventName");
    reveal_strlit("updatedToolOutput");
    assert("hookEventName"@[0] == 'h' && "updatedToolOutput"@[0] == 'u');
    reveal_with_fuel(json::member_index, 3);
}

/// The answer to a search puts the message in place of the content. It keeps the
/// names of the files, all of them and in order, the mode and the counts.
pub proof fn lemma_search_answer(message: Seq<char>, mode: Seq<char>, resp: GrepToolResponse)
    ensures
        intercept_grep::grep_output(message, mode, resp) matches JsonView::Object(m) && m.len() == 5
            && m.contains(("content"@, JsonView::Text(message))) && m.contains(
            ("mode"@, JsonView::Text(mode)),
        ) && m.contains(("filenames"@, intercept_grep::names_tree(resp.filenames))) && m.contains(
            (
                "numFiles"@,
                JsonView::Number(
                    number::decimal(
                        match resp.num_files {
                            Some(n) => n as nat,
                            None => 0,
                        },
                    ),
                ),
            ),
        ) && m.contains(
            (
                "numMatches"@,
                JsonView::Number(
                    number::decimal(
                        match resp.num_matches {
                            Some(n) => n as nat,
                            None => 0,
                        },
                    ),
                ),
            ),
        ),
        resp.filenames matches Some(names) ==> intercept_grep::name_count(resp.filenames)
            == names@.len() && (intercept_grep::names_tree(resp.filenames) matches JsonView::Array(
            items,
        ) && items.len() == names@.len() && forall|i: int|
            0 <= i < names@.len() ==> #[trigger] items[i] == JsonView::Text(names@[i]@)),
        resp.filenames is None ==> intercept_grep::name_count(resp.filenames) == 0
            && intercept_grep::names_tree(resp.filenames) == JsonView::Array(seq![]),
{
    let m = intercept_grep::grep_output(message, mode, resp)->Object_0;
    assert(m.contains(m[0]) && m.contains(m[1]) && m.contains(m[2]));
    assert(m.contains(m[3]) && m.contains(m[4]));
}

/// What is known of a handle, as JSON, under its names; a truncated handle has a
/// note more.
pub proof fn lemma_inspect_members(info: InspectResult)
    ensures
        report::inspect_tree(info) matches JsonView::Object(m) && m.len() == (if info.truncated {
            14nat
        } else {
            13nat
        }) && m.contains(("id"@, JsonView::Text(info.id@))) && m.contains(
            ("tool"@, JsonView::Text(info.tool@)),
        ) && m.contains(("mode"@, JsonView::Text(info.output_mode@))) && m.contains(
            ("lines"@, json::optional_integer_tree(info.line_count)),
        ) && m.contains(("tokens"@, json::optional_integer_tree(info.token_est))) && m.contains(
            ("truncated"@, JsonView::Bool(info.truncated)),
        ) && m.contains(("compressed"@, json::optional_text_tree(info.compressed_method)))
            && m.contains(("cwd"@, json::optional_text_tree(info.cwd))) && m.contains(
            ("tool_input"@, json::optional_text_tree(info.tool_input)),
        ) && m.contains(("created_at"@, json::integer_tree(info.created_at as int))) && m.contains(
            ("retrieval_count"@, json::integer_tree(info.retrieval_count as int)),
        ) && m.contains(("last_retrieved_at"@, json::optional_integer_tree(info.last_retrieved_at))),
{
    let m = report::inspect_tree(info)->Object_0;
    assert(m.contains(m[0]) && m.contains(m[1]) && m.contains(m[2]) && m.contains(m[3]));
    assert(m.contains(m[4]) && m.contains(m[5]) && m.contains(m[6]) && m.contains(m[7]));
    assert(m.contains(m[8]) && m.contains(m[9]) && m.contains(m[10]) && m.contains(m[11]));
}

// ---------------------------------------------------------------------------
// Statistics
// ---------------------------------------------------------------------------

/// Text of one byte per character.
pub open spec fn is_ascii(s: Seq<char>) -> bool {
    forall|i: int| 0 <= i < s.len() ==> (#[trigger] s[i]) as u32 <= 0x7f
}

proof fn lemma_ascii_within(s: Seq<char>, max: int)
    requires
        is_ascii(s),
        0 <= max,
    ensures
        bytes::byte_len(s) == s.len(),
        bytes::chars_within(s, max) == if s.len() <= max {
            s.len() as int
        } else {
            max
        },
    decreases s.len(),
{
    if s.len() > 0 {
        bytes::lemma_byte_len_first(s);
        assert(s[0] as u32 <= 0x7f);
        let t = s.skip(1);
        assert forall|i: int| 0 <= i < t.len() implies (#[trigger] t[i]) as u32 <= 0x7f by {
            assert(t[i] == s[i + 1]);
        }
        if max == 0 {
            lemma_ascii_within(t, 0);
        } else {
            lemma_ascii_within(t, max - 1);
        }
    }
}

proof fn lemma_ascii_prefix(s: Seq<char>, k: int)
    requires
        is_ascii(s),
        0 <= k <= s.len(),
    ensures
        bytes::text_between(s, 0, k) == Some(s.take(k)),
{
    lemma_ascii_within(s, 0);
    lemma_ascii_within(s, k);
    let none = s.take(0);
    let part = s.take(k);
    assert(is_ascii(none));
    assert forall|i: int| 0 <= i < part.len() implies (#[trigger] part[i]) as u32 <= 0x7f by {
        assert(part[i] == s[i]);
    }
    lemma_ascii_within(none, 0);
    lemma_ascii_within(part, 0);
    assert(s.subrange(0, k) =~= s.take(k));
}

/// A time is shown by its day, the first ten characters, and an ID by its first
/// thirty-six; what is shorter is shown whole.
pub proof fn lemma_shortened(s: Seq<char>)
    requires
        is_ascii(s),
    ensures
        stats::short_date(s) == Some(
            if s.len() < 10 {
                s
            } else {
                s.take(10)
            },
        ),
        stats::short_id(s) == Some(
            if s.len() < 36 {
                s
            } else {
                s.take(36)
            },
        ),
{
    lemma_ascii_within(s, 0);
    lemma_ascii_prefix(s, s.len() as int);
    assert(s.take(s.len() as int) =~= s);
    if s.len() >= 10 {
        lemma_ascii_prefix(s, 10);
    }
    if s.len() >= 36 {
        lemma_ascii_prefix(s, 36);
    }
}

/// The range goes from the day of the earliest to the day of the latest, and is
/// empty where either is missing.
pub proof fn lemma_range(earliest: Seq<char>, latest: Seq<char>)
    requires
        is_ascii(earliest) && earliest.len() >= 10,
        is_ascii(latest) && latest.len() >= 10,
    ensures
        stats::range_text(Some(earliest), Some(latest)) == " ("@ + earliest.take(10)
            + " \u{2013} "@ + latest.take(10) + ")"@,
        stats::range_text(Some(earliest), None).len() == 0,
        stats::range_text(None, Some(latest)).len() == 0,
        stats::range_text(None, None).len() == 0,
{
    reveal_strlit("");
    lemma_shortened(earliest);
    lemma_shortened(latest);
}

/// A row of the table of sessions has five columns, each set to the right: for
/// cells that fit, every cell ends where the cells of the other rows end.
pub proof fn lemma_session_row(
    session: Seq<char>,
    tokens: Seq<char>,
    handles: Seq<char>,
    calls: Seq<char>,
    status: Seq<char>,
)
    requires
        session.len() <= 36,
        tokens.len() <= 8,
        handles.len() <= 8,
        calls.len() <= 6,
        status.len() <= 6,
    ensures
        ({
            let row = stats::session_row(session, tokens, handles, calls, status);
            &&& row.len() == 74
            &&& row.subrange(38 - session.len(), 38) == session
            &&& row.subrange(48 - tokens.len(), 48) == tokens
            &&& row.subrange(58 - handles.len(), 58) == handles
            &&& row.subrange(66 - calls.len(), 66) == calls
            &&& row.subrange(74 - status.len(), 74) == status
        }),
{
    reveal_strlit("  ");
    let gap = "  "@;
    let a = number::aligned_right(session, 36, ' ');
    let b = number::aligned_right(tokens, 8, ' ');
    let c = number::aligned_right(handles, 8, ' ');
    let d = number::aligned_right(calls, 6, ' ');
    let e = number::aligned_right(status, 6, ' ');
    let row = stats::session_row(session, tokens, handles, calls, status);
    lemma_cell(gap, session, 36, gap + b + gap + c + gap + d + gap + e);
    assert(row =~= gap + a + (gap + b + gap + c + gap + d + gap + e));
    lemma_cell(gap + a + gap, tokens, 8, gap + c + gap + d + gap + e);
    assert(row =~= gap + a + gap + b + (gap + c + gap + d + gap + e));
    lemma_cell(gap + a + gap + b + gap, handles, 8, gap + d + gap + e);
    assert(row =~= gap + a + gap + b + gap + c + (gap + d + gap + e));
    lemma_cell(gap + a + gap + b + gap + c + gap, calls, 6, gap + e);
    assert(row =~= gap + a + gap + b + gap + c + gap + d + (gap + e));
    lemma_cell(gap + a + gap + b + gap + c + gap + d + gap, status, 6, seq![]);
    assert(row =~= gap + a + gap + b + gap + c + gap + d + gap + e + seq![]);
}

proof fn lemma_cell(lead: Seq<char>, cell: Seq<char>, width: nat, rest: Seq<char>)
    requires
        cell.len() <= width,
    ensures
        ({
            let row = lead + number::aligned_right(cell, width, ' ') + rest;
            &&& row.len() == lead.len() + width + rest.len()
            &&& row.subrange(lead.len() + width - cell.len(), (lead.len() + width) as int) == cell
        }),
{
    let row = lead + number::aligned_right(cell, width, ' ') + rest;
    assert(row.subrange(lead.len() + width - cell.len(), (lead.len() + width) as int) =~= cell);
}

// ---------------------------------------------------------------------------
// The doctor
// ---------------------------------------------------------------------------

/// The age of the last interception is counted in whole days.
pub proof fn lemma_days(s: ScanView)
    ensures
        doctor::found_days_ago(s) matches Some(d) ==> (s.found matches Some(p) && (
        p.age_secs matches Some(secs) && d * 86_400 <= secs < (d + 1) * 86_400)),
        doctor::found_days_ago(s) is None <==> s.found is None || s.found->0.age_secs is None,
{
}

/// `line` stands in `s` from `k` on as a line of its own.
pub open spec fn line_at(s: Seq<char>, line: Seq<char>, k: int) -> bool {
    &&& 0 <= k && k + line.len() < s.len()
    &&& k == 0 || s[k - 1] == '\n'
    &&& s.subrange(k, k + line.len()) == line
    &&& s[k + line.len()] == '\n'
}

/// `s` has the line `line`.
pub open spec fn has_line(s: Seq<char>, line: Seq<char>) -> bool {
    exists|k: int| line_at(s, line, k)
}

/// Nothing, or text that ends a line.
pub open spec fn is_ended(s: Seq<char>) -> bool {
    s.len() == 0 || s.last() == '\n'
}

proof fn lemma_lines_stay(a: Seq<char>, b: Seq<char>)
    requires
        is_ended(a),
    ensures
        forall|x: Seq<char>| has_line(a, x) || has_line(b, x) ==> #[trigger] has_line(a + b, x),
        is_ended(b) ==> is_ended(a + b),
{
    let s = a + b;
    assert forall|x: Seq<char>| has_line(a, x) || has_line(b, x) implies #[trigger] has_line(
        s,
        x,
    ) by {
        if has_line(a, x) {
            let k = choose|k: int| line_at(a, x, k);
            assert(s.subrange(k, k + x.len()) =~= a.subrange(k, k + x.len()));
            assert(line_at(s, x, k));
        } else {
            let k = choose|k: int| line_at(b, x, k);
            let n = a.len() + k;
            assert(s.subrange(n, n + x.len()) =~= b.subrange(k, k + x.len()));
            assert(line_at(s, x, n));
        }
    }
}

proof fn lemma_fact(lead: Seq<char>, label: Seq<char>, value: Seq<char>)
    requires
        is_ended(lead),
    ensures
        has_line(lead + doctor::line(label, value), label + value),
        forall|x: Seq<char>|
            has_line(lead, x) ==> #[trigger] has_line(lead + doctor::line(label, value), x),
        is_ended(lead + doctor::line(label, value)),
        is_ended(doctor::line(label, value)),
        has_line(doctor::line(label, value), label + value),
{
    reveal_strlit("\n");
    let line = doctor::line(label, value);
    assert(line.subrange(0, (label + value).len() as int) =~= label + value);
    assert(line_at(line, label + value, 0));
    lemma_lines_stay(lead, line);
}

/// The report of the doctor has a line for every fact about the session, with a
/// dash for what is not known.
pub proof fn lemma_session_facts(r: DoctorReport)
    ensures
        ({
            let s = doctor::session_lines(r);
            &&& is_ended(s)
            &&& has_line(s, "ctxl v"@ + r.version@)
            &&& has_line(s, "cache_root:      "@ + r.cache_root@)
            &&& has_line(s, "binary:          "@ + text_shown(r.binary_path))
            &&& has_line(s, "session_id:      "@ + text_shown(r.session_id))
            &&& has_line(s, "db_path:         "@ + text_shown(r.db_path))
            &&& has_line(
                s,
                "db_exists:       "@ + if r.db_exists {
                    "true"@
                } else {
                    "false"@
                },
            )
            &&& has_line(
                s,
                "schema_version:  "@ + match r.schema_version {
                    Some(v) => number::signed_decimal(v as int),
                    None => "\u{2014}"@,
                },
            )
            &&& has_line(s, "handles:         "@ + count_shown(r.handle_count))
            &&& has_line(s, "calls:           "@ + count_shown(r.calls_count))
            &&& has_line(s, "intercepted:     "@ + count_shown(r.intercepted_count))
            &&& has_line(s, "retrieved:       "@ + count_shown(r.retrieved_count))
            &&& has_line(s, "retrieval_total: "@ + count_shown(r.retrieval_total))
        }),
{
    reveal_strlit("—");
    reveal_strlit("\u{2014}");
    assert("—"@ =~= "\u{2014}"@);
    let a1 = doctor::line("ctxl v"@, r.version@);
    lemma_fact(seq![], "ctxl v"@, r.version@);
    lemma_fact(a1, "binary:          "@, doctor::text_or_dash(r.binary_path));
    let a2 = a1 + doctor::line("binary:          "@, doctor::text_or_dash(r.binary_path));
    lemma_fact(a2, "cache_root:      "@, r.cache_root@);
    let a3 = a2 + doctor::line("cache_root:      "@, r.cache_root@);
    lemma_fact(a3, "session_id:      "@, doctor::text_or_dash(r.session_id));
    let a4 = a3 + doctor::line("session_id:      "@, doctor::text_or_dash(r.session_id));
    lemma_fact(a4, "db_path:         "@, doctor::text_or_dash(r.db_path));
    let a5 = a4 + doctor::line("db_path:         "@, doctor::text_or_dash(r.db_path));
    lemma_fact(a5, "db_exists:       "@, doctor::truth(r.db_exists));
    let a6 = a5 + doctor::line("db_exists:       "@, doctor::truth(r.db_exists));
    lemma_fact(a6, "schema_version:  "@, doctor::version_or_dash(r.schema_version));
    let a7 = a6 + doctor::line("schema_version:  "@, doctor::version_or_dash(r.schema_version));
    lemma_fact(a7, "handles:         "@, doctor::number_or_dash(r.handle_count));
    let a8 = a7 + doctor::line("handles:         "@, doctor::number_or_dash(r.handle_count));
    lemma_fact(a8, "calls:           "@, doctor::number_or_dash(r.calls_count));
    let a9 = a8 + doctor::line("calls:           "@, doctor::number_or_dash(r.calls_count));
    lemma_fact(a9, "intercepted:     "@, doctor::number_or_dash(r.intercepted_count));
    let a10 = a9 + doctor::line("intercepted:     "@, doctor::number_or_dash(r.intercepted_count));
    lemma_fact(a10, "retrieved:       "@, doctor::number_or_dash(r.retrieved_count));
    let a11 = a10 + doctor::line("retrieved:       "@, doctor::number_or_dash(r.retrieved_count));
    lemma_fact(a11, "retrieval_total: "@, doctor::number_or_dash(r.retrieval_total));
}

/// A text as the report shows it.
pub open spec fn text_shown(s: Option<String>) -> Seq<char> {
    match s {
        Some(t) => t@,
        None => "\u{2014}"@,
    }
}

/// A count as the report shows it.
pub open spec fn count_shown(n: Option<i64>) -> Seq<char> {
    match n {
        Some(v) => number::signed_decimal(v as int),
        None => "\u{2014}"@,
    }
}

/// A switch as the report shows it.
pub open spec fn switch_shown(b: bool) -> Seq<char> {
    if b {
        "yes"@
    } else {
        "no"@
    }
}

/// The report says whether the hook is enabled, which file disables it, whether
/// calls are recorded, and whether `jq` is there.
pub proof fn lemma_hook_facts(r: DoctorReport)
    ensures
        ({
            let s = doctor::hook_lines(r);
            &&& is_ended(s)
            &&& has_line(s, "hook_enabled:    "@ + switch_shown(r.hook_enabled))
            &&& r.disabled_file matches Some(f) ==> has_line(s, "disabled_file:   "@ + f@)
            &&& has_line(s, "norecord:        "@ + switch_shown(r.norecord))
            &&& has_line(s, "jq_available:    "@ + switch_shown(r.jq_available))
        }),
{
    let a1 = doctor::line("hook_enabled:    "@, doctor::yes_no(r.hook_enabled));
    lemma_fact(seq![], "hook_enabled:    "@, doctor::yes_no(r.hook_enabled));
    let a2 = a1 + match r.disabled_file {
        Some(f) => doctor::line("disabled_file:   "@, f@),
        None => seq![],
    };
    match r.disabled_file {
        Some(f) => {
            lemma_fact(a1, "disabled_file:   "@, f@);
        },
        None => {
            assert(a2 =~= a1);
        },
    }
    lemma_fact(a2, "norecord:        "@, doctor::yes_no(r.norecord));
    let a3 = a2 + doctor::line("norecord:        "@, doctor::yes_no(r.norecord));
    lemma_fact(a3, "jq_available:    "@, doctor::yes_no(r.jq_available));
}

/// The report names the thresholds in force.
pub proof fn lemma_threshold_facts(t: Thresholds)
    ensures
        ({
            let s = doctor::threshold_lines(t);
            &&& is_ended(s)
            &&& has_line(s, "  bash_bytes:    "@ + number::decimal(t.bash_bytes as nat))
            &&& has_line(s, "  bash_lines:    "@ + number::decimal(t.bash_lines as nat))
            &&& has_line(s, "  grep_lines:    "@ + number::decimal(t.grep_lines as nat))
        }),
{
    reveal_strlit("\nThresholds:\n");
    let a0 = "\nThresholds:\n"@;
    lemma_fact(a0, "  bash_bytes:    "@, number::decimal(t.bash_bytes as nat));
    let a1 = a0 + doctor::line("  bash_bytes:    "@, number::decimal(t.bash_bytes as nat));
    lemma_fact(a1, "  bash_lines:    "@, number::decimal(t.bash_lines as nat));
    let a2 = a1 + doctor::line("  bash_lines:    "@, number::decimal(t.bash_lines as nat));
    lemma_fact(a2, "  grep_lines:    "@, number::decimal(t.grep_lines as nat));
}

/// The report tells when something was captured last, how many sessions have
/// been quiet since, and the warning where there is one.
pub proof fn lemma_liveness_facts(l: Liveness)
    ensures
        ({
            let s = doctor::liveness_lines(l);
            &&& is_ended(s)
            &&& has_line(
                s,
                "  last_interception:     "@ + match l.last_interception_days_ago {
                    Some(d) => "~"@ + number::decimal(d as nat) + "d ago"@,
                    None => "none in "@ + number::decimal(l.scanned_sessions as nat)
                        + " recent sessions"@,
                },
            )
            &&& has_line(
                s,
                "  recent_quiet_sessions: "@ + number::decimal(l.recent_quiet_sessions as nat),
            )
            &&& l.warning matches Some(w) ==> has_line(s, "  WARNING: "@ + w@)
        }),
{
    reveal_strlit("\nLiveness:\n");
    let a0 = "\nLiveness:\n"@;
    lemma_fact(a0, "  last_interception:     "@, doctor::last_interception(l));
    let a1 = a0 + doctor::line("  last_interception:     "@, doctor::last_interception(l));
    lemma_fact(a1, "  recent_quiet_sessions: "@, number::decimal(l.recent_quiet_sessions as nat));
    let a2 = a1 + doctor::line(
        "  recent_quiet_sessions: "@,
        number::decimal(l.recent_quiet_sessions as nat),
    );
    match l.warning {
        Some(w) => {
            lemma_fact(a2, "  WARNING: "@, w@);
        },
        None => {
            assert(doctor::liveness_lines(l) =~= a2);
        },
    }
}

/// Every line about the session, the hook, the thresholds and the liveness is a
/// line of the report.
pub proof fn lemma_report_lines(r: DoctorReport, line: Seq<char>)
    requires
        has_line(doctor::session_lines(r), line) || has_line(doctor::hook_lines(r), line)
            || has_line(doctor::threshold_lines(r.thresholds), line) || has_line(
            doctor::liveness_lines(r.liveness),
            line,
        ),
    ensures
        has_line(doctor::human_report(r), line),
{
    lemma_session_facts(r);
    lemma_hook_facts(r);
    lemma_threshold_facts(r.thresholds);
    let a = doctor::session_lines(r);
    let b = doctor::hook_lines(r);
    let c = doctor::threshold_lines(r.thresholds);
    let d = doctor::liveness_lines(r.liveness);
    lemma_lines_stay(a, b);
    lemma_lines_stay(a + b, c);
    lemma_lines_stay(a + b + c, d);
    assert(has_line(a, line) || has_line(b, line) ==> has_line(a + b, line));
    assert(has_line(a + b, line) || has_line(c, line) ==> has_line(a + b + c, line));
    assert(has_line(a + b + c, line) || has_line(d, line) ==> has_line(a + b + c + d, line));
}

/// The warning counts the sessions without interception, and tells how long ago
/// the last one was, or how many sessions were looked at in vain.
pub proof fn lemma_warning(s: ScanView)
    ensures
        ("no interception in the last "@ + number::decimal(s.quiet)
            + " sessions ("@).is_prefix_of(doctor::quiet_warning(s)),
        doctor::found_days_ago(s) matches Some(d) ==> ("no interception in the last "@
            + number::decimal(s.quiet) + " sessions ("@ + ("last handle written ~"@
            + number::decimal(d as nat) + "d ago"@)).is_prefix_of(doctor::quiet_warning(s)),
        doctor::found_days_ago(s) is None ==> ("no interception in the last "@ + number::decimal(
            s.quiet,
        ) + " sessions ("@ + ("none found in "@ + number::decimal(s.scanned)
            + " recent sessions"@)).is_prefix_of(doctor::quiet_warning(s)),
{
}

// ---------------------------------------------------------------------------
// Figures
// ---------------------------------------------------------------------------

/// A number is its magnitude behind its sign.
pub proof fn lemma_sign(n: int)
    ensures
        n >= 0 ==> figures::magnitude(n) == n && figures::sign(n).len() == 0,
        n < 0 ==> figures::magnitude(n) == -n && figures::sign(n) == "-"@,
{
    reveal_strlit("");
}

/// A count that could not be read is zero, and a store has calls where it has the
/// table of them.
pub proof fn lemma_counts(n: i64, c: SessionCounts)
    ensures
        global_db::or_zero(Some(n)) == n,
        global_db::or_zero(None) == 0,
        global_db::has_calls(c) <==> (c.calls_tables matches Some(k) && k > 0),
{
}

/// Before the first session there is one line. After that the headline is
/// followed by an empty line and five lines of totals, each with its figures.
pub proof fn lemma_stats_lines(f: StatsFigures, sessions: int, range: Seq<char>)
    ensures
        sessions == 0 ==> stats::stats_lines(f, sessions, range).len() == 1,
        sessions != 0 ==> ({
            let lines = stats::stats_lines(f, sessions, range);
            &&& lines.len() == 7
            &&& lines[0] == stats::headline(f, sessions, range)
            &&& lines[1].len() == 0
            &&& ("  Saved    "@ + number::aligned_right(f.saved@, 12, ' ')).is_prefix_of(lines[2])
            &&& ends_in(lines[2], f.intercepted@ + " intercepted \u{2212} "@ + f.retrieval@
                + " retrieval)"@)
            &&& ("  Efficiency    "@ + number::aligned_right(
                number::decimal(f.efficiency as nat),
                4,
                ' ',
            )).is_prefix_of(lines[3])
            &&& f.efficiency <= 100 ==> ends_in(
                lines[3],
                "only "@ + number::decimal((100 - f.efficiency) as nat)
                    + "% of captured content was retrieved"@,
            )
            &&& ("  Per session "@ + number::aligned_right(
                f.per_session@,
                6,
                ' ',
            )).is_prefix_of(lines[4])
            &&& ("  Handles    "@ + number::aligned_right(f.handles@, 7, ' ')).is_prefix_of(
                lines[5],
            )
            &&& ends_in(lines[5], f.handles_retrieved@ + " retrieved ("@ + number::decimal(
                f.utilization as nat,
            ) + "% utilization)"@)
            &&& ("  Calls      "@ + number::aligned_right(f.calls@, 7, ' ')).is_prefix_of(lines[6])
            &&& ends_in(lines[6], f.calls_intercepted@ + " intercepted ("@ + number::decimal(
                f.capture_rate as nat,
            ) + "% capture rate)"@)
        }),
{
    if sessions != 0 {
        lemma_saved_line(f);
        lemma_efficiency_line(f);
        lemma_per_session_line(f);
        lemma_handles_line(f);
        lemma_calls_line(f);
        reveal_strlit("");
    }
}

/// `s` ends in `end`.
pub open spec fn ends_in(s: Seq<char>, end: Seq<char>) -> bool {
    exists|lead: Seq<char>| s == #[trigger] (lead + end)
}

proof fn lemma_saved_line(f: StatsFigures)
    ensures
        ("  Saved    "@ + number::aligned_right(f.saved@, 12, ' ')).is_prefix_of(
            stats::totals_lines(f)[0],
        ),
        ends_in(
            stats::totals_lines(f)[0],
            f.intercepted@ + " intercepted \u{2212} "@ + f.retrieval@ + " retrieval)"@,
        ),
{
    let line = stats::totals_lines(f)[0];
    let lead = "  Saved    "@ + number::aligned_right(f.saved@, 12, ' ') + " tokens net  ("@;
    let end = f.intercepted@ + " intercepted \u{2212} "@ + f.retrieval@ + " retrieval)"@;
    assert(line =~= lead + end);
}

proof fn lemma_efficiency_line(f: StatsFigures)
    ensures
        ("  Efficiency    "@ + number::aligned_right(
            number::decimal(f.efficiency as nat),
            4,
            ' ',
        )).is_prefix_of(stats::totals_lines(f)[1]),
        f.efficiency <= 100 ==> ends_in(
            stats::totals_lines(f)[1],
            "only "@ + number::decimal((100 - f.efficiency) as nat)
                + "% of captured content was retrieved"@,
        ),
{
    reveal_strlit("%             only ");
    reveal_strlit("%             ");
    reveal_strlit("only ");
    let line = stats::totals_lines(f)[1];
    let first = "  Efficiency    "@ + number::aligned_right(
        number::decimal(f.efficiency as nat),
        4,
        ' ',
    );
    let rest = number::decimal(stats::remainder(f.efficiency as nat))
        + "% of captured content was retrieved"@;
    assert("%             only "@ =~= "%             "@ + "only "@);
    assert(line =~= first + "%             "@ + ("only "@ + rest));
    assert("only "@ + rest =~= "only "@ + number::decimal(stats::remainder(f.efficiency as nat))
        + "% of captured content was retrieved"@);
}

proof fn lemma_per_session_line(f: StatsFigures)
    ensures
        ("  Per session "@ + number::aligned_right(f.per_session@, 6, ' ')).is_prefix_of(
            stats::totals_lines(f)[2],
        ),
{
}

proof fn lemma_handles_line(f: StatsFigures)
    ensures
        ("  Handles    "@ + number::aligned_right(f.handles@, 7, ' ')).is_prefix_of(
            stats::totals_lines(f)[3],
        ),
        ends_in(
            stats::totals_lines(f)[3],
            f.handles_retrieved@ + " retrieved ("@ + number::decimal(f.utilization as nat)
                + "% utilization)"@,
        ),
{
    let line = stats::totals_lines(f)[3];
    let lead = "  Handles    "@ + number::aligned_right(f.handles@, 7, ' ') + " created      "@;
    let end = f.handles_retrieved@ + " retrieved ("@ + number::decimal(f.utilization as nat)
        + "% utilization)"@;
    assert(line =~= lead + end);
}

proof fn lemma_calls_line(f: StatsFigures)
    ensures
        ("  Calls      "@ + number::aligned_right(f.calls@, 7, ' ')).is_prefix_of(
            stats::totals_lines(f)[4],
        ),
        ends_in(
            stats::totals_lines(f)[4],
            f.calls_intercepted@ + " intercepted ("@ + number::decimal(f.capture_rate as nat)
                + "% capture rate)"@,
        ),
{
    let line = stats::totals_lines(f)[4];
    let lead = "  Calls      "@ + number::aligned_right(f.calls@, 7, ' ') + " recorded     "@;
    let end = f.calls_intercepted@ + " intercepted ("@ + number::decimal(f.capture_rate as nat)
        + "% capture rate)"@;
    assert(line =~= lead + end);
}

/// The headline tells what was saved in how many sessions, and the share of it
/// where there is one.
pub proof fn lemma_headline(f: StatsFigures, sessions: int, range: Seq<char>)
    ensures
        ("ctxl has saved ~"@ + f.saved@ + " tokens across "@ + number::signed_decimal(sessions) + (
        if sessions == 1 {
            " session"@
        } else {
            " sessions"@
        }) + range + "."@).is_prefix_of(stats::headline(f, sessions, range)),
        f.efficiency == 0 ==> stats::headline(f, sessions, range).last() == '.',
        f.efficiency > 0 ==> ends_in(
            stats::headline(f, sessions, range),
            "\nThat's "@ + number::decimal(f.efficiency as nat)
                + "% of intercepted content you never had to read."@,
        ),
{
    reveal_strlit(".");
    reveal_strlit("");
}

// ---------------------------------------------------------------------------
// Paths
// ---------------------------------------------------------------------------

/// Logs and marks of a session are files in the directory for temporary files,
/// `/tmp` where none is named.
pub proof fn lemma_temporary_files(dir: Seq<char>, sid: Seq<char>)
    requires
        dir.len() > 0 && dir.last() != '/',
    ensures
        debug::log_path(Some(dir)) == dir + "/"@ + "ctxl-debug.log"@,
        debug::log_path(None) == "/tmp/ctxl-debug.log"@,
        session::norecord_path(Some(dir), sid) == dir + "/"@ + ("ctxl-norecord-"@ + sid),
        session::norecord_path(None, sid) == "/tmp/ctxl-norecord-"@ + sid,
{
    reveal_strlit("ctxl-debug.log");
    reveal_strlit("ctxl-norecord-");
    reveal_strlit("/tmp");
    reveal_strlit("/");
    reveal_strlit("/tmp/ctxl-debug.log");
    reveal_strlit("/tmp/ctxl-norecord-");
    assert("ctxl-debug.log"@[0] == 'c' && "/tmp"@.last() == 'p');
    assert(("ctxl-norecord-"@ + sid)[0] == 'c');
    assert("/tmp"@ + "/"@ + "ctxl-debug.log"@ =~= "/tmp/ctxl-debug.log"@);
    assert("/tmp"@ + "/"@ + ("ctxl-norecord-"@ + sid) =~= "/tmp/ctxl-norecord-"@ + sid);
}

/// The store of a session lies in its directory, and the one of all sessions
/// beside the directories.
pub proof fn lemma_store_files(root: Seq<char>, sid: Seq<char>)
    requires
        root.len() > 0 && root.last() != '/',
        sid.len() > 0 && sid[0] != '/' && sid.last() != '/',
    ensures
        doctor::store_path(root, sid) == root + "/ctxl/"@ + sid + "/store.db"@,
        global_db::global_path(root) == root + "/ctxl/global.db"@,
{
    session_laws::lemma_session_path(root, sid);
    reveal_strlit("ctxl");
    reveal_strlit("/");
    reveal_strlit("store.db");
    reveal_strlit("/store.db");
    reveal_strlit("global.db");
    reveal_strlit("/ctxl/global.db");
    assert("store.db"@[0] == 's' && "global.db"@[0] == 'g' && "ctxl"@[0] == 'c');
    let dir = root + "/ctxl/"@ + sid;
    assert(dir.last() == sid.last());
    assert(dir + "/"@ + "store.db"@ =~= dir + "/store.db"@);
    let base = root + "/"@ + "ctxl"@;
    assert(base.last() == 'l');
    assert(base + "/"@ + "global.db"@ =~= root + "/ctxl/global.db"@);
}

// ---------------------------------------------------------------------------
// Messages
// ---------------------------------------------------------------------------

/// A handle that is not found is named, with a hint where it does not look like
/// one of the three kinds.
pub proof fn lemma_handle_not_found(id: String)
    ensures
        id@.len() >= 2 && (id@[0] == 'b' || id@[0] == 'g' || id@[0] == 'i') && id@[1] == '_'
            ==> error::error_message(CtxlError::HandleNotFound(id)) == "handle not found: "@ + id@,
        id@.len() < 2 || (id@[0] != 'b' && id@[0] != 'g' && id@[0] != 'i') || id@[1] != '_'
            ==> error::error_message(CtxlError::HandleNotFound(id)) == "handle not found: "@ + id@
            + error::handle_hint(),
{
    reveal_strlit("b_");
    reveal_strlit("g_");
    reveal_strlit("i_");
    if id@.len() >= 2 && id@[1] == '_' {
        if id@[0] == 'b' {
            assert("b_"@ =~= id@.subrange(0, 2));
        } else if id@[0] == 'g' {
            assert("g_"@ =~= id@.subrange(0, 2));
        } else if id@[0] == 'i' {
            assert("i_"@ =~= id@.subrange(0, 2));
        }
    }
    assert("b_"@[0] == 'b' && "b_"@[1] == '_');
    assert("g_"@[0] == 'g' && "g_"@[1] == '_');
    assert("i_"@[0] == 'i' && "i_"@[1] == '_');
    if "b_"@.is_prefix_of(id@) {
        assert(id@.subrange(0, 2)[0] == id@[0] && id@.subrange(0, 2)[1] == id@[1]);
    }
    if "g_"@.is_prefix_of(id@) {
        assert(id@.subrange(0, 2)[0] == id@[0] && id@.subrange(0, 2)[1] == id@[1]);
    }
    if "i_"@.is_prefix_of(id@) {
        assert(id@.subrange(0, 2)[0] == id@[0] && id@.subrange(0, 2)[1] == id@[1]);
    }
}

/// A failure of a store, of JSON, of files or of the index is told by its place
/// and its cause.
pub proof fn lemma_causes(cause: String, found: i32, expected: i32)
    ensures
        error::error_message(CtxlError::Sqlite(cause)) == "sqlite: "@ + cause@,
        error::error_message(CtxlError::Json(cause)) == "json: "@ + cause@,
        error::error_message(CtxlError::Io(cause)) == "io: "@ + cause@,
        error::error_message(CtxlError::Index(cause)) == "index: "@ + cause@,
        error::error_message(CtxlError::InvalidTtl(cause)) == "invalid TTL: "@ + cause@,
        error::error_message(CtxlError::RegexInQuery(cause)) == cause@,
        error::error_message(CtxlError::Db(DbError::Sqlite(cause))) == "sqlite: "@ + cause@,
        error::error_message(CtxlError::Db(DbError::Io(cause))) == "io: "@ + cause@,
        error::error_message(CtxlError::Db(DbError::VersionMismatch { found, expected }))
            == "schema version mismatch: found "@ + number::signed_decimal(found as int)
            + ", expected "@ + number::signed_decimal(expected as int),
        global_db::global_message(GlobalDbError::Sqlite(cause)) == "global db sqlite: "@ + cause@,
        global_db::global_message(GlobalDbError::Io(cause)) == "global db io: "@ + cause@,
        global_db::global_message(GlobalDbError::RegexInQuery(cause)) == cause@,
{
}

/// What was indexed is told with its size, the handle it is found under and how
/// to read and search it. A hint that found something lists every match, in order
/// and each on a line of its own; without one nothing more is told.
pub proof fn lemma_index_output(r: IndexResult)
    ensures
        ("[ctxl] Indexed ("@ + number::decimal(r.line_count as nat) + " lines, "@
            + number::decimal(r.byte_count as nat) + " bytes) \u{2192} "@
            + r.handle_id@).is_prefix_of(index::index_output(r)),
        r.hint_query is None || r.hint_matches@.len() == 0 ==> ends_in(
            index::index_output(r),
            r.handle_id@ + "  \u{00b7}  ctxl search "@ + r.handle_id@ + " <query>"@,
        ),
        r.hint_query matches Some(q) ==> r.hint_matches@.len() > 0 ==> ends_in(
            index::index_output(r),
            "\n\n--- Hint: \""@ + q@ + "\" ("@ + number::decimal(r.hint_matches@.len())
                + " matches) ---"@ + ("\n"@ + pieces::joined(
                text::texts(r.hint_matches@),
                "\n"@,
            )),
        ),
{
    let h = r.handle_id@;
    let first = "[ctxl] Indexed ("@ + number::decimal(r.line_count as nat) + " lines, "@
        + number::decimal(r.byte_count as nat) + " bytes) \u{2192} "@ + h;
    let end = h + "  \u{00b7}  ctxl search "@ + h + " <query>"@;
    let head = index::indexed_line(h, r.line_count as nat, r.byte_count as nat);
    assert(head =~= first + "\nRun: ctxl show "@ + end);
    match r.hint_query {
        Some(q) => {
            if r.hint_matches@.len() > 0 {
                let lines = text::texts(r.hint_matches@);
                capture_laws::lemma_appended_lines(lines);
                let note = "\n\n--- Hint: \""@ + q@ + "\" ("@ + number::decimal(
                    r.hint_matches@.len(),
                ) + " matches) ---"@;
                let listed = "\n"@ + pieces::joined(lines, "\n"@);
                assert(index::index_output(r) =~= head + (note + listed));
                assert(first =~= index::index_output(r).subrange(0, first.len() as int));
            }
        },
        None => {},
    }
}

/// A search that finds nothing says what was looked for and where, and explains
/// hyphens where the query has one.
pub proof fn lemma_nothing_found(q: Seq<char>, handle: Seq<char>)
    ensures
        ("no results for \""@ + q + "\" in "@ + handle).is_prefix_of(
            request::none_in_handle_text(q, handle),
        ),
        !q.contains('-') ==> request::none_in_handle_text(q, handle) == "no results for \""@ + q
            + "\" in "@ + handle,
        q.contains('-') ==> ends_in(
            request::none_in_handle_text(q, handle),
            " (FTS5 treats - as a token boundary; try the exact compound token instead)"@,
        ),
{
}

/// What the cache had is told apart: a hit with the blob and its time, a miss by
/// its reason, and a cache that could not be asked by its.
pub proof fn lemma_cache_outcome(blob_id: i64, created_at: String, reason: String)
    ensures
        cache::outcome_text(CacheCheckResult::Hit { blob_id, created_at }) == "cache hit: blob_id="@
            + number::signed_decimal(blob_id as int) + ", stored "@ + created_at@,
        cache::outcome_text(CacheCheckResult::Unavailable(reason)) == "cache unavailable: "@
            + reason@,
        "cache miss: "@.is_prefix_of(cache::outcome_text(CacheCheckResult::MissHeadChanged)),
        "cache miss: "@.is_prefix_of(cache::outcome_text(CacheCheckResult::MissNoMatch)),
        cache::outcome_text(CacheCheckResult::MissHeadChanged) != cache::outcome_text(
            CacheCheckResult::MissNoMatch,
        ),
{
    reveal_strlit("cache miss: ");
    reveal_strlit("cache miss: git_head changed");
    reveal_strlit("cache miss: no match");
    assert("cache miss: "@ =~= "cache miss: git_head changed"@.subrange(0, 12));
    assert("cache miss: "@ =~= "cache miss: no match"@.subrange(0, 12));
    assert("cache miss: git_head changed"@.len() != "cache miss: no match"@.len());
}

} // verus!
