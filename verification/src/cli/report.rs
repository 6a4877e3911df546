//! What is told of handles.

use crate::cli::epoch;
use crate::error::joined_text;
use crate::json;
use crate::json::{Json, JsonView};
use crate::number;
use crate::retrieve::rows::{HandleEntry, InspectResult};
use crate::text;
use vstd::prelude::*;
use vstd::string::*;

verus! {

// ---------------------------------------------------------------------------
// One handle
// ---------------------------------------------------------------------------

/// The commands that are suggested for a handle.
pub open spec fn suggestions(id: Seq<char>, tool: Seq<char>) -> Seq<Seq<char>> {
    let show = "ctxl show "@ + id;
    let search = "ctxl search "@ + id + " \"query\""@;
    if tool == "Grep"@ {
        seq![show, "ctxl files "@ + id, search]
    } else {
        seq![show, search]
    }
}

/// The commands that are suggested for a handle.
pub fn suggest(id: &str, tool: &str) -> (out: Vec<String>)
    ensures
        text::texts(out@) == suggestions(id@, tool@),
{
    let mut out: Vec<String> = Vec::new();
    out.push(joined_text("ctxl show ", id));
    if text::same_text(tool, "Grep") {
        out.push(joined_text("ctxl files ", id));
    }
    let mut search = joined_text("ctxl search ", id);
    search.append(" \"query\"");
    out.push(search);
    assert(text::texts(out@) =~= suggestions(id@, tool@));
    out
}

/// A text, or a dash in its place.
pub open spec fn text_or_dash(s: Option<String>) -> Seq<char> {
    match s {
        Some(t) => t@,
        None => "—"@,
    }
}

fn show_text(s: &Option<String>) -> (r: String)
    ensures
        r@ == text_or_dash(*s),
{
    match s {
        Some(t) => t.clone(),
        None => "—".to_owned(),
    }
}

/// A number behind a mark, or a dash in its place.
pub open spec fn number_or_dash(mark: Seq<char>, n: Option<i64>) -> Seq<char> {
    match n {
        Some(i) => mark + number::signed_decimal(i as int),
        None => "—"@,
    }
}

fn show_number(mark: &str, n: Option<i64>) -> (r: String)
    ensures
        r@ == number_or_dash(mark@, n),
{
    match n {
        Some(i) => {
            let mut s = mark.to_owned();
            number::push_signed(&mut s, i);
            s
        },
        None => "—".to_owned(),
    }
}

/// A point in time, or a dash in its place.
pub open spec fn time_or_dash(t: Option<i64>) -> Seq<char> {
    match t {
        Some(e) => epoch::shown_time(e as int),
        None => "—"@,
    }
}

fn show_time(t: Option<i64>) -> (r: String)
    ensures
        r@ == time_or_dash(t),
{
    match t {
        Some(e) => epoch::chrono_format(e),
        None => "—".to_owned(),
    }
}

/// The lines that tell of a handle, before the suggestions.
pub open spec fn inspect_facts(info: InspectResult) -> Seq<Seq<char>> {
    let first = seq![
        "handle:      "@ + info.id@,
        "tool:        "@ + info.tool@,
        "mode:        "@ + info.output_mode@,
        "lines:       "@ + number_or_dash(""@, info.line_count),
        "tokens:      "@ + number_or_dash("~"@, info.token_est),
        "truncated:   "@ + if info.truncated {
            "yes"@
        } else {
            "no"@
        },
        "compressed:  "@ + text_or_dash(info.compressed_method),
        "cwd:         "@ + text_or_dash(info.cwd),
    ];
    let input = match info.tool_input {
        Some(t) => seq!["tool_input:  "@ + t@],
        None => seq![],
    };
    let last = seq![
        "created:     "@ + epoch::shown_time(info.created_at as int),
        "retrievals:  "@ + number::signed_decimal(info.retrieval_count as int),
        "last_retrieved: "@ + time_or_dash(info.last_retrieved_at),
    ];
    let note = if info.truncated {
        seq![""@, "Note: content is partial — search covers stored lines only"@]
    } else {
        seq![]
    };
    first + input + last + note
}

/// The lines that tell of a handle.
pub open spec fn inspect_lines(info: InspectResult) -> Seq<Seq<char>> {
    inspect_facts(info) + seq![""@, "Suggested:"@] + suggestions(info.id@, info.tool@).map_values(
        |s: Seq<char>| "  "@ + s,
    )
}

fn push_fact(out: &mut Vec<String>, label: &str, value: &str)
    ensures
        text::texts(final(out)@) == text::texts(old(out)@).push(label@ + value@),
{
    let ghost before = text::texts(out@);
    out.push(joined_text(label, value));
    assert(text::texts(out@) =~= before.push(label@ + value@));
}

fn push_line(out: &mut Vec<String>, line: &str)
    ensures
        text::texts(final(out)@) == text::texts(old(out)@).push(line@),
{
    let ghost before = text::texts(out@);
    out.push(line.to_owned());
    assert(text::texts(out@) =~= before.push(line@));
}

fn write_facts(info: &InspectResult) -> (out: Vec<String>)
    ensures
        text::texts(out@) == inspect_facts(*info),
{
    let mut out: Vec<String> = Vec::new();
    let lines = show_number("", info.line_count);
    let tokens = show_number("~", info.token_est);
    let method = show_text(&info.compressed_method);
    let cwd = show_text(&info.cwd);
    let created = epoch::chrono_format(info.created_at);
    let retrievals = number::signed_string(info.retrieval_count);
    let last = show_time(info.last_retrieved_at);
    push_fact(&mut out, "handle:      ", info.id.as_str());
    push_fact(&mut out, "tool:        ", info.tool.as_str());
    push_fact(&mut out, "mode:        ", info.output_mode.as_str());
    push_fact(&mut out, "lines:       ", lines.as_str());
    push_fact(&mut out, "tokens:      ", tokens.as_str());
    if info.truncated {
        push_fact(&mut out, "truncated:   ", "yes");
    } else {
        push_fact(&mut out, "truncated:   ", "no");
    }
    push_fact(&mut out, "compressed:  ", method.as_str());
    push_fact(&mut out, "cwd:         ", cwd.as_str());
    if let Some(t) = &info.tool_input {
        push_fact(&mut out, "tool_input:  ", t.as_str());
    }
    push_fact(&mut out, "created:     ", created.as_str());
    push_fact(&mut out, "retrievals:  ", retrievals.as_str());
    push_fact(&mut out, "last_retrieved: ", last.as_str());
    if info.truncated {
        push_line(&mut out, "");
        push_line(&mut out, "Note: content is partial — search covers stored lines only");
    }
    assert(text::texts(out@) =~= inspect_facts(*info));
    out
}

/// The lines that tell of a handle.
pub fn inspect_human(info: &InspectResult) -> (out: Vec<String>)
    ensures
        text::texts(out@) == inspect_lines(*info),
{
    let mut out = write_facts(info);
    push_line(&mut out, "");
    push_line(&mut out, "Suggested:");
    let suggested = suggest(info.id.as_str(), info.tool.as_str());
    let ghost facts = inspect_facts(*info) + seq![""@, "Suggested:"@];
    let ghost all = text::texts(suggested@).map_values(|s: Seq<char>| "  "@ + s);
    let mut i: usize = 0;
    assert(text::texts(out@) =~= facts + all.take(0));
    while i < suggested.len()
        invariant
            all == text::texts(suggested@).map_values(|s: Seq<char>| "  "@ + s),
            i <= suggested@.len(),
            text::texts(out@) == facts + all.take(i as int),
        decreases suggested@.len() - i,
    {
        push_fact(&mut out, "  ", suggested[i].as_str());
        i += 1;
        assert(text::texts(out@) =~= facts + all.take(i as int));
    }
    assert(all.take(i as int) =~= all);
    out
}

/// Texts as a JSON array.
pub open spec fn texts_tree(s: Seq<Seq<char>>) -> JsonView {
    JsonView::Array(s.map_values(|t: Seq<char>| JsonView::Text(t)))
}

fn texts_json(s: Vec<String>) -> (j: Json)
    ensures
        j@ == texts_tree(text::texts(s@)),
{
    let ghost all = text::texts(s@).map_values(|t: Seq<char>| JsonView::Text(t));
    let mut items: Vec<Json> = Vec::new();
    let mut i: usize = 0;
    assert(json::items_view(items@) =~= all.take(0));
    while i < s.len()
        invariant
            all == text::texts(s@).map_values(|t: Seq<char>| JsonView::Text(t)),
            i <= s@.len(),
            json::items_view(items@) == all.take(i as int),
        decreases s@.len() - i,
    {
        let item = Json::text(s[i].as_str());
        let ghost before = json::items_view(items@);
        items.push(item);
        assert(json::items_view(items@) =~= before.push(item@));
        i += 1;
        assert(json::items_view(items@) =~= all.take(i as int));
    }
    assert(all.take(i as int) =~= all);
    let j = Json::Array(items);
    proof {
        json::lemma_view(j);
    }
    j
}

/// What is told of a handle, as a JSON object.
pub open spec fn inspect_tree(info: InspectResult) -> JsonView {
    let members = seq![
        ("id"@, JsonView::Text(info.id@)),
        ("tool"@, JsonView::Text(info.tool@)),
        ("mode"@, JsonView::Text(info.output_mode@)),
        ("lines"@, json::optional_integer_tree(info.line_count)),
        ("tokens"@, json::optional_integer_tree(info.token_est)),
        ("truncated"@, JsonView::Bool(info.truncated)),
        ("compressed"@, json::optional_text_tree(info.compressed_method)),
        ("cwd"@, json::optional_text_tree(info.cwd)),
        ("tool_input"@, json::optional_text_tree(info.tool_input)),
        ("created_at"@, json::integer_tree(info.created_at as int)),
        ("retrieval_count"@, json::integer_tree(info.retrieval_count as int)),
        ("last_retrieved_at"@, json::optional_integer_tree(info.last_retrieved_at)),
        ("suggested"@, texts_tree(suggestions(info.id@, info.tool@))),
    ];
    JsonView::Object(
        if info.truncated {
            members.push(
                ("note"@, JsonView::Text("content is partial — search covers stored lines only"@)),
            )
        } else {
            members
        },
    )
}

/// What is told of a handle, as compact JSON.
pub fn inspect_json(info: &InspectResult) -> (s: String)
    ensures
        s@ == json::compact(json::canonical(inspect_tree(*info))),
{
    let suggested = suggest(info.id.as_str(), info.tool.as_str());
    let mut members: Vec<(String, Json)> = vec![
        ("id".to_owned(), Json::text(info.id.as_str())),
        ("tool".to_owned(), Json::text(info.tool.as_str())),
        ("mode".to_owned(), Json::text(info.output_mode.as_str())),
        ("lines".to_owned(), Json::optional_integer(info.line_count)),
        ("tokens".to_owned(), Json::optional_integer(info.token_est)),
        ("truncated".to_owned(), Json::Bool(info.truncated)),
        ("compressed".to_owned(), Json::optional_text(&info.compressed_method)),
        ("cwd".to_owned(), Json::optional_text(&info.cwd)),
        ("tool_input".to_owned(), Json::optional_text(&info.tool_input)),
        ("created_at".to_owned(), Json::integer(info.created_at)),
        ("retrieval_count".to_owned(), Json::integer(info.retrieval_count)),
        ("last_retrieved_at".to_owned(), Json::optional_integer(info.last_retrieved_at)),
        ("suggested".to_owned(), texts_json(suggested)),
    ];
    if info.truncated {
        members.push(
            (
                "note".to_owned(),
                Json::text("content is partial — search covers stored lines only"),
            ),
        );
    }
    let j = Json::Object(members);
    proof {
        json::lemma_view(j);
        assert(json::members_view(members@) =~= inspect_tree(*info)->Object_0);
    }
    j.to_text()
}

// ---------------------------------------------------------------------------
// All handles
// ---------------------------------------------------------------------------

/// A row of the table of handles.
pub open spec fn handle_row(
    id: Seq<char>,
    tool: Seq<char>,
    lines: Seq<char>,
    tokens: Seq<char>,
    retrievals: Seq<char>,
    created: Seq<char>,
) -> Seq<char> {
    number::aligned_left(id, 12) + " "@ + number::aligned_left(tool, 8) + " "@
        + number::aligned_right(lines, 6, ' ') + " "@ + number::aligned_right(tokens, 8, ' ')
        + " "@ + number::aligned_right(retrievals, 5, ' ') + " "@ + created
}

fn write_handle_row(
    id: &str,
    tool: &str,
    lines: &str,
    tokens: &str,
    retrievals: &str,
    created: &str,
) -> (s: String)
    ensures
        s@ == handle_row(id@, tool@, lines@, tokens@, retrievals@, created@),
{
    let mut s = String::new();
    number::push_aligned_left(&mut s, id, 12);
    assert(s@ =~= number::aligned_left(id@, 12));
    s.append(" ");
    number::push_aligned_left(&mut s, tool, 8);
    s.append(" ");
    number::push_aligned(&mut s, lines, 6, ' ');
    s.append(" ");
    number::push_aligned(&mut s, tokens, 8, ' ');
    s.append(" ");
    number::push_aligned(&mut s, retrievals, 5, ' ');
    s.append(" ");
    s.append(created);
    s
}

/// The row of a handle.
pub open spec fn entry_row(h: HandleEntry) -> Seq<char> {
    handle_row(
        h.id@,
        h.tool@,
        number_or_dash(""@, h.line_count),
        number_or_dash(""@, h.token_est),
        number::signed_decimal(h.retrieval_count as int),
        epoch::shown_time(h.created_at as int),
    )
}

/// The table of handles.
pub open spec fn handles_table(handles: Seq<HandleEntry>) -> Seq<Seq<char>> {
    if handles.len() == 0 {
        seq!["No handles in this session."@]
    } else {
        seq![handle_row("HANDLE"@, "TOOL"@, "LINES"@, "TOKENS"@, "RETR"@, "CREATED"@)]
            + handles.map_values(|h: HandleEntry| entry_row(h))
    }
}

/// The table of handles.
pub fn handles_human(handles: &[HandleEntry]) -> (out: Vec<String>)
    ensures
        text::texts(out@) == handles_table(handles@),
{
    let mut out: Vec<String> = Vec::new();
    if handles.len() == 0 {
        push_line(&mut out, "No handles in this session.");
        assert(text::texts(out@) =~= handles_table(handles@));
        return out;
    }
    out.push(write_handle_row("HANDLE", "TOOL", "LINES", "TOKENS", "RETR", "CREATED"));
    let ghost head = seq![
        handle_row("HANDLE"@, "TOOL"@, "LINES"@, "TOKENS"@, "RETR"@, "CREATED"@),
    ];
    let ghost all = handles@.map_values(|h: HandleEntry| entry_row(h));
    let mut i: usize = 0;
    assert(text::texts(out@) =~= head + all.take(0));
    while i < handles.len()
        invariant
            all == handles@.map_values(|h: HandleEntry| entry_row(h)),
            i <= handles@.len(),
            text::texts(out@) == head + all.take(i as int),
        decreases handles@.len() - i,
    {
        let h = &handles[i];
        let lines = show_number("", h.line_count);
        let tokens = show_number("", h.token_est);
        let retrievals = number::signed_string(h.retrieval_count);
        let created = epoch::chrono_format(h.created_at);
        let row = write_handle_row(
            h.id.as_str(),
            h.tool.as_str(),
            lines.as_str(),
            tokens.as_str(),
            retrievals.as_str(),
            created.as_str(),
        );
        let ghost before = text::texts(out@);
        out.push(row);
        assert(text::texts(out@) =~= before.push(row@));
        i += 1;
        assert(text::texts(out@) =~= head + all.take(i as int));
    }
    assert(all.take(i as int) =~= all);
    out
}

/// A handle as a JSON object.
pub open spec fn entry_tree(h: HandleEntry) -> JsonView {
    JsonView::Object(
        seq![
            ("id"@, JsonView::Text(h.id@)),
            ("tool"@, JsonView::Text(h.tool@)),
            ("line_count"@, json::optional_integer_tree(h.line_count)),
            ("token_est"@, json::optional_integer_tree(h.token_est)),
            ("created_at"@, json::integer_tree(h.created_at as int)),
            ("retrieval_count"@, json::integer_tree(h.retrieval_count as int)),
        ],
    )
}

fn entry_json(h: &HandleEntry) -> (j: Json)
    ensures
        j@ == entry_tree(*h),
{
    let members: Vec<(String, Json)> = vec![
        ("id".to_owned(), Json::text(h.id.as_str())),
        ("tool".to_owned(), Json::text(h.tool.as_str())),
        ("line_count".to_owned(), Json::optional_integer(h.line_count)),
        ("token_est".to_owned(), Json::optional_integer(h.token_est)),
        ("created_at".to_owned(), Json::integer(h.created_at)),
        ("retrieval_count".to_owned(), Json::integer(h.retrieval_count)),
    ];
    let j = Json::Object(members);
    proof {
        json::lemma_view(j);
        assert(json::members_view(members@) =~= entry_tree(*h)->Object_0);
    }
    j
}

/// Handles as a JSON array.
pub open spec fn handles_tree(handles: Seq<HandleEntry>) -> JsonView {
    JsonView::Array(handles.map_values(|h: HandleEntry| entry_tree(h)))
}

/// Handles as an indented JSON array.
pub fn handles_json(handles: &[HandleEntry]) -> (s: String)
    ensures
        s@ == json::pretty(json::canonical(handles_tree(handles@))),
{
    let ghost all = handles@.map_values(|h: HandleEntry| entry_tree(h));
    let mut items: Vec<Json> = Vec::new();
    let mut i: usize = 0;
    assert(json::items_view(items@) =~= all.take(0));
    while i < handles.len()
        invariant
            all == handles@.map_values(|h: HandleEntry| entry_tree(h)),
            i <= handles@.len(),
            json::items_view(items@) == all.take(i as int),
        decreases handles@.len() - i,
    {
        let item = entry_json(&handles[i]);
        let ghost before = json::items_view(items@);
        items.push(item);
        assert(json::items_view(items@) =~= before.push(item@));
        i += 1;
        assert(json::items_view(items@) =~= all.take(i as int));
    }
    assert(all.take(i as int) =~= all);
    let j = Json::Array(items);
    proof {
        json::lemma_view(j);
    }
    j.to_pretty()
}

} // verus!
