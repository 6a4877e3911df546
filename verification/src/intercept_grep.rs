//! Interception of large search results.

use crate::bytes;
use crate::calls::InterceptCallMeta;
use crate::compress::grep_dedup;
use crate::compress::grep_preview;
use crate::doctor::DEFAULT_LINES;
use crate::intercept;
use crate::json;
use crate::json::{Json, JsonView};
use crate::number;
use crate::order;
use crate::payload;
use crate::pieces;
use crate::settings;
use crate::store;
use crate::text;
use vstd::prelude::*;
use vstd::string::*;

verus! {

// ---------------------------------------------------------------------------
// Config and response
// ---------------------------------------------------------------------------

/// Configuration for the interception of search results.
#[derive(Debug, Clone)]
pub struct GrepInterceptConfig {
    /// Maximum lines before interception.
    pub threshold: usize,
    /// When true, interception is recorded in the `calls` table.
    pub record: bool,
    /// Serialized tool_input JSON from the payload.
    pub tool_input: Option<String>,
    /// Working directory from the payload.
    pub cwd: Option<String>,
    /// Tool use ID from the payload.
    pub tool_use_id: Option<String>,
}

impl GrepInterceptConfig {
    /// Build config from the value of `CTXL_GREP_THRESHOLD`, with a compiled-in
    /// default.
    pub fn from_env(threshold: Option<&str>) -> (c: Self)
        ensures
            c.threshold == settings::env_number(
                settings::env_view(threshold),
                DEFAULT_LINES as nat,
            ),
            c.record,
            c.tool_input is None && c.cwd is None && c.tool_use_id is None,
    {
        GrepInterceptConfig {
            threshold: settings::env_parse(threshold, DEFAULT_LINES),
            record: true,
            tool_input: None,
            cwd: None,
            tool_use_id: None,
        }
    }
}

/// What a search answered.
#[derive(Debug)]
pub struct GrepToolResponse {
    /// The raw match output (in `content` / `files_with_matches` / `count`
    /// format).
    pub content: Option<String>,
    pub num_files: Option<u64>,
    pub filenames: Option<Vec<String>>,
    pub num_matches: Option<u64>,
    pub mode: Option<String>,
}

// ---------------------------------------------------------------------------
// The decision
// ---------------------------------------------------------------------------

/// The content of a response.
pub open spec fn content_of(resp: GrepToolResponse) -> Seq<char> {
    match resp.content {
        Some(c) => c@,
        None => ""@,
    }
}

/// The mode of a response.
pub open spec fn mode_of(resp: GrepToolResponse) -> Seq<char> {
    match resp.mode {
        Some(m) => m@,
        None => "content"@,
    }
}

/// The result passes through unchanged: it is empty, or within the threshold.
pub open spec fn passes(resp: GrepToolResponse, threshold: nat) -> bool {
    content_of(resp).len() == 0 || pieces::lines_of(content_of(resp)).len() <= threshold
}

/// What is to be stored of a search result. The full content is stored; it is
/// cut only where it is shown.
#[derive(Debug)]
pub struct GrepCapture {
    pub tool: String,
    /// The payload names no tool, and `tool` is the default.
    pub tool_missing: bool,
    pub mode: String,
    pub content: String,
    pub line_count: usize,
    pub payload: Json,
}

/// The payload under which a search result is stored.
pub open spec fn grep_payload(
    tool: Seq<char>,
    mode: Seq<char>,
    content: Seq<char>,
    tool_input: Option<Seq<char>>,
) -> JsonView {
    let base = JsonView::Object(
        seq![
            ("content"@, JsonView::Text(content)),
            ("output_mode"@, JsonView::Text(mode)),
            ("tool"@, JsonView::Text(tool)),
        ],
    );
    match tool_input {
        Some(raw) => json::field_set(base, "tool_input"@, payload::tool_input_tree(raw)),
        None => base,
    }
}

/// `c` is what is stored of a response.
pub open spec fn captures(
    c: GrepCapture,
    tool_name: Option<String>,
    resp: GrepToolResponse,
    tool_input: Option<String>,
) -> bool {
    &&& c.tool@ == intercept::tool_or(tool_name, "Grep"@)
    &&& c.tool_missing == (tool_name is None)
    &&& c.mode@ == mode_of(resp)
    &&& c.content@ == content_of(resp)
    &&& c.line_count == pieces::lines_of(content_of(resp)).len()
    &&& c.payload@ == grep_payload(
        intercept::tool_or(tool_name, "Grep"@),
        mode_of(resp),
        content_of(resp),
        text::opt_text(tool_input),
    )
}

fn write_payload(tool: &str, mode: &str, content: &str, tool_input: &Option<String>) -> (j: Json)
    ensures
        j@ == grep_payload(tool@, mode@, content@, text::opt_text(*tool_input)),
{
    let members: Vec<(String, Json)> = vec![
        ("content".to_owned(), Json::Text(content.to_owned())),
        ("output_mode".to_owned(), Json::Text(mode.to_owned())),
        ("tool".to_owned(), Json::Text(tool.to_owned())),
    ];
    let mut j = Json::Object(members);
    proof {
        json::lemma_view(j);
        assert(json::members_view(members@) =~= grep_payload(
            tool@,
            mode@,
            content@,
            None,
        )->Object_0);
    }
    if let Some(raw) = tool_input {
        payload::set_tool_input(&mut j, raw.as_str());
    }
    j
}

/// Decide what to do with a search result: `None` leaves it unchanged.
///
/// # Passthrough conditions
///
/// 1. The content is absent or empty.
/// 2. It has no more lines than the threshold.
pub fn run(
    tool_name: Option<String>,
    resp: &GrepToolResponse,
    config: &GrepInterceptConfig,
) -> (r: Option<GrepCapture>)
    ensures
        match r {
            Some(c) => !passes(*resp, config.threshold as nat) && captures(
                c,
                tool_name,
                *resp,
                config.tool_input,
            ),
            None => passes(*resp, config.threshold as nat),
        },
{
    let content = match &resp.content {
        Some(c) => c.clone(),
        None => "".to_owned(),
    };
    let mode = match &resp.mode {
        Some(m) => m.clone(),
        None => "content".to_owned(),
    };
    if content.as_str().unicode_len() == 0 {
        return None;
    }
    let line_count = store::count_lines(content.as_str());
    if line_count <= config.threshold {
        return None;
    }
    let tool_missing = tool_name.is_none();
    let tool = match tool_name {
        Some(t) => t,
        None => "Grep".to_owned(),
    };
    let payload = write_payload(
        tool.as_str(),
        mode.as_str(),
        content.as_str(),
        &config.tool_input,
    );
    Some(GrepCapture { tool, tool_missing, mode, content, line_count, payload })
}

// ---------------------------------------------------------------------------
// After the store
// ---------------------------------------------------------------------------

/// The deduplicated form of a result in content mode, where it is shorter.
pub open spec fn dedup_of(mode: Seq<char>, content: Seq<char>, deduped: Seq<char>) -> Option<
    Seq<char>,
> {
    if mode == "content"@ && deduped.len() > 0 && bytes::byte_len(deduped) < bytes::byte_len(
        content,
    ) {
        Some(deduped)
    } else {
        None
    }
}

/// Keep the deduplicated form of a result in content mode, where it is shorter.
pub fn keep_dedup(mode: &str, content: &str, deduped: String) -> (r: Option<String>)
    ensures
        text::opt_text(r) == dedup_of(mode@, content@, deduped@),
{
    if text::same_text(mode, "content") && deduped.as_str().unicode_len() > 0
        && bytes::str_bytes(deduped.as_str()) < bytes::str_bytes(content) {
        Some(deduped)
    } else {
        None
    }
}

/// The compressed body of a search result, with the method `grep_dedup`.
pub fn compress_capture(c: &GrepCapture) -> (r: Option<String>)
    ensures
        text::opt_text(r) == dedup_of(c.mode@, c.content@, grep_dedup::compressed(c.content@)),
{
    let deduped = grep_dedup::compress(c.content.as_str());
    keep_dedup(c.mode.as_str(), c.content.as_str(), deduped)
}

/// The number of matches that a message shows: where none are reported, the
/// number of lines.
pub open spec fn matches_shown(reported: Option<u64>, line_count: nat) -> nat {
    match reported {
        Some(n) => if n == 0 && line_count > 0 {
            line_count
        } else {
            n as nat
        },
        None => line_count,
    }
}

/// The number of files that are reported by name.
pub open spec fn name_count(filenames: Option<Vec<String>>) -> nat {
    match filenames {
        Some(names) => names@.len(),
        None => 0,
    }
}

/// The message that takes the place of a captured search result.
pub open spec fn grep_capture_message(c: GrepCapture, resp: GrepToolResponse, handle: Seq<char>) -> Seq<
    char,
> {
    grep_preview::grep_message(
        c.content@,
        c.mode@,
        handle,
        matches_shown(resp.num_matches, c.line_count as nat),
        name_count(resp.filenames),
        seq![],
    )
}

/// Write the message that takes the place of a captured search result.
pub fn format_capture(c: &GrepCapture, resp: &GrepToolResponse, handle_id: &str) -> (out: String)
    ensures
        out@ == grep_capture_message(*c, *resp, handle_id@),
{
    let reported = match resp.num_matches {
        Some(n) => n,
        None => 0,
    };
    let shown: u64 = if reported == 0 && c.line_count > 0 {
        c.line_count as u64
    } else {
        reported
    };
    let none: Vec<String> = Vec::new();
    let names: &[String] = match &resp.filenames {
        Some(names) => names.as_slice(),
        None => none.as_slice(),
    };
    grep_preview::grep_preview_ex(
        c.content.as_str(),
        c.mode.as_str(),
        handle_id,
        shown,
        names,
        Some(c.line_count),
        Some(c.line_count),
    )
}

/// The names as JSON.
pub open spec fn names_tree(filenames: Option<Vec<String>>) -> JsonView {
    JsonView::Array(
        match filenames {
            Some(names) => text::texts(names@).map_values(|n: Seq<char>| JsonView::Text(n)),
            None => seq![],
        },
    )
}

/// A count that may be absent.
pub open spec fn count_or_zero(n: Option<u64>) -> nat {
    match n {
        Some(v) => v as nat,
        None => 0,
    }
}

/// What takes the place of a search result.
pub open spec fn grep_output(message: Seq<char>, mode: Seq<char>, resp: GrepToolResponse) -> JsonView {
    JsonView::Object(
        seq![
            ("content"@, JsonView::Text(message)),
            ("filenames"@, names_tree(resp.filenames)),
            ("mode"@, JsonView::Text(mode)),
            ("numFiles"@, JsonView::Number(number::decimal(count_or_zero(resp.num_files)))),
            ("numMatches"@, JsonView::Number(number::decimal(count_or_zero(resp.num_matches)))),
        ],
    )
}

fn write_names(filenames: &Option<Vec<String>>) -> (j: Json)
    ensures
        j@ == names_tree(*filenames),
{
    let mut items: Vec<Json> = Vec::new();
    assert(json::items_view(items@) =~= seq![]);
    if let Some(names) = filenames {
        let ghost all = text::texts(names@).map_values(|n: Seq<char>| JsonView::Text(n));
        let mut i: usize = 0;
        while i < names.len()
            invariant
                all == text::texts(names@).map_values(|n: Seq<char>| JsonView::Text(n)),
                i <= names@.len(),
                json::items_view(items@) == all.take(i as int),
            decreases names@.len() - i,
        {
            let ghost before = json::items_view(items@);
            let item = Json::Text(names[i].clone());
            items.push(item);
            i += 1;
            proof {
                assert(json::items_view(items@) =~= before.push(item@));
                assert(json::items_view(items@) =~= all.take(i as int));
            }
        }
        assert(all.take(i as int) =~= all);
    }
    let j = Json::Array(items);
    proof {
        json::lemma_view(j);
    }
    j
}

fn write_count(n: Option<u64>) -> (j: Json)
    ensures
        j@ == JsonView::Number(number::decimal(count_or_zero(n))),
{
    let v = match n {
        Some(v) => v,
        None => 0,
    };
    Json::Number(json::number_of(v))
}

/// The answer of the hook to a captured search result: the message in place of
/// the content, all else as the search answered.
pub fn capture_envelope(message: String, mode: &str, resp: &GrepToolResponse) -> (j: Json)
    ensures
        j@ == intercept::hook_envelope(grep_output(message@, mode@, *resp)),
{
    let members: Vec<(String, Json)> = vec![
        ("content".to_owned(), Json::Text(message)),
        ("filenames".to_owned(), write_names(&resp.filenames)),
        ("mode".to_owned(), Json::Text(mode.to_owned())),
        ("numFiles".to_owned(), write_count(resp.num_files)),
        ("numMatches".to_owned(), write_count(resp.num_matches)),
    ];
    let output = Json::Object(members);
    proof {
        json::lemma_view(output);
        assert(json::members_view(members@) =~= grep_output(message@, mode@, *resp)->Object_0);
    }
    intercept::write_envelope(output)
}

/// The row of an intercepted search. Calls are recorded unless the
/// configuration says otherwise.
pub fn capture_call<'a>(
    c: &'a GrepCapture,
    handle_id: &'a str,
    config: &'a GrepInterceptConfig,
) -> (r: Option<InterceptCallMeta<'a>>)
    ensures
        r is Some == config.record,
        r matches Some(m) ==> {
            &&& m.tool@ == c.tool@
            &&& m.handle_id@ == handle_id@
            &&& m.line_count == c.line_count as i64
            &&& m.token_est == Some(store::token_count(c.content@) as i64)
            &&& settings::env_view(m.tool_input) == text::opt_text(config.tool_input)
            &&& settings::env_view(m.cwd) == text::opt_text(config.cwd)
            &&& settings::env_view(m.tool_use_id) == text::opt_text(config.tool_use_id)
            &&& m.exit_code is None
        },
{
    if config.record {
        Some(
            InterceptCallMeta {
                tool: c.tool.as_str(),
                handle_id,
                line_count: c.line_count as i64,
                token_est: Some(store::token_estimate(c.content.as_str())),
                tool_input: settings::opt_str(&config.tool_input),
                cwd: settings::opt_str(&config.cwd),
                tool_use_id: settings::opt_str(&config.tool_use_id),
                exit_code: None,
            },
        )
    } else {
        None
    }
}

// ---------------------------------------------------------------------------
// Laws
// ---------------------------------------------------------------------------

/// A result is intercepted exactly when it has more lines than the threshold.
pub proof fn lemma_intercepts_above_threshold(resp: GrepToolResponse, threshold: nat)
    ensures
        !passes(resp, threshold) <==> pieces::lines_of(content_of(resp)).len() > threshold,
{
}

/// What is stored gives back the content as it came.
pub proof fn lemma_stored_content(
    tool: Seq<char>,
    mode: Seq<char>,
    content: Seq<char>,
    tool_input: Option<Seq<char>>,
)
    ensures
        store::content_of(grep_payload(tool, mode, content, tool_input)) == content,
{
    match tool_input {
        Some(raw) => {
            let members = grep_payload(tool, mode, content, None)->Object_0;
            let value = payload::tool_input_tree(raw);
            reveal_strlit("tool");
            reveal_strlit("tool_input");
            assert("tool"@.len() == 4);
            assert("tool_input"@.len() == 10);
            order::lemma_prefix_before("tool"@, "tool_input"@);
            assert(json::put(members, "tool_input"@, value) == members.push(
                ("tool_input"@, value),
            ));
        },
        None => {},
    }
}

} // verus!
