//! Rows of the store, and what is told of them.

use crate::error::CtxlError;
use crate::json;
use crate::json::{Json, JsonView};
use crate::text;
use vstd::prelude::*;

verus! {

// ---------------------------------------------------------------------------
// Handles
// ---------------------------------------------------------------------------

/// Metadata about a stored handle.
#[derive(Debug)]
pub struct InspectResult {
    pub id: String,
    pub tool: String,
    pub output_mode: String,
    pub line_count: Option<i64>,
    pub token_est: Option<i64>,
    pub truncated: bool,
    pub compressed_method: Option<String>,
    pub cwd: Option<String>,
    pub tool_input: Option<String>,
    pub created_at: i64,
    pub retrieval_count: i64,
    pub last_retrieved_at: Option<i64>,
}

/// Return metadata for a stored handle without retrieving content. `row` is what
/// the store holds, `None` where there is no such handle.
pub fn inspect(handle: &str, row: Option<InspectResult>) -> (r: Result<InspectResult, CtxlError>)
    ensures
        match r {
            Ok(info) => row == Some(info),
            Err(e) => row is None && (e matches CtxlError::HandleNotFound(id) && id@ == handle@),
        },
{
    match row {
        Some(info) => Ok(info),
        None => Err(CtxlError::HandleNotFound(handle.to_owned())),
    }
}

/// Summary of a stored handle.
#[derive(Debug)]
pub struct HandleEntry {
    pub id: String,
    pub tool: String,
    pub line_count: Option<i64>,
    pub token_est: Option<i64>,
    pub created_at: i64,
    pub retrieval_count: i64,
}

// ---------------------------------------------------------------------------
// Calls
// ---------------------------------------------------------------------------

/// Options for the call history.
#[derive(Debug)]
pub struct CallsOpts {
    /// Maximum number of rows to return (default 20).
    pub last: usize,
    /// Filter by tool name (None = all tools).
    pub tool: Option<String>,
    /// Filter by intercepted flag (None = all, Some(true) = only intercepted).
    pub intercepted: Option<bool>,
}

impl Default for CallsOpts {
    fn default() -> (o: Self)
        ensures
            o.last == 20,
            o.tool is None,
            o.intercepted is None,
    {
        CallsOpts { last: 20, tool: None, intercepted: None }
    }
}

/// A recorded call.
#[derive(Debug)]
pub struct CallRecord {
    pub id: i64,
    pub tool: String,
    pub tool_use_id: Option<String>,
    pub params: Option<String>,
    pub cwd: Option<String>,
    pub intercepted: bool,
    pub handle_id: Option<String>,
    pub line_count: Option<i64>,
    pub token_est: Option<i64>,
    pub duration_ms: Option<i64>,
    pub exit_code: Option<i64>,
    pub created_at: i64,
}

/// A recorded call as a JSON object.
pub open spec fn call_tree(c: CallRecord) -> JsonView {
    JsonView::Object(
        seq![
            ("id"@, json::integer_tree(c.id as int)),
            ("tool"@, JsonView::Text(c.tool@)),
            ("tool_use_id"@, json::optional_text_tree(c.tool_use_id)),
            ("params"@, json::optional_text_tree(c.params)),
            ("cwd"@, json::optional_text_tree(c.cwd)),
            ("intercepted"@, JsonView::Bool(c.intercepted)),
            ("handle_id"@, json::optional_text_tree(c.handle_id)),
            ("line_count"@, json::optional_integer_tree(c.line_count)),
            ("token_est"@, json::optional_integer_tree(c.token_est)),
            ("duration_ms"@, json::optional_integer_tree(c.duration_ms)),
            ("exit_code"@, json::optional_integer_tree(c.exit_code)),
            ("created_at"@, json::integer_tree(c.created_at as int)),
        ],
    )
}

/// A recorded call as a JSON object.
pub fn call_json(c: &CallRecord) -> (j: Json)
    ensures
        j@ == call_tree(*c),
{
    let members: Vec<(String, Json)> = vec![
        ("id".to_owned(), Json::integer(c.id)),
        ("tool".to_owned(), Json::text(c.tool.as_str())),
        ("tool_use_id".to_owned(), Json::optional_text(&c.tool_use_id)),
        ("params".to_owned(), Json::optional_text(&c.params)),
        ("cwd".to_owned(), Json::optional_text(&c.cwd)),
        ("intercepted".to_owned(), Json::Bool(c.intercepted)),
        ("handle_id".to_owned(), Json::optional_text(&c.handle_id)),
        ("line_count".to_owned(), Json::optional_integer(c.line_count)),
        ("token_est".to_owned(), Json::optional_integer(c.token_est)),
        ("duration_ms".to_owned(), Json::optional_integer(c.duration_ms)),
        ("exit_code".to_owned(), Json::optional_integer(c.exit_code)),
        ("created_at".to_owned(), Json::integer(c.created_at)),
    ];
    let j = Json::Object(members);
    proof {
        json::lemma_view(j);
        assert(json::members_view(members@) =~= call_tree(*c)->Object_0);
    }
    j
}

/// The texts of recorded calls.
pub open spec fn call_texts(rows: Seq<CallRecord>) -> Seq<Seq<char>> {
    rows.map_values(|c: CallRecord| json::compact(json::canonical(call_tree(c))))
}

/// The call history, one JSON object per row, in the order of the rows.
pub fn calls(rows: &[CallRecord]) -> (out: Vec<String>)
    ensures
        text::texts(out@) == call_texts(rows@),
{
    let ghost all = call_texts(rows@);
    let mut out: Vec<String> = Vec::new();
    let mut i: usize = 0;
    assert(text::texts(out@) =~= all.take(0));
    while i < rows.len()
        invariant
            all == call_texts(rows@),
            i <= rows@.len(),
            text::texts(out@) == all.take(i as int),
        decreases rows@.len() - i,
    {
        let line = call_json(&rows[i]).to_text();
        let ghost before = text::texts(out@);
        out.push(line);
        assert(text::texts(out@) =~= before.push(line@));
        i += 1;
        assert(text::texts(out@) =~= all.take(i as int));
    }
    assert(all.take(i as int) =~= all);
    out
}

} // verus!
