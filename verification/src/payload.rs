//! The envelope of a tool call.

use crate::json;
use crate::json::{Json, JsonView};
use vstd::prelude::*;

verus! {

/// A tool call as the hook reports it. The type parameter `T` is the
/// tool-specific response.
#[derive(Debug)]
pub struct PostToolUsePayload<T> {
    pub tool_name: Option<String>,
    pub tool_response: T,
}

/// The value that a raw tool input stands for: what it parses to, or its text.
pub open spec fn tool_input_tree(raw: Seq<char>) -> JsonView {
    match json::parsed(raw) {
        Some(tree) => tree,
        None => JsonView::Text(raw),
    }
}

/// Set `tool_input` on a store payload, given what its text parses to.
pub fn set_parsed_tool_input(payload: &mut Json, raw: &str, parsed: Option<Json>)
    requires
        *old(payload) is Object || *old(payload) is Null,
    ensures
        *final(payload) is Object,
        final(payload)@ == json::field_set(
            old(payload)@,
            "tool_input"@,
            match parsed {
                Some(j) => j@,
                None => JsonView::Text(raw@),
            },
        ),
{
    match parsed {
        Some(j) => payload.set_field("tool_input", j),
        None => payload.set_field("tool_input", Json::Text(raw.to_owned())),
    }
}

/// Set `tool_input` on a store payload from a raw JSON string.
///
/// Parses as JSON if valid, otherwise wraps as a string value.
pub fn set_tool_input(payload: &mut Json, raw: &str)
    requires
        *old(payload) is Object || *old(payload) is Null,
    ensures
        *final(payload) is Object,
        final(payload)@ == json::field_set(
            old(payload)@,
            "tool_input"@,
            tool_input_tree(raw@),
        ),
{
    let parsed = Json::parse(raw);
    set_parsed_tool_input(payload, raw, parsed)
}

} // verus!
