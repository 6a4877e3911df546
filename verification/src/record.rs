//! Recording of calls that are not intercepted.

use crate::json;
use crate::json::{Json, JsonView};
use crate::number;
use crate::pieces;
use crate::settings;
use crate::store;
use crate::text;
use vstd::prelude::*;
use vstd::slice::*;

verus! {

/// Milliseconds to wait for a lock where the environment does not say.
pub const DEFAULT_BUSY_TIMEOUT_MS: i64 = 5000;

/// A tool call as the hook reports it, for recording.
#[derive(Debug)]
pub struct RecordPayload {
    pub tool_name: String,
    pub tool_use_id: Option<String>,
    pub tool_input: Option<Json>,
    /// The content of the tool's response, where there is one.
    pub content: Option<Json>,
    /// Working directory of the call.
    pub cwd: Option<String>,
}

/// The row of a recorded call, but for the time.
#[derive(Debug)]
pub struct CallRow {
    pub tool: String,
    pub tool_use_id: Option<String>,
    pub params: Option<String>,
    pub cwd: Option<String>,
    pub line_count: Option<i64>,
    pub token_est: Option<i64>,
}

/// The text that a response consists of, where it is text.
pub open spec fn text_content(content: Option<Json>) -> Option<Seq<char>> {
    match content {
        Some(j) => match j@ {
            JsonView::Text(s) => Some(s),
            _ => None,
        },
        None => None,
    }
}

/// `row` records `payload`. Only text content has lines and tokens.
pub open spec fn records(row: CallRow, payload: RecordPayload) -> bool {
    &&& row.tool == payload.tool_name
    &&& row.tool_use_id == payload.tool_use_id
    &&& row.cwd == payload.cwd
    &&& match (row.params, payload.tool_input) {
        (Some(p), Some(j)) => p@ == json::compact(json::canonical(j@)),
        (None, None) => true,
        _ => false,
    }
    &&& match text_content(payload.content) {
        Some(s) => row.line_count == Some((pieces::lines_of(s).len() as usize) as i64)
            && row.token_est == Some(store::token_count(s) as i64),
        None => row.line_count is None && row.token_est is None,
    }
}

/// The row that records a call.
pub fn prepare_call(payload: RecordPayload) -> (row: CallRow)
    ensures
        records(row, payload),
{
    let params = match &payload.tool_input {
        Some(j) => Some(j.to_text()),
        None => None,
    };
    let (line_count, token_est) = match &payload.content {
        Some(j) => match j.as_text() {
            Some(s) => (
                Some(store::count_lines(s.as_str()) as i64),
                Some(store::token_estimate(s.as_str())),
            ),
            None => (None, None),
        },
        None => (None, None),
    };
    CallRow {
        tool: payload.tool_name,
        tool_use_id: payload.tool_use_id,
        params,
        cwd: payload.cwd,
        line_count,
        token_est,
    }
}

/// The value of a signed decimal number that fits in 64 bits.
pub open spec fn signed_value(s: Seq<char>) -> Option<int> {
    if s.len() > 0 && s[0] == '-' {
        let digits = s.skip(1);
        if digits.len() > 0 && number::all_digits(digits) && number::digits_value(digits)
            <= 0x8000_0000_0000_0000 {
            Some(-number::digits_value(digits))
        } else {
            None
        }
    } else {
        match number::unsigned_value(s, i64::MAX as nat) {
            Some(n) => Some(n as int),
            None => None,
        }
    }
}

/// The value of a signed decimal number that fits in 64 bits.
pub fn parse_signed(s: &[char]) -> (r: Option<i64>)
    ensures
        match r {
            Some(v) => signed_value(s@) == Some(v as int),
            None => signed_value(s@) is None,
        },
{
    let n = s.len();
    if n > 0 && s[0] == '-' {
        let digits = slice_subrange(s, 1, n);
        assert(digits@ =~= s@.skip(1));
        if digits.len() > 0 && digits[0] == '+' {
            assert(!number::is_digit(digits@[0]));
            return None;
        }
        match number::parse_up_to(digits, 0x8000_0000_0000_0000) {
            Some(v) => if v == 0x8000_0000_0000_0000 {
                Some(i64::MIN)
            } else {
                Some(-(v as i64))
            },
            None => None,
        }
    } else {
        match number::parse_up_to(s, i64::MAX as u64) {
            Some(v) => Some(v as i64),
            None => None,
        }
    }
}

/// The time to wait for a lock, as the environment says.
pub open spec fn timeout_ms(value: Option<Seq<char>>) -> int {
    match value {
        Some(v) => match signed_value(v) {
            Some(n) => n,
            None => DEFAULT_BUSY_TIMEOUT_MS as int,
        },
        None => DEFAULT_BUSY_TIMEOUT_MS as int,
    }
}

/// Milliseconds to wait for a lock before giving up, as the environment says.
pub fn busy_timeout(value: Option<&str>) -> (n: i64)
    ensures
        n == timeout_ms(settings::env_view(value)),
{
    match value {
        Some(v) => {
            let chars = text::chars_of(v);
            match parse_signed(chars.as_slice()) {
                Some(n) => n,
                None => DEFAULT_BUSY_TIMEOUT_MS,
            }
        },
        None => DEFAULT_BUSY_TIMEOUT_MS,
    }
}

} // verus!
