//! The handle store: what a captured payload is stored as, and under which ID.

use crate::error::{joined_text, CtxlError};
use crate::json;
use crate::json::{Json, JsonView};
use crate::number;
use crate::pieces;
use crate::text;
use vstd::prelude::*;
use vstd::string::*;

verus! {

// ---------------------------------------------------------------------------
// OutputMode
// ---------------------------------------------------------------------------

/// Which stream(s) to extract from a stored payload.
///
/// Reads and writes as the lowercase strings `"stdout"`, `"stderr"`, `"mixed"`.
#[derive(Debug, Clone, Copy, PartialEq, Eq, Structural)]
pub enum OutputMode {
    Stdout,
    Stderr,
    Mixed,
}

/// The name of a mode.
pub open spec fn mode_name(mode: OutputMode) -> Seq<char> {
    match mode {
        OutputMode::Stdout => "stdout"@,
        OutputMode::Stderr => "stderr"@,
        OutputMode::Mixed => "mixed"@,
    }
}

/// The mode of a name.
pub open spec fn mode_named(name: Seq<char>) -> Option<OutputMode> {
    if name == "stdout"@ {
        Some(OutputMode::Stdout)
    } else if name == "stderr"@ {
        Some(OutputMode::Stderr)
    } else if name == "mixed"@ {
        Some(OutputMode::Mixed)
    } else {
        None
    }
}

impl OutputMode {
    /// The name of the mode.
    pub fn to_text(&self) -> (s: String)
        ensures
            s@ == mode_name(*self),
    {
        match self {
            OutputMode::Stdout => "stdout".to_owned(),
            OutputMode::Stderr => "stderr".to_owned(),
            OutputMode::Mixed => "mixed".to_owned(),
        }
    }

    /// The mode of a name.
    pub fn from_str(s: &str) -> (r: Result<OutputMode, String>)
        ensures
            match r {
                Ok(mode) => mode_named(s@) == Some(mode),
                Err(m) => mode_named(s@) is None && m@ == "unknown output mode: "@ + s@,
            },
    {
        if text::same_text(s, "stdout") {
            Ok(OutputMode::Stdout)
        } else if text::same_text(s, "stderr") {
            Ok(OutputMode::Stderr)
        } else if text::same_text(s, "mixed") {
            Ok(OutputMode::Mixed)
        } else {
            Err(joined_text("unknown output mode: ", s))
        }
    }
}

/// Reading a mode gives back what was written.
pub proof fn lemma_mode_round_trip(mode: OutputMode)
    ensures
        mode_named(mode_name(mode)) == Some(mode),
{
    reveal_strlit("stdout");
    reveal_strlit("stderr");
    reveal_strlit("mixed");
    assert("stdout"@[3] == 'o');
    assert("stderr"@[3] == 'e');
    assert("mixed"@.len() == 5);
}

// ---------------------------------------------------------------------------
// Handle IDs
// ---------------------------------------------------------------------------

/// The first `len` hex digits of `bytes`.
pub open spec fn hex_text(bytes: Seq<u8>, len: int) -> Seq<char> {
    Seq::new(
        len as nat,
        |i: int|
            number::hex_digit(
                if i % 2 == 0 {
                    (bytes[i / 2] / 16) as nat
                } else {
                    (bytes[i / 2] % 16) as nat
                },
            ),
    )
}

/// Calls `getrandom::getrandom` on a buffer of `n` bytes. Trusted: on success
/// the buffer has kept its length, and an empty buffer always succeeds; which
/// bytes it holds is left to chance.
#[verifier::external_body]
fn random_bytes(n: usize) -> (r: Result<Vec<u8>, String>)
    requires
        n <= isize::MAX,
    ensures
        r matches Ok(bytes) ==> bytes@.len() == n,
        n == 0 ==> r is Ok,
{
    let mut buf = vec![0u8; n];
    match getrandom::getrandom(&mut buf) {
        Ok(()) => Ok(buf),
        Err(e) => Err(e.to_string()),
    }
}

/// The hex digit of a number below sixteen.
fn hex_char(d: u8) -> (c: char)
    requires
        d < 16,
    ensures
        c == number::hex_digit(d as nat),
{
    if d < 10 {
        (48u8 + d) as char
    } else {
        (87u8 + d) as char
    }
}

/// The first `len` hex digits of `bytes`.
pub fn hex_prefix(bytes: &[u8], len: usize) -> (s: String)
    requires
        len <= 2 * bytes@.len(),
    ensures
        s@ == hex_text(bytes@, len as int),
{
    let mut s = String::new();
    let mut i: usize = 0;
    assert(s@ =~= hex_text(bytes@, 0));
    while i < len
        invariant
            i <= len <= 2 * bytes@.len(),
            s@ == hex_text(bytes@, i as int),
        decreases len - i,
    {
        let b = bytes[i / 2];
        if i % 2 == 0 {
            s.push(hex_char(b / 16));
        } else {
            s.push(hex_char(b % 16));
        }
        i += 1;
        assert(s@ =~= hex_text(bytes@, i as int));
    }
    s
}

/// `s` holds lowercase hex digits alone.
pub open spec fn is_hex(s: Seq<char>) -> bool {
    forall|i: int|
        0 <= i < s.len() ==> '0' <= #[trigger] s[i] <= '9' || 'a' <= s[i] <= 'f'
}

/// A random lowercase hex string of `len` digits. On failure the message of the
/// system's generator comes as an I/O error.
pub fn gen_random_hex(len: usize) -> (r: Result<String, CtxlError>)
    requires
        len < usize::MAX,
    ensures
        match r {
            Ok(s) => s@.len() == len && is_hex(s@),
            Err(e) => e is Io && len > 0,
        },
{
    match random_bytes((len + 1) / 2) {
        Ok(bytes) => {
            let s = hex_prefix(bytes.as_slice(), len);
            proof {
                assert forall|i: int| 0 <= i < s@.len() implies '0' <= #[trigger] s@[i] <= '9'
                    || 'a' <= s@[i] <= 'f' by {}
            }
            Ok(s)
        },
        Err(m) => Err(CtxlError::Io(m)),
    }
}

/// The prefix of the handle IDs of a payload.
pub open spec fn handle_prefix(payload: JsonView) -> Seq<char> {
    match json::text_field(payload, "tool"@) {
        Some(tool) => if tool == "Grep"@ {
            "g_"@
        } else if tool == "ctxl-index"@ {
            "i_"@
        } else {
            "b_"@
        },
        None => "b_"@,
    }
}

/// Derive the handle ID prefix from the `tool` field in a payload.
///
/// - `"Grep"` gives `"g_"`
/// - `"ctxl-index"` gives `"i_"`
/// - anything else gives `"b_"`, the default for Bash
pub fn derive_handle_prefix(payload: &Json) -> (r: &'static str)
    ensures
        r@ == handle_prefix(payload@),
{
    match payload.get_text("tool") {
        Some(tool) => if text::same_text(tool.as_str(), "Grep") {
            "g_"
        } else if text::same_text(tool.as_str(), "ctxl-index") {
            "i_"
        } else {
            "b_"
        },
        None => "b_",
    }
}

/// The handle ID of a payload with the given hex digits.
pub fn candidate_id(payload: &Json, hex: &str) -> (s: String)
    ensures
        s@ == handle_prefix(payload@) + hex@,
{
    joined_text(derive_handle_prefix(payload), hex)
}

// ---------------------------------------------------------------------------
// Writing
// ---------------------------------------------------------------------------

/// Hex digits of the first ID that is tried.
pub const FIRST_ID_LEN: usize = 6;

/// Hex digits of the ID that is tried after a collision.
pub const RETRY_ID_LEN: usize = 7;

/// The extended result codes of SQLite for an ID that is taken already: a
/// unique constraint and a primary key constraint.
pub open spec fn is_taken(extended_code: int) -> bool {
    extended_code == 2067 || extended_code == 1555
}

/// Whether an extended result code of SQLite says that an ID is taken.
pub fn is_unique_violation(extended_code: i32) -> (r: bool)
    ensures
        r == is_taken(extended_code as int),
{
    extended_code == 2067 || extended_code == 1555
}

/// What came of an attempt to insert a handle.
#[derive(Debug)]
pub enum InsertOutcome {
    /// The row is stored.
    Stored,
    /// The insert failed, with the extended result code and the message of
    /// SQLite. The code is absent where the failure did not come from SQLite.
    Failed { extended_code: Option<i32>, message: String },
}

/// What to do next to store a handle.
#[derive(Debug)]
pub enum WriteStep {
    /// Insert under an ID with this many hex digits.
    Try(usize),
    /// The handle is stored under the ID that was tried last.
    Done,
    /// Give up.
    Fail(CtxlError),
}

/// The attempt failed because its ID is taken.
pub open spec fn is_collision(outcome: InsertOutcome) -> bool {
    outcome matches InsertOutcome::Failed { extended_code: Some(code), .. } && is_taken(code as int)
}

/// What to do after an attempt with `hex_len` digits.
pub open spec fn write_next(hex_len: nat, outcome: InsertOutcome) -> WriteStep {
    match outcome {
        InsertOutcome::Stored => WriteStep::Done,
        InsertOutcome::Failed { extended_code, message } => if is_collision(outcome) {
            if hex_len == FIRST_ID_LEN {
                WriteStep::Try(RETRY_ID_LEN)
            } else {
                WriteStep::Fail(CtxlError::HandleCollision)
            }
        } else {
            WriteStep::Fail(CtxlError::Sqlite(message))
        },
    }
}

/// The first step of writing a payload.
pub fn write_first() -> (s: WriteStep)
    ensures
        s == WriteStep::Try(FIRST_ID_LEN),
{
    WriteStep::Try(FIRST_ID_LEN)
}

/// What to do after an attempt with `hex_len` digits: a taken ID is tried once
/// more with a longer one, and a second collision is an error.
pub fn write_after(hex_len: usize, outcome: InsertOutcome) -> (s: WriteStep)
    ensures
        s == write_next(hex_len as nat, outcome),
{
    match outcome {
        InsertOutcome::Stored => WriteStep::Done,
        InsertOutcome::Failed { extended_code, message } => {
            let taken = match extended_code {
                Some(code) => is_unique_violation(code),
                None => false,
            };
            if taken {
                if hex_len == FIRST_ID_LEN {
                    WriteStep::Try(RETRY_ID_LEN)
                } else {
                    WriteStep::Fail(CtxlError::HandleCollision)
                }
            } else {
                WriteStep::Fail(CtxlError::Sqlite(message))
            }
        },
    }
}

/// There are at most two attempts: after the second one the handle is stored or
/// writing has failed, with a collision where both IDs were taken.
pub proof fn lemma_write_ends(first: InsertOutcome, second: InsertOutcome)
    ensures
        write_next(FIRST_ID_LEN as nat, first) is Try <==> is_collision(first),
        !(write_next(RETRY_ID_LEN as nat, second) is Try),
        is_collision(second) ==> write_next(RETRY_ID_LEN as nat, second) == WriteStep::Fail(
            CtxlError::HandleCollision,
        ),
{
}

// ---------------------------------------------------------------------------
// Rows
// ---------------------------------------------------------------------------

/// The content of a payload.
pub open spec fn content_of(payload: JsonView) -> Seq<char> {
    match json::text_field(payload, "content"@) {
        Some(c) => c,
        None => {
            let out = json::text_field_or(payload, "stdout"@, ""@);
            let err = json::text_field_or(payload, "stderr"@, ""@);
            match mode_named(json::text_field_or(payload, "output_mode"@, "stdout"@)) {
                Some(OutputMode::Stderr) => err,
                Some(OutputMode::Mixed) => if out.len() > 0 && err.len() > 0 && out.last()
                    != '\n' {
                    out + "\n"@ + err
                } else {
                    out + err
                },
                _ => out,
            }
        },
    }
}

/// Derive the content string from the payload.
///
/// Priority:
/// 1. `content` field (raw)
/// 2. `stdout` / `stderr` based on `output_mode`
pub fn extract_content(payload: &Json) -> (s: String)
    ensures
        s@ == content_of(payload@),
{
    if let Some(c) = payload.get_text("content") {
        return c.clone();
    }
    let mode_text = payload.get_text_or("output_mode", "stdout");
    let out = payload.get_text_or("stdout", "");
    let err = payload.get_text_or("stderr", "");
    match OutputMode::from_str(mode_text.as_str()) {
        Ok(OutputMode::Stderr) => err,
        Ok(OutputMode::Mixed) => {
            let o = text::chars_of(out.as_str());
            if o.len() > 0 && err.as_str().unicode_len() > 0 && o[o.len() - 1] != '\n' {
                let mut s = joined_text(out.as_str(), "\n");
                s.append(err.as_str());
                s
            } else {
                joined_text(out.as_str(), err.as_str())
            }
        },
        _ => out,
    }
}

/// The number of tokens that tokenx_rs estimates for a text.
pub uninterp spec fn token_count(content: Seq<char>) -> usize;

/// Calls `tokenx_rs::estimate_token_count`. Trusted: the estimate is a function
/// of the text.
#[verifier::external_body]
fn estimate_tokens(content: &str) -> (n: usize)
    ensures
        n == token_count(content@),
{
    tokenx_rs::estimate_token_count(content)
}

/// Estimate token count for `content` with a character-level heuristic.
///
/// Returns the estimate as `i64` for direct insertion into the
/// `handles.token_est` column.
pub fn token_estimate(content: &str) -> (n: i64)
    ensures
        n == token_count(content@) as i64,
{
    estimate_tokens(content) as i64
}

/// The number of lines of a text.
pub fn count_lines(content: &str) -> (n: usize)
    ensures
        n == pieces::lines_of(content@).len(),
{
    let chars = text::chars_of(content);
    let lines = pieces::split_lines(chars.as_slice());
    assert(text::views(lines@).len() == lines@.len());
    lines.len()
}

/// A member that a row keeps in columns of its own, or not at all.
pub open spec fn is_split_off(key: Seq<char>) -> bool {
    key == "stdout"@ || key == "stderr"@ || key == "content"@ || key == "tool_input"@
}

/// The members that describe the call.
pub open spec fn param_members(members: Seq<(Seq<char>, JsonView)>) -> Seq<(Seq<char>, JsonView)>
    decreases members.len(),
{
    if members.len() == 0 {
        seq![]
    } else if is_split_off(members.last().0) {
        param_members(members.drop_last())
    } else {
        param_members(members.drop_last()).push(members.last())
    }
}

/// The JSON text that describes the call.
pub open spec fn params_of(payload: JsonView) -> Seq<char> {
    match payload {
        JsonView::Object(members) => json::compact(
            json::canonical(JsonView::Object(param_members(members))),
        ),
        _ => json::compact(json::canonical(payload)),
    }
}

/// The JSON text that describes the call: the payload without its streams.
pub fn params_text(payload: &Json) -> (s: String)
    ensures
        s@ == params_of(payload@),
{
    proof {
        json::lemma_view(*payload);
    }
    match payload {
        Json::Object(members) => {
            let ghost all = json::members_view(members@);
            let mut kept: Vec<(String, Json)> = Vec::new();
            let mut i: usize = 0;
            assert(all.take(0) =~= seq![]);
            assert(json::members_view(kept@) =~= seq![]);
            while i < members.len()
                invariant
                    all == json::members_view(members@),
                    i <= members@.len(),
                    json::members_view(kept@) == param_members(all.take(i as int)),
                decreases members@.len() - i,
            {
                proof {
                    assert(all.take(i + 1).drop_last() =~= all.take(i as int));
                    assert(all.take(i + 1).last() == (
                        members@[i as int].0@,
                        members@[i as int].1@,
                    ));
                }
                let key = members[i].0.as_str();
                if !(text::same_text(key, "stdout") || text::same_text(key, "stderr")
                    || text::same_text(key, "content") || text::same_text(key, "tool_input")) {
                    let ghost before = json::members_view(kept@);
                    let name = members[i].0.clone();
                    let value = members[i].1.copy();
                    kept.push((name, value));
                    assert(json::members_view(kept@) =~= before.push((name@, value@)));
                }
                i += 1;
            }
            assert(all.take(i as int) =~= all);
            let object = Json::Object(kept);
            proof {
                json::lemma_view(object);
            }
            object.to_text()
        },
        _ => payload.to_text(),
    }
}

/// The row of a handle, but for its ID and the time.
#[derive(Debug)]
pub struct HandleRow {
    pub tool: String,
    /// The payload names no tool, and `tool` is the default.
    pub tool_missing: bool,
    pub output_mode: String,
    pub params: String,
    pub cwd: String,
    pub tool_input: Option<String>,
    pub content: String,
    pub line_count: i64,
    pub token_est: i64,
    pub truncated: bool,
}

/// `row` is the row of `payload`.
pub open spec fn is_row_of(row: HandleRow, payload: JsonView) -> bool {
    &&& row.tool@ == json::text_field_or(payload, "tool"@, "Bash"@)
    &&& row.tool_missing == (json::text_field(payload, "tool"@) is None)
    &&& row.output_mode@ == json::text_field_or(payload, "output_mode"@, "stdout"@)
    &&& row.params@ == params_of(payload)
    &&& row.cwd@ == json::text_field_or(payload, "cwd"@, ""@)
    &&& match row.tool_input {
        Some(t) => json::field(payload, "tool_input"@) matches Some(v) && t@ == json::compact(
            json::canonical(v),
        ),
        None => json::field(payload, "tool_input"@) is None,
    }
    &&& row.content@ == content_of(payload)
    &&& row.line_count == (pieces::lines_of(content_of(payload)).len() as usize) as i64
    &&& row.token_est == token_count(content_of(payload)) as i64
    &&& row.truncated == (json::field(payload, "truncated"@) == Some(JsonView::Bool(true)))
}

/// The row under which a payload is stored.
pub fn prepare_row(payload: &Json) -> (row: HandleRow)
    ensures
        is_row_of(row, payload@),
{
    let tool_missing = payload.get_text("tool").is_none();
    let content = extract_content(payload);
    let tool_input = match payload.get("tool_input") {
        Some(v) => Some(v.to_text()),
        None => None,
    };
    let truncated = match payload.get("truncated") {
        Some(Json::Bool(b)) => *b,
        _ => false,
    };
    HandleRow {
        tool: payload.get_text_or("tool", "Bash"),
        tool_missing,
        output_mode: payload.get_text_or("output_mode", "stdout"),
        params: params_text(payload),
        cwd: payload.get_text_or("cwd", ""),
        tool_input,
        line_count: count_lines(content.as_str()) as i64,
        token_est: token_estimate(content.as_str()),
        content,
        truncated,
    }
}

} // verus!
