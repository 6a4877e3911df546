//! Interception of large command output.
//!
//! Output above a threshold is stored under a handle, and a short message takes
//! its place. All else passes through unchanged.

use crate::cache;
use crate::cache::{lossy_text, CacheContext, CacheKey};
use crate::calls::InterceptCallMeta;
use crate::compress;
use crate::compress::ansi;
use crate::compress::code;
use crate::compress::diff;
use crate::doctor::{DEFAULT_BASH_BYTES, DEFAULT_LINES};
use crate::global_db::{CacheLookup, StoreBlobParams};
use crate::json;
use crate::json::{Json, JsonView};
use crate::number;
use crate::order;
use crate::payload;
use crate::pieces;
use crate::preview;
use crate::search;
use crate::settings;
use crate::store;
use crate::text;
use vstd::prelude::*;
use vstd::slice::*;
use vstd::string::*;

pub use crate::preview::{extract_preview, is_unified_diff};

verus! {

// ---------------------------------------------------------------------------
// Config
// ---------------------------------------------------------------------------

/// Configuration for the interception of command output.
#[derive(Debug, Clone)]
pub struct InterceptConfig {
    /// Maximum combined stdout+stderr bytes (without terminal escapes) before
    /// blocking.
    pub threshold: usize,
    /// Maximum combined stdout+stderr lines before blocking. Output is
    /// intercepted when EITHER byte threshold OR line threshold is exceeded.
    pub line_threshold: usize,
    /// When true, interception is recorded in the `calls` table.
    pub record: bool,
    /// The command that was executed. Used for content-aware compression
    /// routing (diff detection, code language).
    pub command: Option<String>,
    /// Serialized tool_input JSON from the payload.
    pub tool_input: Option<String>,
    /// Working directory from the payload.
    pub cwd: Option<String>,
    /// Tool use ID from the payload.
    pub tool_use_id: Option<String>,
}

impl InterceptConfig {
    /// Build config from the values of `CTXL_BASH_THRESHOLD` and
    /// `CTXL_BASH_LINE_THRESHOLD`, with compiled-in defaults.
    pub fn from_env(threshold: Option<&str>, line_threshold: Option<&str>) -> (c: Self)
        ensures
            c.threshold == settings::env_number(
                settings::env_view(threshold),
                DEFAULT_BASH_BYTES as nat,
            ),
            c.line_threshold == settings::env_number(
                settings::env_view(line_threshold),
                DEFAULT_LINES as nat,
            ),
            c.record,
            c.command is None && c.tool_input is None && c.cwd is None && c.tool_use_id is None,
    {
        InterceptConfig {
            threshold: settings::env_parse(threshold, DEFAULT_BASH_BYTES),
            line_threshold: settings::env_parse(line_threshold, DEFAULT_LINES),
            record: true,
            command: None,
            tool_input: None,
            cwd: None,
            tool_use_id: None,
        }
    }
}

/// What a command answered.
#[derive(Debug)]
pub struct ToolResponse {
    pub stdout: Option<String>,
    pub stderr: Option<String>,
    pub interrupted: Option<bool>,
    pub is_image: Option<bool>,
    pub no_output_expected: Option<bool>,
    pub exit_code: Option<i64>,
}

// ---------------------------------------------------------------------------
// Block messages
// ---------------------------------------------------------------------------

/// The preview on a line of its own, where there is one.
pub open spec fn preview_line(lead: Seq<char>, shown: Seq<char>) -> Seq<char> {
    if shown.len() == 0 {
        seq![]
    } else {
        lead + shown
    }
}

/// A note on lines that were not stored.
pub open spec fn truncation_note(line_count: nat, total: Option<usize>) -> Seq<char> {
    match total {
        Some(t) => if t > line_count {
            ", stored first "@ + number::decimal(line_count) + " of "@ + number::decimal(t as nat)
                + " lines"@
        } else {
            seq![]
        },
        None => seq![],
    }
}

/// How a file of a diff is named.
pub open spec fn diff_entry(f: (Seq<char>, nat, bool)) -> Seq<char> {
    if f.2 {
        f.0 + " (binary)"@
    } else if f.1 == 1 {
        f.0 + " (1 hunk)"@
    } else {
        f.0 + " ("@ + number::decimal(f.1) + " hunks)"@
    }
}

/// How a file of grep-like output is named.
pub open spec fn grep_entry(f: (Seq<char>, nat)) -> Seq<char> {
    f.0 + " ("@ + number::decimal(f.1) + ")"@
}

/// The files that a message names.
pub open spec fn top_files_line(entries: Seq<Seq<char>>) -> Seq<char> {
    if entries.len() == 0 {
        seq![]
    } else {
        "\n  Top: "@ + pieces::joined(entries, ", "@)
    }
}

/// The hints of a message on a handle with files.
pub open spec fn file_hints(handle: Seq<char>) -> Seq<char> {
    "Run: ctxl files "@ + handle + "  ·  ctxl show "@ + handle + "  ·  ctxl search "@ + handle
        + " <query>"@
}

/// The hints of a message on a handle without files.
pub open spec fn plain_hints(handle: Seq<char>) -> Seq<char> {
    "Run: ctxl show "@ + handle + "  ·  ctxl search "@ + handle + " <query>"@
}

/// The counts of a message.
pub open spec fn stats(lines: nat, files: Option<nat>, size: nat, note: Seq<char>) -> Seq<char> {
    match files {
        Some(n) => number::decimal(lines) + " lines, "@ + number::decimal(n) + " files, "@
            + number::decimal(size) + " bytes"@ + note,
        None => number::decimal(lines) + " lines, "@ + number::decimal(size) + " bytes"@ + note,
    }
}

/// The names of the top files of content.
pub open spec fn top_entries(content: Seq<char>) -> Seq<Seq<char>> {
    if preview::is_diff(content) {
        preview::top(order::flagged_ranked(preview::files_of_diff(content))).map_values(
            |f: (Seq<char>, nat, bool)| diff_entry(f),
        )
    } else {
        preview::top(order::ranked(preview::files_of_grep(content))).map_values(
            |f: (Seq<char>, nat)| grep_entry(f),
        )
    }
}

/// The number of files of content, where it is a diff or grep-like.
pub open spec fn file_total(content: Seq<char>) -> Option<nat> {
    if preview::is_diff(content) {
        Some(preview::files_of_diff(content).len())
    } else if preview::files_of_grep(content).len() > 0 {
        Some(preview::files_of_grep(content).len())
    } else {
        None
    }
}

/// The message that takes the place of content.
pub open spec fn block_message(
    handle: Seq<char>,
    line_count: nat,
    size: nat,
    content: Seq<char>,
    total: Option<usize>,
) -> Seq<char> {
    "[ctxl] Output captured ("@ + stats(
        line_count,
        file_total(content),
        size,
        truncation_note(line_count, total),
    ) + ") → "@ + handle + preview_line("\n  → "@, preview::preview_of(content))
        + top_files_line(top_entries(content)) + "\n"@ + (if file_total(content) is Some {
        file_hints(handle)
    } else {
        plain_hints(handle)
    })
}

fn diff_entries(files: &[(String, usize, bool)]) -> (out: Vec<String>)
    ensures
        text::texts(out@) == order::flagged_views(files@).map_values(
            |f: (Seq<char>, nat, bool)| diff_entry(f),
        ),
{
    let ghost all = order::flagged_views(files@).map_values(
        |f: (Seq<char>, nat, bool)| diff_entry(f),
    );
    let mut out: Vec<String> = Vec::new();
    let mut i: usize = 0;
    while i < files.len()
        invariant
            all == order::flagged_views(files@).map_values(
                |f: (Seq<char>, nat, bool)| diff_entry(f),
            ),
            i <= files@.len(),
            text::texts(out@) == all.take(i as int),
        decreases files@.len() - i,
    {
        let ghost before = text::texts(out@);
        let mut s = files[i].0.clone();
        if files[i].2 {
            s.append(" (binary)");
        } else if files[i].1 == 1 {
            s.append(" (1 hunk)");
        } else {
            s.append(" (");
            number::push_count(&mut s, files[i].1);
            s.append(" hunks)");
        }
        out.push(s);
        i += 1;
        proof {
            assert(all[i - 1] == diff_entry(order::flagged_view(files@[i - 1])));
            assert(text::texts(out@) =~= before.push(s@));
            assert(text::texts(out@) =~= all.take(i as int));
        }
    }
    assert(all.take(i as int) =~= all);
    out
}

fn grep_entries(files: &[(String, usize)]) -> (out: Vec<String>)
    ensures
        text::texts(out@) == order::entries_view(files@).map_values(
            |f: (Seq<char>, nat)| grep_entry(f),
        ),
{
    let ghost all = order::entries_view(files@).map_values(|f: (Seq<char>, nat)| grep_entry(f));
    let mut out: Vec<String> = Vec::new();
    let mut i: usize = 0;
    while i < files.len()
        invariant
            all == order::entries_view(files@).map_values(|f: (Seq<char>, nat)| grep_entry(f)),
            i <= files@.len(),
            text::texts(out@) == all.take(i as int),
        decreases files@.len() - i,
    {
        let ghost before = text::texts(out@);
        let mut s = files[i].0.clone();
        s.append(" (");
        number::push_count(&mut s, files[i].1);
        s.append(")");
        out.push(s);
        i += 1;
        proof {
            assert(all[i - 1] == grep_entry(order::entry_view(files@[i - 1])));
            assert(text::texts(out@) =~= before.push(s@));
            assert(text::texts(out@) =~= all.take(i as int));
        }
    }
    assert(all.take(i as int) =~= all);
    out
}

fn write_preview_line(lead: &str, shown: &str) -> (s: String)
    ensures
        s@ == preview_line(lead@, shown@),
{
    if shown.unicode_len() == 0 {
        let s = String::new();
        assert(s@ =~= seq![]);
        s
    } else {
        let mut s = lead.to_owned();
        s.append(shown);
        s
    }
}

fn write_truncation_note(line_count: usize, total: Option<usize>) -> (s: String)
    ensures
        s@ == truncation_note(line_count as nat, total),
{
    if let Some(t) = total {
        if t > line_count {
            let mut s = ", stored first ".to_owned();
            number::push_count(&mut s, line_count);
            s.append(" of ");
            number::push_count(&mut s, t);
            s.append(" lines");
            return s;
        }
    }
    let s = String::new();
    assert(s@ =~= seq![]);
    s
}

fn write_top_files(entries: &[String]) -> (s: String)
    ensures
        s@ == top_files_line(text::texts(entries@)),
{
    if entries.len() == 0 {
        let s = String::new();
        assert(s@ =~= seq![]);
        s
    } else {
        let list = pieces::join_strings(entries, ", ");
        let mut s = "\n  Top: ".to_owned();
        s.append(list.as_str());
        s
    }
}

fn write_stats(lines: usize, files: Option<usize>, size: u128, note: &str) -> (s: String)
    ensures
        s@ == stats(
            lines as nat,
            match files {
                Some(n) => Some(n as nat),
                None => None,
            },
            size as nat,
            note@,
        ),
{
    let mut s = number::decimal_string(lines as u128);
    s.append(" lines, ");
    if let Some(n) = files {
        number::push_count(&mut s, n);
        s.append(" files, ");
    }
    number::push_decimal(&mut s, size);
    s.append(" bytes");
    s.append(note);
    s
}

fn write_hints(handle: &str, with_files: bool) -> (s: String)
    ensures
        s@ == if with_files {
            file_hints(handle@)
        } else {
            plain_hints(handle@)
        },
{
    let mut s = if with_files {
        let mut t = "Run: ctxl files ".to_owned();
        t.append(handle);
        t.append("  ·  ctxl show ");
        t
    } else {
        "Run: ctxl show ".to_owned()
    };
    s.append(handle);
    s.append("  ·  ctxl search ");
    s.append(handle);
    s.append(" <query>");
    s
}

fn write_block_message(
    handle_id: &str,
    line_count: usize,
    size: u128,
    content: &str,
    total_lines: Option<usize>,
) -> (out: String)
    ensures
        out@ == block_message(handle_id@, line_count as nat, size as nat, content@, total_lines),
{
    let shown = extract_preview(content);
    let preview_part = write_preview_line("\n  → ", shown.as_str());
    let note = write_truncation_note(line_count, total_lines);
    let (files, entries) = if is_unified_diff(content) {
        let info = preview::analyze_diff_files(content);
        (Some(info.file_count), diff_entries(info.top_files.as_slice()))
    } else {
        let info = preview::analyze_grep_files(content);
        let files = if info.file_count > 0 {
            Some(info.file_count)
        } else {
            None
        };
        (files, grep_entries(info.top_files.as_slice()))
    };
    let counts = write_stats(line_count, files, size, note.as_str());
    let top_part = write_top_files(entries.as_slice());
    let hints = write_hints(handle_id, files.is_some());
    let mut out = "[ctxl] Output captured (".to_owned();
    out.append(counts.as_str());
    out.append(") → ");
    out.append(handle_id);
    out.append(preview_part.as_str());
    out.append(top_part.as_str());
    out.append("\n");
    out.append(hints.as_str());
    out
}

/// Format the message that takes the place of captured output.
///
/// The returned string contains:
/// - the handle ID
/// - the line count
/// - the byte count
/// - file count (when diff or grep-like output is detected)
/// - a one-line content preview
/// - retrieve and search hints (includes `ctxl files` when diff or grep-like)
pub fn format_block_message(
    handle_id: &str,
    line_count: usize,
    byte_count: usize,
    content: &str,
) -> (out: String)
    ensures
        out@ == block_message(
            handle_id@,
            line_count as nat,
            byte_count as nat,
            content@,
            None,
        ),
{
    format_block_message_ex(handle_id, line_count, byte_count, content, None)
}

/// Extended block message with optional total line count for truncation
/// transparency.
///
/// When `total_lines` is `Some(total)` and `total > line_count`, the stats
/// include "stored first {line_count} of {total} lines" so the agent knows that
/// search covers stored lines only.
pub fn format_block_message_ex(
    handle_id: &str,
    line_count: usize,
    byte_count: usize,
    content: &str,
    total_lines: Option<usize>,
) -> (out: String)
    ensures
        out@ == block_message(
            handle_id@,
            line_count as nat,
            byte_count as nat,
            content@,
            total_lines,
        ),
{
    write_block_message(handle_id, line_count, byte_count as u128, content, total_lines)
}

// ---------------------------------------------------------------------------
// The decision
// ---------------------------------------------------------------------------

/// A flag that may be absent.
pub open spec fn flag(b: Option<bool>) -> bool {
    b == Some(true)
}

fn is_set(b: Option<bool>) -> (r: bool)
    ensures
        r == flag(b),
{
    match b {
        Some(x) => x,
        None => false,
    }
}

/// A text that may be absent.
pub open spec fn text_or_empty(s: Option<String>) -> Seq<char> {
    match s {
        Some(t) => t@,
        None => ""@,
    }
}

fn own_text(s: &Option<String>) -> (r: String)
    ensures
        r@ == text_or_empty(*s),
{
    match s {
        Some(t) => t.clone(),
        None => "".to_owned(),
    }
}

/// The number of line breaks among bytes.
pub open spec fn newlines(b: Seq<u8>) -> nat
    decreases b.len(),
{
    if b.len() == 0 {
        0
    } else if b.last() == 10 {
        newlines(b.drop_last()) + 1
    } else {
        newlines(b.drop_last())
    }
}

fn count_newlines(b: &[u8]) -> (n: usize)
    ensures
        n == newlines(b@),
        n <= b@.len(),
{
    let mut n: usize = 0;
    let mut i: usize = 0;
    assert(b@.take(0) =~= seq![]);
    while i < b.len()
        invariant
            i <= b@.len(),
            n <= i,
            n == newlines(b@.take(i as int)),
        decreases b@.len() - i,
    {
        assert(b@.take(i + 1).drop_last() =~= b@.take(i as int));
        if b[i] == 10 {
            n += 1;
        }
        i += 1;
    }
    assert(b@.take(i as int) =~= b@);
    n
}

/// Two streams in one, on lines of their own.
pub open spec fn streams_joined(out: Seq<char>, err: Seq<char>) -> Seq<char> {
    if out.len() > 0 && err.len() > 0 && out.last() != '\n' {
        out + "\n"@ + err
    } else {
        out + err
    }
}

/// Put two streams into one, on lines of their own.
pub fn join_streams(out: &str, err: &str) -> (s: String)
    ensures
        s@ == streams_joined(out@, err@),
{
    let chars = text::chars_of(out);
    let mut s = out.to_owned();
    if chars.len() > 0 && err.unicode_len() > 0 && chars[chars.len() - 1] != '\n' {
        s.append("\n");
    }
    s.append(err);
    s
}

/// The size of the streams together.
pub open spec fn total_size(out: Seq<u8>, err: Seq<u8>) -> nat {
    out.len() + err.len()
}

/// The line breaks of the streams together.
pub open spec fn total_lines(out: Seq<u8>, err: Seq<u8>) -> nat {
    newlines(out) + newlines(err)
}

/// Why output passes through unchanged.
#[derive(Debug, Clone, Copy, PartialEq, Eq, Structural)]
pub enum PassReason {
    /// It is an image.
    Image,
    /// It is within both thresholds.
    BelowThreshold,
    /// The command was interrupted, and its output is below twice the
    /// threshold.
    Interrupted,
}

/// Why output passes through unchanged, if it does. An image always does;
/// otherwise output is intercepted when either threshold is exceeded, that of an
/// interrupted command only from twice the threshold on.
pub open spec fn pass_reason(
    resp: ToolResponse,
    out: Seq<u8>,
    err: Seq<u8>,
    threshold: nat,
    line_threshold: nat,
) -> Option<PassReason> {
    if flag(resp.is_image) {
        Some(PassReason::Image)
    } else if total_size(out, err) <= threshold && total_lines(out, err) <= line_threshold {
        Some(PassReason::BelowThreshold)
    } else if flag(resp.interrupted) && total_size(out, err) < 2 * threshold {
        Some(PassReason::Interrupted)
    } else {
        None
    }
}

/// What is to be stored of captured output.
#[derive(Debug)]
pub struct Capture {
    pub tool: String,
    /// The payload names no tool, and `tool` is the default.
    pub tool_missing: bool,
    /// Both streams as they came.
    pub content: String,
    /// Both streams without terminal escapes.
    pub shown: String,
    pub line_count: usize,
    pub byte_count: u128,
    pub payload: Json,
}

/// What to do with the output of a command.
#[derive(Debug)]
pub enum Decision {
    /// Leave it unchanged.
    Pass(PassReason),
    /// Store it.
    Capture(Capture),
}

/// The payload under which output is stored.
pub open spec fn bash_payload(
    tool: Seq<char>,
    out: Seq<char>,
    err: Seq<char>,
    tool_input: Option<Seq<char>>,
) -> JsonView {
    let base = JsonView::Object(
        seq![
            ("output_mode"@, JsonView::Text("mixed"@)),
            ("stderr"@, JsonView::Text(err)),
            ("stdout"@, JsonView::Text(out)),
            ("tool"@, JsonView::Text(tool)),
        ],
    );
    match tool_input {
        Some(raw) => json::field_set(base, "tool_input"@, payload::tool_input_tree(raw)),
        None => base,
    }
}

/// The name of the tool, or `default`.
pub open spec fn tool_or(name: Option<String>, default: Seq<char>) -> Seq<char> {
    match name {
        Some(n) => n@,
        None => default,
    }
}

/// `c` is what is stored of a response.
pub open spec fn captures(
    c: Capture,
    tool_name: Option<String>,
    resp: ToolResponse,
    tool_input: Option<String>,
    out: Seq<u8>,
    err: Seq<u8>,
) -> bool {
    let raw_out = text_or_empty(resp.stdout);
    let raw_err = text_or_empty(resp.stderr);
    &&& c.tool@ == tool_or(tool_name, "Bash"@)
    &&& c.tool_missing == (tool_name is None)
    &&& c.content@ == streams_joined(raw_out, raw_err)
    &&& c.shown@ == streams_joined(cache::lossy(out), cache::lossy(err))
    &&& c.line_count == pieces::lines_of(streams_joined(raw_out, raw_err)).len()
    &&& c.byte_count == total_size(out, err)
    &&& c.payload@ == bash_payload(
        tool_or(tool_name, "Bash"@),
        raw_out,
        raw_err,
        text::opt_text(tool_input),
    )
}

fn write_payload(tool: &str, out: &str, err: &str, tool_input: &Option<String>) -> (j: Json)
    ensures
        j@ == bash_payload(tool@, out@, err@, text::opt_text(*tool_input)),
{
    let members: Vec<(String, Json)> = vec![
        ("output_mode".to_owned(), Json::Text(store::OutputMode::Mixed.to_text())),
        ("stderr".to_owned(), Json::Text(err.to_owned())),
        ("stdout".to_owned(), Json::Text(out.to_owned())),
        ("tool".to_owned(), Json::Text(tool.to_owned())),
    ];
    let mut j = Json::Object(members);
    proof {
        json::lemma_view(j);
        assert(json::members_view(members@) =~= bash_payload(
            tool@,
            out@,
            err@,
            None,
        )->Object_0);
    }
    if let Some(raw) = tool_input {
        payload::set_tool_input(&mut j, raw.as_str());
    }
    j
}

/// Decide what to do with the output of a command, given its streams without
/// terminal escapes.
pub fn decide(
    tool_name: Option<String>,
    resp: &ToolResponse,
    config: &InterceptConfig,
    out: &[u8],
    err: &[u8],
) -> (d: Decision)
    ensures
        is_decision(d, tool_name, *resp, *config, out@, err@),
{
    if is_set(resp.is_image) {
        return Decision::Pass(PassReason::Image);
    }
    let byte_count: u128 = out.len() as u128 + err.len() as u128;
    let lines: u128 = count_newlines(out) as u128 + count_newlines(err) as u128;
    if byte_count <= config.threshold as u128 && lines <= config.line_threshold as u128 {
        return Decision::Pass(PassReason::BelowThreshold);
    }
    if is_set(resp.interrupted) && byte_count < 2 * (config.threshold as u128) {
        return Decision::Pass(PassReason::Interrupted);
    }
    let raw_out = own_text(&resp.stdout);
    let raw_err = own_text(&resp.stderr);
    let content = join_streams(raw_out.as_str(), raw_err.as_str());
    let line_count = store::count_lines(content.as_str());
    let shown_out = lossy_text(out);
    let shown_err = lossy_text(err);
    let shown = join_streams(shown_out.as_str(), shown_err.as_str());
    let tool_missing = tool_name.is_none();
    let tool = match tool_name {
        Some(t) => t,
        None => "Bash".to_owned(),
    };
    let payload = write_payload(
        tool.as_str(),
        raw_out.as_str(),
        raw_err.as_str(),
        &config.tool_input,
    );
    Decision::Capture(
        Capture { tool, tool_missing, content, shown, line_count, byte_count, payload },
    )
}

/// `d` is what to do with a response whose streams, without terminal escapes,
/// are `out` and `err`.
pub open spec fn is_decision(
    d: Decision,
    tool_name: Option<String>,
    resp: ToolResponse,
    config: InterceptConfig,
    out: Seq<u8>,
    err: Seq<u8>,
) -> bool {
    let reason = pass_reason(
        resp,
        out,
        err,
        config.threshold as nat,
        config.line_threshold as nat,
    );
    match d {
        Decision::Pass(r) => reason == Some(r),
        Decision::Capture(c) => reason is None && captures(
            c,
            tool_name,
            resp,
            config.tool_input,
            out,
            err,
        ),
    }
}

/// Decide what to do with the output of a command.
///
/// # Passthrough conditions (evaluated in order)
///
/// 1. The output is an image: binary content is never intercepted.
/// 2. Its size without terminal escapes is within both thresholds.
/// 3. The command was interrupted and the size is below twice the threshold.
pub fn run(
    tool_name: Option<String>,
    resp: &ToolResponse,
    config: &InterceptConfig,
) -> (d: Decision)
    ensures
        is_decision(
            d,
            tool_name,
            *resp,
            *config,
            ansi::stripped(text_or_empty(resp.stdout)),
            ansi::stripped(text_or_empty(resp.stderr)),
        ),
{
    let raw_out = own_text(&resp.stdout);
    let raw_err = own_text(&resp.stderr);
    let out = ansi::strip(raw_out.as_str());
    let err = ansi::strip(raw_err.as_str());
    decide(tool_name, resp, config, out.as_slice(), err.as_slice())
}

/// The message that takes the place of captured output; that of a failed
/// command says so.
pub open spec fn capture_message(
    handle: Seq<char>,
    line_count: nat,
    size: nat,
    shown: Seq<char>,
    exit_code: Option<i64>,
) -> Seq<char> {
    match exit_code {
        Some(code) => if code != 0 {
            "[ctxl] Command failed (exit "@ + number::signed_decimal(code as int)
                + "). Output captured ("@ + number::decimal(line_count) + " lines, "@
                + number::decimal(size) + " bytes) → "@ + handle + preview_line(
                "\n  Preview: "@,
                preview::preview_of(shown),
            ) + "\nRun: ctxl show "@ + handle + " --tail 40  ·  ctxl search "@ + handle
                + " \"error\""@
        } else {
            block_message(handle, line_count, size, shown, None)
        },
        None => block_message(handle, line_count, size, shown, None),
    }
}

/// Write the message that takes the place of captured output.
pub fn format_capture(c: &Capture, handle_id: &str, exit_code: Option<i64>) -> (out: String)
    ensures
        out@ == capture_message(
            handle_id@,
            c.line_count as nat,
            c.byte_count as nat,
            c.shown@,
            exit_code,
        ),
{
    if let Some(code) = exit_code {
        if code != 0 {
            let shown = extract_preview(c.shown.as_str());
            let preview_part = write_preview_line("\n  Preview: ", shown.as_str());
            let mut out = "[ctxl] Command failed (exit ".to_owned();
            number::push_signed(&mut out, code);
            out.append("). Output captured (");
            number::push_count(&mut out, c.line_count);
            out.append(" lines, ");
            number::push_decimal(&mut out, c.byte_count);
            out.append(" bytes) → ");
            out.append(handle_id);
            out.append(preview_part.as_str());
            out.append("\nRun: ctxl show ");
            out.append(handle_id);
            out.append(" --tail 40  ·  ctxl search ");
            out.append(handle_id);
            out.append(" \"error\"");
            return out;
        }
    }
    write_block_message(handle_id, c.line_count, c.byte_count, c.shown.as_str(), None)
}

/// The answer of the hook, with `output` in place of what the tool gave.
pub open spec fn hook_envelope(output: JsonView) -> JsonView {
    JsonView::Object(
        seq![
            (
                "hookSpecificOutput"@,
                JsonView::Object(
                    seq![
                        ("hookEventName"@, JsonView::Text("PostToolUse"@)),
                        ("updatedToolOutput"@, output),
                    ],
                ),
            ),
        ],
    )
}

/// The answer of the hook, with `output` in place of what the tool gave.
pub fn write_envelope(output: Json) -> (j: Json)
    ensures
        j@ == hook_envelope(output@),
{
    let inner_members: Vec<(String, Json)> = vec![
        ("hookEventName".to_owned(), Json::Text("PostToolUse".to_owned())),
        ("updatedToolOutput".to_owned(), output),
    ];
    let inner = Json::Object(inner_members);
    let members: Vec<(String, Json)> = vec![("hookSpecificOutput".to_owned(), inner)];
    let j = Json::Object(members);
    proof {
        json::lemma_view(inner);
        json::lemma_view(j);
        assert(json::members_view(inner_members@) =~= seq![
            ("hookEventName"@, JsonView::Text("PostToolUse"@)),
            ("updatedToolOutput"@, output@),
        ]);
        assert(json::members_view(members@) =~= seq![("hookSpecificOutput"@, inner@)]);
    }
    j
}

/// What takes the place of the output of a command.
pub open spec fn bash_output(message: Seq<char>, resp: ToolResponse) -> JsonView {
    JsonView::Object(
        seq![
            ("interrupted"@, JsonView::Bool(flag(resp.interrupted))),
            ("isImage"@, JsonView::Bool(flag(resp.is_image))),
            ("noOutputExpected"@, JsonView::Bool(flag(resp.no_output_expected))),
            ("stderr"@, JsonView::Text(""@)),
            ("stdout"@, JsonView::Text(message)),
        ],
    )
}

/// The answer of the hook to captured output: the message in place of stdout,
/// nothing in place of stderr, and the flags of the response.
pub fn capture_envelope(message: String, resp: &ToolResponse) -> (j: Json)
    ensures
        j@ == hook_envelope(bash_output(message@, *resp)),
{
    let members: Vec<(String, Json)> = vec![
        ("interrupted".to_owned(), Json::Bool(is_set(resp.interrupted))),
        ("isImage".to_owned(), Json::Bool(is_set(resp.is_image))),
        ("noOutputExpected".to_owned(), Json::Bool(is_set(resp.no_output_expected))),
        ("stderr".to_owned(), Json::Text("".to_owned())),
        ("stdout".to_owned(), Json::Text(message)),
    ];
    let output = Json::Object(members);
    proof {
        json::lemma_view(output);
        assert(json::members_view(members@) =~= bash_output(message@, *resp)->Object_0);
    }
    write_envelope(output)
}

/// The row of an intercepted call. Calls are recorded unless the configuration
/// says otherwise.
pub fn capture_call<'a>(
    c: &'a Capture,
    handle_id: &'a str,
    config: &'a InterceptConfig,
    exit_code: Option<i64>,
) -> (r: Option<InterceptCallMeta<'a>>)
    ensures
        r is Some == config.record,
        r matches Some(m) ==> {
            &&& m.tool@ == c.tool@
            &&& m.handle_id@ == handle_id@
            &&& m.line_count == c.line_count as i64
            &&& m.token_est == Some(store::token_count(c.content@) as i64)
            &&& settings::env_view(m.tool_input) == text::opt_text(config.tool_input)
            &&& settings::env_view(m.cwd) == text::opt_text(config.cwd)
            &&& settings::env_view(m.tool_use_id) == text::opt_text(config.tool_use_id)
            &&& m.exit_code == exit_code
        },
{
    if config.record {
        Some(
            InterceptCallMeta {
                tool: c.tool.as_str(),
                handle_id,
                line_count: c.line_count as i64,
                token_est: Some(store::token_estimate(c.content.as_str())),
                tool_input: settings::opt_str(&config.tool_input),
                cwd: settings::opt_str(&config.cwd),
                tool_use_id: settings::opt_str(&config.tool_use_id),
                exit_code,
            },
        )
    } else {
        None
    }
}

// ---------------------------------------------------------------------------
// Compression routing
// ---------------------------------------------------------------------------

/// A command without the comment at its end.
pub open spec fn without_comment(command: Seq<char>) -> Seq<char> {
    let t = text::trimmed(command);
    match search::sub_index(t, " #"@) {
        Some(k) => text::trimmed_end(t.take(k)),
        None => t,
    }
}

/// The last argument that is no flag.
pub open spec fn last_argument(words: Seq<Seq<char>>) -> Option<Seq<char>>
    decreases words.len(),
{
    if words.len() == 0 {
        None
    } else if words.last().len() > 0 && words.last()[0] == '-' {
        last_argument(words.drop_last())
    } else {
        Some(words.last())
    }
}

/// The language of the file that a `cat` command shows.
pub open spec fn command_language(command: Seq<char>) -> Option<Seq<char>> {
    let c = without_comment(command);
    if !"cat "@.is_prefix_of(c) || c.contains('|') || c.contains('>') {
        None
    } else {
        match last_argument(pieces::words_of(c)) {
            Some(path) => compress::language_for(search::after_last(path, '.')),
            None => None,
        }
    }
}

/// Detect the source language from a `cat <file>` command.
///
/// Returns a language identifier suitable for [`code::compress`] when the
/// command is a simple `cat path/to/file.ext` invocation with a recognized
/// extension.
pub fn detect_code_language_from_command(command: &str) -> (r: Option<&'static str>)
    ensures
        compress::same_language(r, command_language(command@)),
{
    let chars = text::chars_of(command);
    let trimmed = text::trim(chars.as_slice());
    proof {
        reveal_strlit(" #");
        search::lemma_sub_index_from(trimmed@, " #"@, 0);
    }
    let plain = match search::find_sub(trimmed, " #") {
        Some(k) => {
            let head = slice_subrange(trimmed, 0, k);
            assert(head@ =~= trimmed@.take(k as int));
            text::trim_end(head)
        },
        None => trimmed,
    };
    if !text::starts_with(plain, "cat ") || search::has_char(plain, '|') || search::has_char(
        plain,
        '>',
    ) {
        return None;
    }
    let words = pieces::split_words(plain);
    let ghost all = text::views(words@);
    let mut i: usize = words.len();
    assert(all.take(i as int) =~= all);
    while i > 0
        invariant
            all == text::views(words@),
            all == pieces::words_of(plain@),
            plain@ == without_comment(command@),
            "cat "@.is_prefix_of(plain@) && !plain@.contains('|') && !plain@.contains('>'),
            i <= words@.len(),
            last_argument(all) == last_argument(all.take(i as int)),
        decreases i,
    {
        proof {
            assert(all.take(i as int).drop_last() =~= all.take(i - 1));
            assert(all.take(i as int).last() == words@[i - 1]@);
        }
        i -= 1;
        let word = words[i];
        if !(word.len() > 0 && word[0] == '-') {
            let ext = text::string_of(search::rest_after_last(word, '.'));
            return compress::language_from_extension(ext.as_str());
        }
    }
    None
}

/// One line per entity of a diff.
pub open spec fn entity_lines(entries: Seq<(Seq<char>, Seq<char>, Seq<char>)>) -> Seq<Seq<char>> {
    entries.map_values(
        |e: (Seq<char>, Seq<char>, Seq<char>)| e.0 + "\t"@ + e.1 + "\t"@ + e.2,
    )
}

fn write_entity_lines(entries: &[(String, String, String)]) -> (out: Vec<String>)
    ensures
        text::texts(out@) == entity_lines(diff::triples_view(entries@)),
{
    let ghost all = entity_lines(diff::triples_view(entries@));
    let mut out: Vec<String> = Vec::new();
    let mut i: usize = 0;
    while i < entries.len()
        invariant
            all == entity_lines(diff::triples_view(entries@)),
            i <= entries@.len(),
            text::texts(out@) == all.take(i as int),
        decreases entries@.len() - i,
    {
        let ghost before = text::texts(out@);
        let mut s = entries[i].0.clone();
        s.append("\t");
        s.append(entries[i].1.as_str());
        s.append("\t");
        s.append(entries[i].2.as_str());
        out.push(s);
        i += 1;
        proof {
            assert(text::texts(out@) =~= before.push(s@));
            assert(text::texts(out@) =~= all.take(i as int));
        }
    }
    assert(all.take(i as int) =~= all);
    out
}

/// The entities of a diff as text, where there are any.
pub fn render_entities(entries: &[(String, String, String)]) -> (r: Option<String>)
    ensures
        match r {
            Some(s) => entries@.len() > 0 && s@ == pieces::joined(
                entity_lines(diff::triples_view(entries@)),
                "\n"@,
            ),
            None => entries@.len() == 0,
        },
{
    if entries.len() == 0 {
        return None;
    }
    let lines = write_entity_lines(entries);
    Some(pieces::join_strings(lines.as_slice(), "\n"))
}

/// The compressed body of content and its method, where there is one: the
/// entities of a diff, or the skeleton of source code that a `cat` command
/// shows, where it is shorter.
pub open spec fn compression_of(content: Seq<char>, command: Option<Seq<char>>) -> Option<
    (Seq<char>, Seq<char>),
> {
    if preview::is_diff(content) {
        let entries = diff::merged_entries(diff::all_entries(diff::diff_files(content)));
        if entries.len() == 0 {
            None
        } else {
            Some(("diff"@, pieces::joined(entity_lines(entries), "\n"@)))
        }
    } else {
        match command {
            Some(c) => match command_language(c) {
                Some(lang) => {
                    let skeleton = code::compressed(content, lang);
                    if crate::bytes::byte_len(skeleton) >= crate::bytes::byte_len(content) {
                        None
                    } else {
                        Some(("code"@, skeleton))
                    }
                },
                None => None,
            },
            None => None,
        }
    }
}

/// Content-aware compression of captured output.
///
/// Detection priority:
/// 1. Unified diff: entity-level attribution
/// 2. `cat <file>` with known extension: code skeleton
///
/// Compression is supplementary: the raw content is always preserved.
pub fn apply_compression(content: &str, command: Option<&str>) -> (r: Option<
    (&'static str, String),
>)
    ensures
        match r {
            Some((method, body)) => compression_of(content@, settings::env_view(command)) == Some(
                (method@, body@),
            ),
            None => compression_of(content@, settings::env_view(command)) is None,
        },
{
    if is_unified_diff(content) {
        let entries = diff::compress(content);
        assert(diff::triples_view(entries@).len() == entries@.len());
        match render_entities(entries.as_slice()) {
            Some(body) => Some(("diff", body)),
            None => None,
        }
    } else {
        match command {
            Some(c) => match detect_code_language_from_command(c) {
                Some(lang) => {
                    let skeleton = code::compress(content, lang);
                    if crate::bytes::str_bytes(skeleton.as_str()) >= crate::bytes::str_bytes(
                        content,
                    ) {
                        None
                    } else {
                        Some(("code", skeleton))
                    }
                },
                None => None,
            },
            None => None,
        }
    }
}

// ---------------------------------------------------------------------------
// Cache write-through
// ---------------------------------------------------------------------------

/// The hash under which output is cached: that of the parameters of the call,
/// as a cache check computes it, or one of the output where there are none.
pub open spec fn write_through_hash(
    params: Option<Seq<char>>,
    tool: Seq<char>,
    output_mode: Seq<char>,
    content: Seq<char>,
) -> Seq<char> {
    match params {
        Some(p) => cache::text_hash(cache::normalized(p)),
        None => cache::text_hash(
            tool + ":"@ + output_mode + ":"@ + cache::text_hash(content),
        ),
    }
}

/// The key under which output is cached.
pub fn write_through_key(
    repo_root: &str,
    tool: &str,
    output_mode: &str,
    params_json: Option<&str>,
    content: &str,
    git_head: String,
) -> (key: CacheKey)
    ensures
        key.repo_root@ == repo_root@,
        key.tool@ == tool@,
        text::opt_text(key.output_mode) == Some(output_mode@),
        key.param_hash@ == write_through_hash(
            settings::env_view(params_json),
            tool@,
            output_mode@,
            content@,
        ),
        key.git_head@ == git_head@,
{
    let param_hash = match params_json {
        Some(p) => {
            let normal = cache::normalize_params(p);
            cache::xxh128_hex(normal.as_str())
        },
        None => {
            let content_hash = cache::xxh128_hex(content);
            let mut s = tool.to_owned();
            s.append(":");
            s.append(output_mode);
            s.append(":");
            s.append(content_hash.as_str());
            cache::xxh128_hex(s.as_str())
        },
    };
    CacheKey {
        repo_root: repo_root.to_owned(),
        tool: tool.to_owned(),
        output_mode: Some(output_mode.to_owned()),
        param_hash,
        git_head,
    }
}

/// Output may be cached: it comes from a repository whose worktree is clean and
/// whose `HEAD` is known.
pub open spec fn may_cache(repo_root: Option<Seq<char>>, dirty: bool, head: Option<Seq<char>>) -> bool {
    repo_root is Some && !dirty && head is Some
}

/// The key under which output is written through to the cross-session cache,
/// where it may be cached at all. The session handle is stored already; outside
/// a repository, and with a dirty worktree, nothing more is done.
pub fn try_cache_write_through(
    ctx: &CacheContext,
    dirty: bool,
    head: Option<String>,
    content: &str,
    tool: &str,
    output_mode: &str,
    params_json: Option<&str>,
) -> (r: Option<CacheKey>)
    ensures
        match r {
            Some(key) => may_cache(text::opt_text(ctx.repo_root), dirty, text::opt_text(head))
                && Some(key.repo_root@) == text::opt_text(ctx.repo_root) && key.tool@ == tool@
                && text::opt_text(key.output_mode) == Some(output_mode@) && key.param_hash@
                == write_through_hash(
                settings::env_view(params_json),
                tool@,
                output_mode@,
                content@,
            ) && Some(key.git_head@) == text::opt_text(head),
            None => !may_cache(text::opt_text(ctx.repo_root), dirty, text::opt_text(head)),
        },
{
    if dirty {
        return None;
    }
    match (&ctx.repo_root, head) {
        (Some(root), Some(h)) => Some(
            write_through_key(root.as_str(), tool, output_mode, params_json, content, h),
        ),
        _ => None,
    }
}

/// A cache check finds what was written through: for a call with parameters both
/// use the same key.
pub proof fn lemma_write_through_is_found(
    key: CacheKey,
    repo_root: Seq<char>,
    tool: Seq<char>,
    output_mode: Seq<char>,
    params: Seq<char>,
    content: Seq<char>,
    head: Seq<char>,
)
    requires
        cache::is_key_of(key, repo_root, tool, Some(output_mode), params, head),
    ensures
        key.param_hash@ == write_through_hash(Some(params), tool, output_mode, content),
{
}

/// What to do about the cache after looking a key up.
#[derive(Debug)]
pub enum WriteThrough {
    /// The output is cached: mark the blob as used and link the handle to it.
    Link(i64),
    /// The output is not cached: store it and link the handle to the new blob.
    Store,
    /// The lookup failed, for this reason. The handle is stored all the same.
    GiveUp(String),
}

/// Decide what to do about the cache after looking a key up.
pub fn write_through_action(found: Result<Option<CacheLookup>, String>) -> (a: WriteThrough)
    ensures
        a == match found {
            Ok(Some(hit)) => WriteThrough::Link(hit.blob_id),
            Ok(None) => WriteThrough::Store,
            Err(m) => WriteThrough::GiveUp(m),
        },
{
    match found {
        Ok(Some(hit)) => WriteThrough::Link(hit.blob_id),
        Ok(None) => WriteThrough::Store,
        Err(m) => WriteThrough::GiveUp(m),
    }
}

/// The hash of content by which blobs are told apart.
pub fn content_hash(content: &str) -> (s: String)
    ensures
        s@ == cache::text_hash(content@),
{
    cache::xxh128_hex(content)
}

/// The blob that is stored for content.
pub fn blob_params<'a>(hash: &'a str, content: &'a str) -> (p: StoreBlobParams<'a>)
    ensures
        p.content_hash@ == hash@,
        p.content@ == content@,
        p.compressed_body is None && p.compressed_method is None,
        p.line_count == Some((pieces::lines_of(content@).len() as usize) as i64),
        p.token_est == Some(store::token_count(content@) as i64),
{
    StoreBlobParams {
        content_hash: hash,
        content,
        compressed_body: None,
        compressed_method: None,
        line_count: Some(store::count_lines(content) as i64),
        token_est: Some(store::token_estimate(content)),
    }
}

// ---------------------------------------------------------------------------
// Laws
// ---------------------------------------------------------------------------

/// An image passes through whatever its size.
pub proof fn lemma_image_passes(
    resp: ToolResponse,
    out: Seq<u8>,
    err: Seq<u8>,
    threshold: nat,
    line_threshold: nat,
)
    requires
        flag(resp.is_image),
    ensures
        pass_reason(resp, out, err, threshold, line_threshold) == Some(PassReason::Image),
{
}

/// Output that is neither an image nor of an interrupted command is intercepted
/// exactly when it exceeds one of the thresholds.
pub proof fn lemma_intercepts_above_threshold(
    resp: ToolResponse,
    out: Seq<u8>,
    err: Seq<u8>,
    threshold: nat,
    line_threshold: nat,
)
    requires
        !flag(resp.is_image),
        !flag(resp.interrupted),
    ensures
        pass_reason(resp, out, err, threshold, line_threshold) is None <==> (total_size(out, err)
            > threshold || total_lines(out, err) > line_threshold),
{
}

/// What is stored gives back both streams as they came.
pub proof fn lemma_stored_content(
    tool: Seq<char>,
    out: Seq<char>,
    err: Seq<char>,
    tool_input: Option<Seq<char>>,
)
    ensures
        store::content_of(bash_payload(tool, out, err, tool_input)) == streams_joined(out, err),
{
    reveal_strlit("output_mode");
    reveal_strlit("stderr");
    reveal_strlit("stdout");
    reveal_strlit("tool");
    reveal_strlit("tool_input");
    reveal_strlit("content");
    reveal_strlit("mixed");
    reveal_strlit("");
    store::lemma_mode_round_trip(store::OutputMode::Mixed);
    let base = bash_payload(tool, out, err, None);
    let members = base->Object_0;
    assert("output_mode"@[0] == 'o');
    assert("stderr"@[3] == 'e');
    assert("stdout"@[3] == 'o');
    assert("tool"@[0] == 't');
    assert("tool"@.len() == 4);
    assert("tool_input"@.len() == 10);
    assert("content"@[0] == 'c');
    assert("content"@[1] == 'o');
    assert("output_mode"@[1] == 'u');
    lemma_members_of(members, out, err);
    match tool_input {
        Some(raw) => {
            let value = payload::tool_input_tree(raw);
            assert(order::lex_before("tool"@, "tool_input"@)) by {
                order::lemma_prefix_before("tool"@, "tool_input"@);
            }
            let longer = members.push(("tool_input"@, value));
            assert(json::put(members, "tool_input"@, value) == longer);
            lemma_members_of(longer, out, err);
        },
        None => {},
    }
}

proof fn lemma_members_of(members: Seq<(Seq<char>, JsonView)>, out: Seq<char>, err: Seq<char>)
    requires
        4 <= members.len() <= 5,
        members[0] == ("output_mode"@, JsonView::Text("mixed"@)),
        members[1] == ("stderr"@, JsonView::Text(err)),
        members[2] == ("stdout"@, JsonView::Text(out)),
        members[3].0 == "tool"@,
        members.len() == 5 ==> members[4].0 == "tool_input"@,
    ensures
        store::content_of(JsonView::Object(members)) == streams_joined(out, err),
{
    reveal_strlit("output_mode");
    reveal_strlit("stderr");
    reveal_strlit("stdout");
    reveal_strlit("tool");
    reveal_strlit("tool_input");
    reveal_strlit("content");
    assert("output_mode"@[1] == 'u');
    assert("stderr"@[3] == 'e');
    assert("stdout"@[3] == 'o');
    assert("tool"@[0] == 't');
    assert("tool_input"@[0] == 't');
    assert("content"@[0] == 'c');
    assert("stderr"@[0] == 's');
    assert("stdout"@[0] == 's');
    assert("output_mode"@[0] == 'o');
    store::lemma_mode_round_trip(store::OutputMode::Mixed);
    reveal_with_fuel(json::member_index, 6);
    assert(json::member_index(members, "content"@, 0) is None);
    assert(json::member_index(members, "output_mode"@, 0) == Some(0int));
    assert(json::member_index(members, "stderr"@, 0) == Some(1int));
    assert(json::member_index(members, "stdout"@, 0) == Some(2int));
}

} // verus!
