//! Where the report of a tool call goes.
//!
//! The hook hands over one JSON payload per tool call. The name of the tool
//! decides: output of commands and of searches may be intercepted, other calls
//! are recorded, and unknown tools are left alone.

use crate::cli::session;
use crate::intercept::InterceptConfig;
use crate::intercept_grep::GrepInterceptConfig;
use crate::json;
use crate::json::{Json, JsonView};
use crate::pieces;
use crate::preview;
use crate::settings;
use crate::text;
use vstd::prelude::*;
use vstd::string::*;

verus! {

// ---------------------------------------------------------------------------
// Payloads
// ---------------------------------------------------------------------------

/// What is read off a payload before it is taken apart.
#[derive(Debug)]
pub struct Peeked {
    /// The name of the tool; empty where the payload has none.
    pub tool_name: String,
    pub session_id: Option<String>,
    /// The command that was executed.
    pub command: Option<String>,
    /// The input of the tool, as compact JSON.
    pub tool_input: Option<String>,
    /// The working directory: that of the input, else that of the payload.
    pub cwd: Option<String>,
    pub tool_use_id: Option<String>,
}

/// The text under `key`, where there is a payload.
pub open spec fn payload_text(payload: Option<JsonView>, key: Seq<char>) -> Option<Seq<char>> {
    match payload {
        Some(tree) => json::text_field(tree, key),
        None => None,
    }
}

/// The input of the tool.
pub open spec fn payload_input(payload: Option<JsonView>) -> Option<JsonView> {
    match payload {
        Some(tree) => json::field(tree, "tool_input"@),
        None => None,
    }
}

/// `p` is what is read off a payload; `None` stands for one that is no JSON.
pub open spec fn reads_off(p: Peeked, payload: Option<JsonView>) -> bool {
    let input = payload_input(payload);
    &&& p.tool_name@ == match payload_text(payload, "tool_name"@) {
        Some(s) => s,
        None => ""@,
    }
    &&& text::opt_text(p.session_id) == payload_text(payload, "session_id"@)
    &&& text::opt_text(p.command) == payload_text(input, "command"@)
    &&& text::opt_text(p.tool_input) == match input {
        Some(tree) => Some(json::compact(json::canonical(tree))),
        None => None,
    }
    &&& text::opt_text(p.cwd) == match payload_text(input, "cwd"@) {
        Some(s) => Some(s),
        None => payload_text(payload, "cwd"@),
    }
    &&& text::opt_text(p.tool_use_id) == payload_text(payload, "tool_use_id"@)
}

fn text_under(tree: Option<&Json>, key: &str) -> (r: Option<String>)
    ensures
        text::opt_text(r) == payload_text(
            match tree {
                Some(j) => Some(j@),
                None => None,
            },
            key@,
        ),
{
    match tree {
        Some(j) => match j.get_text(key) {
            Some(s) => Some(s.clone()),
            None => None,
        },
        None => None,
    }
}

/// Read off what a payload says; `None` stands for one that is no JSON.
pub fn peek_tree(payload: Option<&Json>) -> (p: Peeked)
    ensures
        reads_off(
            p,
            match payload {
                Some(j) => Some(j@),
                None => None,
            },
        ),
{
    let input: Option<&Json> = match payload {
        Some(j) => j.get("tool_input"),
        None => None,
    };
    let tool_name = match text_under(payload, "tool_name") {
        Some(s) => s,
        None => "".to_owned(),
    };
    let cwd = match text_under(input, "cwd") {
        Some(s) => Some(s),
        None => text_under(payload, "cwd"),
    };
    Peeked {
        tool_name,
        session_id: text_under(payload, "session_id"),
        command: text_under(input, "command"),
        tool_input: match input {
            Some(j) => Some(j.to_text()),
            None => None,
        },
        cwd,
        tool_use_id: text_under(payload, "tool_use_id"),
    }
}

/// Read off what a payload says.
pub fn peek(input: &str) -> (p: Peeked)
    ensures
        reads_off(p, json::parsed(input@)),
{
    match Json::parse(input) {
        Some(j) => peek_tree(Some(&j)),
        None => peek_tree(None),
    }
}

// ---------------------------------------------------------------------------
// Tools
// ---------------------------------------------------------------------------

/// What becomes of the calls of a tool.
#[derive(Debug, Clone, Copy, PartialEq, Eq, Structural)]
pub enum ToolClass {
    /// Output of commands, which may be intercepted.
    Command,
    /// Output of searches, which may be intercepted.
    Search,
    /// Calls that are recorded only.
    RecordOnly,
    /// Calls that are left alone.
    Unknown,
}

/// What becomes of the calls of the tool of the given name.
pub open spec fn class_of(name: Seq<char>) -> ToolClass {
    if name == "Bash"@ {
        ToolClass::Command
    } else if name == "Grep"@ {
        ToolClass::Search
    } else if name == "Read"@ || name == "Edit"@ || name == "Write"@ || name == "Glob"@ {
        ToolClass::RecordOnly
    } else {
        ToolClass::Unknown
    }
}

/// What becomes of the calls of the tool of the given name.
pub fn classify_tool(name: &str) -> (c: ToolClass)
    ensures
        c == class_of(name@),
{
    if text::same_text(name, "Bash") {
        ToolClass::Command
    } else if text::same_text(name, "Grep") {
        ToolClass::Search
    } else if text::same_text(name, "Read") || text::same_text(name, "Edit") || text::same_text(
        name,
        "Write",
    ) || text::same_text(name, "Glob") {
        ToolClass::RecordOnly
    } else {
        ToolClass::Unknown
    }
}

/// A command is a call of this program: by its name, by a path that ends in it,
/// or by the path that `CTXL_BIN` gives.
pub open spec fn is_own_command(command: Seq<char>, bin: Option<Seq<char>>) -> bool {
    let line = text::trimmed_start(command);
    let words = pieces::words_of(line);
    ||| line == "ctxl"@
    ||| "ctxl "@.is_prefix_of(line)
    ||| words.len() > 0 && preview::file_name(words[0]) == Some("ctxl"@)
    ||| bin matches Some(b) && b.len() > 0 && b.is_prefix_of(line)
}

/// Whether a command is a call of this program. `bin` is the value of
/// `CTXL_BIN`.
pub fn is_ctxl_command(command: &str, bin: Option<&str>) -> (r: bool)
    ensures
        r == is_own_command(command@, settings::env_view(bin)),
{
    let chars = text::chars_of(command);
    let line = text::trim_start(chars.as_slice());
    if text::equals(line, "ctxl") || text::starts_with(line, "ctxl ") {
        return true;
    }
    let words = pieces::split_words(line);
    if words.len() > 0 {
        assert(text::views(words@)[0] == words@[0]@);
        if let Some(name) = preview::base_name(words[0]) {
            if text::equals(name, "ctxl") {
                return true;
            }
        }
    }
    match bin {
        Some(b) => b.unicode_len() > 0 && text::starts_with(line, b),
        None => false,
    }
}

// ---------------------------------------------------------------------------
// Decisions
// ---------------------------------------------------------------------------

/// Whether a call is looked at, before the store of its session is opened.
#[derive(Debug, Clone, Copy, PartialEq, Eq, Structural)]
pub enum Gate {
    /// The program is turned off.
    Off,
    /// The payload and the environment name no session.
    NoSession,
    /// The name of the session is none.
    BadSession,
    /// The call needs no store, so none is made.
    Ignore,
    /// Open the store.
    Open,
}

/// Whether a call is looked at.
pub open spec fn gate_for(
    enabled: Option<Seq<char>>,
    session_id: Option<Seq<char>>,
    tool_name: Seq<char>,
    norecord: bool,
) -> Gate {
    if enabled == Some("0"@) {
        Gate::Off
    } else {
        match session_id {
            None => Gate::NoSession,
            Some(sid) => if !session::is_session_id(sid) {
                Gate::BadSession
            } else {
                match class_of(tool_name) {
                    ToolClass::Command | ToolClass::Search => Gate::Open,
                    ToolClass::RecordOnly => if norecord {
                        Gate::Ignore
                    } else {
                        Gate::Open
                    },
                    ToolClass::Unknown => Gate::Ignore,
                }
            },
        }
    }
}

/// Decide whether a call is looked at. `enabled` is the value of
/// `CTXL_ENABLED`; `norecord` says that recording is turned off.
///
/// A call that is not to be recorded, and one of an unknown tool, leave the file
/// system alone.
pub fn intercept_gate(
    enabled: Option<&str>,
    session_id: Option<&str>,
    tool_name: &str,
    norecord: bool,
) -> (g: Gate)
    ensures
        g == gate_for(
            settings::env_view(enabled),
            settings::env_view(session_id),
            tool_name@,
            norecord,
        ),
{
    if settings::env_is(enabled, "0") {
        return Gate::Off;
    }
    match session_id {
        None => Gate::NoSession,
        Some(sid) => {
            if !session::is_valid_session_id(sid) {
                return Gate::BadSession;
            }
            match classify_tool(tool_name) {
                ToolClass::Command => Gate::Open,
                ToolClass::Search => Gate::Open,
                ToolClass::RecordOnly => if norecord {
                    Gate::Ignore
                } else {
                    Gate::Open
                },
                ToolClass::Unknown => Gate::Ignore,
            }
        },
    }
}

/// What is done with a call.
#[derive(Debug, Clone, Copy, PartialEq, Eq, Structural)]
pub enum InterceptAction {
    Nothing,
    /// Record the call.
    Record,
    /// Look at the output of a command.
    Command,
    /// Look at the output of a search.
    Search,
}

/// What is done with a call.
pub open spec fn action_for(
    tool_name: Seq<char>,
    command: Option<Seq<char>>,
    norecord: bool,
    bin: Option<Seq<char>>,
) -> InterceptAction {
    match class_of(tool_name) {
        ToolClass::Command => if command matches Some(c) && is_own_command(c, bin) {
            InterceptAction::Nothing
        } else {
            InterceptAction::Command
        },
        ToolClass::Search => InterceptAction::Search,
        ToolClass::RecordOnly => if norecord {
            InterceptAction::Nothing
        } else {
            InterceptAction::Record
        },
        ToolClass::Unknown => InterceptAction::Nothing,
    }
}

/// Decide what is done with a call: output of this program itself is never
/// intercepted.
pub fn intercept_action(p: &Peeked, norecord: bool, bin: Option<&str>) -> (a: InterceptAction)
    ensures
        a == action_for(
            p.tool_name@,
            text::opt_text(p.command),
            norecord,
            settings::env_view(bin),
        ),
{
    match classify_tool(p.tool_name.as_str()) {
        ToolClass::Command => {
            let own = match &p.command {
                Some(c) => is_ctxl_command(c.as_str(), bin),
                None => false,
            };
            if own {
                InterceptAction::Nothing
            } else {
                InterceptAction::Command
            }
        },
        ToolClass::Search => InterceptAction::Search,
        ToolClass::RecordOnly => if norecord {
            InterceptAction::Nothing
        } else {
            InterceptAction::Record
        },
        ToolClass::Unknown => InterceptAction::Nothing,
    }
}

/// The session of a call that a hook reports: that of the environment, else that
/// of the payload. What is intercepted must go where retrieval looks for it.
pub fn hook_session(environment: Option<String>, payload: Option<String>) -> (r: Option<String>)
    ensures
        r == match environment {
            Some(s) => Some(s),
            None => payload,
        },
{
    match environment {
        Some(s) => Some(s),
        None => payload,
    }
}

fn copy_text(s: &Option<String>) -> (r: Option<String>)
    ensures
        text::opt_text(r) == text::opt_text(*s),
{
    match s {
        Some(t) => Some(t.clone()),
        None => None,
    }
}

/// The configuration for the output of a command: thresholds as they are, the
/// rest from the payload.
pub fn command_config(base: InterceptConfig, p: &Peeked, norecord: bool) -> (c: InterceptConfig)
    ensures
        c.threshold == base.threshold,
        c.line_threshold == base.line_threshold,
        c.record == !norecord,
        text::opt_text(c.command) == text::opt_text(p.command),
        text::opt_text(c.tool_input) == text::opt_text(p.tool_input),
        text::opt_text(c.cwd) == text::opt_text(p.cwd),
        text::opt_text(c.tool_use_id) == text::opt_text(p.tool_use_id),
{
    InterceptConfig {
        threshold: base.threshold,
        line_threshold: base.line_threshold,
        record: !norecord,
        command: copy_text(&p.command),
        tool_input: copy_text(&p.tool_input),
        cwd: copy_text(&p.cwd),
        tool_use_id: copy_text(&p.tool_use_id),
    }
}

/// The configuration for the output of a search: the threshold as it is, the
/// rest from the payload.
pub fn search_config(base: GrepInterceptConfig, p: &Peeked, norecord: bool) -> (c:
    GrepInterceptConfig)
    ensures
        c.threshold == base.threshold,
        c.record == !norecord,
        text::opt_text(c.tool_input) == text::opt_text(p.tool_input),
        text::opt_text(c.cwd) == text::opt_text(p.cwd),
        text::opt_text(c.tool_use_id) == text::opt_text(p.tool_use_id),
{
    GrepInterceptConfig {
        threshold: base.threshold,
        record: !norecord,
        tool_input: copy_text(&p.tool_input),
        cwd: copy_text(&p.cwd),
        tool_use_id: copy_text(&p.tool_use_id),
    }
}

// ---------------------------------------------------------------------------
// Laws
// ---------------------------------------------------------------------------

/// The store is opened for every call with which something is done, as long as
/// the program is on and the session has a name.
pub proof fn lemma_gate_agrees(
    enabled: Option<Seq<char>>,
    sid: Seq<char>,
    tool_name: Seq<char>,
    command: Option<Seq<char>>,
    norecord: bool,
    bin: Option<Seq<char>>,
)
    requires
        enabled != Some("0"@),
        session::is_session_id(sid),
        action_for(tool_name, command, norecord, bin) != InterceptAction::Nothing,
    ensures
        gate_for(enabled, Some(sid), tool_name, norecord) == Gate::Open,
{
}

/// With recording turned off, and for unknown tools, no store is opened for a
/// call that is not one of a command or a search.
pub proof fn lemma_no_store_without_need(
    enabled: Option<Seq<char>>,
    session_id: Option<Seq<char>>,
    tool_name: Seq<char>,
    norecord: bool,
)
    requires
        class_of(tool_name) == ToolClass::Unknown || (class_of(tool_name) == ToolClass::RecordOnly
            && norecord),
    ensures
        gate_for(enabled, session_id, tool_name, norecord) != Gate::Open,
{
}

/// Output of this program is not intercepted.
pub proof fn lemma_own_output_passes(command: Seq<char>, norecord: bool, bin: Option<Seq<char>>)
    requires
        is_own_command(command, bin),
    ensures
        action_for("Bash"@, Some(command), norecord, bin) == InterceptAction::Nothing,
{
}

/// With the program turned off nothing is opened.
pub proof fn lemma_turned_off(session_id: Option<Seq<char>>, tool_name: Seq<char>, norecord: bool)
    ensures
        gate_for(Some("0"@), session_id, tool_name, norecord) == Gate::Off,
{
}

/// Turning recording off leaves interception as it is.
pub proof fn lemma_norecord_intercepts(
    tool_name: Seq<char>,
    command: Option<Seq<char>>,
    bin: Option<Seq<char>>,
)
    requires
        class_of(tool_name) == ToolClass::Command || class_of(tool_name) == ToolClass::Search,
    ensures
        action_for(tool_name, command, true, bin) == action_for(tool_name, command, false, bin),
{
}

/// Only the output of commands and searches is intercepted.
pub proof fn lemma_others_not_intercepted(
    tool_name: Seq<char>,
    command: Option<Seq<char>>,
    norecord: bool,
    bin: Option<Seq<char>>,
)
    requires
        tool_name != "Bash"@,
        tool_name != "Grep"@,
    ensures
        action_for(tool_name, command, norecord, bin) == InterceptAction::Record || action_for(
            tool_name,
            command,
            norecord,
            bin,
        ) == InterceptAction::Nothing,
{
}

} // verus!
