use ctxl::cli::epoch::{chrono_format, is_leap};
use ctxl::cli::figures::{separate_thousands, token_figure, TokenFigure};
use ctxl::cli::report::{handles_human, handles_json, inspect_human, inspect_json, suggest};
use ctxl::cli::request::{
    cleaned_note, empty_view_note, format_global_result, global_query, none_in_global,
    none_in_handle, none_in_session, parse_content_type, session_request, SearchArgError,
    SearchArgs, SearchRequest,
};
use ctxl::cli::route::{
    classify_tool, command_config, hook_session, intercept_action, intercept_gate,
    is_ctxl_command, peek, search_config, Gate, InterceptAction, ToolClass,
};
use ctxl::cli::session::{
    check_norecord, is_valid_session_id, looks_like_handle, norecord_file, retrieval_tokens,
};
use ctxl::cli::stats::{
    add_session, addable, date_range, format_session, format_stats, live_summary, net_saved,
    no_sessions, per_session, sessions_head, stats_json, StatsFigures,
};
use ctxl::global_db::{GlobalSearchResult, SessionCounts};
use ctxl::index::ContentType;
use ctxl::intercept::InterceptConfig;
use ctxl::intercept_grep::GrepInterceptConfig;
use ctxl::json::Json;
use ctxl::retrieve::{HandleEntry, InspectResult};
use ctxl::store::{candidate_id, gen_random_hex};

// ---------------------------------------------------------------------------
// Time
// ---------------------------------------------------------------------------

#[test]
fn chrono_format_negative_epoch() {
    assert_eq!(chrono_format(-1), "-1");
    assert_eq!(chrono_format(-999), "-999");
}

#[test]
fn chrono_format_zero_epoch() {
    let result = chrono_format(0);
    assert!(result.contains("1970"), "epoch 0 should format as 1970-01-01");
}

#[test]
fn points_in_time() {
    assert_eq!(chrono_format(0), "1970-01-01 00:00:00 UTC");
    assert_eq!(chrono_format(951_782_400), "2000-02-29 00:00:00 UTC");
    assert_eq!(chrono_format(1_709_251_199), "2024-02-29 23:59:59 UTC");
    assert_eq!(chrono_format(1_735_689_599), "2024-12-31 23:59:59 UTC");
    assert_eq!(chrono_format(4_107_542_400), "2100-03-01 00:00:00 UTC");
    assert!(is_leap(2000) && is_leap(2024) && !is_leap(2100) && !is_leap(2023));
}

// ---------------------------------------------------------------------------
// Handles and sessions
// ---------------------------------------------------------------------------

#[test]
fn looks_like_handle_valid() {
    assert!(looks_like_handle("b_1a2b3c4d"));
    assert!(looks_like_handle("g_abcdef"));
    assert!(!looks_like_handle("w_123456"));
    assert!(looks_like_handle("i_aabbcc"));
}

#[test]
fn looks_like_handle_too_short() {
    assert!(!looks_like_handle("b_1a2b"));
}

#[test]
fn looks_like_handle_wrong_prefix() {
    assert!(!looks_like_handle("x_1a2b3c4d"));
}

#[test]
fn looks_like_handle_no_underscore() {
    assert!(!looks_like_handle("b1a2b3c4d"));
}

#[test]
fn looks_like_handle_non_hex() {
    assert!(!looks_like_handle("b_1a2b3cXY"));
}

#[test]
fn stored_ids_look_like_handles() {
    for tool in ["Bash", "Grep", "ctxl-index"] {
        let payload = Json::parse(&format!("{{\"tool\":\"{tool}\"}}")).unwrap();
        for len in [6, 7] {
            assert!(looks_like_handle(&candidate_id(&payload, &gen_random_hex(len).unwrap())));
        }
    }
    assert!(!looks_like_handle("b_äöüä"));
}

#[test]
fn session_ids_are_plain() {
    assert!(is_valid_session_id("abc-DEF_09"));
    assert!(!is_valid_session_id(""));
    assert!(!is_valid_session_id("../x"));
    assert!(!is_valid_session_id("ä"));
}

#[test]
fn recording_is_turned_off() {
    assert!(check_norecord(Some("0"), false));
    assert!(check_norecord(None, true));
    assert!(!check_norecord(Some("1"), false));
    assert_eq!(norecord_file(None, "s"), "/tmp/ctxl-norecord-s");
    assert_eq!(norecord_file(Some("/t"), "s"), "/t/ctxl-norecord-s");
    assert_eq!((retrieval_tokens(0), retrieval_tokens(50)), (1, 150));
}

// ---------------------------------------------------------------------------
// Figures
// ---------------------------------------------------------------------------

#[test]
fn thousands_are_separated() {
    assert_eq!(separate_thousands(0), "0");
    assert_eq!(separate_thousands(999), "999");
    assert_eq!(separate_thousands(1000), "1,000");
    assert_eq!(separate_thousands(u64::MAX), "18,446,744,073,709,551,615");
    assert_eq!(separate_thousands(u64::MAX).replace(',', ""), u64::MAX.to_string());
}

#[test]
fn tokens_are_rounded() {
    let text = |n: i64| match token_figure(n) {
        TokenFigure::Text(s) => s,
        TokenFigure::Millions { .. } => panic!("{n} is below a million"),
    };
    assert_eq!(text(0), "0");
    assert_eq!(text(9_999), "9,999");
    assert_eq!(text(10_000), "10K");
    assert_eq!(text(-999_999), "-999K");
    assert!(matches!(
        token_figure(i64::MIN),
        TokenFigure::Millions { negative: true, amount: 9_223_372_036_854_775_808 }
    ));
}

// ---------------------------------------------------------------------------
// Routing
// ---------------------------------------------------------------------------

const CALL: &str = r#"{"tool_name":"Bash","session_id":"s-1","cwd":"/outer","tool_use_id":"t",
    "tool_input":{"command":"ls -l","cwd":"/inner"}}"#;

#[test]
fn payloads_are_peeked() {
    let p = peek(CALL);
    assert_eq!(p.tool_name, "Bash");
    assert_eq!(p.session_id, Some("s-1".to_owned()));
    assert_eq!(p.command, Some("ls -l".to_owned()));
    assert_eq!(p.cwd, Some("/inner".to_owned()));
    assert_eq!(p.tool_input, Some(r#"{"command":"ls -l","cwd":"/inner"}"#.to_owned()));
    assert_eq!(p.tool_use_id, Some("t".to_owned()));
    let outer = peek(r#"{"tool_name":"Read","cwd":"/outer","tool_input":{"cwd":1}}"#);
    assert_eq!(outer.cwd, Some("/outer".to_owned()));
    let none = peek("no json");
    assert_eq!((none.tool_name.as_str(), none.tool_input), ("", None));
}

#[test]
fn tools_are_classified() {
    assert_eq!(classify_tool("Bash"), ToolClass::Command);
    assert_eq!(classify_tool("Grep"), ToolClass::Search);
    for name in ["Read", "Edit", "Write", "Glob"] {
        assert_eq!(classify_tool(name), ToolClass::RecordOnly);
    }
    assert_eq!(classify_tool("bash"), ToolClass::Unknown);
}

#[test]
fn own_commands_are_recognized() {
    for own in ["ctxl", "  ctxl show b_1", "/usr/bin/ctxl files", "./ctxl/ x", "a/ctxl/. -h"] {
        assert!(is_ctxl_command(own, None), "{own}");
    }
    for other in ["ctxlx", "ls ctxl", "", "ctxl/.. x", "myctxl show"] {
        assert!(!is_ctxl_command(other, None), "{other}");
    }
    assert!(is_ctxl_command("/opt/tool show", Some("/opt/tool")));
    assert!(!is_ctxl_command("anything", Some("")));
}

#[test]
fn calls_pass_the_gate() {
    let gate = |sid: Option<&str>, tool: &str, norecord: bool| {
        intercept_gate(None, sid, tool, norecord)
    };
    assert_eq!(intercept_gate(Some("0"), Some("s"), "Bash", false), Gate::Off);
    assert_eq!(gate(None, "Bash", false), Gate::NoSession);
    assert_eq!(gate(Some("a/b"), "Bash", false), Gate::BadSession);
    assert_eq!(gate(Some("s"), "Bash", true), Gate::Open);
    assert_eq!(gate(Some("s"), "Read", true), Gate::Ignore);
    assert_eq!(gate(Some("s"), "Read", false), Gate::Open);
    assert_eq!(gate(Some("s"), "Task", false), Gate::Ignore);
}

#[test]
fn calls_are_acted_on() {
    let act = |input: &str, norecord: bool| intercept_action(&peek(input), norecord, None);
    assert_eq!(act(CALL, false), InterceptAction::Command);
    let own = r#"{"tool_name":"Bash","tool_input":{"command":"ctxl show b_1"}}"#;
    assert_eq!(act(own, false), InterceptAction::Nothing);
    assert_eq!(act(r#"{"tool_name":"Grep"}"#, true), InterceptAction::Search);
    assert_eq!(act(r#"{"tool_name":"Edit"}"#, false), InterceptAction::Record);
    assert_eq!(act(r#"{"tool_name":"Edit"}"#, true), InterceptAction::Nothing);
    assert_eq!(act("{}", false), InterceptAction::Nothing);
}

#[test]
fn configurations_take_over_the_payload() {
    let p = peek(CALL);
    let c = command_config(InterceptConfig::from_env(Some("5"), None), &p, true);
    assert_eq!((c.threshold, c.line_threshold, c.record), (5, 200, false));
    assert_eq!((c.command, c.cwd), (Some("ls -l".to_owned()), Some("/inner".to_owned())));
    let g = search_config(GrepInterceptConfig::from_env(None), &p, false);
    assert_eq!((g.threshold, g.record, g.tool_use_id), (200, true, Some("t".to_owned())));
    let (a, b) = (Some("a".to_owned()), Some("b".to_owned()));
    assert_eq!(hook_session(a.clone(), b.clone()), a);
    assert_eq!(hook_session(None, b.clone()), b);
}

// ---------------------------------------------------------------------------
// Searches
// ---------------------------------------------------------------------------

fn args(handle: Option<&str>, query_pos: Option<&str>, all: bool) -> SearchArgs {
    SearchArgs {
        handle_flag: None,
        handle: handle.map(String::from),
        query_flag: None,
        query_pos: query_pos.map(String::from),
        all,
    }
}

#[test]
fn searches_are_resolved() {
    match session_request(args(Some("b_1a2b3c"), Some("q"), false)) {
        Ok(SearchRequest::Handle { handle, query }) => {
            assert_eq!((handle.as_str(), query.as_str()), ("b_1a2b3c", "q"));
        }
        other => panic!("{other:?}"),
    }
    match session_request(args(Some("q"), None, true)) {
        Ok(SearchRequest::All { query }) => assert_eq!(query, "q"),
        other => panic!("{other:?}"),
    }
    let mut named = args(Some("first"), None, false);
    named.handle_flag = Some("b_1a2b3c".to_owned());
    named.query_flag = Some("q".to_owned());
    assert!(matches!(session_request(named), Ok(SearchRequest::Handle { .. })));
    assert_eq!(global_query(args(None, Some("q"), false)).unwrap(), "q");
}

#[test]
fn faulty_searches_are_refused() {
    let error = |a: SearchArgs| session_request(a).unwrap_err();
    let reversed = error(args(Some("query"), Some("b_1a2b3c"), false));
    assert_eq!(reversed, SearchArgError::Reversed);
    assert!(reversed.message().starts_with("error: arguments appear reversed — expected:"));
    assert_eq!(error(args(None, None, false)).message(), SearchArgError::NoHandle.message());
    assert_eq!(error(args(Some("b_1a2b3c"), None, false)).message(), "error: query required");
    assert_eq!(error(args(None, None, true)).message(), "error: query required with --all");
    let global = global_query(args(None, None, false)).unwrap_err();
    assert_eq!(global.message(), "error: query required with --global");
}

#[test]
fn searches_without_results_are_noted() {
    assert_eq!(none_in_session("q"), "no results for \"q\" across session handles");
    assert_eq!(none_in_global("q"), "no global results for \"q\"");
    assert_eq!(none_in_handle("q", "b_1"), "no results for \"q\" in b_1");
    assert!(none_in_handle("a-b", "b_1").contains("FTS5 treats - as a token boundary"));
    assert_eq!(
        empty_view_note("", Some("a.rs"), None, "g_1").unwrap(),
        "[ctxl] No matches for --file \"a.rs\". Run: ctxl files g_1"
    );
    assert!(empty_view_note("", None, Some("*.rs"), "g_1").unwrap().contains("--glob \"*.rs\""));
    assert!(empty_view_note("x", Some("a.rs"), None, "g_1").is_none());
    assert!(empty_view_note("", None, None, "g_1").is_none());
    let hit = GlobalSearchResult {
        blob_id: 5,
        snippet: "text".to_owned(),
        repo_root: "/r".to_owned(),
        tool: "Bash".to_owned(),
        created_at: "now".to_owned(),
    };
    assert_eq!(format_global_result(&hit), "[blob_id=5 tool=Bash repo=/r at=now] text");
    assert_eq!(cleaned_note(2, 42), "Cleaned 2 blobs (42 bytes freed)");
    assert_eq!(parse_content_type("html"), Some(ContentType::Html));
    assert_eq!(parse_content_type("xml"), None);
}

// ---------------------------------------------------------------------------
// Reports
// ---------------------------------------------------------------------------

fn info(tool: &str, truncated: bool) -> InspectResult {
    InspectResult {
        id: "g_1a2b3c".to_owned(),
        tool: tool.to_owned(),
        output_mode: "content".to_owned(),
        line_count: Some(12),
        token_est: None,
        truncated,
        compressed_method: None,
        cwd: Some("/w".to_owned()),
        tool_input: None,
        created_at: 0,
        retrieval_count: 3,
        last_retrieved_at: None,
    }
}

#[test]
fn handles_are_inspected() {
    assert_eq!(suggest("b_1", "Bash"), vec!["ctxl show b_1", "ctxl search b_1 \"query\""]);
    let lines = inspect_human(&info("Grep", true));
    assert_eq!(lines[0], "handle:      g_1a2b3c");
    assert_eq!(lines[4], "tokens:      —");
    assert_eq!(lines[8], "created:     1970-01-01 00:00:00 UTC");
    assert!(lines.contains(&"  ctxl files g_1a2b3c".to_owned()));
    assert!(lines.iter().any(|l| l.starts_with("Note: content is partial")));
    let json = inspect_json(&info("Bash", false));
    assert!(json.starts_with(r#"{"compressed":null,"created_at":0,"cwd":"/w","#), "got: {json}");
    assert!(!json.contains("note"));
    assert!(inspect_json(&info("Bash", true)).contains(r#""note":"content is partial"#));
}

#[test]
fn handles_are_listed() {
    let entry = HandleEntry {
        id: "b_1a2b3c".to_owned(),
        tool: "Bash".to_owned(),
        line_count: Some(7),
        token_est: None,
        created_at: -1,
        retrieval_count: 2,
    };
    assert_eq!(
        handles_human(&[entry]),
        vec![
            "HANDLE       TOOL      LINES   TOKENS  RETR CREATED",
            "b_1a2b3c     Bash          7        —     2 -1",
        ]
    );
    assert_eq!(handles_human(&[]), vec!["No handles in this session."]);
    assert_eq!(handles_json(&[]), "[]");
}

fn counts() -> SessionCounts {
    SessionCounts {
        handles: Some(2),
        tokens: Some(1000),
        bytes: Some(4000),
        calls_tables: Some(1),
        calls: Some(10),
        calls_intercepted: Some(2),
        retrieval_calls: Some(1),
        retrieval_tokens: Some(100),
        counts_retrievals: true,
        handles_retrieved: Some(1),
        total_retrievals: Some(3),
    }
}

fn figures(efficiency: u64) -> StatsFigures {
    let s = |t: &str| t.to_owned();
    StatsFigures {
        saved: s("900"),
        intercepted: s("1,000"),
        retrieval: s("100"),
        per_session: s("900"),
        handles: s("2"),
        handles_retrieved: s("1"),
        calls: s("10"),
        calls_intercepted: s("2"),
        efficiency,
        utilization: 50,
        capture_rate: 20,
    }
}

#[test]
fn sessions_are_added_up() {
    let live = live_summary("s-1", counts());
    assert_eq!(live.cleaned_at, Some("[live]".to_owned()));
    let mut m = no_sessions();
    assert!(addable(&m, &live));
    add_session(&mut m, &live);
    add_session(&mut m, &live);
    assert_eq!((m.sessions_count, m.tokens_intercepted, m.total_retrievals), (2, 2000, 6));
    m.calls_count = i64::MAX;
    assert!(!addable(&m, &live));
    assert_eq!(net_saved(1000, 100), 900);
    assert_eq!((per_session(900, 4), per_session(-7, 2), per_session(5, 0)), (225, -3, 0));
}

#[test]
fn stats_are_reported() {
    let out = format_stats(&figures(90), 1, &date_range(Some("2024-01-02 03:04"), Some("2024-02")));
    assert_eq!(
        out[0],
        "ctxl has saved ~900 tokens across 1 session (2024-01-02 – 2024-02).\nThat's 90% of intercepted content you never had to read."
    );
    assert_eq!(out[2], "  Saved             900 tokens net  (1,000 intercepted − 100 retrieval)");
    assert_eq!(
        out[3],
        "  Efficiency      90%             only 10% of captured content was retrieved"
    );
    assert_eq!(out[6], "  Calls           10 recorded     2 intercepted (20% capture rate)");
    assert_eq!(format_stats(&figures(0), 2, "")[0], "ctxl has saved ~900 tokens across 2 sessions.");
    assert_eq!(
        format_stats(&figures(0), 0, ""),
        vec!["No sessions tracked yet. Stats accumulate as sessions are cleaned."]
    );
    assert_eq!(date_range(None, Some("x")), "");
}

#[test]
fn sessions_are_listed() {
    assert!(sessions_head().ends_with("    TOKENS   HANDLES   CALLS  STATUS"));
    let mut row = live_summary(&"s".repeat(40), counts());
    row.cleaned_at = None;
    assert_eq!(
        format_session(&row, "900"),
        format!("  {}       900         2      10  cleaned", "s".repeat(36))
    );
    let json = stats_json(&no_sessions(), &[row]);
    let value: serde_json::Value = serde_json::from_str(&json).unwrap();
    assert_eq!(value["cumulative"]["handles_count"], 0);
    assert_eq!(value["sessions"][0]["tokens_intercepted"], 1000);
    assert!(json.starts_with("{\n  \"cumulative\": {\n    \"bytes_intercepted\": 0,"));
}

#[test]
fn only_commands_and_searches_are_intercepted() {
    for (tool, recorded) in [("Read", true), ("Edit", true), ("Write", true), ("Glob", true), ("Task", false)] {
        let input = format!(r#"{{"tool_name":"{tool}"}}"#);
        let expected = if recorded { InterceptAction::Record } else { InterceptAction::Nothing };
        assert_eq!(intercept_action(&peek(&input), false, None), expected);
        assert_eq!(intercept_action(&peek(&input), true, None), InterceptAction::Nothing);
    }
    for tool in ["Bash", "Grep"] {
        let input = format!(r#"{{"tool_name":"{tool}"}}"#);
        assert_eq!(
            intercept_action(&peek(&input), true, None),
            intercept_action(&peek(&input), false, None),
        );
    }
}
