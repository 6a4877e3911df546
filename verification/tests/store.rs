use ctxl::clean::{is_expired, parse_ttl, ttl_in_range};
use ctxl::db::DbError;
use ctxl::debug::debug_log;
use ctxl::json::{read_value, sort_json_keys, write_tree, Json};
use ctxl::payload::set_tool_input;
use ctxl::record::{busy_timeout, prepare_call, RecordPayload};
use ctxl::store::{
    candidate_id, count_lines, derive_handle_prefix, extract_content, gen_random_hex, hex_prefix,
    is_unique_violation, params_text, prepare_row, token_estimate, write_after, write_first,
    InsertOutcome, OutputMode, WriteStep, FIRST_ID_LEN, RETRY_ID_LEN,
};
use ctxl::CtxlError;
use std::time::Duration;

fn json(source: &str) -> Json {
    Json::parse(source).expect("valid JSON")
}

// ---------------------------------------------------------------------------
// JSON
// ---------------------------------------------------------------------------

#[test]
fn json_is_read_and_written() {
    let source = r#"{"b":[1,-2.5,true,null],"a":{"x":"q\"uote"}}"#;
    assert_eq!(json(source).to_text(), r#"{"a":{"x":"q\"uote"},"b":[1,-2.5,true,null]}"#);
    assert!(Json::parse("{").is_none());
    assert_eq!(json(" [ ] ").to_text(), "[]");
    assert_eq!(json(r#"{"a":[1]}"#).to_pretty(), "{\n  \"a\": [\n    1\n  ]\n}");
}

#[test]
fn trees_and_values_agree() {
    let value: serde_json::Value = serde_json::from_str(r#"{"k":[{"n":7}],"e":1e3}"#).unwrap();
    assert_eq!(write_tree(&read_value(&value)), value);
    assert_eq!(Json::integer(-9).to_text(), "-9");
    assert_eq!(Json::integer(i64::MIN).to_text(), "-9223372036854775808");
}

#[test]
fn the_last_of_equal_keys_wins() {
    let twice = Json::Object(vec![
        ("k".to_owned(), Json::Bool(false)),
        ("k".to_owned(), Json::Bool(true)),
    ]);
    assert_eq!(twice.to_text(), r#"{"k":true}"#);
}

#[test]
fn sorted_keys_are_canonical() {
    let a = sort_json_keys(&json(r#"{"b":{"d":1,"c":2},"a":3}"#));
    let b = sort_json_keys(&json(r#"{"a":3,"b":{"c":2,"d":1}}"#));
    assert_eq!(a.to_text(), b.to_text());
}

#[test]
fn fields_are_found() {
    let j = json(r#"{"s":"t","n":1}"#);
    assert_eq!(j.get_text("s").map(String::as_str), Some("t"));
    assert!(j.get_text("n").is_none());
    assert!(j.get("x").is_none());
    assert_eq!(j.get_text_or("x", "d"), "d");
    let mut null = Json::Null;
    null.set_field("k", Json::text("v"));
    assert_eq!(null.to_text(), r#"{"k":"v"}"#);
}

// ---------------------------------------------------------------------------
// Handles
// ---------------------------------------------------------------------------

#[test]
fn modes_read_back() {
    for mode in [OutputMode::Stdout, OutputMode::Stderr, OutputMode::Mixed] {
        assert_eq!(OutputMode::from_str(&mode.to_text()).unwrap(), mode);
    }
    assert_eq!(OutputMode::from_str("both").unwrap_err(), "unknown output mode: both");
}

#[test]
fn ids_are_hex() {
    assert_eq!(hex_prefix(&[0xab, 0x0f], 3), "ab0");
    for len in [0, 1, 6, 7] {
        let s = gen_random_hex(len).unwrap();
        assert_eq!(s.len(), len);
        assert!(s.bytes().all(|b| b.is_ascii_digit() || (b'a'..=b'f').contains(&b)));
    }
    assert_ne!(gen_random_hex(32).unwrap(), gen_random_hex(32).unwrap());
}

#[test]
fn prefixes_tell_the_tool() {
    assert_eq!(derive_handle_prefix(&json(r#"{"tool":"Grep"}"#)), "g_");
    assert_eq!(derive_handle_prefix(&json(r#"{"tool":"ctxl-index"}"#)), "i_");
    assert_eq!(derive_handle_prefix(&json("{}")), "b_");
    assert_eq!(candidate_id(&json("{}"), "1a2b3c"), "b_1a2b3c");
}

fn collision() -> InsertOutcome {
    InsertOutcome::Failed { extended_code: Some(2067), message: "UNIQUE".to_owned() }
}

#[test]
fn a_collision_is_tried_once_more() {
    assert!(matches!(write_first(), WriteStep::Try(FIRST_ID_LEN)));
    assert!(matches!(write_after(FIRST_ID_LEN, collision()), WriteStep::Try(RETRY_ID_LEN)));
    match write_after(RETRY_ID_LEN, collision()) {
        WriteStep::Fail(e) => assert_eq!(e.message(), "handle ID collision after retry"),
        _ => panic!("two collisions fail"),
    }
    assert!(matches!(write_after(FIRST_ID_LEN, InsertOutcome::Stored), WriteStep::Done));
    let full = InsertOutcome::Failed { extended_code: Some(13), message: "full".to_owned() };
    match write_after(FIRST_ID_LEN, full) {
        WriteStep::Fail(e) => assert_eq!(e.message(), "sqlite: full"),
        _ => panic!("another failure is final"),
    }
    assert!(is_unique_violation(1555) && !is_unique_violation(19));
}

#[test]
fn content_is_taken_by_mode() {
    assert_eq!(extract_content(&json(r#"{"content":"c","stdout":"o"}"#)), "c");
    let streams = |mode: &str| {
        extract_content(&json(&format!(
            r#"{{"stdout":"o","stderr":"e","output_mode":"{mode}"}}"#
        )))
    };
    assert_eq!(streams("stdout"), "o");
    assert_eq!(streams("stderr"), "e");
    assert_eq!(streams("mixed"), "o\ne");
    assert_eq!(streams("other"), "o");
}

#[test]
fn rows_hold_what_the_payload_says() {
    let payload = json(
        r#"{"tool":"Bash","stdout":"a\nb","cwd":"/w","truncated":true,"tool_input":{"z":1,"c":2},"x":0}"#,
    );
    let row = prepare_row(&payload);
    assert_eq!((row.tool.as_str(), row.tool_missing), ("Bash", false));
    assert_eq!((row.content.as_str(), row.line_count), ("a\nb", 2));
    assert_eq!(row.params, r#"{"cwd":"/w","tool":"Bash","truncated":true,"x":0}"#);
    assert_eq!(row.tool_input, Some(r#"{"c":2,"z":1}"#.to_owned()));
    assert!(row.truncated);
    assert!(prepare_row(&json("{}")).tool_missing);
    assert_eq!(params_text(&json("[1]")), "[1]");
}

#[test]
fn tokens_are_estimated() {
    let text = "The quick brown fox jumps over the lazy dog.";
    assert_eq!(token_estimate(text), tokenx_rs::estimate_token_count(text) as i64);
    assert_eq!(token_estimate(""), 0);
    assert_eq!(count_lines("a\r\nb\n\n"), 3);
}

// ---------------------------------------------------------------------------
// Payloads and calls
// ---------------------------------------------------------------------------

#[test]
fn tool_input_is_parsed_where_it_can_be() {
    let mut payload = json("{}");
    set_tool_input(&mut payload, r#"{"command":"ls"}"#);
    assert_eq!(payload.to_text(), r#"{"tool_input":{"command":"ls"}}"#);
    set_tool_input(&mut payload, "not json");
    assert_eq!(payload.to_text(), r#"{"tool_input":"not json"}"#);
}

#[test]
fn calls_are_recorded() {
    let row = prepare_call(RecordPayload {
        tool_name: "Read".to_owned(),
        tool_use_id: Some("t1".to_owned()),
        tool_input: Some(json(r#"{"path":"/x"}"#)),
        content: Some(Json::text("a\nb\n")),
        cwd: None,
    });
    assert_eq!((row.tool.as_str(), row.line_count), ("Read", Some(2)));
    assert_eq!(row.params, Some(r#"{"path":"/x"}"#.to_owned()));
    assert_eq!(row.token_est, Some(token_estimate("a\nb\n")));
    let other = prepare_call(RecordPayload {
        tool_name: "Glob".to_owned(),
        tool_use_id: None,
        tool_input: None,
        content: Some(json("[1]")),
        cwd: None,
    });
    assert_eq!((other.line_count, other.token_est, other.params), (None, None, None));
    assert_eq!(busy_timeout(Some("-20")), -20);
    assert_eq!(busy_timeout(Some("soon")), 5000);
    assert_eq!(busy_timeout(None), 5000);
}

// ---------------------------------------------------------------------------
// Cleaning, diagnostics and errors
// ---------------------------------------------------------------------------

#[test]
fn ttls_are_days_or_hours() {
    assert_eq!(parse_ttl("7d").unwrap(), Duration::from_secs(7 * 86_400));
    assert_eq!(parse_ttl("12h").unwrap(), Duration::from_secs(12 * 3_600));
    for bad in ["", "d", "7", "7m", "-1d", "1.5h"] {
        assert_eq!(parse_ttl(bad).unwrap_err().message(), format!("invalid TTL: {bad}"));
    }
    assert!(ttl_in_range("7d"));
    assert!(!ttl_in_range("999999999999999999d"));
}

#[test]
fn sessions_expire_after_their_ttl() {
    assert!(is_expired(Some(11), 10));
    assert!(!is_expired(Some(10), 10));
    assert!(!is_expired(None, 0));
}

#[test]
fn diagnostics_are_off_by_default() {
    assert_eq!(debug_log(Some("1"), Some("/t")), Some("/t/ctxl-debug.log".to_owned()));
    assert_eq!(debug_log(Some("1"), None), Some("/tmp/ctxl-debug.log".to_owned()));
    assert_eq!(debug_log(Some("yes"), None), None);
    assert_eq!(debug_log(None, None), None);
}

#[test]
fn every_error_has_its_message() {
    let s = || "x".to_owned();
    assert_eq!(CtxlError::Db(DbError::NoCacheDir).message(), "cache directory unavailable");
    assert_eq!(CtxlError::Sqlite(s()).message(), "sqlite: x");
    assert_eq!(CtxlError::Json(s()).message(), "json: x");
    assert_eq!(CtxlError::Io(s()).message(), "io: x");
    assert!(CtxlError::HandleNotFound(s()).message().contains("hint: handle IDs start with"));
    assert_eq!(CtxlError::Index(s()).message(), "index: x");
    assert_eq!(
        CtxlError::InvalidSessionId.message(),
        "invalid session_id (alphanumeric, _, - only)"
    );
    assert_eq!(CtxlError::RegexInQuery(s()).message(), "x");
    assert_eq!(CtxlError::EmptyQuery.message(), "error: query is empty");
}

#[test]
fn no_digits_need_no_chance() {
    assert_eq!(gen_random_hex(0).unwrap(), "");
}
