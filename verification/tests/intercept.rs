use ctxl::intercept::{
    apply_compression, capture_call, capture_envelope, detect_code_language_from_command,
    format_block_message, format_block_message_ex, format_capture, run, Capture, Decision,
    InterceptConfig, PassReason, ToolResponse,
};
use ctxl::intercept_grep;
use ctxl::intercept_grep::{GrepInterceptConfig, GrepToolResponse};
use ctxl::json::Json;
use ctxl::preview::{
    analyze_diff_files, analyze_grep_files, extract_failed_count, extract_passed_count,
    extract_preview, is_generated_file, truncate_preview,
};
use ctxl::store::extract_content;

fn config(threshold: usize, line_threshold: usize) -> InterceptConfig {
    InterceptConfig {
        threshold,
        line_threshold,
        record: true,
        command: None,
        tool_input: None,
        cwd: None,
        tool_use_id: None,
    }
}

fn response(stdout: String, exit_code: Option<i64>) -> ToolResponse {
    ToolResponse {
        stdout: Some(stdout),
        stderr: Some(String::new()),
        interrupted: Some(false),
        is_image: Some(false),
        no_output_expected: Some(false),
        exit_code,
    }
}

fn captured(d: Decision) -> Capture {
    match d {
        Decision::Capture(c) => c,
        Decision::Pass(r) => panic!("not captured: {r:?}"),
    }
}

#[test]
fn blocking_path_inserts_calls_row() {
    let config = config(8192, 200);
    let resp = response("x".repeat(9000), None);
    let c = captured(run(Some("Bash".into()), &resp, &config));
    let row = capture_call(&c, "b_abc123", &config, None).expect("the call is recorded");
    assert_eq!(row.handle_id, "b_abc123");
    assert!(!row.handle_id.is_empty());
    assert_eq!(row.tool, "Bash");
}

#[test]
fn below_threshold_no_calls_row() {
    let config = config(8192, 200);
    let resp = response("small output".into(), None);
    let d = run(Some("Bash".into()), &resp, &config);
    assert!(matches!(d, Decision::Pass(PassReason::BelowThreshold)));
}

#[test]
fn block_message_includes_search_hint() {
    let msg = format_block_message("b_abc123", 42, 1024, "some content");
    assert!(msg.contains("ctxl search b_abc123 <query>"), "missing search hint in: {msg}");
    assert!(msg.contains("ctxl show b_abc123"), "missing show hint in: {msg}");
}

#[test]
fn block_message_includes_preview() {
    let content = "line 1\nline 2\ntest result: ok. 30 passed; 0 failed\n";
    let msg = format_block_message("b_abc123", 3, 100, content);
    assert!(msg.contains("test result: ok. 30 passed; 0 failed"), "missing preview in: {msg}");
}

#[test]
fn block_message_fallback_preview() {
    let content = "first line\nsecond line\nlast line\n";
    let msg = format_block_message("b_abc123", 3, 100, content);
    assert!(msg.contains("→ last line"), "missing fallback preview in: {msg}");
}

#[test]
fn block_message_empty_content_no_preview() {
    let msg = format_block_message("b_abc123", 0, 0, "");
    assert!(!msg.contains("  → "), "unexpected preview in empty content: {msg}");
}

#[test]
fn extract_preview_rust_test_result() {
    let content = "running 30 tests\ntest foo ... ok\ntest bar ... ok\n\ntest result: ok. 30 passed; 0 failed; 0 ignored\n";
    assert_eq!(extract_preview(content), "test result: ok. 30 passed; 0 failed; 0 ignored");
}

#[test]
fn extract_preview_picks_highest_passed_count() {
    let content = "\
test result: ok. 30 passed; 0 failed; 0 ignored
running 0 tests
test result: ok. 0 passed; 0 failed; 0 ignored
";
    assert_eq!(extract_preview(content), "test result: ok. 30 passed; 0 failed; 0 ignored");
}

#[test]
fn extract_passed_count_parses() {
    assert_eq!(extract_passed_count("test result: ok. 30 passed; 0 failed"), 30);
    assert_eq!(extract_passed_count("test result: ok. 0 passed; 0 failed"), 0);
    assert_eq!(extract_passed_count("test result: FAILED. 2 passed; 1 failed"), 2);
}

#[test]
fn extract_failed_count_parses() {
    assert_eq!(extract_failed_count("test result: FAILED. 2 passed; 1 failed"), 1);
    assert_eq!(extract_failed_count("test result: ok. 30 passed; 0 failed"), 0);
}

#[test]
fn extract_preview_failures_win_over_higher_passed() {
    let content = "\
test result: ok. 50 passed; 0 failed; 0 ignored
test result: FAILED. 8 passed; 2 failed; 0 ignored
test result: ok. 0 passed; 0 failed; 0 ignored
";
    assert_eq!(extract_preview(content), "test result: FAILED. 8 passed; 2 failed; 0 ignored");
}

#[test]
fn block_message_grep_like_includes_files_hint() {
    let lines: Vec<String> = (1..=20).map(|i| format!("src/lib.rs:{i}:match_{i}")).collect();
    let content = lines.join("\n");
    let msg = format_block_message("b_abc123", 20, 500, &content);
    assert!(
        msg.contains("ctxl files b_abc123"),
        "grep-like output should include files hint: {msg}"
    );
    assert!(msg.contains("1 files"), "should report file count: {msg}");
    assert!(msg.contains("Top: src/lib.rs (20)"), "should show top file: {msg}");
}

#[test]
fn block_message_grep_like_shows_top_3() {
    let mut lines: Vec<String> = Vec::new();
    for i in 1..=30 {
        lines.push(format!("src/a.rs:{i}:match"));
    }
    for i in 1..=20 {
        lines.push(format!("src/b.rs:{i}:match"));
    }
    for i in 1..=10 {
        lines.push(format!("src/c.rs:{i}:match"));
    }
    for i in 1..=5 {
        lines.push(format!("src/d.rs:{i}:match"));
    }
    let content = lines.join("\n");
    let msg = format_block_message("b_abc123", 65, 2000, &content);
    assert!(msg.contains("4 files"), "should report 4 files: {msg}");
    assert!(msg.contains("src/a.rs (30)"), "should show top file: {msg}");
    assert!(msg.contains("src/b.rs (20)"), "should show second file: {msg}");
    assert!(msg.contains("src/c.rs (10)"), "should show third file: {msg}");
    assert!(!msg.contains("src/d.rs (5)"), "should not show fourth file in top list: {msg}");
}

#[test]
fn block_message_non_grep_no_files_hint() {
    let content = "just some regular output\nnothing grep-like here\n";
    let msg = format_block_message("b_abc123", 2, 50, content);
    assert!(!msg.contains("ctxl files"), "non-grep output should not include files hint: {msg}");
    assert!(!msg.contains("Top:"), "non-grep should not show top files: {msg}");
}

#[test]
fn analyze_grep_files_detects_pattern() {
    let lines: Vec<String> = (1..=10)
        .map(|i| format!("src/lib.rs:{i}:fn foo()"))
        .chain((1..=5).map(|i| format!("src/main.rs:{i}:fn bar()")))
        .collect();
    let content = lines.join("\n");
    let info = analyze_grep_files(&content);
    assert_eq!(info.file_count, 2);
    assert_eq!(info.top_files.len(), 2);
    assert_eq!(info.top_files[0], ("src/lib.rs".to_string(), 10));
    assert_eq!(info.top_files[1], ("src/main.rs".to_string(), 5));
}

#[test]
fn analyze_grep_files_rejects_low_ratio() {
    let mut lines: Vec<String> = (1..=9).map(|i| format!("regular line {i}")).collect();
    lines.push("src/lib.rs:1:match".to_string());
    let content = lines.join("\n");
    let info = analyze_grep_files(&content);
    assert_eq!(info.file_count, 0);
    assert!(info.top_files.is_empty());
}

#[test]
fn extract_preview_truncates_long_lines() {
    let long_line = "x".repeat(200);
    let content = format!("short\n{long_line}\n");
    let preview = extract_preview(&content);
    assert!(preview.chars().count() <= 121); // 119 chars + ellipsis
    assert!(preview.ends_with('…'));
}

#[test]
fn truncate_preview_utf8_boundary() {
    // 4-byte emoji repeated — boundary at 119 bytes falls mid-char
    let s = "🦀".repeat(40); // 160 bytes
    let result = truncate_preview(&s);
    assert!(result.is_char_boundary(result.len()));
    assert!(result.ends_with('…'));
    assert!(result.len() <= 123); // 29 emojis (116 bytes) + 3-byte ellipsis

    // CJK 3-byte chars at boundary
    let s = "漢".repeat(50); // 150 bytes
    let result = truncate_preview(&s);
    assert!(result.is_char_boundary(result.len()));
    assert!(result.ends_with('…'));
}

#[test]
fn block_message_binary_diff_shows_binary_label() {
    let diff = "diff --git a/assets/icon.png b/assets/icon.png\n\
                index abc1234..def5678 100644\n\
                Binary files a/assets/icon.png and b/assets/icon.png differ\n\
                diff --git a/src/lib.rs b/src/lib.rs\n\
                old mode 100644\n\
                new mode 100755\n\
                diff --git a/src/main.rs b/src/main.rs\n\
                --- a/src/main.rs\n\
                +++ b/src/main.rs\n\
                @@ -1,3 +1,4 @@\n \
                context\n\
                +added\n";
    let msg = format_block_message("b_abc123", 10, 400, diff);
    assert!(
        msg.contains("assets/icon.png (binary)"),
        "binary file should be labeled (binary), got: {msg}"
    );
    assert!(
        !msg.contains("assets/icon.png (0 hunks)"),
        "should not show '(0 hunks)' for binary files, got: {msg}"
    );
    assert!(
        msg.contains("src/main.rs (1 hunk)"),
        "non-binary file with 1 hunk should show singular '(1 hunk)', got: {msg}"
    );
    // Mode-change-only file must NOT be labeled "(binary)".
    assert!(
        !msg.contains("src/lib.rs (binary)"),
        "mode-change-only file should not be labeled (binary), got: {msg}"
    );
    assert!(
        msg.contains("src/lib.rs (0 hunks)"),
        "mode-change-only file should show (0 hunks), got: {msg}"
    );
}

#[test]
fn analyze_diff_files_counts_hunks() {
    let diff = "diff --git a/src/intercept.rs b/src/intercept.rs\n\
                --- a/src/intercept.rs\n\
                +++ b/src/intercept.rs\n\
                @@ -5,6 +5,7 @@ fn foo() {\n \
                context\n\
                +added\n\
                @@ -20,3 +21,4 @@ fn bar() {\n \
                context\n\
                +added\n\
                diff --git a/src/main.rs b/src/main.rs\n\
                --- a/src/main.rs\n\
                +++ b/src/main.rs\n\
                @@ -1,3 +1,4 @@\n \
                context\n\
                +added\n";
    let info = analyze_diff_files(diff);
    assert_eq!(info.file_count, 2);
    assert_eq!(info.top_files[0], ("src/intercept.rs".to_string(), 2, false));
    assert_eq!(info.top_files[1], ("src/main.rs".to_string(), 1, false));
}

#[test]
fn extract_preview_diff_skips_lockfile() {
    let diff = "diff --git a/package-lock.json b/package-lock.json\n\
                --- a/package-lock.json\n\
                +++ b/package-lock.json\n\
                @@ -1,3 +1,4 @@\n \
                context\n\
                +added\n\
                diff --git a/src/main.rs b/src/main.rs\n\
                --- a/src/main.rs\n\
                +++ b/src/main.rs\n\
                @@ -1,3 +1,4 @@\n \
                context\n\
                +added\n";
    let preview = extract_preview(diff);
    assert_eq!(preview, "src/main.rs");
}

#[test]
fn is_generated_file_detects_patterns() {
    assert!(is_generated_file("package-lock.json"));
    assert!(is_generated_file("yarn.lock"));
    assert!(is_generated_file("Cargo.lock"));
    assert!(is_generated_file("something.lock"));
    assert!(is_generated_file("vendor/bundle.min.js"));
    assert!(is_generated_file("styles.min.css"));
    assert!(!is_generated_file("src/main.rs"));
    assert!(!is_generated_file("src/lock_manager.rs"));
    assert!(
        !is_generated_file("vendor/not-package-lock.json"),
        "not-package-lock.json is not package-lock.json"
    );
    assert!(
        !is_generated_file("my-package-lock.json"),
        "my-package-lock.json is not package-lock.json"
    );
    // But subdirectory paths with exact basenames still match.
    assert!(is_generated_file("some/dir/package-lock.json"));
    assert!(is_generated_file("deep/nested/yarn.lock"));
}

#[test]
fn format_block_message_ex_truncation_note() {
    // total_lines > line_count → message includes truncation note.
    let msg = format_block_message_ex("b_abc123", 50, 2000, "some content", Some(200));
    assert!(msg.contains("stored first 50 of 200 lines"), "truncation note missing in: {msg}");

    // total_lines == line_count → no truncation note.
    let msg_eq = format_block_message_ex("b_abc123", 50, 2000, "some content", Some(50));
    assert!(
        !msg_eq.contains("stored first"),
        "should not show truncation note when total == stored: {msg_eq}"
    );

    // total_lines is None → no truncation note (same as format_block_message).
    let msg_none = format_block_message_ex("b_abc123", 50, 2000, "some content", None);
    assert!(
        !msg_none.contains("stored first"),
        "should not show truncation note when total_lines is None: {msg_none}"
    );
}

/// What takes the place of the output of a captured command.
fn replaced_stdout(config: &InterceptConfig, resp: &ToolResponse) -> String {
    let c = captured(run(Some("Bash".into()), resp, config));
    let message = format_capture(&c, "b_abc123", resp.exit_code);
    let envelope = capture_envelope(message, resp).to_text();
    let parsed: serde_json::Value = serde_json::from_str(&envelope).unwrap();
    parsed["hookSpecificOutput"]["updatedToolOutput"]["stdout"].as_str().unwrap().to_string()
}

#[test]
fn failed_command_includes_preview() {
    let big_output =
        format!("{}\ntest result: FAILED. 8 passed; 2 failed; 0 ignored\n", "x\n".repeat(300));
    let stdout = replaced_stdout(&config(8192, 200), &response(big_output, Some(1)));
    assert!(
        stdout.contains("Command failed (exit 1)"),
        "should contain failure message, got: {stdout}"
    );
    assert!(
        stdout.contains("Preview: test result: FAILED. 8 passed; 2 failed"),
        "should contain preview with test result, got: {stdout}"
    );
}

#[test]
fn failed_command_empty_content_no_preview() {
    let stdout = replaced_stdout(&config(10, 5), &response(" ".repeat(20), Some(127)));
    assert!(
        stdout.contains("Command failed (exit 127)"),
        "should contain failure message, got: {stdout}"
    );
    assert!(
        !stdout.contains("Preview:"),
        "whitespace-only content should not show Preview:, got: {stdout}"
    );
}

#[test]
fn detect_code_language_strips_trailing_comment() {
    assert_eq!(
        detect_code_language_from_command("cat file.rs # guard-override: reason"),
        Some("rust")
    );
    assert_eq!(detect_code_language_from_command("cat file.rs"), Some("rust"));
    assert_eq!(detect_code_language_from_command("cat file.rs | head"), None);
}

#[test]
fn images_and_interrupted_commands_pass() {
    let mut resp = response("x".repeat(9000), None);
    resp.is_image = Some(true);
    let d = run(None, &resp, &config(8192, 200));
    assert!(matches!(d, Decision::Pass(PassReason::Image)));
}

#[test]
fn escapes_do_not_count_towards_the_threshold() {
    let resp = response("\u{1b}[31m\u{1b}[0m".repeat(100), None);
    let d = run(None, &resp, &config(8, 200));
    assert!(matches!(d, Decision::Pass(PassReason::BelowThreshold)));
    let over = response(format!("\u{1b}[31m{}\u{1b}[0m", "y".repeat(9)), None);
    let c = captured(run(None, &over, &config(8, 200)));
    assert_eq!(c.byte_count, 9);
    assert!(c.tool_missing);
}

#[test]
fn either_threshold_is_enough() {
    let many_lines = response("a\n".repeat(201), None);
    assert!(matches!(run(None, &many_lines, &config(8192, 200)), Decision::Capture(_)));
    let at_limit = response("a\n".repeat(200), None);
    assert!(matches!(run(None, &at_limit, &config(8192, 200)), Decision::Pass(_)));
}

#[test]
fn recording_can_be_turned_off() {
    let mut quiet = config(8, 200);
    quiet.record = false;
    let c = captured(run(None, &response("y".repeat(9), None), &quiet));
    assert!(capture_call(&c, "b_1", &quiet, None).is_none());
}

#[test]
fn thresholds_come_from_the_environment() {
    let c = InterceptConfig::from_env(Some("12"), None);
    assert_eq!((c.threshold, c.line_threshold), (12, 200));
    let c = InterceptConfig::from_env(Some("twelve"), Some("7"));
    assert_eq!((c.threshold, c.line_threshold), (8192, 7));
    assert_eq!(GrepInterceptConfig::from_env(None).threshold, 200);
}

#[test]
fn output_is_compressed_by_kind() {
    let diff = "diff --git a/a.rs b/a.rs\n--- a/a.rs\n+++ b/a.rs\n@@ -1,2 +1,2 @@ fn f() {\n-x\n+y\n";
    let (method, body) = apply_compression(diff, None).expect("a diff is compressed");
    assert_eq!(method, "diff");
    assert!(body.contains("a.rs\t"), "got: {body}");
    let source = "fn f() {\n    g();\n    h();\n}\n";
    let (method, body) = apply_compression(source, Some("cat a.rs")).expect("code is compressed");
    assert_eq!(method, "code");
    assert!(!body.contains("g();"));
    assert!(apply_compression("plain text", Some("ls")).is_none());
}

fn matches_of(lines: usize, mode: Option<&str>) -> GrepToolResponse {
    GrepToolResponse {
        content: Some("src/a.rs:1:same text here\n".repeat(lines)),
        num_files: Some(1),
        filenames: None,
        num_matches: Some(lines as u64),
        mode: mode.map(String::from),
    }
}

#[test]
fn searches_are_captured_above_their_threshold() {
    let config = GrepInterceptConfig::from_env(Some("10"));
    let small = matches_of(10, Some("content"));
    assert!(intercept_grep::run(Some("Grep".into()), &small, &config).is_none());
    let large = matches_of(11, Some("content"));
    let c = intercept_grep::run(Some("Grep".into()), &large, &config).expect("captured");
    assert_eq!((c.line_count, c.mode.as_str()), (11, "content"));
    let body = intercept_grep::compress_capture(&c).expect("identical lines collapse");
    assert!(body.contains("[×11]"), "got: {body}");
    let msg = intercept_grep::format_capture(&c, &large, "g_abc123");
    assert!(msg.contains("g_abc123"));
    let row = intercept_grep::capture_call(&c, "g_abc123", &config).expect("recorded");
    assert_eq!(row.line_count, 11);
    let envelope = intercept_grep::capture_envelope(msg, c.mode.as_str(), &large);
    assert!(matches!(envelope, Json::Object(_)));
    assert!(envelope.to_text().contains("hookSpecificOutput"));
}

#[test]
fn stored_search_result_gives_back_its_content() {
    let content: String = (0..201).map(|i| format!("src/a.rs:{i}:x\n")).collect();
    let mut config = GrepInterceptConfig::from_env(None);
    config.tool_input = Some(r#"{"pattern":"x"}"#.to_owned());
    let resp = GrepToolResponse {
        mode: Some("content".to_owned()),
        filenames: None,
        content: Some(content.clone()),
        num_files: None,
        num_matches: None,
    };
    let c = intercept_grep::run(Some("Grep".to_owned()), &resp, &config).expect("captured");
    assert_eq!(extract_content(&c.payload), content);
}
