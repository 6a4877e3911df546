use ctxl::retrieve::filter::{filter_diff_content, filter_grep_content, glob_match};
use ctxl::retrieve::manifest::files_with_content;
use ctxl::retrieve::{
    apply_offset, bound_lines, calls, files, files_grep, format_search_all, inspect, matches_glob,
    offset_aware_bound, path_matches_file, search, search_all, show, show_filtered,
    show_grep_file, tail_lines, CallRecord, CallsOpts, SearchRow, ShowOpts, StoredContent,
};
use ctxl::CtxlError;

#[test]
fn path_matches_exact() {
    assert!(path_matches_file("src/lib.rs", "src/lib.rs"));
}

#[test]
fn path_matches_dot_slash_prefix() {
    assert!(path_matches_file("./src/lib.rs", "src/lib.rs"));
    assert!(path_matches_file("src/lib.rs", "./src/lib.rs"));
    assert!(path_matches_file("./src/lib.rs", "./src/lib.rs"));
}

#[test]
fn path_matches_suffix() {
    assert!(path_matches_file("/Users/alex/project/src/lib.rs", "src/lib.rs"));
}

#[test]
fn path_rejects_partial_segment() {
    // "lib.rs" should not match "stdlib.rs"
    assert!(!path_matches_file("/Users/alex/project/stdlib.rs", "lib.rs"));
}

#[test]
fn path_rejects_no_separator() {
    // Suffix without preceding '/' should not match
    assert!(!path_matches_file("prefixsrc/lib.rs", "src/lib.rs"));
}

#[test]
fn path_matches_windows_backslash_suffix() {
    assert!(path_matches_file(r"C:\Users\dev\src\lib.rs", "lib.rs"));
}

#[test]
fn path_matches_mixed_separator_suffix() {
    assert!(path_matches_file(r"C:\Users\dev\src\lib.rs", r"src\lib.rs"));
}

#[test]
fn path_rejects_windows_partial_segment() {
    assert!(!path_matches_file(r"C:\Users\dev\stdlib.rs", "lib.rs"));
}

#[test]
fn path_matches_absolute_to_absolute() {
    assert!(path_matches_file("/Users/alex/project/src/lib.rs", "/Users/alex/project/src/lib.rs"));
}

#[test]
fn glob_matches_basename() {
    assert!(matches_glob("src/lib.rs", "*.rs"));
    assert!(!matches_glob("src/lib.rs", "*.ts"));
}

#[test]
fn glob_matches_full_path() {
    assert!(matches_glob("src/lib.rs", "src/*.rs"));
    assert!(!matches_glob("other/lib.rs", "src/*.rs"));
}

#[test]
fn bound_lines_no_truncation() {
    let text = "line 1\nline 2\nline 3\n";
    let result = bound_lines(text, 80);
    assert_eq!(result, text);
}

#[test]
fn bound_lines_head_tail_split() {
    // 30 lines, limit 20 → head 9 + separator + tail 10
    let lines: Vec<String> = (1..=30).map(|i| format!("line {i}")).collect();
    let text = lines.join("\n") + "\n";
    let result = bound_lines(&text, 20);

    assert!(result.contains("line 1"), "should include first line");
    assert!(result.contains("line 9"), "should include last head line");
    assert!(result.contains("omitted"), "should have separator");
    assert!(result.contains("line 21"), "should include first tail line");
    assert!(result.contains("line 30"), "should include last line");
    assert!(!result.contains("line 10"), "should omit middle content");
}

#[test]
fn bound_lines_small_limit_falls_back_to_head() {
    let lines: Vec<String> = (1..=30).map(|i| format!("line {i}")).collect();
    let text = lines.join("\n") + "\n";
    // Limit of 5 is too small for head+tail split (needs > TAIL_LINES + 2)
    let result = bound_lines(&text, 5);
    assert!(result.contains("line 1"));
    assert!(result.contains("line 5"));
    assert!(!result.contains("line 6"));
    assert!(!result.contains("omitted"));
}

#[test]
fn tail_lines_returns_last_n() {
    let lines: Vec<String> = (1..=100).map(|i| format!("line {i}")).collect();
    let text = lines.join("\n") + "\n";
    let result = tail_lines(&text, 10);
    assert!(result.contains("line 91"));
    assert!(result.contains("line 100"));
    assert!(!result.contains("\nline 90\n"));
    // 10 content lines + 1 footer line
    assert_eq!(result.lines().count(), 11);
    assert!(result.contains("(showing last 10 of 100 lines)"), "should have footer");
}

#[test]
fn tail_lines_returns_all_when_under_limit() {
    let text = "line 1\nline 2\nline 3\nline 4\nline 5\n";
    let result = tail_lines(text, 10);
    assert_eq!(result.lines().count(), 5);
    assert!(result.contains("line 1"));
    assert!(result.contains("line 5"));
}

fn stored(content: &str, compressed_body: Option<&str>) -> Option<StoredContent> {
    Some(StoredContent {
        content: Some(content.to_string()),
        compressed_body: compressed_body.map(String::from),
    })
}

fn compressed() -> ShowOpts {
    ShowOpts { compressed: true, ..Default::default() }
}

#[test]
fn show_compressed_returns_compressed_body() {
    let row = stored("raw line 1\nraw line 2\n", Some("file.rs\tfn foo\tadded"));
    let result = show("b_aabbcc", row, None, &compressed()).unwrap();
    assert!(
        result.contains("file.rs\tfn foo\tadded"),
        "should return compressed body, got: {result}"
    );
    assert!(!result.contains("raw line 1"), "should not contain raw content");
}

#[test]
fn show_compressed_falls_back_when_null() {
    let row = stored("raw line 1\nraw line 2\n", None);
    let result = show("b_aabbcc", row, None, &compressed()).unwrap();
    assert!(
        result.contains("No structural compression available"),
        "should show fallback note, got: {result}"
    );
    assert!(result.contains("raw line 1"), "should fall back to raw content, got: {result}");
}

#[test]
fn show_compressed_false_returns_raw() {
    let row = stored("raw line 1\nraw line 2\n", Some("compressed stuff"));
    let opts = ShowOpts { compressed: false, ..Default::default() };
    let result = show("b_aabbcc", row, None, &opts).unwrap();
    assert!(result.contains("raw line 1"), "should return raw content, got: {result}");
    assert!(!result.contains("compressed stuff"), "should not contain compressed body");
}

#[test]
fn show_compressed_handle_not_found() {
    let result = show("b_nonexistent", None, None, &compressed());
    assert!(result.is_err());
}

#[test]
fn show_offset_tiles_without_overlap() {
    let lines: Vec<String> = (1..=500).map(|i| format!("line {i}")).collect();
    let content = lines.join("\n") + "\n";
    let page = |offset: usize| {
        let opts = ShowOpts { head: 80, offset, ..Default::default() };
        show("b_tile01", stored(&content, None), None, &opts).unwrap()
    };
    let chunk1 = page(80);
    let chunk2 = page(160);

    let lines1: Vec<&str> = chunk1.lines().collect();
    let lines2: Vec<&str> = chunk2.lines().collect();

    assert_eq!(lines1.len(), 80, "first offset chunk should be exactly 80 lines");
    assert_eq!(lines2.len(), 80, "second offset chunk should be exactly 80 lines");
    assert_eq!(lines1[0], "line 81");
    assert_eq!(lines1[79], "line 160");
    assert_eq!(lines2[0], "line 161");
    assert_eq!(lines2[79], "line 240");
}

#[test]
fn search_results_include_line_numbers() {
    let content = "alpha\nbeta\ngamma\nalpha again\n";
    let highlighted = "\u{1}alpha\u{2}\nbeta\ngamma\n\u{1}alpha\u{2} again\n";
    let results = search(
        "b_srch01",
        Some(content.to_string()),
        Some(highlighted.to_string()),
        "alpha",
        20,
    )
    .unwrap();
    assert_eq!(results.len(), 2);
    assert!(results[0].starts_with("1:"), "first match should be line 1, got: {}", results[0]);
    assert!(results[1].starts_with("4:"), "second match should be line 4, got: {}", results[1]);
}

#[test]
fn search_empty_query_returns_error() {
    let content = || Some("some content\n".to_string());
    let result = search("b_empty1", content(), None, "", 20);
    assert!(result.is_err());
    let result2 = search("b_empty1", content(), None, "   ", 20);
    assert!(result2.is_err());
}

#[test]
fn search_falls_back_to_substrings() {
    let content = Some("One TWO\nthree\ntwofold\nwith two\n".to_string());
    let found = search("b_1", content, None, "two", 2).unwrap();
    assert_eq!(found, vec!["1:One TWO".to_string(), "3:twofold".to_string()]);
}

#[test]
fn search_of_a_missing_handle_is_an_error() {
    let e = search("b_404404", None, None, "x", 5).unwrap_err();
    assert_eq!(e.message(), "handle not found: b_404404");
    let e = search("b_1", Some("x".to_string()), None, "a\\|b", 5).unwrap_err();
    assert!(matches!(e, CtxlError::RegexInQuery(_)));
}

fn row(id: &str, content: &str) -> SearchRow {
    SearchRow { handle_id: id.to_string(), tool: "Bash".to_string(), content: content.to_string() }
}

#[test]
fn all_handles_are_searched_up_to_the_limit() {
    let marked = vec![row("b_1", "x\n\u{1}hit\u{2} one\n"), row("b_2", "\u{1}hit\u{2} two\n")];
    let found = search_all(&marked, &[], "hit", 20).unwrap();
    let text = format_search_all(&found);
    assert_eq!(text, "--- b_1 (Bash) ---\n2:hit one\n\n--- b_2 (Bash) ---\n1:hit two\n");
    assert_eq!(search_all(&marked, &[], "hit", 1).unwrap().len(), 1);
    let recent = vec![row("b_3", "a HIT here")];
    let fallback = search_all(&[], &recent, "hit", 20).unwrap();
    assert_eq!(fallback[0].line, "1:a HIT here");
    assert!(search_all(&[], &recent, " ", 20).is_err());
    assert_eq!(format_search_all(&[]), "");
}

#[test]
fn offsets_skip_lines() {
    assert_eq!(apply_offset("a\nb\nc\n", 1), "b\nc\n");
    assert_eq!(apply_offset("a\nb", 5), "");
    assert_eq!(offset_aware_bound("a\nb\nc\n", 2, 1), "a\nb\n");
}

#[test]
fn linked_content_takes_the_place_of_missing_content() {
    let none = StoredContent { content: None, compressed_body: None };
    let shown = show("b_1", Some(none), Some("from cache\n".to_string()), &ShowOpts::default());
    assert_eq!(shown.unwrap(), "from cache\n");
    let none = StoredContent { content: None, compressed_body: None };
    assert_eq!(show("b_1", Some(none), None, &ShowOpts::default()).unwrap(), "");
}

const GREP: &str = "src/a.rs:1:x\nsrc/b.rs:2:y\nsrc/a.rs:3:z\n";

#[test]
fn grep_output_is_filtered_by_file() {
    assert_eq!(filter_grep_content(GREP, Some("a.rs"), None, &[]), "src/a.rs:1:x\nsrc/a.rs:3:z\n");
    assert_eq!(filter_grep_content(GREP, None, Some("b*"), &[]), "src/b.rs:2:y\n");
    let exclude = vec!["a.rs".to_string()];
    assert_eq!(filter_grep_content(GREP, None, None, &exclude), "src/b.rs:2:y\n");
    assert_eq!(filter_grep_content(GREP, Some("c.rs"), None, &[]), "");
    assert_eq!(filter_grep_content("a:1\nb:2", Some("b"), None, &[]), "b:2");
}

const DIFF: &str = "diff --git a/x.rs b/x.rs\n--- a/x.rs\n+++ b/x.rs\n@@ -1 +1 @@\n-a\n+b\n@@ -9 +9 @@\n c\ndiff --git a/old.md b/old.md\n--- a/old.md\n+++ /dev/null\n@@ -1 +0,0 @@\n-d\n";

#[test]
fn diffs_are_filtered_by_section() {
    let only_x = filter_diff_content(DIFF, Some("x.rs"), None, &[]);
    assert!(only_x.starts_with("diff --git a/x.rs"));
    assert!(!only_x.contains("old.md"));
    let md = filter_diff_content(DIFF, None, Some("*.md"), &[]);
    assert!(md.starts_with("diff --git a/old.md") && md.ends_with("-d\n"));
    let exclude = vec!["*.md".to_string(), "*.rs".to_string()];
    assert_eq!(filter_diff_content(DIFF, None, None, &exclude), "");
}

#[test]
fn filtered_views_are_bounded() {
    let own = || Some(Some(GREP.to_string()));
    let all = show_filtered("g_1", own(), None, None, None, &[], 80, 0).unwrap();
    assert_eq!(all, GREP);
    let one = show_filtered("g_1", own(), None, Some("a.rs"), None, &[], 1, 1).unwrap();
    assert_eq!(one, "src/a.rs:3:z\n");
    let linked = Some(GREP.to_string());
    let b = show_grep_file("g_1", Some(None), linked, Some("src/b.rs"), None, 80).unwrap();
    assert_eq!(b, "src/b.rs:2:y\n");
    assert!(matches!(
        show_grep_file("g_1", None, None, None, None, 80),
        Err(CtxlError::HandleNotFound(_))
    ));
}

#[test]
fn a_star_stays_in_its_directory() {
    let c = |s: &str| s.chars().collect::<Vec<char>>();
    assert!(glob_match(&c("src/lib.rs"), &c("src/*")));
    assert!(!glob_match(&c("src/a/lib.rs"), &c("src/*")));
    assert!(glob_match(&c("abcabc"), &c("*abc")));
    assert!(glob_match(&c(""), &c("*")));
    assert!(!glob_match(&c(""), &c("?")));
    assert!(glob_match(&c("lib.rs"), &c("lib.rs")));
}

#[test]
fn manifests_are_tables() {
    let rows = files("g_1", Some((Some(GREP.to_string()), "content".to_string())), None).unwrap();
    assert_eq!(
        rows,
        vec!["Matches  File", "      2  src/a.rs", "      1  src/b.rs", "(2 files, 3 total matches)"]
    );
    assert_eq!(
        files_with_content(DIFF, "mixed"),
        vec!["Hunks  File", "    2  x.rs", "    1  old.md", "(2 files, 3 total hunks)"]
    );
    assert_eq!(
        files_with_content("a.rs:12345678\nb.rs:1\n", "count"),
        vec![
            " Matches  File",
            "12345678  a.rs",
            "       1  b.rs",
            "(2 files, 12345679 total matches)"
        ]
    );
    assert_eq!(
        files_with_content("z.rs\n\n a.rs \n", "files_with_matches"),
        vec!["Matches  File", "      1  z.rs", "      1  a.rs", "(2 files, 2 total matches)"]
    );
    assert_eq!(files_with_content("\n", "content"), vec!["(no files)"]);
    assert!(files("g_1", Some((None, "content".to_string())), None).unwrap().is_empty());
    assert!(files_grep("g_1", None, None).is_err());
}

#[test]
fn calls_are_json_objects() {
    let record = CallRecord {
        id: 3,
        tool: "Read".to_string(),
        tool_use_id: None,
        params: Some("{\"a\":1}".to_string()),
        cwd: None,
        intercepted: false,
        handle_id: None,
        line_count: Some(-1),
        token_est: None,
        duration_ms: None,
        exit_code: Some(0),
        created_at: 1000,
    };
    let rows = calls(&[record]);
    assert_eq!(
        rows,
        vec![r#"{"created_at":1000,"cwd":null,"duration_ms":null,"exit_code":0,"handle_id":null,"id":3,"intercepted":false,"line_count":-1,"params":"{\"a\":1}","token_est":null,"tool":"Read","tool_use_id":null}"#]
    );
    let opts = CallsOpts::default();
    assert_eq!((opts.last, opts.tool, opts.intercepted), (20, None, None));
    assert!(inspect("b_1", None).is_err());
}

#[test]
fn stored_content_comes_back() {
    let content = "one\n\ntwo\nthree\n";
    let own = StoredContent { compressed_body: None, content: Some(content.to_owned()) };
    assert_eq!(show("b_1", Some(own), None, &ShowOpts::default()).unwrap(), content);
    let linked = StoredContent { compressed_body: None, content: None };
    let blob = Some(content.to_owned());
    assert_eq!(show("b_1", Some(linked), blob, &ShowOpts::default()).unwrap(), content);
}

#[test]
fn views_are_bounded() {
    let content: String = (1..=300).map(|i| format!("line {i}\n")).collect();
    for n in [0, 1, 5, 12, 13, 40, 299] {
        let limit = if n == 0 { 2 } else { n + 1 };
        for (tail, offset) in [(None, 0), (Some(n), 0), (None, 7)] {
            let stored = StoredContent { compressed_body: None, content: Some(content.clone()) };
            let opts = ShowOpts { head: n, tail, offset, compressed: false };
            let out = show("b_1", Some(stored), None, &opts).unwrap();
            assert!(out.lines().count() <= limit, "{n} lines asked for: {out}");
        }
    }
}

#[test]
fn tail_applies_behind_the_offset() {
    let stored = StoredContent { compressed_body: None, content: Some("1\n2\n3\n4\n5\n6\n".to_owned()) };
    let opts = ShowOpts { head: 80, tail: Some(2), offset: 3, compressed: false };
    assert_eq!(
        show("b_1", Some(stored), None, &opts).unwrap(),
        "5\n6\n(showing last 2 of 3 lines)\n",
    );
}

#[test]
fn ten_handles_are_scanned() {
    let rows: Vec<SearchRow> = (0..12)
        .map(|i| SearchRow {
            handle_id: format!("b_{i}"),
            tool: "Bash".to_owned(),
            content: "needle\n".to_owned(),
        })
        .collect();
    let found = search_all(&[], &rows, "needle", 50).unwrap();
    assert_eq!(found.len(), 10);
    assert_eq!(found[9].handle_id, "b_9");
}
