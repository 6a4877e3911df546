use ctxl::global_db::global_search_phrase;
use ctxl::{detect_regex_metacharacters, sanitize_fts5_query};

#[test]
fn sanitize_fts5_plain() {
    assert_eq!(sanitize_fts5_query("hello"), "\"hello\"");
}

#[test]
fn sanitize_fts5_prefix() {
    assert_eq!(sanitize_fts5_query("grep*"), "\"grep\"*");
}

#[test]
fn detect_regex_clean() {
    assert!(detect_regex_metacharacters("normal query").is_none());
}

#[test]
fn lib_detect_regex_brackets() {
    assert!(detect_regex_metacharacters("[a-z]+").is_some());
}

#[test]
fn detect_regex_backslash_pipe() {
    let result = detect_regex_metacharacters("listen\\|unlisten");
    assert!(result.is_some(), "should detect \\|");
    let msg = result.unwrap();
    assert!(msg.contains("regex syntax"), "message should mention regex: {msg}");
}

#[test]
fn retrieve_detect_regex_brackets() {
    let result = detect_regex_metacharacters("[a-z]+");
    assert!(result.is_some(), "should detect [ ]");
}

#[test]
fn detect_regex_clean_query() {
    let result = detect_regex_metacharacters("normal query text");
    assert!(result.is_none(), "plain text should pass");
}

#[test]
fn sanitize_fts5_plain_query() {
    assert_eq!(sanitize_fts5_query("hello"), "\"hello\"");
}

#[test]
fn sanitize_fts5_prefix_query() {
    // Trailing * should produce FTS5 prefix syntax: "grep"*
    assert_eq!(sanitize_fts5_query("grep*"), "\"grep\"*");
}

#[test]
fn sanitize_fts5_preserves_underscores() {
    assert_eq!(sanitize_fts5_query("grep_dedup"), "\"grep_dedup\"");
}

#[test]
fn sanitize_fts5_prefix_with_underscore() {
    assert_eq!(sanitize_fts5_query("grep_*"), "\"grep_\"*");
}

#[test]
fn sanitize_fts5_strips_operators() {
    assert_eq!(sanitize_fts5_query("foo+bar"), "\"foobar\"");
    assert_eq!(sanitize_fts5_query("^hello"), "\"hello\"");
}

#[test]
fn sanitize_fts5_escapes_quotes() {
    // Input: say "hello" → quotes doubled: say ""hello"" → wrapped: "say ""hello"""
    assert_eq!(sanitize_fts5_query(r#"say "hello""#), r#""say ""hello""""#);
}

#[test]
fn sanitize_fts5_trims_whitespace() {
    assert_eq!(sanitize_fts5_query("  hello  "), "\"hello\"");
}

#[test]
fn sanitize_fts5_prefix_with_whitespace() {
    assert_eq!(sanitize_fts5_query("  grep*  "), "\"grep\"*");
}

#[test]
fn sanitize_fts5_star_only_produces_empty_prefix() {
    // Edge case: just "*" should produce ""* which is empty prefix
    assert_eq!(sanitize_fts5_query("*"), "\"\"*");
}

#[test]
fn search_global_rejects_regex() {
    let result = global_search_phrase("[a-z]+");
    assert!(result.is_err());
    assert_eq!(global_search_phrase("plain").unwrap(), "\"plain\"");
}

#[test]
fn phrases_are_closed() {
    // Every quote inside the phrase is doubled.
    let phrase = sanitize_fts5_query("a\"b\"\"c");
    assert_eq!(phrase, "\"a\"\"b\"\"\"\"c\"");
}

#[test]
fn proposed_queries_are_plain() {
    let proposed = |m: &str| -> Vec<String> {
        m.split("ctxl search <handle> \"").skip(1).map(|p| p.split('"').next().unwrap_or("").to_owned()).collect()
    };
    for query in ["\\[d", "\\\\((", "a\\[|b", "x\\[d\\|y\\]w", "foo\\|\\[wbar", "\\\\d\\d x"] {
        let m = detect_regex_metacharacters(query).expect("regex syntax");
        for q in proposed(&m) {
            assert!(detect_regex_metacharacters(&q).is_none(), "{query} gave {q}");
        }
    }
    let m = detect_regex_metacharacters("\\[d").unwrap();
    assert_eq!(m, "query contains regex syntax ([) which FTS5 does not support");
    let m = detect_regex_metacharacters("foo\\|bar\\d").unwrap();
    assert_eq!(proposed(&m), vec!["foo", "bar"]);
}
