use ctxl::compress::ansi;
use ctxl::compress::code;
use ctxl::compress::diff;
use ctxl::compress::diff::Hunk;
use ctxl::compress::grep_dedup;
use ctxl::compress::grep_path_colon_pos;
use ctxl::compress::grep_preview::{
    format_stored_note, grep_preview, grep_preview_content, grep_preview_count, grep_preview_ex,
    parse_count_file_counts,
};
use ctxl::compress::json;
use ctxl::compress::language_from_extension;
use ctxl::compress::passthrough;
use ctxl::compress::syntax::SyntaxNode;
use ctxl::json::Json;

// ---------------------------------------------------------------------------
// Code
// ---------------------------------------------------------------------------

#[test]
fn rust_skeleton_suppresses_body() {
    let src = "fn add(a: i32, b: i32) -> i32 {\n    a + b\n}";
    let out = code::compress(src, "rust");
    assert!(out.contains("fn add"), "signature present");
    assert!(!out.contains("a + b"), "body suppressed");
    assert!(out.contains("// ..."), "placeholder present");
}

#[test]
fn typescript_skeleton_suppresses_method_body() {
    let src = "class Foo {\n  bar(x: number): number {\n    return x + 1;\n  }\n}";
    let out = code::compress(src, "typescript");
    assert!(out.contains("bar"), "method signature present");
    assert!(!out.contains("return x + 1"), "body suppressed");
}

#[test]
fn unsupported_language_passthrough() {
    let src = "MOVE 1 TO X.";
    let out = code::compress(src, "cobol");
    assert_eq!(out, src);
}

#[test]
fn malformed_rust_no_false_skeleton() {
    let src = "fn foo( {{{ BROKEN {{ SYNTAX";
    let out = code::compress(src, "rust");
    assert!(!out.contains("// ..."), "malformed source must not produce a skeleton");
    assert!(out.contains("BROKEN"), "source content preserved");
}

#[test]
fn every_grammar_is_there() {
    for name in [
        "rust",
        "typescript",
        "tsx",
        "javascript",
        "python",
        "go",
        "java",
        "c",
        "cpp",
        "ruby",
        "bash",
        "css",
        "json",
    ] {
        assert!(code::grammar_for_language(name).is_some(), "no grammar for {name}");
    }
    assert!(code::grammar_for_language("cobol").is_none());
}

#[test]
fn python_and_go_bodies_are_suppressed() {
    let py = "def add(a, b):\n    c = a + b\n    return c\n";
    let out = code::compress(py, "python");
    assert!(out.contains("def add(a, b): // ... 1 lines"));
    assert!(!out.contains("c = a + b"));
    let go = "package main\n\nfunc Add(a int, b int) int {\n\tc := a + b\n\treturn c\n}\n";
    let out = code::compress(go, "go");
    assert!(out.contains("func Add"));
    assert!(!out.contains("return c"));
}

fn node(kind: &str, depth: usize, start_row: usize, end_row: usize) -> SyntaxNode {
    SyntaxNode { kind: kind.to_string(), depth, start_row, end_row, has_error: false, name: None }
}

#[test]
fn skeleton_from_given_nodes() {
    let source = "fn f() {\n    1\n}\nfn g() {}\n";
    let nodes = vec![
        node("source_file", 0, 0, 4),
        node("function_item", 1, 0, 2),
        node("block", 2, 0, 2),
        node("function_item", 1, 3, 3),
        node("block", 2, 3, 3),
    ];
    assert!(code::is_function_body(&nodes, 2, "rust"));
    assert!(!code::is_function_body(&nodes, 1, "rust"));
    let out = code::compress_nodes(source, "rust", &nodes);
    assert!(out.contains("fn f() {"));
    assert!(!out.contains("    1"));
    assert!(out.contains("fn g() {}"));
}

// ---------------------------------------------------------------------------
// Diffs
// ---------------------------------------------------------------------------

#[test]
fn extract_entity_name_fn_prefix() {
    assert_eq!(diff::extract_entity_name_from_context("fn my_function(x: i32)"), "my_function");
    assert_eq!(diff::extract_entity_name_from_context("function doSomething()"), "doSomething");
    assert_eq!(diff::extract_entity_name_from_context("def compute(a, b):"), "compute");
}

#[test]
fn classify_change_variants() {
    let added_hunk = Hunk {
        header_context: String::new(),
        lines: vec![" ctx".to_owned(), "+new line".to_owned()],
    };
    assert_eq!(diff::classify_change(&added_hunk), "added");

    let removed_hunk = Hunk {
        header_context: String::new(),
        lines: vec![" ctx".to_owned(), "-old line".to_owned()],
    };
    assert_eq!(diff::classify_change(&removed_hunk), "removed");

    let modified_hunk = Hunk {
        header_context: String::new(),
        lines: vec!["-old".to_owned(), "+new".to_owned()],
    };
    assert_eq!(diff::classify_change(&modified_hunk), "modified");
}

#[test]
fn parse_hunk_context_extracts_function_name_hint() {
    let ctx = diff::parse_hunk_context("@@ -5,7 +5,8 @@ fn my_function() {");
    assert_eq!(ctx, "fn my_function() {");
}

#[test]
fn detect_language_from_extension() {
    assert_eq!(diff::detect_language("src/lib.rs"), Some("rust".to_owned()));
    assert_eq!(diff::detect_language("src/index.ts"), Some("typescript".to_owned()));
    assert_eq!(diff::detect_language("main.py"), Some("python".to_owned()));
    assert_eq!(diff::detect_language("README.md"), None);
}

#[test]
fn merge_entries_deduplicates_to_modified() {
    let entries = vec![
        ("file.rs".to_owned(), "foo".to_owned(), "added".to_owned()),
        ("file.rs".to_owned(), "foo".to_owned(), "removed".to_owned()),
    ];
    let merged = diff::merge_entries(entries);
    assert_eq!(merged.len(), 1);
    assert_eq!(merged[0].2, "modified");
}

#[test]
fn full_diff_parse_returns_entity_tuples() {
    let text = "diff --git a/src/lib.rs b/src/lib.rs\n\
                index abc..def 100644\n\
                --- a/src/lib.rs\n\
                +++ b/src/lib.rs\n\
                @@ -5,6 +5,7 @@ fn my_function() {\n \
                let x = 1;\n\
                -    let y = 2;\n\
                +    let y = 3;\n\
                +    let z = 4;\n \
                x + y\n";
    let results = diff::compress(text);
    assert!(!results.is_empty(), "should return at least one tuple");
    let (file, entity, _change) = &results[0];
    assert_eq!(file, "src/lib.rs");
    assert!(
        entity.contains("my_function") || entity == "<unknown>",
        "entity should be my_function or unknown, got: {entity}"
    );
}

#[test]
fn merged_entries_keep_each_change() {
    let entries = vec![
        ("b.rs".to_owned(), "g".to_owned(), "added".to_owned()),
        ("a.rs".to_owned(), "f".to_owned(), "removed".to_owned()),
        ("b.rs".to_owned(), "g".to_owned(), "added".to_owned()),
    ];
    let merged = diff::merge_entries(entries);
    assert_eq!(
        merged,
        vec![
            ("a.rs".to_owned(), "f".to_owned(), "removed".to_owned()),
            ("b.rs".to_owned(), "g".to_owned(), "added".to_owned()),
        ]
    );
}

#[test]
fn unicode_names_are_entity_names() {
    assert_eq!(diff::extract_entity_name_from_context("fn größe()"), "größe");
}

#[test]
fn post_image_keeps_context_and_additions() {
    let hunk = Hunk {
        header_context: String::new(),
        lines: vec![
            " fn f() {".to_owned(),
            "-    old();".to_owned(),
            "+    new();".to_owned(),
            " }".to_owned(),
        ],
    };
    let (source, row) = diff::post_image(&hunk);
    assert!(source.contains("new();"));
    assert!(!source.contains("old();"));
    assert_eq!(row, Some(1));
    assert_eq!(diff::entity_from_hunk_ts(&hunk, "rust"), Some("f".to_owned()));
}

#[test]
fn extensions_name_languages() {
    assert_eq!(language_from_extension("rs"), Some("rust"));
    assert_eq!(language_from_extension("py"), Some("python"));
    assert_eq!(language_from_extension("md"), None);
}

// ---------------------------------------------------------------------------
// Deduplication
// ---------------------------------------------------------------------------

#[test]
fn empty_input_returns_empty_string() {
    assert_eq!(grep_dedup::compress(""), "");
    assert_eq!(grep_dedup::compress("   \n  \n"), "");
}

#[test]
fn identical_lines_collapse_to_one() {
    let lines: Vec<String> =
        (0..10).map(|i| format!("src/a.ts:{}:import React from 'react'", i)).collect();
    let input = lines.join("\n");
    let out = grep_dedup::compress(&input);
    assert!(out.contains("[×10]"), "10 identical lines should collapse: {out}");
}

#[test]
fn single_line_no_annotation() {
    let input = "src/main.rs:1:fn main() {}";
    let out = grep_dedup::compress(input);
    assert!(!out.contains("[×"), "single line should not be annotated: {out}");
}

#[test]
fn groups_sorted_descending_by_match_count() {
    let lines_a: Vec<String> = (0..3).map(|i| format!("src/a.ts:{}:foo", i)).collect();
    let lines_b: Vec<String> = (0..10).map(|i| format!("src/b.ts:{}:bar", i)).collect();
    let input = [lines_a, lines_b].concat().join("\n");
    let out = grep_dedup::compress(&input);
    let pos_b = out.find("src/b.ts").expect("b.ts should appear");
    let pos_a = out.find("src/a.ts").expect("a.ts should appear");
    assert!(pos_b < pos_a, "b.ts (10 matches) should appear before a.ts (3 matches)");
}

#[test]
fn hashes_are_those_of_the_contents() {
    let lines = vec![
        "a.rs:1:The cat sat on the mat".to_owned(),
        "b.rs:7:The cat sat on the mat".to_owned(),
        "b.rs:8:Why the lucky stiff".to_owned(),
    ];
    let hashes = grep_dedup::hash_contents(&lines);
    assert_eq!(hashes[0], simhash::simhash("The cat sat on the mat"));
    assert_eq!(hashes[0], hashes[1]);
    assert_ne!(hashes[0], hashes[2]);
}

#[test]
fn clusters_count_every_line() {
    let lines: Vec<String> = ["a", "b", "c", "d", "e"].iter().map(|s| s.to_string()).collect();
    // Three bits apart is near, four is not.
    let clusters = grep_dedup::cluster_lines(&lines, &[0, 0b111, 0b1111, u64::MAX, 0]);
    let total: usize = clusters.iter().map(|c| c.1).sum();
    assert_eq!(total, 5);
    assert_eq!(clusters[0], ("a".to_owned(), 3));
    assert_eq!(clusters.len(), 3);
}

// ---------------------------------------------------------------------------
// Previews
// ---------------------------------------------------------------------------

#[test]
fn content_mode_preview_includes_file_manifest_and_head_tail() {
    let lines: Vec<String> = (0..50)
        .map(|i| format!("src/lib.rs:{}:match_{}", i, i))
        .chain((0..10).map(|i| format!("src/main.rs:{}:other_{}", i, i)))
        .collect();
    let content = lines.join("\n");

    let preview = grep_preview_content(&content, 5);
    assert!(preview.contains("src/lib.rs"), "should mention top file");
    assert!(preview.contains("50 match"), "should show lib.rs count");
    assert!(preview.contains("Sample output"), "should include sample header");
}

#[test]
fn count_mode_preview_shows_sorted_file_counts() {
    let content = "src/main.rs:3\nsrc/lib.rs:15\nsrc/utils.rs:7\n";
    let preview = grep_preview_count(content, 10);
    assert!(preview.contains("src/lib.rs: 15"), "lib.rs should appear (highest count)");
    assert!(preview.contains("src/utils.rs: 7"));
    assert!(preview.contains("src/main.rs: 3"));
}

#[test]
fn files_with_matches_mode_shows_file_manifest() {
    let content = "src/lib.rs\nsrc/main.rs\nsrc/utils.rs\n";
    let msg = grep_preview(content, "files_with_matches", "g_abc123", 0, &[]);
    assert!(msg.contains("src/lib.rs"));
    assert!(msg.contains("src/main.rs"));
    assert!(msg.contains("3 files with matches"));
}

#[test]
fn unknown_mode_falls_back_to_head_tail() {
    let lines: Vec<String> = (0..10).map(|i| format!("line {i}")).collect();
    let content = lines.join("\n");
    let msg = grep_preview(&content, "mystery_mode", "g_abc123", 0, &[]);
    assert!(msg.contains("unknown mode"));
    assert!(msg.contains("g_abc123"));
}

#[test]
fn parse_count_file_counts_handles_rfind_colon() {
    let content = "path/to/file.rs:5\nanother/file.rs:2\n";
    let counts = parse_count_file_counts(content);
    assert_eq!(counts.len(), 2);
    assert_eq!(counts[0].1, 5);
    assert_eq!(counts[1].1, 2);
}

#[test]
fn content_mode_includes_files_hint() {
    let content = "src/lib.rs:1:fn main() {}\nsrc/lib.rs:2:}\n";
    let msg = grep_preview(content, "content", "g_abc123", 2, &["src/lib.rs".to_string()]);
    assert!(
        msg.contains("ctxl files"),
        "content mode should include 'ctxl files' hint, got: {msg}"
    );
}

#[test]
fn count_mode_includes_files_hint() {
    let content = "src/lib.rs:5\nsrc/main.rs:3\n";
    let msg = grep_preview(content, "count", "g_def456", 8, &[]);
    assert!(msg.contains("ctxl files"), "count mode should include 'ctxl files' hint, got: {msg}");
}

#[test]
fn stored_note_only_when_lines_are_missing() {
    assert!(format_stored_note(Some(50), Some(200)).contains("50 of 200"));
    assert_eq!(format_stored_note(Some(50), Some(50)), "");
    assert_eq!(format_stored_note(None, None), "");
    let msg = grep_preview_ex("a.rs:1:x\n", "content", "g_1", 1, &[], Some(1), Some(9));
    assert!(msg.contains("1 of 9"), "got: {msg}");
}

// ---------------------------------------------------------------------------
// JSON
// ---------------------------------------------------------------------------

#[test]
fn flattens_nested_object() {
    let input = r#"{"a": {"b": "c"}}"#;
    let out = json::compress(input);
    assert_eq!(out, "a.b = c");
}

#[test]
fn array_uses_bracket_indexing() {
    let input = r#"{"items": [{"name": "foo"}]}"#;
    let out = json::compress(input);
    assert!(out.contains("items[0].name = foo"), "got: {out}");
}

#[test]
fn null_values_omitted() {
    let input = r#"{"a": null, "b": "keep"}"#;
    let out = json::compress(input);
    assert!(!out.contains("null"), "null should be omitted: {out}");
    assert!(out.contains("b = keep"), "non-null should be present: {out}");
}

#[test]
fn empty_string_values_omitted() {
    let input = r#"{"a": "", "b": "value"}"#;
    let out = json::compress(input);
    assert!(!out.contains("a ="), "empty string should be omitted: {out}");
    assert!(out.contains("b = value"));
}

#[test]
fn invalid_json_returns_passthrough() {
    let bad = "{invalid json}";
    let out = json::compress(bad);
    let expected = passthrough::preview(bad, 20);
    assert_eq!(out, expected);
}

#[test]
fn scalars_are_written_plainly() {
    let input = r#"{"n": 12, "t": true, "s": "x y"}"#;
    assert_eq!(json::compress(input), "n = 12\ns = x y\nt = true");
    assert_eq!(json::format_scalar(&Json::Text("q".to_owned())), "q");
    assert!(json::should_omit(&Json::Null));
    assert!(!json::should_omit(&Json::Bool(false)));
}

// ---------------------------------------------------------------------------
// Terminal escapes and passthrough
// ---------------------------------------------------------------------------

#[test]
fn escapes_are_stripped() {
    assert_eq!(ansi::strip("\u{1b}[31mred\u{1b}[0m plain"), b"red plain".to_vec());
    assert_eq!(ansi::strip("plain"), b"plain".to_vec());
}

#[test]
fn passthrough_keeps_short_text() {
    assert_eq!(passthrough::preview("one\ntwo", 20), "one\ntwo");
}

// ---------------------------------------------------------------------------
// Paths
// ---------------------------------------------------------------------------

#[test]
fn drive_letter_path_colon_pos() {
    let line = r"C:\Users\dev\src\main.rs:42:fn main()";
    let pos = grep_path_colon_pos(line).unwrap();
    assert_eq!(&line[..pos], r"C:\Users\dev\src\main.rs");
    assert_eq!(&line[pos..pos + 1], ":");
}

#[test]
fn drive_letter_forward_slash() {
    let line = "C:/Users/dev/src/main.rs:42:fn main()";
    let pos = grep_path_colon_pos(line).unwrap();
    assert_eq!(&line[..pos], "C:/Users/dev/src/main.rs");
}

#[test]
fn posix_path_unchanged() {
    let line = "src/main.rs:42:fn main()";
    let pos = grep_path_colon_pos(line).unwrap();
    assert_eq!(&line[..pos], "src/main.rs");
}

#[test]
fn single_letter_dir_not_treated_as_drive() {
    let line = "a:42:text";
    let pos = grep_path_colon_pos(line).unwrap();
    assert_eq!(pos, 1);
    assert_eq!(&line[..pos], "a");
}

#[test]
fn no_colon_returns_none() {
    assert!(grep_path_colon_pos("no-colon-line").is_none());
}

#[test]
fn drive_letter_content_with_colon() {
    let line = r#"C:\src\config.rs:10:let url = "http://example.com";"#;
    let pos = grep_path_colon_pos(line).unwrap();
    assert_eq!(&line[..pos], r"C:\src\config.rs");
}

#[test]
fn posix_path_content_with_colon() {
    let line = r#"src/config.rs:10:let url = "http://example.com";"#;
    let pos = grep_path_colon_pos(line).unwrap();
    assert_eq!(&line[..pos], "src/config.rs");
}

#[test]
fn colon_position_is_in_bytes() {
    let line = "größe.rs:1:x";
    let pos = grep_path_colon_pos(line).unwrap();
    assert_eq!(&line[..pos], "größe.rs");
}

#[test]
fn paths_lead_to_scalars() {
    let input = r#"{"a":[[1,2],[]],"b":{},"c":{"d":[{"e":null},{"e":"x"}]}}"#;
    assert_eq!(json::compress(input), "a[0][0] = 1\na[0][1] = 2\nc.d[1].e = x");
}

#[test]
fn colliding_paths_pass_through() {
    let input = r#"{"a.b":1,"a":{"b":2}}"#;
    assert_eq!(json::compress(input), input);
}

#[test]
fn skeleton_keeps_the_rows_outside_bodies() {
    let src = "use std::fmt;\n\nstruct S {\n    n: u8,\n}\n\nfn f() {\n    a();\n    b();\n}\n";
    let out = code::compress(src, "rust");
    assert_eq!(out, "use std::fmt;\n\nstruct S {\n    n: u8,\n}\n\nfn f() { // ... 2 lines\n}");
}

#[test]
fn malformed_source_is_previewed() {
    let body = "fn good() {\n    a();\n    b();\n}\n";
    let src = format!("{body}fn foo( {{{{{{ BROKEN\n{}", "let x = 1;\n".repeat(60));
    let out = code::compress(&src, "rust");
    assert_eq!(out, passthrough::preview(&src, 20));
    assert!(!out.contains("// ... "), "got: {out}");
}
