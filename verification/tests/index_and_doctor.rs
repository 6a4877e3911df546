use ctxl::doctor::{
    collect, disabled_file_path, format_human, is_settled, liveness, select_sessions,
    session_store_path, DoctorFacts, SessionProbe, StoreFacts,
};
use ctxl::index::{
    convert_content, detect_content_type, format_output, html_to_markdown, index_call, index_result, markdown_or_html, prepare_index, ContentType, IndexOpts, MAX_INPUT_BYTES,
};
use ctxl::markup::is_convertible;

// ---------------------------------------------------------------------------
// Indexing
// ---------------------------------------------------------------------------

#[test]
fn content_types_are_detected() {
    assert_eq!(detect_content_type("<!DOCTYPE html><p>x</p>"), ContentType::Html);
    assert_eq!(detect_content_type("  {\"a\":1}"), ContentType::Json);
    assert_eq!(detect_content_type("plain words"), ContentType::Text);
}

#[test]
fn html_becomes_markdown() {
    let md = convert_content("<h1>Title</h1><script>x()</script><p>body</p>", ContentType::Html);
    assert!(md.contains("# Title"), "got: {md}");
    assert!(md.contains("body"));
    assert!(!md.contains("x()"));
    assert_eq!(markdown_or_html("<p>", None), "<p>");
    assert_eq!(convert_content("{\"a\":{\"b\":1}}", ContentType::Json), "a.b = 1");
    assert_eq!(convert_content("as is", ContentType::Text), "as is");
}

#[test]
fn plans_describe_what_is_stored() {
    let opts = IndexOpts {
        hint: None,
        content_type: Some(ContentType::Text),
        source: Some("https://example.com".to_owned()),
    };
    let plan = prepare_index("one\ntwo\n", &opts).unwrap();
    assert_eq!((plan.line_count, plan.byte_count, plan.keeps_raw), (2, 8, false));
    assert!(plan.payload.to_text().contains("https://example.com"));
    assert_eq!(index_call(&plan, "i_aabbcc").tool, "ctxl-index");
    let found = Some(vec!["1:one".to_owned()]);
    let result = index_result(&plan, "i_aabbcc".to_owned(), Some("one".to_owned()), found);
    let out = format_output(&result);
    assert!(out.starts_with("[ctxl] Indexed (2 lines, 8 bytes) → i_aabbcc"), "got: {out}");
    assert!(out.contains("1:one"));
}

#[test]
fn input_has_a_limit() {
    let long = "x".repeat(MAX_INPUT_BYTES + 1);
    let e = prepare_index(&long, &IndexOpts::default()).unwrap_err();
    assert!(e.message().starts_with("index: "), "got: {}", e.message());
}

// ---------------------------------------------------------------------------
// Liveness
// ---------------------------------------------------------------------------

fn probe(days: u64, intercepts: Option<i64>) -> SessionProbe {
    SessionProbe { age_secs: Some(days * 86_400), intercepts }
}

#[test]
fn quiet_sessions_are_warned_about() {
    let quiet: Vec<SessionProbe> = (0..5).map(|d| probe(d, Some(0))).collect();
    let l = liveness(&quiet);
    assert_eq!((l.recent_quiet_sessions, l.scanned_sessions), (5, 5));
    assert!(l.warning.unwrap().contains("none found in 5 recent sessions"));
    assert!(liveness(&quiet[..4]).warning.is_none());
}

#[test]
fn a_scan_ends_at_the_first_handle() {
    let probes = vec![probe(0, Some(0)), probe(1, None), probe(3, Some(2)), probe(9, Some(1))];
    assert!(is_settled(&probes));
    assert!(!is_settled(&probes[..2]));
    let l = liveness(&probes);
    assert_eq!(l.last_interception_days_ago, Some(3));
    assert_eq!(l.recent_quiet_sessions, 1);
    assert!(l.warning.is_none());
}

#[test]
fn recent_sessions_come_first() {
    let names: Vec<String> =
        ["old", "test-x", "new", "current"].iter().map(|s| s.to_string()).collect();
    assert_eq!(select_sessions(&names, &[1, 9, 5, 7], Some("current")), vec![2, 0]);
    let many: Vec<String> = (0..40).map(|i| format!("s{i}")).collect();
    let times: Vec<i128> = (0..40).collect();
    let picked = select_sessions(&many, &times, None);
    assert_eq!(picked.len(), 30);
    assert_eq!(picked[0], 39);
}

// ---------------------------------------------------------------------------
// The report
// ---------------------------------------------------------------------------

fn facts(session_id: Option<&str>, opened: bool) -> DoctorFacts {
    DoctorFacts {
        binary_path: Some("/bin/ctxl".to_owned()),
        version: "0.1.0".to_owned(),
        session_id: session_id.map(String::from),
        enabled: None,
        record: Some("0".to_owned()),
        bash_threshold: Some("99".to_owned()),
        bash_line_threshold: None,
        grep_threshold: Some("many".to_owned()),
        disabled_file: None,
        jq_available: true,
        cache_root: "/cache".to_owned(),
        store: StoreFacts {
            exists: true,
            opened,
            schema_version: Some(7),
            handle_count: Some(3),
            calls_count: Some(4),
            intercepted_count: Some(1),
            retrieved_count: Some(2),
            retrieval_total: None,
        },
        liveness: liveness(&[]),
    }
}

#[test]
fn the_report_tells_what_is_known() {
    let r = collect(facts(Some("s-1"), true));
    assert_eq!(r.db_path, Some("/cache/ctxl/s-1/store.db".to_owned()));
    assert_eq!((r.schema_version, r.handle_count), (Some(7), Some(3)));
    assert!(r.hook_enabled && r.norecord);
    assert_eq!((r.thresholds.bash_bytes, r.thresholds.bash_lines), (99, 200));
    assert_eq!(r.thresholds.grep_lines, 200);
    let out = format_human(&r);
    assert!(out.contains("handles:         3\n"), "got: {out}");
    assert!(out.contains("  bash_bytes:    99\n"));
}

#[test]
fn nothing_is_known_of_a_store_that_cannot_be_read() {
    let r = collect(facts(Some("s-1"), false));
    assert!(r.db_exists);
    assert_eq!((r.schema_version, r.handle_count), (None, None));
    let r = collect(facts(None, true));
    assert!(!r.db_exists);
    assert_eq!((r.db_path, r.calls_count), (None, None));
}

#[test]
fn paths_of_a_session() {
    assert_eq!(session_store_path("/c", "s"), "/c/ctxl/s/store.db");
    assert_eq!(disabled_file_path("/p", ".conf"), "/p/.conf/ctxl.disabled");
}

// ---------------------------------------------------------------------------
// HTML
// ---------------------------------------------------------------------------

#[test]
fn html_beyond_the_converter_stays() {
    let deep = "<div>".repeat(5000);
    let commented = "<div><!-- </div> -->".repeat(1000);
    let quoted = "<div title='</div>'>".repeat(1000);
    let frames = "<frameset><script>".repeat(1500);
    for html in [
        "<p>1². item</p>",
        "<p>1&sup2;. item</p>",
        "<p>1&#178;. item</p>",
        "<p>1&#XB2;. item</p>",
        "1&#x2e² x",
        "1&#X002E² x",
        "1&#46½ x",
        "1&period;½ x",
        "1&frac12. x",
        "1.</x>² y",
        "1<!-- -->². x",
        "\u{feff}1². x",
        " \n1². x",
        "&Tab;1². x",
        "1\0². x",
        "<script>1². x</script>",
        "<textarea>\n1². x</textarea>",
        "<table>1.<td>abc</td>² x</table>",
        "1²<table><td>abc</td>. x</table>",
        "<table>1<colgroup> ². x</table>",
        "<ol start=\"18446744073709551615\"><li>a</li><li>b</li></ol>",
        "<OL START = 18446744073709551615><li>a</li><li>b</li></OL>",
        deep.as_str(),
        commented.as_str(),
        quoted.as_str(),
        frames.as_str(),
    ] {
        assert!(!is_convertible(html));
        assert_eq!(html_to_markdown(html), html);
        let opts = IndexOpts { hint: None, content_type: Some(ContentType::Html), source: None };
        assert_eq!(prepare_index(html, &opts).unwrap().byte_count, html.len());
    }
}

#[test]
fn ordinary_html_is_converted() {
    assert_eq!(html_to_markdown("<p>5 m² &amp; more&#8217;s</p>"), "5 m² & more\u{2019}s");
    assert_eq!(html_to_markdown("<ol start=\"3\"><li>a</li><li>b</li></ol>"), "3.  a\n4.  b");
    assert_eq!(html_to_markdown("<!-- x --><script>if (a<b) x('</p>');</script><p>y</p>"), "y");
    assert_eq!(html_to_markdown("<p>&frac12; cup</p>"), "½ cup");
    assert_eq!(html_to_markdown("<li>2½ cups, 1.5 m², &#189; l</li>"), "*   2½ cups, 1.5 m², ½ l");
    assert_eq!(html_to_markdown("<p>a ². b</p>"), "a ². b");
    assert!(is_convertible("<table><tr><td>1</td><td>½ cup</td></tr>\n<tr><td>x</td></tr></table>"));
    assert!(is_convertible("<p>a<math><mi>x</mi><mo>&#8722;</mo><mn>2</mn></math></p>"));
    assert!(is_convertible("<svg><title>Icon</title><path d=\"M0\"/></svg>"));
    let icons = format!("<svg viewBox=\"0 0 1 1\">{}</svg><p>z</p>", "<path d=\"M0\"/>".repeat(500));
    assert_eq!(html_to_markdown(&icons), "z");
    let paragraphs = format!("<div>{}</div>", "<p>a<br>".repeat(500));
    assert!(is_convertible(&paragraphs) && html_to_markdown(&paragraphs) != paragraphs);
    let items = format!("<ul>{}</ul>", "<li>a".repeat(500));
    assert!(is_convertible(&items) && html_to_markdown(&items) != items);
}

#[test]
fn nesting_has_a_limit() {
    let nested = |n: usize| format!("{}x{}", "<div>".repeat(n), "</div>".repeat(n));
    assert_eq!(html_to_markdown(&nested(200)), "x");
    assert!(!is_convertible(&nested(201)));
    let tables = format!("{}x", "<table><td>".repeat(100));
    assert!(is_convertible(&tables));
    assert!(html_to_markdown(&tables).contains('x'));
    let marks = format!("{}x", "<p><b><div>".repeat(66));
    assert!(is_convertible(&marks));
    assert!(html_to_markdown(&marks).contains('x'));
}

#[test]
fn random_html_does_no_harm() {
    let tokens = [
        "1", "2", ".", ".", " ", " ", "²", "½", "x", "\n", "\0", "\u{feff}", "&#46;", "&#x2e", "&#49",
        "&frac12;", "&sup2", "&#189;", "&Tab;", "&amp;", "&#32;", "&#13;", "<p>", "</p>", "<b>", "</b>",
        "<a>", "</a>", "<div>", "</div>", "<table>", "</table>", "<tr>", "<td>", "</td>", "<caption>",
        "<col>", "<colgroup>", "<select>", "</select>", "<option>", "<!-- -->", "<!x>", "<br>", "</br>",
        "<script>", "</script>", "<style>", "</style>", "<textarea>", "</textarea>", "<listing>",
        "<svg>", "</svg>", "<title>", "</title>", "<path/>", "<math>", "<mi>", "</mi>", "</math>",
        "<form>", "</form>", "<body>", "</body>", "<html>", "<head>", "</head>", "<template>",
        "</template>", "<li>", "<ol start=3>", "</ol>", "<x>", "</x>", "<x a='>'>", "<nobr>", "<input>",
        "<h1>", "</h1>", "<frameset>", "<pre>", "</pre>", "<button>", "<object>", "</object>",
    ];
    let mut state: u64 = 88172645463325252;
    let mut taken = 0;
    for _ in 0..10_000 {
        let mut html = String::new();
        state ^= state << 13;
        state ^= state >> 7;
        state ^= state << 17;
        for _ in 0..(4 + state % 9) {
            state ^= state << 13;
            state ^= state >> 7;
            state ^= state << 17;
            // Every other token is one of text.
            let range = if state % 2 == 0 { 12 } else { tokens.len() as u64 };
            html.push_str(tokens[(state / 2 % range) as usize]);
        }
        if is_convertible(&html) {
            taken += 1;
            html_to_markdown(&html);
        }
    }
    assert!(taken > 5_000, "{taken}");
}
