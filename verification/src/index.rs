//! Storing and indexing of arbitrary content.
//!
//! The content type (HTML / JSON / text) is detected, the content is converted
//! if needed and stored under a handle, with optional inline search results.

use crate::bytes;
use crate::calls::InterceptCallMeta;
use crate::compress;
use crate::error::CtxlError;
use crate::json;
use crate::json::{Json, JsonView};
use crate::markup;
use crate::number;
use crate::pieces;
use crate::store;
use crate::text;
use vstd::prelude::*;
use vstd::string::*;

verus! {

/// Cap on the input, in bytes.
pub const MAX_INPUT_BYTES: usize = 10 * 1024 * 1024;

/// The same cap in megabytes.
pub const MAX_INPUT_MEGABYTES: usize = 10;

/// Maximum inline hint results to display.
pub const MAX_HINT_RESULTS: usize = 5;

/// Content type as detected or overridden.
#[derive(Debug, Clone, Copy, PartialEq, Eq, Structural)]
pub enum ContentType {
    Html,
    Json,
    Text,
}

/// Options for indexing.
#[derive(Debug)]
pub struct IndexOpts {
    /// FTS5 search query to run against the just-stored content.
    pub hint: Option<String>,
    /// Override of the detection.
    pub content_type: Option<ContentType>,
    /// Provenance URL stored as metadata.
    pub source: Option<String>,
}

impl Default for IndexOpts {
    fn default() -> (o: Self)
        ensures
            o == (IndexOpts { hint: None, content_type: None, source: None }),
    {
        IndexOpts { hint: None, content_type: None, source: None }
    }
}

/// Result of indexing: handle ID and optional hint matches.
#[derive(Debug)]
pub struct IndexResult {
    pub handle_id: String,
    pub line_count: usize,
    pub byte_count: usize,
    pub hint_matches: Vec<String>,
    pub hint_query: Option<String>,
}

// ---------------------------------------------------------------------------
// Content detection
// ---------------------------------------------------------------------------

/// The content type that the first character behind white space tells.
pub open spec fn detected_type(input: Seq<char>) -> ContentType {
    let t = text::trimmed_start(input);
    if t.len() > 0 && t[0] == '<' {
        ContentType::Html
    } else if t.len() > 0 && (t[0] == '{' || t[0] == '[') {
        ContentType::Json
    } else {
        ContentType::Text
    }
}

/// Auto-detect content type from the raw input.
pub fn detect_content_type(input: &str) -> (t: ContentType)
    ensures
        t == detected_type(input@),
{
    let chars = text::chars_of(input);
    let trimmed = text::trim_start(chars.as_slice());
    if trimmed.len() > 0 && trimmed[0] == '<' {
        ContentType::Html
    } else if trimmed.len() > 0 && (trimmed[0] == '{' || trimmed[0] == '[') {
        ContentType::Json
    } else {
        ContentType::Text
    }
}

// ---------------------------------------------------------------------------
// HTML to Markdown
// ---------------------------------------------------------------------------

/// Tags to skip when converting HTML to markdown.
pub open spec fn skip_tags() -> Seq<Seq<char>> {
    seq!["script"@, "style"@, "nav"@, "footer"@, "aside"@, "header"@, "noscript"@]
}

fn list_skip_tags() -> (out: Vec<&'static str>)
    ensures
        out@.map_values(|t: &str| t@) == skip_tags(),
        out@.len() > 0,
{
    let out: Vec<&'static str> = vec![
        "script",
        "style",
        "nav",
        "footer",
        "aside",
        "header",
        "noscript",
    ];
    assert(out@.map_values(|t: &str| t@) =~= skip_tags());
    out
}

/// The markdown that htmd makes of HTML with some tags left out, where it makes
/// any.
pub uninterp spec fn markdown_of(html: Seq<char>, skipped: Seq<Seq<char>>) -> Option<Seq<char>>;

/// Calls `htmd::HtmlToMarkdown::convert` on a converter that skips the given
/// tags. Trusted: the result is a function of the text and the tags. The text has
/// to be convertible: on others the call may go deeper than the stack, cut a
/// character apart, or count beyond a list's last number. There has to be a tag to
/// skip.
#[verifier::external_body]
fn convert_html(html: &str, skipped: Vec<&'static str>) -> (r: Option<String>)
    requires
        markup::convertible(html@),
        skipped@.len() > 0,
    ensures
        match r {
            Some(md) => markdown_of(html@, skipped@.map_values(|t: &str| t@)) == Some(md@),
            None => markdown_of(html@, skipped@.map_values(|t: &str| t@)) is None,
        },
{
    htmd::HtmlToMarkdown::builder().skip_tags(skipped).build().convert(html).ok()
}

/// The markdown of an HTML text; the text itself where there is none.
pub fn markdown_or_html(html: &str, markdown: Option<String>) -> (s: String)
    ensures
        match markdown {
            Some(md) => s@ == md@,
            None => s@ == html@,
        },
{
    match markdown {
        Some(md) => md,
        None => html.to_owned(),
    }
}

// ---------------------------------------------------------------------------
// Preparing the store
// ---------------------------------------------------------------------------

/// The content that is stored for an input. HTML that the converter does not take
/// is stored as it came.
pub open spec fn stored_content(input: Seq<char>, content_type: ContentType) -> Seq<char> {
    match content_type {
        ContentType::Html => if markup::convertible(input) {
            match markdown_of(input, skip_tags()) {
                Some(md) => md,
                None => input,
            }
        } else {
            input
        },
        ContentType::Json => compress::json::compressed(input),
        ContentType::Text => input,
    }
}

/// Convert HTML to markdown, without the tags that hold no text to keep; the HTML
/// stays where it cannot be converted.
pub fn html_to_markdown(html: &str) -> (s: String)
    ensures
        s@ == stored_content(html@, ContentType::Html),
{
    if !markup::is_convertible(html) {
        return html.to_owned();
    }
    let markdown = convert_html(html, list_skip_tags());
    markdown_or_html(html, markdown)
}

/// Convert an input to what is stored for it.
pub fn convert_content(input: &str, content_type: ContentType) -> (s: String)
    ensures
        s@ == stored_content(input@, content_type),
{
    match content_type {
        ContentType::Html => html_to_markdown(input),
        ContentType::Json => compress::json::compress(input),
        ContentType::Text => input.to_owned(),
    }
}

/// The type of an input: the one asked for, or the one that is detected.
pub open spec fn type_of(input: Seq<char>, asked: Option<ContentType>) -> ContentType {
    match asked {
        Some(t) => t,
        None => detected_type(input),
    }
}

/// The payload under which content is stored.
pub open spec fn index_payload(content: Seq<char>, source: Option<Seq<char>>) -> JsonView {
    JsonView::Object(
        seq![
            ("content"@, JsonView::Text(content)),
            (
                "cwd"@,
                JsonView::Text(
                    match source {
                        Some(s) => s,
                        None => ""@,
                    },
                ),
            ),
            ("output_mode"@, JsonView::Text("stdout"@)),
            ("tool"@, JsonView::Text("ctxl-index"@)),
        ],
    )
}

/// What is to be stored for an input.
#[derive(Debug)]
pub struct IndexPlan {
    pub line_count: usize,
    pub byte_count: usize,
    pub payload: Json,
    /// The input is kept besides, as the compressed body of the handle, with
    /// the method `json_raw`.
    pub keeps_raw: bool,
}

/// The message for an input that is too long.
pub open spec fn too_long(len: nat) -> Seq<char> {
    "input exceeds "@ + number::decimal(MAX_INPUT_MEGABYTES as nat) + " MB limit ("@
        + number::decimal(len) + " bytes)"@
}

/// Decide what to store for an input: detect the type, convert, and count.
pub fn prepare_index(input: &str, opts: &IndexOpts) -> (r: Result<IndexPlan, CtxlError>)
    ensures
        match r {
            Ok(plan) => {
                let stored = stored_content(input@, type_of(input@, opts.content_type));
                &&& bytes::byte_len(input@) <= MAX_INPUT_BYTES
                &&& plan.line_count == pieces::lines_of(stored).len()
                &&& plan.byte_count == bytes::byte_len(stored)
                &&& plan.payload@ == index_payload(stored, text::opt_text(opts.source))
                &&& plan.keeps_raw == (type_of(input@, opts.content_type) == ContentType::Json)
            },
            Err(e) => bytes::byte_len(input@) > MAX_INPUT_BYTES && (e matches CtxlError::Index(m)
                && m@ == too_long(bytes::byte_len(input@))),
        },
{
    let len = bytes::str_bytes(input);
    if len > MAX_INPUT_BYTES {
        let mut m = "input exceeds ".to_owned();
        number::push_count(&mut m, MAX_INPUT_MEGABYTES);
        m.append(" MB limit (");
        number::push_count(&mut m, len);
        m.append(" bytes)");
        return Err(CtxlError::Index(m));
    }
    let content_type = match opts.content_type {
        Some(t) => t,
        None => detect_content_type(input),
    };
    let stored = convert_content(input, content_type);
    let line_count = store::count_lines(stored.as_str());
    let byte_count = bytes::str_bytes(stored.as_str());
    let cwd = match &opts.source {
        Some(s) => s.clone(),
        None => "".to_owned(),
    };
    let ghost content = stored@;
    let ghost dir = cwd@;
    let members: Vec<(String, Json)> = vec![
        ("content".to_owned(), Json::Text(stored)),
        ("cwd".to_owned(), Json::Text(cwd)),
        ("output_mode".to_owned(), Json::Text("stdout".to_owned())),
        ("tool".to_owned(), Json::Text("ctxl-index".to_owned())),
    ];
    let payload = Json::Object(members);
    proof {
        json::lemma_view(payload);
        assert(json::members_view(members@) =~= index_payload(
            content,
            text::opt_text(opts.source),
        )->Object_0);
    }
    let keeps_raw = match content_type {
        ContentType::Json => true,
        _ => false,
    };
    Ok(IndexPlan { line_count, byte_count, payload, keeps_raw })
}

/// The row of the call that stored content under a handle.
pub fn index_call<'a>(plan: &IndexPlan, handle_id: &'a str) -> (m: InterceptCallMeta<'a>)
    ensures
        m.tool@ == "ctxl-index"@,
        m.handle_id@ == handle_id@,
        m.line_count == plan.line_count as i64,
        m.token_est is None && m.tool_input is None && m.cwd is None && m.tool_use_id is None
            && m.exit_code is None,
{
    InterceptCallMeta {
        tool: "ctxl-index",
        handle_id,
        line_count: plan.line_count as i64,
        token_est: None,
        tool_input: None,
        cwd: None,
        tool_use_id: None,
        exit_code: None,
    }
}

/// The result of storing an input under a handle, with the lines that the hint
/// search gave, where it succeeded. Without a hint there are no matches.
pub fn index_result(
    plan: &IndexPlan,
    handle_id: String,
    hint: Option<String>,
    found: Option<Vec<String>>,
) -> (r: IndexResult)
    ensures
        r.handle_id == handle_id,
        r.line_count == plan.line_count,
        r.byte_count == plan.byte_count,
        r.hint_query == hint,
        match (hint, found) {
            (Some(_), Some(lines)) => r.hint_matches == lines,
            _ => r.hint_matches@.len() == 0,
        },
{
    let hint_matches: Vec<String> = match (&hint, found) {
        (Some(_), Some(lines)) => lines,
        _ => Vec::new(),
    };
    IndexResult {
        handle_id,
        line_count: plan.line_count,
        byte_count: plan.byte_count,
        hint_matches,
        hint_query: hint,
    }
}

// ---------------------------------------------------------------------------
// Output
// ---------------------------------------------------------------------------

/// Each line behind a line break.
pub open spec fn appended_lines(lines: Seq<Seq<char>>) -> Seq<char>
    decreases lines.len(),
{
    if lines.len() == 0 {
        seq![]
    } else {
        appended_lines(lines.drop_last()) + "\n"@ + lines.last()
    }
}

/// Append each line behind a line break.
pub fn append_lines(out: &mut String, lines: &[String])
    ensures
        final(out)@ == old(out)@ + appended_lines(text::texts(lines@)),
{
    let ghost start = out@;
    let ghost all = text::texts(lines@);
    let mut i: usize = 0;
    assert(all.take(0) =~= seq![]);
    assert(out@ =~= start + appended_lines(all.take(0)));
    while i < lines.len()
        invariant
            all == text::texts(lines@),
            i <= lines@.len(),
            out@ == start + appended_lines(all.take(i as int)),
        decreases lines@.len() - i,
    {
        proof {
            assert(all.take(i + 1).drop_last() =~= all.take(i as int));
            assert(all.take(i + 1).last() == lines@[i as int]@);
        }
        out.append("\n");
        out.append(lines[i].as_str());
        i += 1;
        assert(out@ =~= start + appended_lines(all.take(i as int)));
    }
    assert(all.take(i as int) =~= all);
}

/// The reference to the handle.
pub open spec fn indexed_line(handle: Seq<char>, lines: nat, bytes: nat) -> Seq<char> {
    "[ctxl] Indexed ("@ + number::decimal(lines) + " lines, "@ + number::decimal(bytes)
        + " bytes) \u{2192} "@ + handle + "\nRun: ctxl show "@ + handle
        + "  \u{00b7}  ctxl search "@ + handle + " <query>"@
}

/// The output of indexing.
pub open spec fn index_output(r: IndexResult) -> Seq<char> {
    let head = indexed_line(r.handle_id@, r.line_count as nat, r.byte_count as nat);
    match r.hint_query {
        Some(q) => if r.hint_matches@.len() > 0 {
            head + "\n\n--- Hint: \""@ + q@ + "\" ("@ + number::decimal(r.hint_matches@.len())
                + " matches) ---"@ + appended_lines(text::texts(r.hint_matches@))
        } else {
            head
        },
        None => head,
    }
}

/// Format the output of indexing: handle reference and optional hint results.
pub fn format_output(result: &IndexResult) -> (out: String)
    ensures
        out@ == index_output(*result),
{
    let handle = result.handle_id.as_str();
    let mut out = "[ctxl] Indexed (".to_owned();
    number::push_count(&mut out, result.line_count);
    out.append(" lines, ");
    number::push_count(&mut out, result.byte_count);
    out.append(" bytes) \u{2192} ");
    out.append(handle);
    out.append("\nRun: ctxl show ");
    out.append(handle);
    out.append("  \u{00b7}  ctxl search ");
    out.append(handle);
    out.append(" <query>");
    if let Some(query) = &result.hint_query {
        if result.hint_matches.len() > 0 {
            out.append("\n\n--- Hint: \"");
            out.append(query.as_str());
            out.append("\" (");
            number::push_count(&mut out, result.hint_matches.len());
            out.append(" matches) ---");
            append_lines(&mut out, result.hint_matches.as_slice());
        }
    }
    out
}

// ---------------------------------------------------------------------------
// Laws
// ---------------------------------------------------------------------------

/// What is stored for an input gives back what it was converted to.
pub proof fn lemma_stored_content(content: Seq<char>, source: Option<Seq<char>>)
    ensures
        store::content_of(index_payload(content, source)) == content,
{
}

/// Text is stored as it came.
pub proof fn lemma_text_kept(input: Seq<char>, source: Option<Seq<char>>)
    ensures
        store::content_of(index_payload(stored_content(input, ContentType::Text), source)) == input,
{
    lemma_stored_content(input, source);
}

} // verus!
