//! What a search on the command line asks for, and what it answers.

use crate::cli::session;
use crate::global_db::GlobalSearchResult;
use crate::index::ContentType;
use crate::number;
use crate::search;
use crate::text;
use vstd::prelude::*;
use vstd::string::*;

verus! {

// ---------------------------------------------------------------------------
// Arguments
// ---------------------------------------------------------------------------

/// The arguments of a search.
#[derive(Debug)]
pub struct SearchArgs {
    /// The handle, given by name.
    pub handle_flag: Option<String>,
    /// The first positional argument: the handle, or the query where there is no
    /// handle to give.
    pub handle: Option<String>,
    /// The query, given by name.
    pub query_flag: Option<String>,
    /// The second positional argument.
    pub query_pos: Option<String>,
    /// Search all handles of the session.
    pub all: bool,
}

/// What is wrong with the arguments of a search.
#[derive(Debug, Clone, Copy, PartialEq, Eq, Structural)]
pub enum SearchArgError {
    NoGlobalQuery,
    NoQueryForAll,
    NoHandle,
    NoQuery,
    /// Handle and query appear to be swapped.
    Reversed,
}

/// The message of an error in the arguments.
pub open spec fn arg_message(e: SearchArgError) -> Seq<char> {
    match e {
        SearchArgError::NoGlobalQuery => "error: query required with --global"@,
        SearchArgError::NoQueryForAll => "error: query required with --all"@,
        SearchArgError::NoHandle =>
            "error: handle required (or use --all for cross-handle search)"@,
        SearchArgError::NoQuery => "error: query required"@,
        SearchArgError::Reversed =>
            "error: arguments appear reversed — expected: ctxl search <handle> <query>\nhint: use --handle and --query flags for order-independent invocation"@,
    }
}

impl SearchArgError {
    /// The message of the error.
    pub fn message(self) -> (s: &'static str)
        ensures
            s@ == arg_message(self),
    {
        match self {
            SearchArgError::NoGlobalQuery => "error: query required with --global",
            SearchArgError::NoQueryForAll => "error: query required with --all",
            SearchArgError::NoHandle =>
                "error: handle required (or use --all for cross-handle search)",
            SearchArgError::NoQuery => "error: query required",
            SearchArgError::Reversed =>
                "error: arguments appear reversed — expected: ctxl search <handle> <query>\nhint: use --handle and --query flags for order-independent invocation",
        }
    }
}

/// What is searched.
#[derive(Debug)]
pub enum SearchRequest {
    /// All handles of the session.
    All { query: String },
    /// One handle.
    Handle { handle: String, query: String },
}

/// The first of two that is given.
pub open spec fn either(a: Option<String>, b: Option<String>) -> Option<String> {
    match a {
        Some(s) => Some(s),
        None => b,
    }
}

fn or_else(a: Option<String>, b: Option<String>) -> (r: Option<String>)
    ensures
        r == either(a, b),
{
    match a {
        Some(s) => Some(s),
        None => b,
    }
}

/// The query of a search of the global cache.
pub fn global_query(args: SearchArgs) -> (r: Result<String, SearchArgError>)
    ensures
        match r {
            Ok(q) => either(either(args.query_flag, args.handle), args.query_pos) == Some(q),
            Err(e) => args.query_flag is None && args.handle is None && args.query_pos is None && e
                == SearchArgError::NoGlobalQuery,
        },
{
    match or_else(or_else(args.query_flag, args.handle), args.query_pos) {
        Some(q) => Ok(q),
        None => Err(SearchArgError::NoGlobalQuery),
    }
}

/// What a search in a session asks for.
pub open spec fn requested(args: SearchArgs) -> Result<SearchRequest, SearchArgError> {
    if args.all {
        match either(args.query_flag, args.handle) {
            Some(query) => Ok(SearchRequest::All { query }),
            None => Err(SearchArgError::NoQueryForAll),
        }
    } else {
        match (either(args.handle_flag, args.handle), either(args.query_flag, args.query_pos)) {
            (None, _) => Err(SearchArgError::NoHandle),
            (Some(_), None) => Err(SearchArgError::NoQuery),
            (Some(handle), Some(query)) => if !session::is_handle(handle@) && session::is_handle(
                query@,
            ) {
                Err(SearchArgError::Reversed)
            } else {
                Ok(SearchRequest::Handle { handle, query })
            },
        }
    }
}

/// What a search in a session asks for: named arguments win over positional
/// ones, and a handle in the place of the query is an error.
pub fn session_request(args: SearchArgs) -> (r: Result<SearchRequest, SearchArgError>)
    ensures
        r == requested(args),
{
    if args.all {
        match or_else(args.query_flag, args.handle) {
            Some(query) => Ok(SearchRequest::All { query }),
            None => Err(SearchArgError::NoQueryForAll),
        }
    } else {
        let handle = match or_else(args.handle_flag, args.handle) {
            Some(h) => h,
            None => {
                return Err(SearchArgError::NoHandle);
            },
        };
        let query = match or_else(args.query_flag, args.query_pos) {
            Some(q) => q,
            None => {
                return Err(SearchArgError::NoQuery);
            },
        };
        if !session::looks_like_handle(handle.as_str()) && session::looks_like_handle(
            query.as_str(),
        ) {
            return Err(SearchArgError::Reversed);
        }
        Ok(SearchRequest::Handle { handle, query })
    }
}

/// The content type of a name.
pub open spec fn type_named(s: Seq<char>) -> Option<ContentType> {
    if s == "html"@ {
        Some(ContentType::Html)
    } else if s == "json"@ {
        Some(ContentType::Json)
    } else if s == "text"@ {
        Some(ContentType::Text)
    } else {
        None
    }
}

/// The content type of a name, where there is one.
pub fn parse_content_type(s: &str) -> (r: Option<ContentType>)
    ensures
        r == type_named(s@),
{
    if text::same_text(s, "html") {
        Some(ContentType::Html)
    } else if text::same_text(s, "json") {
        Some(ContentType::Json)
    } else if text::same_text(s, "text") {
        Some(ContentType::Text)
    } else {
        None
    }
}

// ---------------------------------------------------------------------------
// Answers
// ---------------------------------------------------------------------------

/// The note on a search in all handles that found nothing.
pub fn none_in_session(query: &str) -> (s: String)
    ensures
        s@ == "no results for \""@ + query@ + "\" across session handles"@,
{
    let mut s = "no results for \"".to_owned();
    s.append(query);
    s.append("\" across session handles");
    s
}

/// The note on a search of the global cache that found nothing.
pub fn none_in_global(query: &str) -> (s: String)
    ensures
        s@ == "no global results for \""@ + query@ + "\""@,
{
    let mut s = "no global results for \"".to_owned();
    s.append(query);
    s.append("\"");
    s
}

/// The note on a search in a handle that found nothing.
pub open spec fn none_in_handle_text(query: Seq<char>, handle: Seq<char>) -> Seq<char> {
    let note = "no results for \""@ + query + "\" in "@ + handle;
    if query.contains('-') {
        note
            + " (FTS5 treats - as a token boundary; try the exact compound token instead)"@
    } else {
        note
    }
}

/// The note on a search in a handle that found nothing.
pub fn none_in_handle(query: &str, handle: &str) -> (s: String)
    ensures
        s@ == none_in_handle_text(query@, handle@),
{
    let chars = text::chars_of(query);
    let mut s = "no results for \"".to_owned();
    s.append(query);
    s.append("\" in ");
    s.append(handle);
    if search::has_char(chars.as_slice(), '-') {
        s.append(" (FTS5 treats - as a token boundary; try the exact compound token instead)");
    }
    s
}

/// The note on a view by file that shows nothing.
pub open spec fn no_match_text(flag: Seq<char>, value: Seq<char>, handle: Seq<char>) -> Seq<char> {
    "[ctxl] No matches for --"@ + flag + " \""@ + value + "\". Run: ctxl files "@ + handle
}

fn write_no_match(flag: &str, value: &str, handle: &str) -> (s: String)
    ensures
        s@ == no_match_text(flag@, value@, handle@),
{
    let mut s = "[ctxl] No matches for --".to_owned();
    s.append(flag);
    s.append(" \"");
    s.append(value);
    s.append("\". Run: ctxl files ");
    s.append(handle);
    s
}

/// The note on a view that shows nothing, where it was one by file or by
/// pattern.
pub fn empty_view_note(shown: &str, file: Option<&str>, glob: Option<&str>, handle: &str) -> (r:
    Option<String>)
    ensures
        match r {
            Some(s) => shown@.len() == 0 && match (file, glob) {
                (Some(f), _) => s@ == no_match_text("file"@, f@, handle@),
                (None, Some(g)) => s@ == no_match_text("glob"@, g@, handle@),
                (None, None) => false,
            },
            None => shown@.len() > 0 || (file is None && glob is None),
        },
{
    if shown.unicode_len() > 0 {
        return None;
    }
    match file {
        Some(f) => Some(write_no_match("file", f, handle)),
        None => match glob {
            Some(g) => Some(write_no_match("glob", g, handle)),
            None => None,
        },
    }
}

/// The line of a result of a search of the global cache.
pub open spec fn global_line(r: GlobalSearchResult) -> Seq<char> {
    "[blob_id="@ + number::signed_decimal(r.blob_id as int) + " tool="@ + r.tool@ + " repo="@
        + r.repo_root@ + " at="@ + r.created_at@ + "] "@ + r.snippet@
}

/// The line of a result of a search of the global cache.
pub fn format_global_result(r: &GlobalSearchResult) -> (s: String)
    ensures
        s@ == global_line(*r),
{
    let mut s = "[blob_id=".to_owned();
    number::push_signed(&mut s, r.blob_id);
    s.append(" tool=");
    s.append(r.tool.as_str());
    s.append(" repo=");
    s.append(r.repo_root.as_str());
    s.append(" at=");
    s.append(r.created_at.as_str());
    s.append("] ");
    s.append(r.snippet.as_str());
    s
}

/// The note on what a cleaning of the global cache freed.
pub fn cleaned_note(count: usize, bytes: usize) -> (s: String)
    ensures
        s@ == "Cleaned "@ + number::decimal(count as nat) + " blobs ("@ + number::decimal(
            bytes as nat,
        ) + " bytes freed)"@,
{
    let mut s = "Cleaned ".to_owned();
    number::push_count(&mut s, count);
    s.append(" blobs (");
    number::push_count(&mut s, bytes);
    s.append(" bytes freed)");
    s
}

} // verus!
