//! The cache that all sessions share.
//!
//! It keeps deduplicated tool output blobs and an index keyed by
//! (repo_root, tool, output_mode, param_hash, git_head), in
//! `~/.cache/ctxl/global.db` or `$CTXL_CACHE_ROOT/ctxl/global.db`. Every failure
//! leaves the session's own store in charge.

use crate::db;
use crate::error::joined_text;
use crate::number;
use crate::query;
use crate::settings;
use vstd::prelude::*;
use vstd::string::*;

verus! {

// ---------------------------------------------------------------------------
// Error type
// ---------------------------------------------------------------------------

/// Errors from global DB operations.
#[derive(Debug)]
pub enum GlobalDbError {
    Sqlite(String),
    Io(String),
    RegexInQuery(String),
}

/// The message of an error.
pub open spec fn global_message(e: GlobalDbError) -> Seq<char> {
    match e {
        GlobalDbError::Sqlite(m) => "global db sqlite: "@ + m@,
        GlobalDbError::Io(m) => "global db io: "@ + m@,
        GlobalDbError::RegexInQuery(m) => m@,
    }
}

impl GlobalDbError {
    /// The message of the error.
    pub fn message(&self) -> (s: String)
        ensures
            s@ == global_message(*self),
    {
        match self {
            GlobalDbError::Sqlite(m) => joined_text("global db sqlite: ", m.as_str()),
            GlobalDbError::Io(m) => joined_text("global db io: ", m.as_str()),
            GlobalDbError::RegexInQuery(m) => m.clone(),
        }
    }
}

// ---------------------------------------------------------------------------
// Paths and schema
// ---------------------------------------------------------------------------

/// The path of the global DB under a cache root.
pub open spec fn global_path(root: Seq<char>) -> Seq<char> {
    db::path_joined(db::path_joined(root, "ctxl"@), "global.db"@)
}

/// Return the path to the global DB file.
///
/// `cache_root` is the value of `CTXL_CACHE_ROOT`, which wins over the cache
/// directory of the user.
pub fn global_db_path(cache_root: Option<&str>, cache_dir: Option<&str>) -> (r: Option<String>)
    ensures
        match r {
            Some(p) => match (settings::env_view(cache_root), settings::env_view(cache_dir)) {
                (Some(root), _) => p@ == global_path(root),
                (None, Some(dir)) => p@ == global_path(dir),
                (None, None) => false,
            },
            None => cache_root is None && cache_dir is None,
        },
{
    let root = match cache_root {
        Some(r) => r,
        None => match cache_dir {
            Some(d) => d,
            None => {
                return None;
            },
        },
    };
    let base = db::join_path(root, "ctxl");
    Some(db::join_path(base.as_str(), "global.db"))
}

/// Version of the schema of the global DB.
pub const GLOBAL_SCHEMA_VERSION: i32 = 2;

/// What brings the schema of the global DB forward.
#[derive(Debug, Clone, Copy, PartialEq, Eq, Structural)]
pub enum GlobalSchemaAction {
    /// Create the blobs and the index in a fresh database.
    CreateBase,
    /// Add the table of session summaries.
    AddSummaries,
    /// Nothing is left to do.
    Done,
}

/// What a global DB at version `current` needs next.
pub open spec fn global_next(current: int) -> GlobalSchemaAction {
    if current == 0 {
        GlobalSchemaAction::CreateBase
    } else if current < GLOBAL_SCHEMA_VERSION {
        GlobalSchemaAction::AddSummaries
    } else {
        GlobalSchemaAction::Done
    }
}

/// The version that an action leaves behind.
pub open spec fn global_version_after(action: GlobalSchemaAction, current: int) -> int {
    match action {
        GlobalSchemaAction::CreateBase => 1,
        GlobalSchemaAction::AddSummaries => GLOBAL_SCHEMA_VERSION as int,
        GlobalSchemaAction::Done => current,
    }
}

/// What a global DB at version `current` needs next, and the version that it
/// then has.
pub fn global_schema_step(current: i32) -> (r: (GlobalSchemaAction, i32))
    ensures
        r.0 == global_next(current as int),
        r.1 == global_version_after(r.0, current as int),
{
    if current == 0 {
        (GlobalSchemaAction::CreateBase, 1)
    } else if current < GLOBAL_SCHEMA_VERSION {
        (GlobalSchemaAction::AddSummaries, GLOBAL_SCHEMA_VERSION)
    } else {
        (GlobalSchemaAction::Done, current)
    }
}

/// Two steps complete the schema of any global DB that is not newer, and a
/// complete one is left alone.
pub proof fn lemma_global_schema_reaches(current: int)
    ensures
        ({
            let first = global_version_after(global_next(current), current);
            let second = global_version_after(global_next(first), first);
            &&& current <= GLOBAL_SCHEMA_VERSION ==> second == GLOBAL_SCHEMA_VERSION
            &&& current >= GLOBAL_SCHEMA_VERSION ==> second == current
            &&& global_next(second) == GlobalSchemaAction::Done
        }),
{
}

// ---------------------------------------------------------------------------
// Cache entries
// ---------------------------------------------------------------------------

/// Result of a cache lookup.
#[derive(Debug)]
pub struct CacheLookup {
    /// The blob ID in the global `blobs` table.
    pub blob_id: i64,
    /// The `created_at` timestamp from the blobs row (for diagnostic output).
    pub created_at: String,
}

/// Parameters for storing a new blob in the global cache.
#[derive(Debug)]
pub struct StoreBlobParams<'a> {
    pub content_hash: &'a str,
    pub content: &'a str,
    pub compressed_body: Option<&'a str>,
    pub compressed_method: Option<&'a str>,
    pub line_count: Option<i64>,
    pub token_est: Option<i64>,
}

/// A single search result from the global FTS index.
#[derive(Debug)]
pub struct GlobalSearchResult {
    pub blob_id: i64,
    pub snippet: String,
    pub repo_root: String,
    pub tool: String,
    pub created_at: String,
}

/// The FTS5 phrase for a search of the global cache, or the error for a query
/// with regex syntax.
pub fn global_search_phrase(q: &str) -> (r: Result<String, GlobalDbError>)
    ensures
        match r {
            Ok(p) => query::regex_message(q@) is None && p@ == query::sanitized(q@),
            Err(e) => query::regex_message(q@) matches Some(m) && (e
                matches GlobalDbError::RegexInQuery(s) && s@ == "error: "@ + m),
        },
{
    match query::detect_regex_metacharacters(q) {
        Some(m) => Err(GlobalDbError::RegexInQuery(joined_text("error: ", m.as_str()))),
        None => Ok(query::sanitize_fts5_query(q)),
    }
}

// ---------------------------------------------------------------------------
// Session stats
// ---------------------------------------------------------------------------

/// Stats for a single cleaned session.
#[derive(Debug)]
pub struct SessionSummary {
    pub session_id: String,
    pub handles_count: i64,
    pub tokens_intercepted: i64,
    pub bytes_intercepted: i64,
    pub calls_count: i64,
    pub calls_intercepted: i64,
    pub retrieval_calls: i64,
    pub retrieval_tokens: i64,
    pub handles_retrieved: i64,
    pub total_retrievals: i64,
    pub cleaned_at: Option<String>,
}

/// Aggregated totals across all cleaned sessions.
#[derive(Debug)]
pub struct CumulativeStats {
    pub sessions_count: i64,
    pub handles_count: i64,
    pub tokens_intercepted: i64,
    pub bytes_intercepted: i64,
    pub calls_count: i64,
    pub calls_intercepted: i64,
    pub retrieval_calls: i64,
    pub retrieval_tokens: i64,
    pub handles_retrieved: i64,
    pub total_retrievals: i64,
    pub earliest_cleaned: Option<String>,
    pub latest_cleaned: Option<String>,
}

/// What the queries on a session's store gave, `None` for one that failed.
#[derive(Debug, Clone, Copy)]
pub struct SessionCounts {
    pub handles: Option<i64>,
    pub tokens: Option<i64>,
    pub bytes: Option<i64>,
    /// The number of tables named `calls`; older stores have none.
    pub calls_tables: Option<i64>,
    pub calls: Option<i64>,
    pub calls_intercepted: Option<i64>,
    pub retrieval_calls: Option<i64>,
    pub retrieval_tokens: Option<i64>,
    /// Older stores do not count retrievals.
    pub counts_retrievals: bool,
    pub handles_retrieved: Option<i64>,
    pub total_retrievals: Option<i64>,
}

/// A count, or zero where its query failed.
pub open spec fn or_zero(count: Option<i64>) -> i64 {
    match count {
        Some(n) => n,
        None => 0,
    }
}

fn count_or_zero(count: Option<i64>) -> (n: i64)
    ensures
        n == or_zero(count),
{
    match count {
        Some(n) => n,
        None => 0,
    }
}

/// The store has a table of calls.
pub open spec fn has_calls(c: SessionCounts) -> bool {
    or_zero(c.calls_tables) > 0
}

/// Stats of a session's store.
///
/// What an older store does not keep (calls, retrievals) counts as zero, as does
/// what could not be read.
pub fn compute_session_stats(c: SessionCounts) -> (s: SessionSummary)
    ensures
        s.session_id@ == Seq::<char>::empty(),
        s.cleaned_at is None,
        s.handles_count == or_zero(c.handles),
        s.tokens_intercepted == or_zero(c.tokens),
        s.bytes_intercepted == or_zero(c.bytes),
        has_calls(c) ==> s.calls_count == or_zero(c.calls) && s.calls_intercepted == or_zero(
            c.calls_intercepted,
        ) && s.retrieval_calls == or_zero(c.retrieval_calls) && s.retrieval_tokens == or_zero(
            c.retrieval_tokens,
        ),
        !has_calls(c) ==> s.calls_count == 0 && s.calls_intercepted == 0 && s.retrieval_calls == 0
            && s.retrieval_tokens == 0,
        c.counts_retrievals ==> s.handles_retrieved == or_zero(c.handles_retrieved)
            && s.total_retrievals == or_zero(c.total_retrievals),
        !c.counts_retrievals ==> s.handles_retrieved == 0 && s.total_retrievals == 0,
{
    let with_calls = count_or_zero(c.calls_tables) > 0;
    let (calls_count, calls_intercepted, retrieval_calls, retrieval_tokens) = if with_calls {
        (
            count_or_zero(c.calls),
            count_or_zero(c.calls_intercepted),
            count_or_zero(c.retrieval_calls),
            count_or_zero(c.retrieval_tokens),
        )
    } else {
        (0i64, 0i64, 0i64, 0i64)
    };
    let (handles_retrieved, total_retrievals) = if c.counts_retrievals {
        (count_or_zero(c.handles_retrieved), count_or_zero(c.total_retrievals))
    } else {
        (0i64, 0i64)
    };
    let session_id = String::new();
    assert(session_id@ =~= Seq::<char>::empty());
    SessionSummary {
        session_id,
        handles_count: count_or_zero(c.handles),
        tokens_intercepted: count_or_zero(c.tokens),
        bytes_intercepted: count_or_zero(c.bytes),
        calls_count,
        calls_intercepted,
        retrieval_calls,
        retrieval_tokens,
        handles_retrieved,
        total_retrievals,
        cleaned_at: None,
    }
}

// ---------------------------------------------------------------------------
// Clean
// ---------------------------------------------------------------------------

/// The argument of SQLite's `datetime` for so many days ago.
pub fn days_ago(days_threshold: u32) -> (s: String)
    ensures
        s@ == "-"@ + number::decimal(days_threshold as nat) + " days"@,
{
    let mut s = "-".to_owned();
    number::push_decimal(&mut s, days_threshold as u128);
    s.append(" days");
    s
}

/// The bytes of the blobs together.
pub open spec fn blob_bytes(blobs: Seq<(i64, usize)>) -> nat
    decreases blobs.len(),
{
    if blobs.len() == 0 {
        0
    } else {
        blob_bytes(blobs.drop_last()) + blobs.last().1 as nat
    }
}

proof fn lemma_blob_bytes_prefix(blobs: Seq<(i64, usize)>, i: int)
    requires
        0 <= i <= blobs.len(),
    ensures
        blob_bytes(blobs.take(i)) <= blob_bytes(blobs),
    decreases blobs.len(),
{
    if i == blobs.len() {
        assert(blobs.take(i) =~= blobs);
    } else {
        lemma_blob_bytes_prefix(blobs.drop_last(), i);
        assert(blobs.drop_last().take(i) =~= blobs.take(i));
    }
}

/// How many blobs are removed and how many bytes that frees, given the ID and
/// the length of each.
pub fn removal_totals(blobs: &[(i64, usize)]) -> (r: (usize, usize))
    requires
        blob_bytes(blobs@) <= usize::MAX,
    ensures
        r.0 == blobs@.len(),
        r.1 == blob_bytes(blobs@),
{
    let mut bytes: usize = 0;
    let mut i: usize = 0;
    assert(blobs@.take(0) =~= seq![]);
    while i < blobs.len()
        invariant
            i <= blobs@.len(),
            blob_bytes(blobs@) <= usize::MAX,
            bytes == blob_bytes(blobs@.take(i as int)),
        decreases blobs@.len() - i,
    {
        proof {
            assert(blobs@.take(i + 1).drop_last() =~= blobs@.take(i as int));
            lemma_blob_bytes_prefix(blobs@, i + 1);
        }
        bytes += blobs[i].1;
        i += 1;
    }
    assert(blobs@.take(i as int) =~= blobs@);
    (blobs.len(), bytes)
}

} // verus!
