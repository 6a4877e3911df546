//! What can go wrong.

use crate::db::DbError;
use crate::text;
use vstd::prelude::*;
use vstd::string::*;

verus! {

/// Typed error enum of the crate. The errors of SQLite, of JSON and of the
/// system come with their own messages.
#[derive(Debug)]
pub enum CtxlError {
    /// Wraps a [`DbError`] from the database module.
    Db(DbError),
    /// Direct SQLite error outside the `db` module.
    Sqlite(String),
    /// JSON serialization / deserialization failure.
    Json(String),
    /// I/O error (stdin, stdout, filesystem).
    Io(String),
    /// Requested handle ID was not found in the store.
    HandleNotFound(String),
    /// Both handle-ID generation attempts collided (UNIQUE constraint).
    HandleCollision,
    /// TTL string could not be parsed.
    InvalidTtl(String),
    /// Error while indexing content.
    Index(String),
    /// Session ID contains invalid characters.
    InvalidSessionId,
    /// Query contains regex metacharacters that FTS5 does not support.
    RegexInQuery(String),
    /// Search query is empty or whitespace-only.
    EmptyQuery,
}

/// `id` starts as the IDs of handles do.
pub open spec fn has_handle_prefix(id: Seq<char>) -> bool {
    "b_"@.is_prefix_of(id) || "g_"@.is_prefix_of(id) || "i_"@.is_prefix_of(id)
}

/// The hint for an ID that does not look like that of a handle.
pub open spec fn handle_hint() -> Seq<char> {
    "\n  hint: handle IDs start with b_, g_, or i_ (e.g. b_69e7a5)\n  usage: ctxl show <handle>  ·  ctxl search <handle> <query>"@
}

/// The message of an error.
pub open spec fn error_message(e: CtxlError) -> Seq<char> {
    match e {
        CtxlError::Db(inner) => crate::db::db_message(inner),
        CtxlError::Sqlite(m) => "sqlite: "@ + m@,
        CtxlError::Json(m) => "json: "@ + m@,
        CtxlError::Io(m) => "io: "@ + m@,
        CtxlError::HandleNotFound(id) => if has_handle_prefix(id@) {
            "handle not found: "@ + id@
        } else {
            "handle not found: "@ + id@ + handle_hint()
        },
        CtxlError::HandleCollision => "handle ID collision after retry"@,
        CtxlError::InvalidTtl(s) => "invalid TTL: "@ + s@,
        CtxlError::Index(m) => "index: "@ + m@,
        CtxlError::InvalidSessionId => "invalid session_id (alphanumeric, _, - only)"@,
        CtxlError::RegexInQuery(m) => m@,
        CtxlError::EmptyQuery => "error: query is empty"@,
    }
}

/// Two texts in one.
pub(crate) fn joined_text(head: &str, tail: &str) -> (s: String)
    ensures
        s@ == head@ + tail@,
{
    let mut s = head.to_owned();
    s.append(tail);
    s
}

impl CtxlError {
    /// The message of the error.
    pub fn message(&self) -> (s: String)
        ensures
            s@ == error_message(*self),
    {
        match self {
            CtxlError::Db(e) => e.message(),
            CtxlError::Sqlite(m) => joined_text("sqlite: ", m.as_str()),
            CtxlError::Json(m) => joined_text("json: ", m.as_str()),
            CtxlError::Io(m) => joined_text("io: ", m.as_str()),
            CtxlError::HandleNotFound(id) => {
                let mut s = joined_text("handle not found: ", id.as_str());
                let chars = text::chars_of(id.as_str());
                if !text::starts_with(chars.as_slice(), "b_") && !text::starts_with(
                    chars.as_slice(),
                    "g_",
                ) && !text::starts_with(chars.as_slice(), "i_") {
                    s.append(
                        "\n  hint: handle IDs start with b_, g_, or i_ (e.g. b_69e7a5)\n  usage: ctxl show <handle>  ·  ctxl search <handle> <query>",
                    );
                }
                s
            },
            CtxlError::HandleCollision => "handle ID collision after retry".to_owned(),
            CtxlError::InvalidTtl(s) => joined_text("invalid TTL: ", s.as_str()),
            CtxlError::Index(m) => joined_text("index: ", m.as_str()),
            CtxlError::InvalidSessionId => "invalid session_id (alphanumeric, _, - only)".to_owned(),
            CtxlError::RegexInQuery(m) => m.clone(),
            CtxlError::EmptyQuery => "error: query is empty".to_owned(),
        }
    }
}

} // verus!
