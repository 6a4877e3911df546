//! Sessions and handles as they are named on the command line.

use crate::db;
use crate::json::JsonView;
use crate::settings;
use crate::store;
use crate::text;
use vstd::prelude::*;
use vstd::string::*;

verus! {

// ---------------------------------------------------------------------------
// Names
// ---------------------------------------------------------------------------

/// The characters of session IDs: ASCII letters and digits, `_` and `-`.
pub open spec fn is_session_char(c: char) -> bool {
    'a' <= c <= 'z' || 'A' <= c <= 'Z' || '0' <= c <= '9' || c == '_' || c == '-'
}

/// `s` can be the ID of a session.
pub open spec fn is_session_id(s: Seq<char>) -> bool {
    s.len() > 0 && forall|i: int| 0 <= i < s.len() ==> is_session_char(#[trigger] s[i])
}

/// Whether `sid` can be the ID of a session.
pub fn is_valid_session_id(sid: &str) -> (r: bool)
    ensures
        r == is_session_id(sid@),
{
    let chars = text::chars_of(sid);
    let mut i: usize = 0;
    while i < chars.len()
        invariant
            chars@ == sid@,
            i <= chars@.len(),
            forall|k: int| 0 <= k < i ==> is_session_char(#[trigger] chars@[k]),
        decreases chars@.len() - i,
    {
        let c = chars[i];
        if !(('a' <= c && c <= 'z') || ('A' <= c && c <= 'Z') || ('0' <= c && c <= '9') || c == '_'
            || c == '-') {
            return false;
        }
        i += 1;
    }
    chars.len() > 0
}

/// The hex digits.
pub open spec fn is_hex_char(c: char) -> bool {
    '0' <= c <= '9' || 'a' <= c <= 'f' || 'A' <= c <= 'F'
}

/// `s` has the form of a handle ID.
pub open spec fn is_handle(s: Seq<char>) -> bool {
    &&& 8 <= s.len() <= 10
    &&& s[0] == 'b' || s[0] == 'g' || s[0] == 'i'
    &&& s[1] == '_'
    &&& forall|i: int| 2 <= i < s.len() ==> is_hex_char(#[trigger] s[i])
}

/// Check whether a string looks like a handle ID.
///
/// Handles are `<prefix>_<hex>` where prefix is one of `b`, `g`, or `i` and hex
/// is 6-8 digits.
pub fn looks_like_handle(s: &str) -> (r: bool)
    ensures
        r == is_handle(s@),
{
    let chars = text::chars_of(s);
    if chars.len() < 8 || chars.len() > 10 {
        return false;
    }
    if !(chars[0] == 'b' || chars[0] == 'g' || chars[0] == 'i') || chars[1] != '_' {
        return false;
    }
    let mut i: usize = 2;
    while i < chars.len()
        invariant
            chars@ == s@,
            2 <= i <= chars@.len(),
            forall|k: int| 2 <= k < i ==> is_hex_char(#[trigger] chars@[k]),
        decreases chars@.len() - i,
    {
        let c = chars[i];
        if !(('0' <= c && c <= '9') || ('a' <= c && c <= 'f') || ('A' <= c && c <= 'F')) {
            return false;
        }
        i += 1;
    }
    true
}

/// Every ID under which a payload is stored, be it at the first attempt or at
/// the second, looks like a handle.
pub proof fn lemma_stored_ids_are_handles(payload: JsonView, hex: Seq<char>)
    requires
        store::is_hex(hex),
        hex.len() == store::FIRST_ID_LEN || hex.len() == store::RETRY_ID_LEN,
    ensures
        is_handle(store::handle_prefix(payload) + hex),
{
    reveal_strlit("b_");
    reveal_strlit("g_");
    reveal_strlit("i_");
    let id = store::handle_prefix(payload) + hex;
    assert forall|i: int| 2 <= i < id.len() implies is_hex_char(#[trigger] id[i]) by {
        assert(id[i] == hex[i - 2]);
    }
}

// ---------------------------------------------------------------------------
// Recording
// ---------------------------------------------------------------------------

/// The file whose presence turns recording off.
pub open spec fn norecord_path(tmpdir: Option<Seq<char>>, sid: Seq<char>) -> Seq<char> {
    let dir = match tmpdir {
        Some(d) => d,
        None => "/tmp"@,
    };
    db::path_joined(dir, "ctxl-norecord-"@ + sid)
}

/// The file whose presence turns recording off for a session. `tmpdir` is the
/// value of `TMPDIR`.
pub fn norecord_file(tmpdir: Option<&str>, sid: &str) -> (s: String)
    ensures
        s@ == norecord_path(settings::env_view(tmpdir), sid@),
{
    let dir = match tmpdir {
        Some(d) => d,
        None => "/tmp",
    };
    let mut name = "ctxl-norecord-".to_owned();
    name.append(sid);
    db::join_path(dir, name.as_str())
}

/// Check whether recording is disabled: by the value of `CTXL_RECORD`, or by a
/// file that is there.
pub fn check_norecord(record: Option<&str>, file_exists: bool) -> (r: bool)
    ensures
        r == (settings::env_view(record) == Some("0"@) || file_exists),
{
    settings::env_is(record, "0") || file_exists
}

/// The tokens that a retrieval of `lines` lines is taken to cost: three for a
/// line, and at least one.
pub open spec fn retrieval_cost(lines: int) -> int {
    if 3 * lines < 1 {
        1
    } else {
        3 * lines
    }
}

/// The tokens that a retrieval of `line_count` lines is taken to cost.
pub fn retrieval_tokens(line_count: i64) -> (n: i64)
    requires
        i64::MIN <= 3 * line_count <= i64::MAX,
    ensures
        n == retrieval_cost(line_count as int),
{
    let n = line_count * 3;
    if n < 1 {
        1
    } else {
        n
    }
}

} // verus!
