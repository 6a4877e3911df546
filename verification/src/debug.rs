//! Diagnostics of the program itself.

use crate::db;
use crate::settings;
use vstd::prelude::*;

verus! {

/// The path of the diagnostic log.
pub open spec fn log_path(tmpdir: Option<Seq<char>>) -> Seq<char> {
    db::path_joined(
        match tmpdir {
            Some(d) => d,
            None => "/tmp"@,
        },
        "ctxl-debug.log"@,
    )
}

/// Where a diagnostic line is written, if at all: to the log when `CTXL_DEBUG`
/// is `1`. `debug` and `tmpdir` are the values of `CTXL_DEBUG` and `TMPDIR`.
pub fn debug_log(debug: Option<&str>, tmpdir: Option<&str>) -> (r: Option<String>)
    ensures
        match r {
            Some(p) => settings::env_view(debug) == Some("1"@) && p@ == log_path(
                settings::env_view(tmpdir),
            ),
            None => settings::env_view(debug) != Some("1"@),
        },
{
    if !settings::env_is(debug, "1") {
        return None;
    }
    let dir = match tmpdir {
        Some(d) => d,
        None => "/tmp",
    };
    Some(db::join_path(dir, "ctxl-debug.log"))
}

} // verus!
