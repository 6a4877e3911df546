//! Rows of the `calls` table.

use vstd::prelude::*;

verus! {

/// A call that was intercepted, as the `calls` table records it but for the
/// time.
#[derive(Debug)]
pub struct InterceptCallMeta<'a> {
    pub tool: &'a str,
    pub handle_id: &'a str,
    pub line_count: i64,
    pub token_est: Option<i64>,
    pub tool_input: Option<&'a str>,
    pub cwd: Option<&'a str>,
    pub tool_use_id: Option<&'a str>,
    pub exit_code: Option<i64>,
}

} // verus!
