//! Removal of terminal escape sequences.

use vstd::prelude::*;
use vstd::utf8::*;

verus! {

/// The bytes that `strip_ansi_escapes::strip` leaves of a text.
pub uninterp spec fn stripped(s: Seq<char>) -> Seq<u8>;

/// Calls `strip_ansi_escapes::strip`. Trusted: the bytes are a function of the
/// text, and are UTF-8, as the text is.
#[verifier::external_body]
fn strip_escapes(s: &str) -> (out: Vec<u8>)
    ensures
        out@ == stripped(s@),
        valid_utf8(out@),
{
    strip_ansi_escapes::strip(s)
}

/// Strip ANSI/VT escape sequences from `s`.
///
/// The stripped byte length is what callers use for threshold decisions: ANSI
/// codes do not count toward content size.
pub fn strip(s: &str) -> (out: Vec<u8>)
    ensures
        out@ == stripped(s@),
        valid_utf8(out@),
{
    strip_escapes(s)
}

} // verus!
