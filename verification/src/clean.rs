//! Removal of old sessions.

use crate::error::CtxlError;
use crate::number;
use crate::text;
use vstd::prelude::*;
use vstd::slice::*;

verus! {

/// The whole seconds of a duration.
pub uninterp spec fn whole_secs(d: core::time::Duration) -> nat;

/// `Duration::from_secs` gives the duration of that many seconds.
pub assume_specification[ core::time::Duration::from_secs ](secs: u64) -> (d:
    core::time::Duration)
    ensures
        whole_secs(d) == secs,
;

/// The seconds that a TTL such as `7d` or `12h` stands for.
pub open spec fn ttl_seconds(s: Seq<char>) -> Option<nat> {
    if s.len() == 0 {
        None
    } else if s.last() == 'd' {
        match number::unsigned_value(s.drop_last(), u64::MAX as nat) {
            Some(n) => Some(n * 86_400),
            None => None,
        }
    } else if s.last() == 'h' {
        match number::unsigned_value(s.drop_last(), u64::MAX as nat) {
            Some(n) => Some(n * 3_600),
            None => None,
        }
    } else {
        None
    }
}

/// The number and the unit of a TTL.
fn ttl_parts(s: &str) -> (r: Option<(u64, u64)>)
    ensures
        match r {
            Some((n, unit)) => ttl_seconds(s@) == Some((n * unit) as nat) && (unit == 86_400
                || unit == 3_600),
            None => ttl_seconds(s@) is None,
        },
{
    let chars = text::chars_of(s);
    let n = chars.len();
    if n == 0 {
        return None;
    }
    let number_part = slice_subrange(chars.as_slice(), 0, n - 1);
    assert(number_part@ =~= s@.drop_last());
    if chars[n - 1] == 'd' {
        match number::parse_up_to(number_part, u64::MAX) {
            Some(v) => Some((v, 86_400)),
            None => None,
        }
    } else if chars[n - 1] == 'h' {
        match number::parse_up_to(number_part, u64::MAX) {
            Some(v) => Some((v, 3_600)),
            None => None,
        }
    } else {
        None
    }
}

/// Whether the seconds of a TTL fit in 64 bits, or it is none at all.
pub fn ttl_in_range(s: &str) -> (r: bool)
    ensures
        r == (ttl_seconds(s@) matches Some(secs) ==> secs <= u64::MAX),
{
    match ttl_parts(s) {
        Some((n, unit)) => {
            assert(n * unit <= 0xffff_ffff_ffff_ffff * 86_400) by (nonlinear_arith)
                requires
                    0 <= n <= 0xffff_ffff_ffff_ffff,
                    0 <= unit <= 86_400,
            ;
            (n as u128) * (unit as u128) <= u64::MAX as u128
        },
        None => true,
    }
}

/// Parse a human-readable TTL string such as `"7d"` or `"12h"` into a
/// `Duration`. Supported suffixes: `d` (days), `h` (hours).
pub fn parse_ttl(s: &str) -> (r: Result<core::time::Duration, CtxlError>)
    requires
        ttl_seconds(s@) matches Some(secs) ==> secs <= u64::MAX,
    ensures
        match r {
            Ok(d) => ttl_seconds(s@) == Some(whole_secs(d)),
            Err(e) => ttl_seconds(s@) is None && (e matches CtxlError::InvalidTtl(m) && m@ == s@),
        },
{
    match ttl_parts(s) {
        Some((n, unit)) => Ok(core::time::Duration::from_secs(n * unit)),
        None => Err(CtxlError::InvalidTtl(s.to_owned())),
    }
}

/// Whether a session has outlived its time: its marker is older than the TTL. A
/// session without a marker, or with one from the future, has no age.
pub fn is_expired(age_nanos: Option<u128>, ttl_nanos: u128) -> (r: bool)
    ensures
        r == (age_nanos matches Some(age) && age > ttl_nanos),
{
    match age_nanos {
        Some(age) => age > ttl_nanos,
        None => false,
    }
}

} // verus!
