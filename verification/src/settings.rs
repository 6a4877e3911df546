//! Settings from the environment.

use crate::number;
use crate::text;
use vstd::prelude::*;

verus! {

/// What a value of the environment stands for.
pub open spec fn env_view(value: Option<&str>) -> Option<Seq<char>> {
    match value {
        Some(v) => Some(v@),
        None => None,
    }
}

/// A text that may be absent, borrowed.
pub fn opt_str(s: &Option<String>) -> (r: Option<&str>)
    ensures
        env_view(r) == text::opt_text(*s),
{
    match s {
        Some(t) => Some(t.as_str()),
        None => None,
    }
}

/// The number that a variable holds, or `default` where it is unset or holds
/// none.
pub open spec fn env_number(value: Option<Seq<char>>, default: nat) -> nat {
    match value {
        Some(v) => match number::unsigned_value(v, usize::MAX as nat) {
            Some(n) => n,
            None => default,
        },
        None => default,
    }
}

/// Parse the value of an environment variable with a fallback default.
///
/// Returns `default` if the variable is unset or fails to parse.
pub fn env_parse(value: Option<&str>, default: usize) -> (n: usize)
    ensures
        n == env_number(env_view(value), default as nat),
{
    match value {
        Some(v) => {
            let chars = text::chars_of(v);
            match number::parse_usize(chars.as_slice()) {
                Some(n) => n,
                None => default,
            }
        },
        None => default,
    }
}

/// The variable is set to exactly `text`.
pub fn env_is(value: Option<&str>, expected: &str) -> (r: bool)
    ensures
        r == (env_view(value) == Some(expected@)),
{
    match value {
        Some(v) => text::same_text(v, expected),
        None => false,
    }
}

} // verus!
