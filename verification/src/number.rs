//! Numbers written out as text, and read back.

use crate::text;
use vstd::prelude::*;
use vstd::slice::*;

verus! {

// ---------------------------------------------------------------------------
// Decimal
// ---------------------------------------------------------------------------

/// The decimal digit of value `d`.
pub open spec fn digit(d: nat) -> char {
    ('0' as nat + d) as char
}

/// `n` in decimal, without leading zeros.
pub open spec fn decimal(n: nat) -> Seq<char>
    decreases n,
{
    if n < 10 {
        seq![digit(n)]
    } else {
        decimal(n / 10).push(digit(n % 10))
    }
}

/// A number in decimal holds nothing else than digits.
pub proof fn lemma_decimal_digits(n: nat)
    ensures
        forall|i: int|
            0 <= i < decimal(n).len() ==> '0' <= #[trigger] decimal(n)[i] && decimal(n)[i] <= '9',
    decreases n,
{
    if n >= 10 {
        lemma_decimal_digits(n / 10);
        let head = decimal(n / 10);
        assert forall|i: int| 0 <= i < decimal(n).len() implies '0' <= #[trigger] decimal(n)[i]
            && decimal(n)[i] <= '9' by {
            if i < head.len() {
                assert(decimal(n)[i] == head[i]);
            }
        }
    }
}

/// `i` in decimal, with a leading `-` where it is negative.
pub open spec fn signed_decimal(i: int) -> Seq<char> {
    if i < 0 {
        seq!['-'] + decimal((-i) as nat)
    } else {
        decimal(i as nat)
    }
}

/// Append `n` in decimal.
pub fn push_decimal(out: &mut String, n: u128)
    ensures
        final(out)@ == old(out)@ + decimal(n as nat),
    decreases n,
{
    let ghost start = out@;
    if n >= 10 {
        push_decimal(out, n / 10);
    }
    let d = (n % 10) as u8;
    out.push((48u8 + d) as char);
    assert(out@ =~= start + decimal(n as nat));
}

/// Append `n` in decimal.
pub fn push_count(out: &mut String, n: usize)
    ensures
        final(out)@ == old(out)@ + decimal(n as nat),
{
    push_decimal(out, n as u128);
}

/// Append `i` in decimal.
pub fn push_signed(out: &mut String, i: i64)
    ensures
        final(out)@ == old(out)@ + signed_decimal(i as int),
{
    let ghost start = out@;
    if i < 0 {
        out.push('-');
        push_decimal(out, (-(i as i128)) as u128);
        assert(out@ =~= start + signed_decimal(i as int));
    } else {
        push_decimal(out, i as u128);
    }
}

/// `n` in decimal.
pub fn decimal_string(n: u128) -> (s: String)
    ensures
        s@ == decimal(n as nat),
{
    let mut s = String::new();
    push_decimal(&mut s, n);
    assert(s@ =~= decimal(n as nat));
    s
}

/// `i` in decimal.
pub fn signed_string(i: i64) -> (s: String)
    ensures
        s@ == signed_decimal(i as int),
{
    let mut s = String::new();
    push_signed(&mut s, i);
    assert(s@ =~= signed_decimal(i as int));
    s
}

/// `n` copies of `c`.
pub open spec fn repeated(c: char, n: nat) -> Seq<char> {
    Seq::new(n, |i: int| c)
}

/// `s` set to the right in a field `width` characters wide, filled with `fill`.
pub open spec fn aligned_right(s: Seq<char>, width: nat, fill: char) -> Seq<char> {
    if s.len() >= width {
        s
    } else {
        repeated(fill, (width - s.len()) as nat) + s
    }
}

/// Append `part` set to the right in a field `width` characters wide.
pub fn push_aligned(out: &mut String, part: &str, width: usize, fill: char)
    ensures
        final(out)@ == old(out)@ + aligned_right(part@, width as nat, fill),
{
    let p = text::chars_of(part);
    let ghost start = out@;
    let n = p.len();
    let mut k: usize = 0;
    while n < width && k < width - n
        invariant
            n == p@.len(),
            k == 0 || k <= width - n,
            out@ == start + repeated(fill, k as nat),
        decreases width - k,
    {
        out.push(fill);
        k += 1;
        assert(out@ =~= start + repeated(fill, k as nat));
    }
    text::push_chars(out, p.as_slice());
    assert(out@ =~= start + aligned_right(part@, width as nat, fill));
}

/// `s` set to the left in a field `width` characters wide.
pub open spec fn aligned_left(s: Seq<char>, width: nat) -> Seq<char> {
    if s.len() >= width {
        s
    } else {
        s + repeated(' ', (width - s.len()) as nat)
    }
}

/// Append `part` set to the left in a field `width` characters wide.
pub fn push_aligned_left(out: &mut String, part: &str, width: usize)
    ensures
        final(out)@ == old(out)@ + aligned_left(part@, width as nat),
{
    let p = text::chars_of(part);
    text::push_chars(out, p.as_slice());
    let ghost start = out@;
    let n = p.len();
    let mut k: usize = 0;
    assert(out@ =~= start + repeated(' ', 0));
    while n < width && k < width - n
        invariant
            n == p@.len(),
            k == 0 || k <= width - n,
            out@ == start + repeated(' ', k as nat),
        decreases width - k,
    {
        out.push(' ');
        k += 1;
        assert(out@ =~= start + repeated(' ', k as nat));
    }
    assert(out@ =~= old(out)@ + aligned_left(part@, width as nat));
}

/// Append `n` in decimal, with zeros in front up to `width` digits.
pub fn push_zero_padded(out: &mut String, n: u64, width: usize)
    ensures
        final(out)@ == old(out)@ + aligned_right(decimal(n as nat), width as nat, '0'),
{
    let s = decimal_string(n as u128);
    push_aligned(out, s.as_str(), width, '0');
}

// ---------------------------------------------------------------------------
// Hexadecimal
// ---------------------------------------------------------------------------

/// The lower-case hexadecimal digit of value `d`.
pub open spec fn hex_digit(d: nat) -> char {
    if d < 10 {
        ('0' as nat + d) as char
    } else {
        ('a' as nat + (d - 10)) as char
    }
}

/// The lowest `width` hexadecimal digits of `n`.
pub open spec fn hex(n: nat, width: nat) -> Seq<char>
    decreases width,
{
    if width == 0 {
        seq![]
    } else {
        hex(n / 16, (width - 1) as nat).push(hex_digit(n % 16))
    }
}

/// A number written in `width` digits takes `width` characters.
pub proof fn lemma_hex_len(n: nat, width: nat)
    ensures
        hex(n, width).len() == width,
    decreases width,
{
    if width > 0 {
        lemma_hex_len(n / 16, (width - 1) as nat);
    }
}

/// Append the lowest `width` hexadecimal digits of `n`.
pub fn push_hex(out: &mut String, n: u128, width: usize)
    ensures
        final(out)@ == old(out)@ + hex(n as nat, width as nat),
    decreases width,
{
    let ghost start = out@;
    if width > 0 {
        push_hex(out, n / 16, width - 1);
        let d = (n % 16) as u8;
        if d < 10 {
            out.push((48u8 + d) as char);
        } else {
            out.push((97u8 + (d - 10)) as char);
        }
    }
    assert(out@ =~= start + hex(n as nat, width as nat));
}

// ---------------------------------------------------------------------------
// Reading
// ---------------------------------------------------------------------------

/// The ASCII digits.
pub open spec fn is_digit(c: char) -> bool {
    '0' <= c <= '9'
}

/// Whether `s` holds ASCII digits only.
pub open spec fn all_digits(s: Seq<char>) -> bool {
    forall|i: int| 0 <= i < s.len() ==> is_digit(#[trigger] s[i])
}

/// The value of a run of decimal digits.
pub open spec fn digits_value(s: Seq<char>) -> nat
    decreases s.len(),
{
    if s.len() == 0 {
        0
    } else {
        digits_value(s.drop_last()) * 10 + (s.last() as nat - '0' as nat) as nat
    }
}

/// The number that `s` writes: digits, with an optional `+` in front, of a
/// value no larger than `max`.
pub open spec fn unsigned_value(s: Seq<char>, max: nat) -> Option<nat> {
    let digits = if s.len() > 0 && s[0] == '+' {
        s.skip(1)
    } else {
        s
    };
    if digits.len() > 0 && all_digits(digits) && digits_value(digits) <= max {
        Some(digits_value(digits))
    } else {
        None
    }
}

/// Whether `s` holds ASCII digits only.
pub fn only_digits(s: &[char]) -> (r: bool)
    ensures
        r == all_digits(s@),
{
    let mut i: usize = 0;
    while i < s.len()
        invariant
            i <= s@.len(),
            forall|k: int| 0 <= k < i ==> is_digit(#[trigger] s@[k]),
        decreases s@.len() - i,
    {
        if !('0' <= s[i] && s[i] <= '9') {
            return false;
        }
        i += 1;
    }
    true
}

/// The number that `s` writes, where it is no larger than `max`.
pub fn parse_up_to(s: &[char], max: u64) -> (r: Option<u64>)
    ensures
        match r {
            Some(v) => unsigned_value(s@, max as nat) == Some(v as nat),
            None => unsigned_value(s@, max as nat) is None,
        },
{
    let from: usize = if s.len() > 0 && s[0] == '+' {
        1
    } else {
        0
    };
    let d = slice_subrange(s, from, s.len());
    assert(from == 0 ==> d@ =~= s@);
    assert(from == 1 ==> d@ =~= s@.skip(1));
    if d.len() == 0 || !only_digits(d) {
        return None;
    }
    let mut value: u128 = 0;
    let mut i: usize = 0;
    let mut over: bool = false;
    assert(d@.take(0) =~= seq![]);
    while i < d.len()
        invariant
            i <= d@.len(),
            all_digits(d@),
            over ==> digits_value(d@.take(i as int)) > max,
            !over ==> value == digits_value(d@.take(i as int)) && value <= max,
        decreases d@.len() - i,
    {
        proof {
            assert(is_digit(d@[i as int]));
            assert(d@.take(i + 1).drop_last() =~= d@.take(i as int));
        }
        if !over {
            value = value * 10 + (d[i] as u32 - '0' as u32) as u128;
            if value > max as u128 {
                over = true;
            }
        }
        i += 1;
    }
    assert(d@.take(i as int) =~= d@);
    if over {
        None
    } else {
        Some(value as u64)
    }
}

/// The number that `s` writes, where it fits a machine word.
pub fn parse_usize(s: &[char]) -> (r: Option<usize>)
    ensures
        match r {
            Some(v) => unsigned_value(s@, usize::MAX as nat) == Some(v as nat),
            None => unsigned_value(s@, usize::MAX as nat) is None,
        },
{
    match parse_up_to(s, usize::MAX as u64) {
        Some(v) => Some(v as usize),
        None => None,
    }
}

} // verus!
