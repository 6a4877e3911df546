//! Numbers as they are printed in reports.

use crate::number;
use crate::pieces;
use crate::text;
use vstd::prelude::*;
use vstd::slice::*;
use vstd::string::*;

verus! {

/// Digits with a comma between groups of three, counted from the right.
pub open spec fn grouped(digits: Seq<char>) -> Seq<char>
    decreases digits.len(),
{
    if digits.len() <= 3 {
        digits
    } else {
        grouped(digits.take(digits.len() - 3)) + ","@ + digits.skip(digits.len() - 3)
    }
}

fn push_grouped(out: &mut String, digits: &[char])
    ensures
        final(out)@ == old(out)@ + grouped(digits@),
    decreases digits@.len(),
{
    let ghost start = out@;
    let n = digits.len();
    if n <= 3 {
        text::push_chars(out, digits);
    } else {
        let head = slice_subrange(digits, 0, n - 3);
        let tail = slice_subrange(digits, n - 3, n);
        assert(head@ =~= digits@.take(n - 3));
        assert(tail@ =~= digits@.skip(n - 3));
        push_grouped(out, head);
        out.append(",");
        text::push_chars(out, tail);
        assert(out@ =~= start + grouped(digits@));
    }
}

/// `n` in decimal, with a comma between groups of three digits.
pub fn separate_thousands(n: u64) -> (s: String)
    ensures
        s@ == grouped(number::decimal(n as nat)),
{
    let digits = number::decimal_string(n as u128);
    let chars = text::chars_of(digits.as_str());
    let mut s = String::new();
    push_grouped(&mut s, chars.as_slice());
    assert(s@ =~= grouped(number::decimal(n as nat)));
    s
}

/// A number of tokens as it is printed.
#[derive(Debug)]
pub enum TokenFigure {
    /// The text.
    Text(String),
    /// A number of a million or more, which is printed in millions.
    Millions { negative: bool, amount: u64 },
}

/// The sign of a number.
pub open spec fn sign(n: int) -> Seq<char> {
    if n < 0 {
        "-"@
    } else {
        ""@
    }
}

/// The magnitude of a number.
pub open spec fn magnitude(n: int) -> nat {
    if n < 0 {
        (-n) as nat
    } else {
        n as nat
    }
}

/// How a number of tokens is printed: in millions from a million on, in
/// thousands from ten thousand on, else in full.
pub fn token_figure(n: i64) -> (f: TokenFigure)
    ensures
        match f {
            TokenFigure::Text(s) => magnitude(n as int) < 1000000 && s@ == sign(n as int) + (
            if magnitude(n as int) >= 10000 {
                number::decimal(magnitude(n as int) / 1000) + "K"@
            } else {
                grouped(number::decimal(magnitude(n as int)))
            }),
            TokenFigure::Millions { negative, amount } => amount == magnitude(n as int) && amount
                >= 1000000 && negative == (n < 0),
        },
{
    let negative = n < 0;
    let amount: u64 = if negative {
        (-(n as i128)) as u64
    } else {
        n as u64
    };
    if amount >= 1000000 {
        return TokenFigure::Millions { negative, amount };
    }
    let mut s = if negative {
        "-".to_owned()
    } else {
        "".to_owned()
    };
    if amount >= 10000 {
        number::push_decimal(&mut s, (amount / 1000) as u128);
        s.append("K");
        assert(s@ =~= sign(n as int) + (number::decimal(magnitude(n as int) / 1000) + "K"@));
    } else {
        let digits = separate_thousands(amount);
        s.append(digits.as_str());
    }
    TokenFigure::Text(s)
}

proof fn lemma_without_chars_concat(a: Seq<char>, b: Seq<char>, c: char)
    ensures
        pieces::without_chars(a + b, c, c) == pieces::without_chars(a, c, c)
            + pieces::without_chars(b, c, c),
    decreases b.len(),
{
    if b.len() == 0 {
        assert(a + b =~= a);
        assert(pieces::without_chars(b, c, c) =~= seq![]);
    } else {
        assert((a + b).drop_last() =~= a + b.drop_last());
        lemma_without_chars_concat(a, b.drop_last(), c);
    }
}

proof fn lemma_without_chars_same(s: Seq<char>, c: char)
    requires
        !s.contains(c),
    ensures
        pieces::without_chars(s, c, c) == s,
    decreases s.len(),
{
    if s.len() > 0 {
        assert(s.contains(s.last()));
        assert forall|i: int| 0 <= i < s.drop_last().len() implies s.drop_last()[i] != c by {
            assert(s.contains(s[i]));
        }
        lemma_without_chars_same(s.drop_last(), c);
    }
}

proof fn lemma_grouped_without_commas(digits: Seq<char>)
    requires
        !digits.contains(','),
    ensures
        pieces::without_chars(grouped(digits), ',', ',') == digits,
    decreases digits.len(),
{
    if digits.len() <= 3 {
        lemma_without_chars_same(digits, ',');
    } else {
        let head = digits.take(digits.len() - 3);
        let tail = digits.skip(digits.len() - 3);
        assert forall|i: int| 0 <= i < head.len() implies head[i] != ',' by {
            assert(digits.contains(digits[i]));
        }
        assert forall|i: int| 0 <= i < tail.len() implies tail[i] != ',' by {
            assert(digits.contains(digits[digits.len() - 3 + i]));
        }
        lemma_grouped_without_commas(head);
        lemma_without_chars_same(tail, ',');
        reveal_strlit(",");
        lemma_without_chars_concat(grouped(head) + ","@, tail, ',');
        lemma_without_chars_concat(grouped(head), ","@, ',');
        assert(","@.drop_last() =~= seq![]);
        assert(pieces::without_chars(","@, ',', ',') =~= seq![]) by {
            reveal_with_fuel(pieces::without_chars, 2);
        }
        assert(digits =~= head + tail);
    }
}

/// Without its commas a separated number is the number in decimal.
pub proof fn lemma_separated(n: nat)
    ensures
        pieces::without_chars(grouped(number::decimal(n)), ',', ',') == number::decimal(n),
{
    number::lemma_decimal_digits(n);
    lemma_grouped_without_commas(number::decimal(n));
}

} // verus!
