//! Laws of the parts of text.

use crate::number;
use crate::pieces;
use crate::search;
use crate::text;
use vstd::prelude::*;
use vstd::string::*;

verus! {

// ---------------------------------------------------------------------------
// Numbers
// ---------------------------------------------------------------------------

/// A number in decimal reads back, and has no zero in front.
pub proof fn lemma_decimal_value(n: nat)
    ensures
        number::digits_value(number::decimal(n)) == n,
        number::all_digits(number::decimal(n)),
        number::decimal(n).len() > 0,
        n > 0 ==> number::decimal(n)[0] != '0',
        n == 0 ==> number::decimal(n) == seq!['0'],
    decreases n,
{
    number::lemma_decimal_digits(n);
    let d = number::decimal(n);
    if n >= 10 {
        lemma_decimal_value(n / 10);
        assert(d.drop_last() =~= number::decimal(n / 10));
        assert(d[0] == number::decimal(n / 10)[0]);
    } else {
        assert(d.drop_last() =~= seq![]);
        reveal_with_fuel(number::digits_value, 2);
    }
}

/// Digits in a row are worth each digit times its place.
pub proof fn lemma_digits_value(s: Seq<char>, d: char)
    requires
        '0' <= d <= '9',
    ensures
        number::digits_value(s.push(d)) == number::digits_value(s) * 10 + (d as nat - '0' as nat),
        number::digits_value(seq![]) == 0,
{
    assert(s.push(d).drop_last() =~= s);
}

/// Different numbers are written differently.
pub proof fn lemma_decimal_injective(a: nat, b: nat)
    requires
        number::decimal(a) == number::decimal(b),
    ensures
        a == b,
{
    lemma_decimal_value(a);
    lemma_decimal_value(b);
}

// ---------------------------------------------------------------------------
// White space
// ---------------------------------------------------------------------------

/// Nothing but white space.
pub open spec fn is_blank(s: Seq<char>) -> bool {
    forall|i: int| 0 <= i < s.len() ==> text::is_white_space(#[trigger] s[i])
}

/// No white space at either end.
pub open spec fn is_tight(s: Seq<char>) -> bool {
    s.len() > 0 ==> !text::is_white_space(s[0]) && !text::is_white_space(s.last())
}

/// Trimming takes nothing but white space, and all of it, from both ends.
pub proof fn lemma_trimmed(lead: Seq<char>, middle: Seq<char>, trail: Seq<char>)
    requires
        is_blank(lead),
        is_blank(trail),
        is_tight(middle),
    ensures
        text::trimmed(lead + middle + trail) == middle,
    decreases lead.len(), trail.len(),
{
    let s = lead + middle + trail;
    if lead.len() > 0 {
        assert(s[0] == lead[0]);
        assert(text::is_white_space(lead[0]));
        assert(s.skip(1) =~= lead.skip(1) + middle + trail);
        assert(is_blank(lead.skip(1))) by {
            assert forall|i: int| 0 <= i < lead.skip(1).len() implies text::is_white_space(
                #[trigger] lead.skip(1)[i],
            ) by {
                assert(lead.skip(1)[i] == lead[i + 1]);
            }
        }
        lemma_trimmed(lead.skip(1), middle, trail);
    } else if middle.len() == 0 {
        assert(s =~= trail);
        lemma_blank_start(trail);
        assert(text::trimmed(s) =~= middle);
    } else {
        assert(s[0] == middle[0]);
        assert(s =~= middle + trail);
        lemma_blank_end(middle, trail);
    }
}

proof fn lemma_blank_start(s: Seq<char>)
    requires
        is_blank(s),
    ensures
        text::trimmed_start(s).len() == 0,
    decreases s.len(),
{
    if s.len() > 0 {
        assert(text::is_white_space(s[0]));
        assert(is_blank(s.skip(1))) by {
            assert forall|i: int| 0 <= i < s.skip(1).len() implies text::is_white_space(
                #[trigger] s.skip(1)[i],
            ) by {
                assert(s.skip(1)[i] == s[i + 1]);
            }
        }
        lemma_blank_start(s.skip(1));
    }
}

pub(crate) proof fn lemma_blank_end(middle: Seq<char>, trail: Seq<char>)
    requires
        is_blank(trail),
        middle.len() > 0,
        !text::is_white_space(middle.last()),
    ensures
        text::trimmed_end(middle + trail) == middle,
    decreases trail.len(),
{
    let s = middle + trail;
    if trail.len() == 0 {
        assert(s =~= middle);
    } else {
        assert(s.last() == trail[trail.len() - 1]);
        assert(s.drop_last() =~= middle + trail.drop_last());
        assert(is_blank(trail.drop_last())) by {
            assert forall|i: int| 0 <= i < trail.drop_last().len() implies text::is_white_space(
                #[trigger] trail.drop_last()[i],
            ) by {
                assert(trail.drop_last()[i] == trail[i]);
            }
        }
        lemma_blank_end(middle, trail.drop_last());
    }
}

/// Text without white space at its ends is left as it is.
pub proof fn lemma_trimmed_is(s: Seq<char>)
    requires
        is_tight(s),
    ensures
        text::trimmed(s) == s,
{
    lemma_trimmed(Seq::<char>::empty(), s, Seq::<char>::empty());
    assert(Seq::<char>::empty() + s + Seq::<char>::empty() =~= s);
}

// ---------------------------------------------------------------------------
// Positions
// ---------------------------------------------------------------------------

/// `k` is the last position of `c`.
pub proof fn lemma_last_char(s: Seq<char>, c: char, k: int)
    requires
        0 <= k < s.len(),
        s[k] == c,
        forall|j: int| k < j < s.len() ==> s[j] != c,
    ensures
        search::last_char_index(s, c) == Some(k),
{
    search::lemma_last_char_index_before(s, c, s.len() as int);
}

/// What stands behind the last of a character, and all where it is missing.
pub proof fn lemma_after_last(lead: Seq<char>, c: char, rest: Seq<char>)
    requires
        !rest.contains(c),
    ensures
        search::after_last(lead.push(c) + rest, c) == rest,
        search::after_last(rest, c) == rest,
{
    let s = lead.push(c) + rest;
    assert forall|j: int| lead.len() < j < s.len() implies s[j] != c by {
        assert(rest.contains(rest[j - lead.len() - 1]));
    }
    lemma_last_char(s, c, lead.len() as int);
    assert(s.skip(lead.len() as int + 1) =~= rest);
    search::lemma_last_char_index_before(rest, c, rest.len() as int);
    match search::last_char_index(rest, c) {
        Some(k) => {
            assert(rest.contains(rest[k]));
        },
        None => {},
    }
}

// ---------------------------------------------------------------------------
// Lines and pieces
// ---------------------------------------------------------------------------

/// The lines of lines that each end in a line break are these lines.
pub proof fn lemma_lines_read_back(parts: Seq<Seq<char>>)
    requires
        parts.len() > 0,
        forall|i: int| 0 <= i < parts.len() ==> pieces::is_plain_line(#[trigger] parts[i]),
    ensures
        pieces::lines_of(pieces::joined(parts, "\n"@) + "\n"@) == parts,
{
    pieces::lemma_lines_of_joined(parts);
}

/// The pieces between separators, put together with the separator, are the text.
pub proof fn lemma_pieces_put_together(s: Seq<char>, sep: Seq<char>)
    requires
        sep.len() > 0,
    ensures
        pieces::joined(pieces::pieces_of(s, sep), sep) == s,
        forall|i: int|
            0 <= i < pieces::pieces_of(s, sep).len() ==> !search::has_sub(
                #[trigger] pieces::pieces_of(s, sep)[i],
                sep,
            ),
        pieces::pieces_of(s, sep).len() > 0,
    decreases s.len(),
{
    search::lemma_sub_index_from(s, sep, 0);
    let all = pieces::pieces_of(s, sep);
    match search::sub_index(s, sep) {
        Some(k) => {
            let first = s.take(k);
            let rest = s.skip(k + sep.len());
            lemma_pieces_put_together(rest, sep);
            let others = pieces::pieces_of(rest, sep);
            pieces::lemma_joined_first(all, sep);
            assert(all.skip(1) =~= others);
            assert(s.subrange(k, k + sep.len()) == sep);
            assert(first + sep + rest =~= s);
            assert(!search::has_sub(first, sep)) by {
                search::lemma_sub_index_from(first, sep, 0);
                match search::sub_index(first, sep) {
                    Some(j) => {
                        assert(s.subrange(j, j + sep.len()) =~= first.subrange(j, j + sep.len()));
                        assert(search::stands_at(s, sep, j));
                    },
                    None => {},
                }
            }
            assert forall|i: int| 0 <= i < all.len() implies !search::has_sub(
                #[trigger] all[i],
                sep,
            ) by {
                if i > 0 {
                    assert(all[i] == others[i - 1]);
                }
            }
        },
        None => {
            assert(all =~= seq![s]);
        },
    }
}

/// Replacing is putting the pieces together with the replacement.
pub proof fn lemma_replaced_is_joined(s: Seq<char>, from: Seq<char>, to: Seq<char>)
    requires
        from.len() > 0,
    ensures
        pieces::replaced(s, from, to) == pieces::joined(pieces::pieces_of(s, from), to),
    decreases s.len(),
{
    search::lemma_sub_index_from(s, from, 0);
    let all = pieces::pieces_of(s, from);
    match search::sub_index(s, from) {
        Some(k) => {
            let rest = s.skip(k + from.len());
            lemma_replaced_is_joined(rest, from, to);
            lemma_pieces_put_together(rest, from);
            pieces::lemma_joined_first(all, to);
            assert(all.skip(1) =~= pieces::pieces_of(rest, from));
        },
        None => {
            assert(all =~= seq![s]);
        },
    }
}

/// Dropping characters keeps all others, in order.
pub proof fn lemma_without_chars(s: Seq<char>, a: char, b: char)
    ensures
        pieces::without_chars(s, a, b) == s.filter(|c: char| c != a && c != b),
    decreases s.len(),
{
    reveal(Seq::filter);
    if s.len() > 0 {
        lemma_without_chars(s.drop_last(), a, b);
    }
}

/// A line break behind text that does not end in one adds no line.
pub proof fn lemma_break_adds_no_line(s: Seq<char>)
    requires
        s.len() > 0,
        s.last() != '\n',
        s.last() != '\r',
    ensures
        pieces::lines_of(s.push('\n')) == pieces::lines_of(s),
    decreases s.len(),
{
    let longer = s.push('\n');
    search::lemma_char_index(s, '\n');
    match search::char_index(s, '\n') {
        Some(k) => {
            let rest = s.skip(k + 1);
            assert(rest.last() == s.last());
            lemma_break_adds_no_line(rest);
            search::lemma_char_index_is(longer, '\n', k);
            assert(longer.take(k) =~= s.take(k));
            assert(longer.skip(k + 1) =~= rest.push('\n'));
        },
        None => {
            let none = Seq::<char>::empty();
            assert(!s.contains('\n'));
            pieces::lemma_lines_first(s, none);
            assert(longer =~= s.push('\n') + none);
            assert(pieces::lines_of(none) =~= seq![]);
            assert(seq![s] + pieces::lines_of(none) =~= seq![s]);
        },
    }
}

// ---------------------------------------------------------------------------
// Words
// ---------------------------------------------------------------------------

/// No white space.
pub open spec fn is_word(s: Seq<char>) -> bool {
    s.len() > 0 && forall|i: int| 0 <= i < s.len() ==> !text::is_white_space(#[trigger] s[i])
}

/// White space in front makes no difference to the words.
pub proof fn lemma_words_behind_blank(lead: Seq<char>, rest: Seq<char>)
    requires
        is_blank(lead),
    ensures
        pieces::words_of(lead + rest) == pieces::words_of(rest),
    decreases lead.len(),
{
    let s = lead + rest;
    if lead.len() == 0 {
        assert(s =~= rest);
    } else {
        assert(s[0] == lead[0]);
        assert(s.skip(1) =~= lead.skip(1) + rest);
        assert(is_blank(lead.skip(1))) by {
            assert forall|i: int| 0 <= i < lead.skip(1).len() implies text::is_white_space(
                #[trigger] lead.skip(1)[i],
            ) by {
                assert(lead.skip(1)[i] == lead[i + 1]);
            }
        }
        lemma_words_behind_blank(lead.skip(1), rest);
    }
}

/// A word in front, up to white space or the end, is the first of the words.
pub proof fn lemma_first_word(word: Seq<char>, rest: Seq<char>)
    requires
        is_word(word),
        rest.len() > 0 ==> text::is_white_space(rest[0]),
    ensures
        pieces::words_of(word + rest) == seq![word] + pieces::words_of(rest),
{
    let s = word + rest;
    assert(s[0] == word[0]);
    lemma_word_len(word, rest);
    assert(s.take(word.len() as int) =~= word);
    assert(s.skip(word.len() as int) =~= rest);
}

proof fn lemma_word_len(word: Seq<char>, rest: Seq<char>)
    requires
        forall|i: int| 0 <= i < word.len() ==> !text::is_white_space(#[trigger] word[i]),
        rest.len() > 0 ==> text::is_white_space(rest[0]),
    ensures
        pieces::word_len(word + rest) == word.len(),
    decreases word.len(),
{
    let s = word + rest;
    if word.len() == 0 {
        assert(s =~= rest);
    } else {
        assert(s[0] == word[0]);
        assert(s.skip(1) =~= word.skip(1) + rest);
        assert forall|i: int| 0 <= i < word.skip(1).len() implies !text::is_white_space(
            #[trigger] word.skip(1)[i],
        ) by {
            assert(word.skip(1)[i] == word[i + 1]);
        }
        lemma_word_len(word.skip(1), rest);
    }
}

/// Leading white space goes, and nothing else.
pub proof fn lemma_trimmed_start(lead: Seq<char>, rest: Seq<char>)
    requires
        is_blank(lead),
        rest.len() > 0 ==> !text::is_white_space(rest[0]),
    ensures
        text::trimmed_start(lead + rest) == rest,
    decreases lead.len(),
{
    let s = lead + rest;
    if lead.len() == 0 {
        assert(s =~= rest);
    } else {
        assert(s[0] == lead[0]);
        assert(s.skip(1) =~= lead.skip(1) + rest);
        assert(is_blank(lead.skip(1))) by {
            assert forall|i: int| 0 <= i < lead.skip(1).len() implies text::is_white_space(
                #[trigger] lead.skip(1)[i],
            ) by {
                assert(lead.skip(1)[i] == lead[i + 1]);
            }
        }
        lemma_trimmed_start(lead.skip(1), rest);
    }
}

} // verus!
