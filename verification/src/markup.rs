//! HTML that can be converted.
//!
//! The converter goes down one level for every element that stands within
//! another. It takes a position counted in characters for one counted in bytes
//! where a text begins with a digit and goes on with digits, dots and other
//! numerals up to a space. And it adds the position of a list item to the number
//! its list starts with. This module finds the HTML on which none of these does
//! harm. It reads tags the way the parser does, keeps the elements that are open,
//! and follows what texts begin with. Where the parser may go another way than
//! this module can tell, the HTML counts as one that cannot be converted.

use crate::compress;
use crate::search;
use crate::text;
use vstd::prelude::*;
use vstd::slice::*;
use vstd::string::*;

verus! {

/// Elements that may be open at once.
pub const MAX_NESTING: usize = 200;

// ---------------------------------------------------------------------------
// Characters
// ---------------------------------------------------------------------------

/// `c` with an uppercase ASCII letter made lowercase.
pub open spec fn lower(c: char) -> char {
    if 'A' <= c <= 'Z' {
        (c as u32 + 32) as char
    } else {
        c
    }
}

/// `s` with its ASCII letters made lowercase.
pub open spec fn lowered(s: Seq<char>) -> Seq<char> {
    s.map_values(|c: char| lower(c))
}

fn to_lower(s: &[char]) -> (out: Vec<char>)
    ensures
        out@ == lowered(s@),
{
    let mut out: Vec<char> = Vec::new();
    let mut i: usize = 0;
    while i < s.len()
        invariant
            i <= s@.len(),
            out@ == lowered(s@).take(i as int),
        decreases s@.len() - i,
    {
        let c = s[i];
        let ghost before = out@;
        if 'A' <= c && c <= 'Z' {
            out.push((c as u8 + 32) as char);
        } else {
            out.push(c);
        }
        i += 1;
        assert(out@ =~= lowered(s@).take(i as int));
    }
    assert(lowered(s@).take(i as int) =~= lowered(s@));
    out
}

/// What parts the name of a tag and its attributes.
pub open spec fn is_space(c: char) -> bool {
    c == ' ' || c == '\t' || c == '\n' || c == '\r' || c == '\u{c}'
}

fn is_tag_space(c: char) -> (r: bool)
    ensures
        r == is_space(c),
{
    c == ' ' || c == '\t' || c == '\n' || c == '\r' || c == '\u{c}'
}

/// The first position from `i` on that holds no space.
pub open spec fn past_spaces(t: Seq<char>, i: int) -> int
    decreases t.len() - i,
{
    if 0 <= i < t.len() && is_space(t[i]) {
        past_spaces(t, i + 1)
    } else {
        i
    }
}

fn skip_spaces(t: &[char], from: usize) -> (r: usize)
    requires
        from <= t@.len(),
    ensures
        r == past_spaces(t@, from as int),
        from <= r <= t@.len(),
{
    let mut i: usize = from;
    while i < t.len() && is_tag_space(t[i])
        invariant
            from <= i <= t@.len(),
            past_spaces(t@, from as int) == past_spaces(t@, i as int),
        decreases t@.len() - i,
    {
        i += 1;
    }
    i
}

/// The first position from `i` on that holds no digit.
pub open spec fn past_digits(t: Seq<char>, i: int) -> int
    decreases t.len() - i,
{
    if 0 <= i < t.len() && '0' <= t[i] <= '9' {
        past_digits(t, i + 1)
    } else {
        i
    }
}

fn skip_digits(t: &[char], from: usize) -> (r: usize)
    requires
        from <= t@.len(),
    ensures
        r == past_digits(t@, from as int),
        from <= r <= t@.len(),
{
    let mut i: usize = from;
    while i < t.len() && '0' <= t[i] && t[i] <= '9'
        invariant
            from <= i <= t@.len(),
            past_digits(t@, from as int) == past_digits(t@, i as int),
        decreases t@.len() - i,
    {
        i += 1;
    }
    i
}

// ---------------------------------------------------------------------------
// Pieces of text
// ---------------------------------------------------------------------------

/// What `char::is_numeric` says of a character.
pub uninterp spec fn numeric(c: char) -> bool;

/// Calls `char::is_numeric`. Trusted: the answer is a function of the character;
/// of ASCII it holds for the digits.
#[verifier::external_body]
fn is_numeric(c: char) -> (r: bool)
    ensures
        r == numeric(c),
        c as u32 <= 0x7f ==> r == ('0' <= c <= '9'),
{
    c.is_numeric()
}

/// What one character of a text is to the beginning of that text.
#[derive(Debug, Clone, Copy, PartialEq, Eq, Structural)]
pub enum Piece {
    /// An ASCII digit.
    Digit,
    Dot,
    /// A numeric character outside ASCII, or one that could be.
    Numeral,
    Space,
    /// White space other than a space.
    White,
    /// A character that the parser may leave out.
    Nothing,
    /// Anything else.
    Other,
}

/// What a character is.
pub open spec fn char_piece(c: char) -> Piece {
    if '0' <= c <= '9' {
        Piece::Digit
    } else if c == '.' {
        Piece::Dot
    } else if c == ' ' {
        Piece::Space
    } else if is_space(c) {
        Piece::White
    } else if c == '\0' || c == '\u{feff}' {
        Piece::Nothing
    } else if c as u32 > 0x7f && numeric(c) {
        Piece::Numeral
    } else {
        Piece::Other
    }
}

fn piece_of_char(c: char) -> (r: Piece)
    ensures
        r == char_piece(c),
{
    if '0' <= c && c <= '9' {
        Piece::Digit
    } else if c == '.' {
        Piece::Dot
    } else if c == ' ' {
        Piece::Space
    } else if is_tag_space(c) {
        Piece::White
    } else if c == '\0' || c == '\u{feff}' {
        Piece::Nothing
    } else if c as u32 > 0x7f && is_numeric(c) {
        Piece::Numeral
    } else {
        Piece::Other
    }
}

/// A code in a range without numeric characters but for the ASCII digits:
/// alphabets of Europe, punctuation, symbols, pictographs.
pub open spec fn is_plain_code(v: nat) -> bool {
    ||| v < 0xb2
    ||| 0xbf <= v < 0x660
    ||| 0x2000 <= v < 0x2070
    ||| 0x20a0 <= v < 0x2150
    ||| 0x2190 <= v < 0x2460
    ||| 0x1f300 <= v < 0x1fb00
}

/// What the character of a code is.
pub open spec fn code_piece(v: nat) -> Piece {
    if 48 <= v <= 57 {
        Piece::Digit
    } else if v == 46 {
        Piece::Dot
    } else if v == 32 {
        Piece::Space
    } else if 9 <= v <= 13 {
        Piece::White
    } else if is_plain_code(v) {
        Piece::Other
    } else {
        Piece::Numeral
    }
}

fn piece_of_code(v: u32) -> (r: Piece)
    ensures
        r == code_piece(v as nat),
{
    if 48 <= v && v <= 57 {
        Piece::Digit
    } else if v == 46 {
        Piece::Dot
    } else if v == 32 {
        Piece::Space
    } else if 9 <= v && v <= 13 {
        Piece::White
    } else if v < 0xb2 || (0xbf <= v && v < 0x660) || (0x2000 <= v && v < 0x2070) || (0x20a0 <= v
        && v < 0x2150) || (0x2190 <= v && v < 0x2460) || (0x1f300 <= v && v < 0x1fb00) {
        Piece::Other
    } else {
        Piece::Numeral
    }
}

/// The value of a digit, sixteen for what is none.
pub open spec fn digit_value(c: char) -> nat {
    if '0' <= c <= '9' {
        (c as u32 - '0' as u32) as nat
    } else if 'a' <= c <= 'f' {
        (c as u32 - 'a' as u32 + 10) as nat
    } else {
        16
    }
}

fn value_of_digit(c: char) -> (r: u32)
    ensures
        r == digit_value(c),
        r <= 16,
{
    if '0' <= c && c <= '9' {
        c as u32 - 48
    } else if 'a' <= c && c <= 'f' {
        c as u32 - 87
    } else {
        16
    }
}

/// The value of the digits from `i` on behind those that came to `value`, and the
/// position behind them. Values that no character has are all the same.
pub open spec fn code_from(t: Seq<char>, i: int, base: nat, value: nat) -> (nat, int)
    decreases t.len() - i,
{
    if 0 <= i < t.len() && digit_value(t[i]) < base {
        let more = value * base + digit_value(t[i]);
        code_from(
            t,
            i + 1,
            base,
            if more > 0x110000 {
                0x110000
            } else {
                more
            },
        )
    } else {
        (value, i)
    }
}

fn read_code(t: &[char], from: usize, base: u32) -> (r: (u32, usize))
    requires
        from <= t@.len(),
        base <= 16,
    ensures
        (r.0 as nat, r.1 as int) == code_from(t@, from as int, base as nat, 0),
        from <= r.1 <= t@.len(),
{
    let mut i: usize = from;
    let mut value: u32 = 0;
    while i < t.len() && value_of_digit(t[i]) < base
        invariant
            from <= i <= t@.len(),
            base <= 16,
            value <= 0x110000,
            code_from(t@, from as int, base as nat, 0) == code_from(
                t@,
                i as int,
                base as nat,
                value as nat,
            ),
        decreases t@.len() - i,
    {
        let d = value_of_digit(t[i]);
        assert(value * base + d <= 0x1100010) by (nonlinear_arith)
            requires
                value <= 0x110000,
                base <= 16,
                d <= 16,
        ;
        let more = value * base + d;
        value = if more > 0x110000 {
            0x110000
        } else {
            more
        };
        i += 1;
    }
    (value, i)
}

/// The position behind the letters and digits from `i` on.
pub open spec fn past_name(t: Seq<char>, i: int) -> int
    decreases t.len() - i,
{
    if 0 <= i < t.len() && (compress::is_ascii_letter(t[i]) || '0' <= t[i] <= '9') {
        past_name(t, i + 1)
    } else {
        i
    }
}

fn skip_name(t: &[char], from: usize) -> (r: usize)
    requires
        from <= t@.len(),
    ensures
        r == past_name(t@, from as int),
        from <= r <= t@.len(),
{
    let mut i: usize = from;
    while i < t.len() && (compress::is_letter(t[i]) || ('0' <= t[i] && t[i] <= '9'))
        invariant
            from <= i <= t@.len(),
            past_name(t@, from as int) == past_name(t@, i as int),
        decreases t@.len() - i,
    {
        i += 1;
    }
    i
}

/// The position behind a semicolon at `i`, or `i`.
pub open spec fn past_semicolon(t: Seq<char>, i: int) -> int {
    if search::stands_at(t, ";"@, i) {
        i + 1
    } else {
        i
    }
}

fn stands(t: &[char], p: &str, i: usize) -> (r: bool)
    ensures
        r == search::stands_at(t@, p@, i as int),
{
    let q = text::chars_of(p);
    search::is_at(t, q.as_slice(), i)
}

fn skip_semicolon(t: &[char], i: usize) -> (r: usize)
    requires
        i <= t@.len(),
    ensures
        r == past_semicolon(t@, i as int),
        i <= r <= t@.len(),
{
    let total = t.len();
    proof {
        reveal_strlit(";");
        assert(";"@.len() == 1 && total == t@.len());
    }
    if stands(t, ";", i) {
        i + 1
    } else {
        i
    }
}

/// What a reference by code is whose digits start at `i`, and the position behind
/// it. Without digits it is none, and its `&`, which stands at `at`, is text.
pub open spec fn code_reference(t: Seq<char>, at: int, i: int, base: nat) -> (Piece, int) {
    let code = code_from(t, i, base, 0);
    if code.1 == i {
        (Piece::Other, at + 1)
    } else {
        (code_piece(code.0), past_semicolon(t, code.1))
    }
}

/// What stands at `i` in a text, and the position behind it. Of references by
/// name only those to a numeral, a dot or white space count; all others, and what
/// is none, are something else, at least by their `&`.
pub open spec fn piece_at(t: Seq<char>, i: int) -> (Piece, int) {
    if search::stands_at(t, "&#x"@, i) {
        code_reference(t, i, i + 3, 16)
    } else if search::stands_at(t, "&#"@, i) {
        code_reference(t, i, i + 2, 10)
    } else if search::stands_at(t, "&frac"@, i) || search::stands_at(t, "&half"@, i)
        || search::stands_at(t, "&sup1"@, i) || search::stands_at(t, "&sup2"@, i)
        || search::stands_at(t, "&sup3"@, i) {
        (Piece::Numeral, past_semicolon(t, past_name(t, i + 1)))
    } else if search::stands_at(t, "&period"@, i) {
        (Piece::Dot, past_semicolon(t, past_name(t, i + 1)))
    } else if search::stands_at(t, "&tab"@, i) || search::stands_at(t, "&newline"@, i) {
        (Piece::White, past_semicolon(t, past_name(t, i + 1)))
    } else {
        (char_piece(t[i]), i + 1)
    }
}

fn read_code_reference(t: &[char], at: usize, i: usize, base: u32) -> (r: (Piece, usize))
    requires
        at < i <= t@.len(),
        base <= 16,
    ensures
        (r.0, r.1 as int) == code_reference(t@, at as int, i as int, base as nat),
        at < r.1 <= t@.len(),
{
    let (code, end) = read_code(t, i, base);
    if end == i {
        (Piece::Other, at + 1)
    } else {
        (piece_of_code(code), skip_semicolon(t, end))
    }
}

fn read_piece(t: &[char], i: usize) -> (r: (Piece, usize))
    requires
        i < t@.len(),
    ensures
        (r.0, r.1 as int) == piece_at(t@, i as int),
        i < r.1 <= t@.len(),
{
    let total = t.len();
    proof {
        reveal_strlit("&#x");
        reveal_strlit("&#");
        assert("&#x"@.len() == 3 && "&#"@.len() == 2 && total == t@.len());
    }
    if t[i] != '&' {
        proof {
            lemma_no_reference(t@, i as int);
        }
        (piece_of_char(t[i]), i + 1)
    } else if stands(t, "&#x", i) {
        read_code_reference(t, i, i + 3, 16)
    } else if stands(t, "&#", i) {
        read_code_reference(t, i, i + 2, 10)
    } else if stands(t, "&frac", i) || stands(t, "&half", i) || stands(t, "&sup1", i) || stands(
        t,
        "&sup2",
        i,
    ) || stands(t, "&sup3", i) {
        (Piece::Numeral, skip_semicolon(t, skip_name(t, i + 1)))
    } else if stands(t, "&period", i) {
        (Piece::Dot, skip_semicolon(t, skip_name(t, i + 1)))
    } else if stands(t, "&tab", i) || stands(t, "&newline", i) {
        (Piece::White, skip_semicolon(t, skip_name(t, i + 1)))
    } else {
        (piece_of_char(t[i]), i + 1)
    }
}

/// A reference begins with `&`.
proof fn lemma_no_reference(t: Seq<char>, i: int)
    requires
        0 <= i < t.len(),
        t[i] != '&',
    ensures
        piece_at(t, i) == (char_piece(t[i]), i + 1),
{
    reveal_strlit("&#x");
    reveal_strlit("&#");
    reveal_strlit("&frac");
    reveal_strlit("&half");
    reveal_strlit("&sup1");
    reveal_strlit("&sup2");
    reveal_strlit("&sup3");
    reveal_strlit("&period");
    reveal_strlit("&tab");
    reveal_strlit("&newline");
    assert forall|p: Seq<char>| p.len() > 0 && p[0] == '&' implies !(#[trigger] search::stands_at(
        t,
        p,
        i,
    )) by {
        if search::stands_at(t, p, i) {
            assert(t.subrange(i, i + p.len())[0] == t[i]);
        }
    }
    assert("&#x"@.len() == 3 && "&#x"@[0] == '&');
    assert("&#"@.len() == 2 && "&#"@[0] == '&');
    assert("&frac"@.len() == 5 && "&frac"@[0] == '&');
    assert("&half"@.len() == 5 && "&half"@[0] == '&');
    assert("&sup1"@.len() == 5 && "&sup1"@[0] == '&');
    assert("&sup2"@.len() == 5 && "&sup2"@[0] == '&');
    assert("&sup3"@.len() == 5 && "&sup3"@[0] == '&');
    assert("&period"@.len() == 7 && "&period"@[0] == '&');
    assert("&tab"@.len() == 4 && "&tab"@[0] == '&');
    assert("&newline"@.len() == 8 && "&newline"@[0] == '&');
}

// ---------------------------------------------------------------------------
// What texts begin with
// ---------------------------------------------------------------------------

/// What is known of the text that is being read, from its beginning on.
#[derive(Debug, Clone, Copy, PartialEq, Eq, Structural)]
pub enum Lead {
    /// It does not begin with digits, dots and numerals alone.
    Broken,
    /// Nothing of it was read yet, or it is broken.
    Start,
    /// It may begin with a digit and hold digits alone, and a dot or a numeral
    /// where that is said.
    Run { dot: bool, numeral: bool },
}

/// What is known behind one more piece; none where the converter may do harm: at
/// a space behind a digit, a dot and a numeral. White space before anything else
/// may be left out. So may white space in the columns of a table; `columns` says
/// that there are any.
pub open spec fn next_lead(lead: Lead, piece: Piece, columns: bool) -> Option<Lead> {
    match lead {
        Lead::Broken => Some(Lead::Broken),
        Lead::Start => match piece {
            Piece::Digit => Some(Lead::Run { dot: false, numeral: false }),
            Piece::Space | Piece::White | Piece::Nothing => Some(Lead::Start),
            _ => Some(Lead::Broken),
        },
        Lead::Run { dot, numeral } => match piece {
            Piece::Digit | Piece::Nothing => Some(lead),
            Piece::Dot => Some(Lead::Run { dot: true, numeral }),
            Piece::Numeral => Some(Lead::Run { dot, numeral: true }),
            Piece::Space | Piece::White => if piece == Piece::Space && dot && numeral {
                None
            } else if columns {
                Some(lead)
            } else {
                Some(Lead::Broken)
            },
            Piece::Other => Some(Lead::Broken),
        },
    }
}

fn follow_lead(lead: Lead, piece: Piece, columns: bool) -> (r: Option<Lead>)
    ensures
        r == next_lead(lead, piece, columns),
{
    match lead {
        Lead::Broken => Some(Lead::Broken),
        Lead::Start => match piece {
            Piece::Digit => Some(Lead::Run { dot: false, numeral: false }),
            Piece::Space | Piece::White | Piece::Nothing => Some(Lead::Start),
            _ => Some(Lead::Broken),
        },
        Lead::Run { dot, numeral } => match piece {
            Piece::Digit | Piece::Nothing => Some(lead),
            Piece::Dot => Some(Lead::Run { dot: true, numeral }),
            Piece::Numeral => Some(Lead::Run { dot, numeral: true }),
            Piece::Space => if dot && numeral {
                None
            } else if columns {
                Some(lead)
            } else {
                Some(Lead::Broken)
            },
            Piece::White => if columns {
                Some(lead)
            } else {
                Some(Lead::Broken)
            },
            Piece::Other => Some(Lead::Broken),
        },
    }
}

/// What is known behind a tag or a comment: either a new text begins, or the
/// parser left it out and the text goes on.
pub open spec fn apart(lead: Lead) -> Lead {
    if lead == Lead::Broken {
        Lead::Start
    } else {
        lead
    }
}

fn set_apart(lead: Lead) -> (r: Lead)
    ensures
        r == apart(lead),
{
    if lead == Lead::Broken {
        Lead::Start
    } else {
        lead
    }
}

/// What is known where either holds.
pub open spec fn either(a: Lead, b: Lead) -> Lead {
    match (a, b) {
        (Lead::Run { dot, numeral }, Lead::Run { dot: d, numeral: n }) => Lead::Run {
            dot: dot || d,
            numeral: numeral || n,
        },
        (Lead::Run { .. }, _) => a,
        (_, Lead::Run { .. }) => b,
        (Lead::Start, _) => a,
        _ => b,
    }
}

fn combine(a: Lead, b: Lead) -> (r: Lead)
    ensures
        r == either(a, b),
{
    match (a, b) {
        (Lead::Run { dot, numeral }, Lead::Run { dot: d, numeral: n }) => Lead::Run {
            dot: dot || d,
            numeral: numeral || n,
        },
        (Lead::Run { .. }, _) => a,
        (_, Lead::Run { .. }) => b,
        (Lead::Start, _) => a,
        _ => b,
    }
}

/// What is known of texts.
#[derive(Debug, Clone, Copy, PartialEq, Eq, Structural)]
pub struct Texts {
    /// Of the one that is being read, as it stands.
    pub lead: Lead,
    /// Of the one in front of a table, where it may go on there.
    pub front: Lead,
    /// Some text may begin with a digit and hold a numeral.
    pub numeral: bool,
}

/// What is known behind one more piece.
pub open spec fn next_texts(texts: Texts, piece: Piece, columns: bool) -> Option<Texts> {
    match (next_lead(texts.lead, piece, columns), next_lead(texts.front, piece, columns)) {
        (Some(lead), Some(front)) => Some(
            Texts {
                lead,
                front,
                numeral: texts.numeral || (piece == Piece::Numeral && (texts.lead is Run
                    || texts.front is Run)),
            },
        ),
        _ => None,
    }
}

fn follow_texts(texts: Texts, piece: Piece, columns: bool) -> (r: Option<Texts>)
    ensures
        r == next_texts(texts, piece, columns),
{
    let runs = matches!(texts.lead, Lead::Run { .. }) || matches!(texts.front, Lead::Run { .. });
    match (follow_lead(texts.lead, piece, columns), follow_lead(texts.front, piece, columns)) {
        (Some(lead), Some(front)) => Some(
            Texts { lead, front, numeral: texts.numeral || (piece == Piece::Numeral && runs) },
        ),
        _ => None,
    }
}

/// What is known behind the text from `i` to `end`, in which tags are no tags.
pub open spec fn texts_behind(t: Seq<char>, i: int, end: int, texts: Texts, columns: bool) -> Option<
    Texts,
>
    decreases end - i,
{
    if i >= end || i >= t.len() {
        Some(texts)
    } else {
        let next = piece_at(t, i).1;
        match next_texts(texts, piece_at(t, i).0, columns) {
            Some(now) => if i < next <= end {
                texts_behind(t, next, end, now, columns)
            } else {
                Some(now)
            },
            None => None,
        }
    }
}

fn read_texts(t: &[char], from: usize, end: usize, texts: Texts, columns: bool) -> (r: Option<Texts>)
    requires
        from <= end <= t@.len(),
    ensures
        r == texts_behind(t@, from as int, end as int, texts, columns),
{
    let mut i: usize = from;
    let mut now = texts;
    while i < end
        invariant
            from <= i <= end <= t@.len(),
            texts_behind(t@, from as int, end as int, texts, columns) == texts_behind(
                t@,
                i as int,
                end as int,
                now,
                columns,
            ),
        decreases end - i,
    {
        let (piece, next) = read_piece(t, i);
        match follow_texts(now, piece, columns) {
            Some(n) => {
                if next > end {
                    return Some(n);
                }
                now = n;
            },
            None => {
                return None;
            },
        }
        i = next;
    }
    Some(now)
}

// ---------------------------------------------------------------------------
// Numbers of lists
// ---------------------------------------------------------------------------

/// Where what ends before `i` is the name `start` of an attribute, its value is
/// no number of more than nine digits.
pub open spec fn start_ok(t: Seq<char>, i: int) -> bool {
    let j = past_spaces(t, i);
    search::stands_at(t, "="@, j) ==> {
        let k = past_spaces(t, j + 1);
        let quoted = if search::stands_at(t, "\""@, k) || search::stands_at(t, "'"@, k) {
            k + 1
        } else {
            k
        };
        let from = if search::stands_at(t, "+"@, quoted) {
            quoted + 1
        } else {
            quoted
        };
        let end = past_digits(t, from);
        end - from <= 9 && !search::stands_at(t, "&"@, end)
    }
}

fn has_good_start(t: &[char], i: usize) -> (r: bool)
    requires
        i <= t@.len(),
    ensures
        r == start_ok(t@, i as int),
{
    proof {
        reveal_strlit("=");
        reveal_strlit("\"");
        reveal_strlit("'");
        reveal_strlit("+");
        assert("="@.len() == 1 && "\""@.len() == 1 && "'"@.len() == 1 && "+"@.len() == 1);
    }
    let total = t.len();
    assert(total == t@.len());
    let j = skip_spaces(t, i);
    if !stands(t, "=", j) {
        return true;
    }
    let k = skip_spaces(t, j + 1);
    let quoted = if stands(t, "\"", k) || stands(t, "'", k) {
        k + 1
    } else {
        k
    };
    let from = if stands(t, "+", quoted) {
        quoted + 1
    } else {
        quoted
    };
    let end = skip_digits(t, from);
    end - from <= 9 && !stands(t, "&", end)
}

/// No list starts with a number that its items could count beyond the last one.
pub open spec fn has_small_starts(t: Seq<char>) -> bool {
    forall|i: int| #[trigger] search::stands_at(t, "start"@, i) ==> start_ok(t, i + 5)
}

fn starts_small(t: &[char]) -> (r: bool)
    ensures
        r == has_small_starts(t@),
{
    proof {
        reveal_strlit("start");
        assert("start"@.len() == 5);
    }
    let mut i: usize = 0;
    while i < t.len()
        invariant
            "start"@.len() == 5,
            i <= t@.len(),
            forall|k: int|
                k < i && #[trigger] search::stands_at(t@, "start"@, k) ==> start_ok(t@, k + 5),
        decreases t@.len() - i,
    {
        if stands(t, "start", i) && !has_good_start(t, i + 5) {
            return false;
        }
        i += 1;
    }
    true
}

// ---------------------------------------------------------------------------
// Tags
// ---------------------------------------------------------------------------

/// Where the reading of a tag stands.
pub enum TagState {
    /// In its name.
    Name,
    /// Before an attribute.
    Before,
    /// Behind a slash.
    Slash,
    /// In the name of an attribute, or behind it.
    Attribute,
    /// Behind the equals sign of an attribute.
    BeforeValue,
    /// In a value in quotes.
    Quoted(char),
    /// In a value without quotes.
    Unquoted,
}

/// Where the reading stands behind one more character of the tag.
pub open spec fn next_state(state: TagState, c: char) -> TagState {
    match state {
        TagState::Name => if is_space(c) {
            TagState::Before
        } else if c == '/' {
            TagState::Slash
        } else {
            TagState::Name
        },
        TagState::Before | TagState::Slash => if is_space(c) {
            TagState::Before
        } else if c == '/' {
            TagState::Slash
        } else {
            TagState::Attribute
        },
        TagState::Attribute => if c == '/' {
            TagState::Slash
        } else if c == '=' {
            TagState::BeforeValue
        } else {
            TagState::Attribute
        },
        TagState::BeforeValue => if is_space(c) {
            TagState::BeforeValue
        } else if c == '"' || c == '\'' {
            TagState::Quoted(c)
        } else {
            TagState::Unquoted
        },
        TagState::Quoted(q) => if c == q {
            TagState::Before
        } else {
            state
        },
        TagState::Unquoted => if is_space(c) {
            TagState::Before
        } else {
            TagState::Unquoted
        },
    }
}

fn advance(state: TagState, c: char) -> (r: TagState)
    ensures
        r == next_state(state, c),
{
    match state {
        TagState::Name => if is_tag_space(c) {
            TagState::Before
        } else if c == '/' {
            TagState::Slash
        } else {
            TagState::Name
        },
        TagState::Before | TagState::Slash => if is_tag_space(c) {
            TagState::Before
        } else if c == '/' {
            TagState::Slash
        } else {
            TagState::Attribute
        },
        TagState::Attribute => if c == '/' {
            TagState::Slash
        } else if c == '=' {
            TagState::BeforeValue
        } else {
            TagState::Attribute
        },
        TagState::BeforeValue => if is_tag_space(c) {
            TagState::BeforeValue
        } else if c == '"' || c == '\'' {
            TagState::Quoted(c)
        } else {
            TagState::Unquoted
        },
        TagState::Quoted(q) => if c == q {
            TagState::Before
        } else {
            TagState::Quoted(q)
        },
        TagState::Unquoted => if is_tag_space(c) {
            TagState::Before
        } else {
            TagState::Unquoted
        },
    }
}

/// The position behind a tag, and whether a slash stands at its end.
pub open spec fn tag_end(t: Seq<char>, i: int, state: TagState) -> (int, bool)
    decreases t.len() - i,
{
    if i >= t.len() {
        (t.len() as int, false)
    } else if t[i] == '>' && !(state is Quoted) {
        (i + 1, state is Slash)
    } else {
        tag_end(t, i + 1, next_state(state, t[i]))
    }
}

fn find_tag_end(t: &[char], from: usize) -> (r: (usize, bool))
    requires
        from <= t@.len(),
    ensures
        (r.0 as int, r.1) == tag_end(t@, from as int, TagState::Name),
        from <= r.0 <= t@.len(),
{
    let mut i: usize = from;
    let mut state = TagState::Name;
    while i < t.len()
        invariant
            from <= i <= t@.len(),
            tag_end(t@, from as int, TagState::Name) == tag_end(t@, i as int, state),
        decreases t@.len() - i,
    {
        let quoted = matches!(state, TagState::Quoted(_));
        if t[i] == '>' && !quoted {
            return (i + 1, matches!(state, TagState::Slash));
        }
        state = advance(state, t[i]);
        i += 1;
    }
    (t.len(), false)
}

/// The position behind the name of a tag.
pub open spec fn name_end(t: Seq<char>, i: int) -> int
    decreases t.len() - i,
{
    if 0 <= i < t.len() && !is_space(t[i]) && t[i] != '/' && t[i] != '>' {
        name_end(t, i + 1)
    } else {
        i
    }
}

fn find_name_end(t: &[char], from: usize) -> (r: usize)
    requires
        from <= t@.len(),
    ensures
        r == name_end(t@, from as int),
        from <= r <= t@.len(),
{
    let mut i: usize = from;
    while i < t.len() && !is_tag_space(t[i]) && t[i] != '/' && t[i] != '>'
        invariant
            from <= i <= t@.len(),
            name_end(t@, from as int) == name_end(t@, i as int),
        decreases t@.len() - i,
    {
        i += 1;
    }
    i
}

/// The name of the tag whose name starts at `i`.
pub open spec fn name_at(t: Seq<char>, i: int) -> Seq<char> {
    t.subrange(i, name_end(t, i))
}

/// The name is one of the list.
pub open spec fn is_one_of(name: Seq<char>, names: Seq<Seq<char>>) -> bool {
    exists|k: int| 0 <= k < names.len() && #[trigger] names[k] == name
}

fn has_name(name: &[char], names: &[&'static str]) -> (r: bool)
    ensures
        r == is_one_of(name@, names@.map_values(|n: &str| n@)),
{
    let ghost all = names@.map_values(|n: &str| n@);
    let mut i: usize = 0;
    while i < names.len()
        invariant
            all == names@.map_values(|n: &str| n@),
            i <= names@.len(),
            forall|k: int| 0 <= k < i ==> #[trigger] all[k] != name@,
        decreases names@.len() - i,
    {
        assert(all[i as int] == names@[i as int]@);
        if text::equals(name, names[i]) {
            return true;
        }
        i += 1;
    }
    false
}

/// Elements without content.
pub open spec fn void_names() -> Seq<Seq<char>> {
    seq![
        "area"@, "base"@, "br"@, "col"@, "embed"@, "hr"@, "img"@, "input"@, "link"@, "meta"@,
        "param"@, "source"@, "track"@, "wbr"@,
    ]
}

fn is_void(name: &[char]) -> (r: bool)
    ensures
        r == is_one_of(name@, void_names()),
{
    let names: Vec<&'static str> = vec![
        "area", "base", "br", "col", "embed", "hr", "img", "input", "link", "meta", "param",
        "source", "track", "wbr",
    ];
    assert(names@.map_values(|n: &str| n@) =~= void_names());
    has_name(name, names.as_slice())
}

/// Elements that end without an end tag, where their like begins or what holds
/// them ends.
pub open spec fn part_names() -> Seq<Seq<char>> {
    seq![
        "p"@, "li"@, "dt"@, "dd"@, "option"@, "tr"@, "td"@, "th"@, "tbody"@, "thead"@,
        "tfoot"@,
    ]
}

fn is_part(name: &[char]) -> (r: bool)
    ensures
        r == is_one_of(name@, part_names()),
{
    let names: Vec<&'static str> = vec![
        "p", "li", "dt", "dd", "option", "tr", "td", "th", "tbody", "thead", "tfoot",
    ];
    assert(names@.map_values(|n: &str| n@) =~= part_names());
    has_name(name, names.as_slice())
}

/// Elements whose end ends such parts in them.
pub open spec fn block_names() -> Seq<Seq<char>> {
    seq![
        "article"@, "aside"@, "blockquote"@, "dd"@, "div"@, "dl"@, "dt"@, "footer"@, "header"@,
        "li"@, "main"@, "nav"@, "ol"@, "section"@, "table"@, "tbody"@, "td"@, "tfoot"@, "th"@,
        "thead"@, "tr"@, "ul"@,
    ]
}

fn is_block(name: &[char]) -> (r: bool)
    ensures
        r == is_one_of(name@, block_names()),
{
    let names: Vec<&'static str> = vec![
        "article", "aside", "blockquote", "dd", "div", "dl", "dt", "footer", "header", "li",
        "main", "nav", "ol", "section", "table", "tbody", "td", "tfoot", "th", "thead", "tr",
        "ul",
    ];
    assert(names@.map_values(|n: &str| n@) =~= block_names());
    has_name(name, names.as_slice())
}

/// Elements whose content is text up to their end tag.
pub open spec fn raw_names() -> Seq<Seq<char>> {
    seq![
        "iframe"@, "noembed"@, "noframes"@, "noscript"@, "script"@, "style"@, "textarea"@,
        "title"@, "xmp"@,
    ]
}

fn is_raw(name: &[char]) -> (r: bool)
    ensures
        r == is_one_of(name@, raw_names()),
{
    let names: Vec<&'static str> = vec![
        "iframe", "noembed", "noframes", "noscript", "script", "style", "textarea", "title",
        "xmp",
    ];
    assert(names@.map_values(|n: &str| n@) =~= raw_names());
    has_name(name, names.as_slice())
}

/// Elements that lead out of a drawing or a formula, or in which one holds HTML.
pub open spec fn html_names() -> Seq<Seq<char>> {
    seq![
        "annotation-xml"@, "b"@, "big"@, "blockquote"@, "body"@, "br"@, "center"@, "code"@,
        "dd"@, "div"@, "dl"@, "dt"@, "em"@, "embed"@, "font"@, "foreignobject"@, "h1"@, "h2"@,
        "h3"@, "h4"@, "h5"@, "h6"@, "head"@, "hr"@, "i"@, "img"@, "li"@, "listing"@, "menu"@,
        "meta"@, "nobr"@, "ol"@, "p"@, "pre"@, "ruby"@, "s"@, "small"@, "span"@, "strike"@,
        "strong"@, "sub"@, "sup"@, "table"@, "tt"@, "u"@, "ul"@, "var"@,
    ]
}

fn is_html(name: &[char]) -> (r: bool)
    ensures
        r == is_one_of(name@, html_names()),
{
    let names: Vec<&'static str> = vec![
        "annotation-xml", "b", "big", "blockquote", "body", "br", "center", "code", "dd",
        "div", "dl", "dt", "em", "embed", "font", "foreignobject", "h1", "h2", "h3", "h4",
        "h5", "h6", "head", "hr", "i", "img", "li", "listing", "menu", "meta", "nobr", "ol",
        "p", "pre", "ruby", "s", "small", "span", "strike", "strong", "sub", "sup", "table",
        "tt", "u", "ul", "var",
    ];
    assert(names@.map_values(|n: &str| n@) =~= html_names());
    has_name(name, names.as_slice())
}

/// Elements of a drawing or a formula in which text is read as HTML.
pub open spec fn leaf_names() -> Seq<Seq<char>> {
    seq![
        "desc"@, "mi"@, "mn"@, "mo"@, "ms"@, "mtext"@, "title"@,
    ]
}

fn is_leaf(name: &[char]) -> (r: bool)
    ensures
        r == is_one_of(name@, leaf_names()),
{
    let names: Vec<&'static str> = vec![
        "desc", "mi", "mn", "mo", "ms", "mtext", "title",
    ];
    assert(names@.map_values(|n: &str| n@) =~= leaf_names());
    has_name(name, names.as_slice())
}

/// Elements that the parser may open again where text comes.
pub open spec fn mark_names() -> Seq<Seq<char>> {
    seq![
        "a"@, "b"@, "big"@, "code"@, "em"@, "font"@, "i"@, "nobr"@, "s"@, "small"@, "strike"@,
        "strong"@, "tt"@, "u"@,
    ]
}

fn is_mark(name: &[char]) -> (r: bool)
    ensures
        r == is_one_of(name@, mark_names()),
{
    let names: Vec<&'static str> = vec![
        "a", "b", "big", "code", "em", "font", "i", "nobr", "s", "small", "strike", "strong",
        "tt", "u",
    ];
    assert(names@.map_values(|n: &str| n@) =~= mark_names());
    has_name(name, names.as_slice())
}

/// Elements that take the text behind their start tag, wherever they stand.
pub open spec fn text_names() -> Seq<Seq<char>> {
    seq![
        "a"@, "b"@, "blockquote"@, "caption"@, "code"@, "dd"@, "div"@, "dt"@, "em"@, "h1"@,
        "h2"@, "h3"@, "h4"@, "h5"@, "h6"@, "i"@, "li"@, "p"@, "small"@, "span"@, "strong"@,
        "sub"@, "sup"@, "td"@, "th"@, "u"@,
    ]
}

fn takes_text(name: &[char]) -> (r: bool)
    ensures
        r == is_one_of(name@, text_names()),
{
    let names: Vec<&'static str> = vec![
        "a", "b", "blockquote", "caption", "code", "dd", "div", "dt", "em", "h1", "h2", "h3",
        "h4", "h5", "h6", "i", "li", "p", "small", "span", "strong", "sub", "sup", "td", "th",
        "u",
    ];
    assert(names@.map_values(|n: &str| n@) =~= text_names());
    has_name(name, names.as_slice())
}

// ---------------------------------------------------------------------------
// Open elements
// ---------------------------------------------------------------------------

/// The innermost open element has this name.
pub open spec fn is_top(open: Seq<Seq<char>>, name: Seq<char>) -> bool {
    open.len() > 0 && open.last() == name
}

fn tops(open: &[&[char]], name: &[char]) -> (r: bool)
    ensures
        r == is_top(text::views(open@), name@),
{
    open.len() > 0 && text::same_chars(open[open.len() - 1], name)
}

/// An element of this name is open.
pub open spec fn is_open(open: Seq<Seq<char>>, name: Seq<char>) -> bool {
    is_one_of(name, open)
}

fn holds_open(open: &[&[char]], name: &str) -> (r: bool)
    ensures
        r == is_open(text::views(open@), name@),
{
    let ghost all = text::views(open@);
    let mut i: usize = 0;
    while i < open.len()
        invariant
            all == text::views(open@),
            i <= open@.len(),
            forall|k: int| 0 <= k < i ==> #[trigger] all[k] != name@,
        decreases open@.len() - i,
    {
        assert(all[i as int] == open@[i as int]@);
        if text::equals(open[i], name) {
            return true;
        }
        i += 1;
    }
    false
}

/// A drawing or a formula is open.
pub open spec fn is_foreign(open: Seq<Seq<char>>) -> bool {
    is_open(open, "svg"@) || is_open(open, "math"@)
}

fn lies_foreign(open: &[&[char]]) -> (r: bool)
    ensures
        r == is_foreign(text::views(open@)),
{
    holds_open(open, "svg") || holds_open(open, "math")
}

/// Nothing is open in which tags are left out or read in another way.
pub open spec fn is_plain(open: Seq<Seq<char>>) -> bool {
    !is_foreign(open) && !is_open(open, "select"@) && !is_open(open, "template"@)
}

fn lies_plain(open: &[&[char]]) -> (r: bool)
    ensures
        r == is_plain(text::views(open@)),
{
    !lies_foreign(open) && !holds_open(open, "select") && !holds_open(open, "template")
}

/// An element is open that the parser may open again where text comes.
pub open spec fn has_mark(open: Seq<Seq<char>>) -> bool {
    exists|k: int| 0 <= k < open.len() && is_one_of(#[trigger] open[k], mark_names())
}

fn holds_mark(open: &[&[char]]) -> (r: bool)
    ensures
        r == has_mark(text::views(open@)),
{
    let ghost all = text::views(open@);
    let mut i: usize = 0;
    while i < open.len()
        invariant
            all == text::views(open@),
            i <= open@.len(),
            forall|k: int| 0 <= k < i ==> !is_one_of(#[trigger] all[k], mark_names()),
        decreases open@.len() - i,
    {
        assert(all[i as int] == open@[i as int]@);
        if is_mark(open[i]) {
            return true;
        }
        i += 1;
    }
    false
}

/// A drawing or a formula begins with this name.
pub open spec fn starts_foreign(name: Seq<char>) -> bool {
    name == "svg"@ || name == "math"@
}

fn begins_foreign(name: &[char]) -> (r: bool)
    ensures
        r == starts_foreign(name@),
{
    text::equals(name, "svg") || text::equals(name, "math")
}

/// A start tag of this name is read the way this module does.
pub open spec fn may_start(open: Seq<Seq<char>>, name: Seq<char>) -> bool {
    &&& name != "plaintext"@ && name != "frameset"@
    &&& is_foreign(open) ==> !is_one_of(name, html_names()) && (is_one_of(name, leaf_names())
        ==> !has_mark(open))
    &&& starts_foreign(name) ==> is_foreign(open) || is_plain(open)
}

fn can_start(open: &[&[char]], name: &[char]) -> (r: bool)
    ensures
        r == may_start(text::views(open@), name@),
{
    if text::equals(name, "plaintext") || text::equals(name, "frameset") {
        false
    } else if lies_foreign(open) {
        !is_html(name) && !(is_leaf(name) && holds_mark(open))
    } else {
        !begins_foreign(name) || lies_plain(open)
    }
}

/// The open elements behind a start tag. In a drawing or a formula, and for one, a
/// slash ends the element.
pub open spec fn opened(open: Seq<Seq<char>>, name: Seq<char>, slash: bool) -> Seq<Seq<char>> {
    if is_foreign(open) || starts_foreign(name) {
        if slash {
            open
        } else {
            open.push(name)
        }
    } else if is_one_of(name, void_names()) || (is_one_of(name, part_names()) && is_top(
        open,
        name,
    )) {
        open
    } else {
        open.push(name)
    }
}

fn push_open<'a>(open: Vec<&'a [char]>, name: &'a [char], slash: bool) -> (r: Vec<&'a [char]>)
    ensures
        text::views(r@) == opened(text::views(open@), name@, slash),
{
    let ghost all = text::views(open@);
    let mut r = open;
    let keep = if lies_foreign(r.as_slice()) || begins_foreign(name) {
        slash
    } else {
        is_void(name) || (is_part(name) && tops(r.as_slice(), name))
    };
    if !keep {
        r.push(name);
        assert(text::views(r@) =~= all.push(name@));
    }
    r
}

/// The open elements without the parts that end where an element of this name
/// does.
pub open spec fn without_parts(open: Seq<Seq<char>>, name: Seq<char>) -> Seq<Seq<char>>
    decreases open.len(),
{
    if open.len() > 0 && open.last() != name && is_one_of(open.last(), part_names()) {
        without_parts(open.drop_last(), name)
    } else {
        open
    }
}

/// The open elements behind an end tag. One that does not fit closes nothing.
pub open spec fn closed(open: Seq<Seq<char>>, name: Seq<char>) -> Seq<Seq<char>> {
    let rest = if is_one_of(name, block_names()) {
        without_parts(open, name)
    } else {
        open
    };
    if is_top(rest, name) {
        rest.drop_last()
    } else {
        open
    }
}

fn pop_open<'a>(open: Vec<&'a [char]>, name: &[char]) -> (r: Vec<&'a [char]>)
    ensures
        text::views(r@) == closed(text::views(open@), name@),
{
    let ghost all = text::views(open@);
    let mut n: usize = open.len();
    assert(all.take(n as int) =~= all);
    if is_block(name) {
        while n > 0 && !text::same_chars(open[n - 1], name) && is_part(open[n - 1])
            invariant
                all == text::views(open@),
                n <= open@.len(),
                without_parts(all, name@) == without_parts(all.take(n as int), name@),
            decreases n,
        {
            assert(all.take(n as int).drop_last() =~= all.take(n - 1));
            assert(all.take(n as int).last() == open@[n - 1]@);
            n -= 1;
        }
        assert(n > 0 ==> all.take(n as int).last() == open@[n - 1]@);
        assert(without_parts(all, name@) == all.take(n as int));
    }
    assert(n > 0 ==> all.take(n as int).last() == open@[n - 1]@);
    if n > 0 && text::same_chars(open[n - 1], name) {
        let mut r = open;
        assert(all.take(n as int).drop_last() =~= all.take(n - 1));
        r.truncate(n - 1);
        assert(text::views(r@) =~= all.take(n - 1));
        r
    } else {
        open
    }
}

// ---------------------------------------------------------------------------
// Reading
// ---------------------------------------------------------------------------

/// The position behind the comment that begins before `body`. None where the
/// comment ends in an unusual way.
pub open spec fn comment_end(t: Seq<char>, body: int) -> Option<int> {
    if search::stands_at(t, ">"@, body) || search::stands_at(t, "->"@, body) {
        None
    } else {
        match search::sub_index_from(t, "-->"@, body) {
            Some(k) => if search::has_sub(t.subrange(body, k), "--!>"@) {
                None
            } else {
                Some(k + 3)
            },
            None => if search::has_sub(t.skip(body), "--!>"@) {
                None
            } else {
                Some(t.len() as int)
            },
        }
    }
}

fn find_comment_end(t: &[char], body: usize) -> (r: Option<usize>)
    requires
        body <= t@.len(),
    ensures
        text::same_index(r, comment_end(t@, body as int)),
        r matches Some(n) ==> body <= n <= t@.len(),
{
    proof {
        reveal_strlit("-->");
        assert("-->"@.len() == 3);
    }
    let total = t.len();
    assert(total == t@.len());
    if stands(t, ">", body) || stands(t, "->", body) {
        return None;
    }
    let mark = text::chars_of("-->");
    match search::find_sub_from(t, mark.as_slice(), body) {
        Some(k) => {
            let inside = slice_subrange(t, body, k);
            if search::contains_sub(inside, "--!>") {
                None
            } else {
                Some(k + 3)
            }
        },
        None => {
            let inside = slice_subrange(t, body, t.len());
            assert(inside@ =~= t@.skip(body as int));
            if search::contains_sub(inside, "--!>") {
                None
            } else {
                Some(t.len())
            }
        },
    }
}

/// The position behind the next `>`.
pub open spec fn past_angle(t: Seq<char>, i: int) -> int {
    match search::char_index_from(t, '>', i) {
        Some(k) => k + 1,
        None => t.len() as int,
    }
}

fn skip_angle(t: &[char], from: usize) -> (r: usize)
    requires
        from <= t@.len(),
    ensures
        r == past_angle(t@, from as int),
        from <= r <= t@.len(),
{
    let total = t.len();
    proof {
        search::lemma_char_index_from(t@, '>', from as int);
        assert(total == t@.len());
    }
    match search::find_char_from(t, '>', from) {
        Some(k) => k + 1,
        None => total,
    }
}

/// An end tag of this name stands at `k`.
pub open spec fn ends_at(t: Seq<char>, name: Seq<char>, k: int) -> bool {
    search::stands_at(t, "</"@ + name, k) && k + 2 + name.len() < t.len() && {
        let c = t[k + 2 + name.len()];
        is_space(c) || c == '/' || c == '>'
    }
}

/// The first position from `i` on where an end tag of this name stands.
pub open spec fn raw_end(t: Seq<char>, name: Seq<char>, i: int) -> Option<int>
    decreases t.len() - i,
{
    if i >= t.len() {
        None
    } else if ends_at(t, name, i) {
        Some(i)
    } else {
        raw_end(t, name, i + 1)
    }
}

fn find_raw_end(t: &[char], name: &[char], from: usize) -> (r: Option<usize>)
    requires
        from <= t@.len(),
    ensures
        text::same_index(r, raw_end(t@, name@, from as int)),
        r matches Some(k) ==> from <= k < t@.len(),
{
    proof {
        reveal_strlit("</");
    }
    let mut tag: Vec<char> = text::chars_of("</");
    crate::pieces::push_all(&mut tag, name);
    assert(tag@ =~= "</"@ + name@);
    let mut i: usize = from;
    while i < t.len()
        invariant
            tag@ == "</"@ + name@,
            "</"@.len() == 2,
            from <= i <= t@.len(),
            raw_end(t@, name@, from as int) == raw_end(t@, name@, i as int),
        decreases t@.len() - i,
    {
        if search::is_at(t, tag.as_slice(), i) && tag.len() < t.len() - i {
            let c = t[i + tag.len()];
            if is_tag_space(c) || c == '/' || c == '>' {
                return Some(i);
            }
        }
        i += 1;
    }
    None
}

/// Text can be read as such up to `end`, or the parser could read tags in it.
pub open spec fn raw_ok(open: Seq<Seq<char>>, name: Seq<char>, inside: Seq<char>) -> bool {
    inside.contains('<') ==> is_plain(open) && !(name == "script"@ && search::has_sub(
        inside,
        "<!--"@,
    ))
}

/// Where reading stands: the open elements, and what is known of texts.
pub struct Reading {
    pub open: Seq<Seq<char>>,
    pub texts: Texts,
}

/// What is known of texts behind a tag or a comment. In a table the parser puts
/// text that stands in no cell in front of the table, where it may go on with any
/// text; `taken` says that an element takes the text.
pub open spec fn texts_apart(texts: Texts, open: Seq<Seq<char>>, taken: bool) -> Texts {
    Texts {
        lead: apart(texts.lead),
        front: if is_open(open, "table"@) && !taken {
            Lead::Run { dot: true, numeral: texts.numeral }
        } else {
            Lead::Broken
        },
        numeral: texts.numeral,
    }
}

fn set_texts_apart(texts: Texts, open: &[&[char]], taken: bool) -> (r: Texts)
    ensures
        r == texts_apart(texts, text::views(open@), taken),
{
    let front = if !taken && holds_open(open, "table") {
        Lead::Run { dot: true, numeral: texts.numeral }
    } else {
        Lead::Broken
    };
    Texts { lead: set_apart(texts.lead), front, numeral: texts.numeral }
}

/// The content of the element is text: always, or in a drawing or a formula.
pub open spec fn holds_text(open: Seq<Seq<char>>, name: Seq<char>, slash: bool) -> bool {
    if is_foreign(open) {
        !slash && (is_one_of(name, raw_names()) || is_one_of(name, leaf_names()))
    } else {
        is_one_of(name, raw_names())
    }
}

/// What reading goes on with behind a start tag whose name starts at `i`.
pub open spec fn after_start(t: Seq<char>, i: int, now: Reading, columns: bool) -> Option<
    (int, Reading),
> {
    let name = name_at(t, i);
    let end = tag_end(t, i, TagState::Name);
    let open = opened(now.open, name, end.1);
    if !may_start(now.open, name) || open.len() > MAX_NESTING {
        None
    } else if !holds_text(now.open, name, end.1) {
        let texts = texts_apart(now.texts, open, is_one_of(name, text_names()));
        Some((end.0, Reading { open, texts }))
    } else {
        let stop = match raw_end(t, name, end.0) {
            Some(k) => k,
            None => t.len() as int,
        };
        let before = texts_apart(now.texts, open, true);
        match texts_behind(t, end.0, stop, before, columns) {
            Some(inner) => if raw_ok(now.open, name, t.subrange(end.0, stop)) {
                let lead = either(before.lead, apart(inner.lead));
                let texts = Texts { lead, front: Lead::Broken, numeral: inner.numeral };
                Some((stop, Reading { open, texts }))
            } else {
                None
            },
            None => None,
        }
    }
}

/// What reading goes on with behind an end tag whose name starts at `i`. In a
/// drawing or a formula it has to fit.
pub open spec fn after_end(t: Seq<char>, i: int, now: Reading) -> Option<(int, Reading)> {
    let name = name_at(t, i);
    if is_foreign(now.open) && !is_top(now.open, name) {
        None
    } else {
        let open = closed(now.open, name);
        let texts = texts_apart(now.texts, open, false);
        Some((tag_end(t, i, TagState::Name).0, Reading { open, texts }))
    }
}

/// A letter stands at `i`.
pub open spec fn letter_at(t: Seq<char>, i: int) -> bool {
    0 <= i < t.len() && compress::is_ascii_letter(t[i])
}

/// What reading goes on with behind a comment or the like that ends before `n`.
pub open spec fn after_comment(n: int, now: Reading) -> Option<(int, Reading)> {
    Some((n, Reading { open: now.open, texts: texts_apart(now.texts, now.open, false) }))
}

/// What reading goes on with behind a piece of text.
pub open spec fn after_text(t: Seq<char>, i: int, now: Reading, columns: bool) -> Option<
    (int, Reading),
> {
    match next_texts(now.texts, piece_at(t, i).0, columns) {
        Some(texts) => Some((piece_at(t, i).1, Reading { open: now.open, texts })),
        None => None,
    }
}

/// What reading goes on with behind what stands at `i`. None where this module
/// cannot tell, too many elements are open, or a text is one on which the
/// converter may do harm.
pub open spec fn read_on(t: Seq<char>, i: int, now: Reading, columns: bool) -> Option<
    (int, Reading),
> {
    if t[i] != '<' {
        after_text(t, i, now, columns)
    } else if search::stands_at(t, "<!--"@, i) {
        match comment_end(t, i + 4) {
            Some(n) => after_comment(n, now),
            None => None,
        }
    } else if search::stands_at(t, "<![cdata["@, i) {
        None
    } else if search::stands_at(t, "<!"@, i) || search::stands_at(t, "<?"@, i) {
        after_comment(past_angle(t, i + 2), now)
    } else if search::stands_at(t, "</"@, i) {
        if letter_at(t, i + 2) {
            after_end(t, i + 2, now)
        } else {
            after_comment(past_angle(t, i + 2), now)
        }
    } else if letter_at(t, i + 1) {
        after_start(t, i + 1, now, columns)
    } else {
        after_text(t, i, now, columns)
    }
}

/// Reading comes to the end.
pub open spec fn reads(t: Seq<char>, i: int, now: Reading, columns: bool) -> bool
    decreases t.len() - i,
{
    if i >= t.len() {
        true
    } else {
        match read_on(t, i, now, columns) {
            Some((n, next)) => if i < n <= t.len() {
                reads(t, n, next, columns)
            } else {
                false
            },
            None => false,
        }
    }
}

/// Where reading stands, in executable code.
struct Position<'a> {
    open: Vec<&'a [char]>,
    texts: Texts,
}

impl<'a> Position<'a> {
    spec fn reading(&self) -> Reading {
        Reading { open: text::views(self.open@), texts: self.texts }
    }
}

/// `r` is what reading goes on with.
spec fn is_next(r: Option<(usize, Position)>, expected: Option<(int, Reading)>) -> bool {
    match r {
        Some((n, p)) => expected == Some((n as int, p.reading())),
        None => expected is None,
    }
}

fn follow_start<'a>(t: &'a [char], i: usize, now: Position<'a>, columns: bool) -> (r: Option<
    (usize, Position<'a>),
>)
    requires
        i <= t@.len(),
    ensures
        is_next(r, after_start(t@, i as int, now.reading(), columns)),
        r matches Some((n, _)) ==> i <= n <= t@.len(),
{
    let name = slice_subrange(t, i, find_name_end(t, i));
    let (end, slash) = find_tag_end(t, i);
    if !can_start(now.open.as_slice(), name) {
        return None;
    }
    let plain = lies_plain(now.open.as_slice());
    let holds = if lies_foreign(now.open.as_slice()) {
        !slash && (is_raw(name) || is_leaf(name))
    } else {
        is_raw(name)
    };
    let open = push_open(now.open, name, slash);
    assert(text::views(open@).len() == open@.len());
    if open.len() > MAX_NESTING {
        return None;
    }
    if !holds {
        let texts = set_texts_apart(now.texts, open.as_slice(), takes_text(name));
        return Some((end, Position { open, texts }));
    }
    let stop = match find_raw_end(t, name, end) {
        Some(k) => k,
        None => t.len(),
    };
    let before = set_texts_apart(now.texts, open.as_slice(), true);
    match read_texts(t, end, stop, before, columns) {
        Some(inner) => {
            let inside = slice_subrange(t, end, stop);
            if search::has_char(inside, '<') && !(plain && !(text::equals(name, "script")
                && search::contains_sub(inside, "<!--"))) {
                return None;
            }
            let lead = combine(before.lead, set_apart(inner.lead));
            let texts = Texts { lead, front: Lead::Broken, numeral: inner.numeral };
            Some((stop, Position { open, texts }))
        },
        None => None,
    }
}

fn follow_text<'a>(t: &'a [char], i: usize, now: Position<'a>, columns: bool) -> (r: Option<
    (usize, Position<'a>),
>)
    requires
        i < t@.len(),
    ensures
        is_next(r, after_text(t@, i as int, now.reading(), columns)),
        r matches Some((n, _)) ==> i < n <= t@.len(),
{
    let (piece, next) = read_piece(t, i);
    match follow_texts(now.texts, piece, columns) {
        Some(texts) => Some((next, Position { open: now.open, texts })),
        None => None,
    }
}

fn follow_comment<'a>(n: usize, now: Position<'a>) -> (r: Option<(usize, Position<'a>)>)
    ensures
        is_next(r, after_comment(n as int, now.reading())),
        r matches Some((m, _)) ==> m == n,
{
    let texts = set_texts_apart(now.texts, now.open.as_slice(), false);
    Some((n, Position { open: now.open, texts }))
}

fn follow<'a>(t: &'a [char], i: usize, now: Position<'a>, columns: bool) -> (r: Option<
    (usize, Position<'a>),
>)
    requires
        i < t@.len(),
    ensures
        is_next(r, read_on(t@, i as int, now.reading(), columns)),
        r matches Some((n, _)) ==> i < n <= t@.len(),
{
    proof {
        reveal_strlit("<!--");
        reveal_strlit("<!");
        reveal_strlit("<?");
        reveal_strlit("</");
    }
    if t[i] != '<' {
        follow_text(t, i, now, columns)
    } else if stands(t, "<!--", i) {
        match find_comment_end(t, i + 4) {
            Some(n) => follow_comment(n, now),
            None => None,
        }
    } else if stands(t, "<![cdata[", i) {
        None
    } else if stands(t, "<!", i) || stands(t, "<?", i) {
        follow_comment(skip_angle(t, i + 2), now)
    } else if stands(t, "</", i) {
        if i + 2 < t.len() && compress::is_letter(t[i + 2]) {
            let name = slice_subrange(t, i + 2, find_name_end(t, i + 2));
            if lies_foreign(now.open.as_slice()) && !tops(now.open.as_slice(), name) {
                return None;
            }
            let (end, _) = find_tag_end(t, i + 2);
            let open = pop_open(now.open, name);
            let texts = set_texts_apart(now.texts, open.as_slice(), false);
            Some((end, Position { open, texts }))
        } else {
            follow_comment(skip_angle(t, i + 2), now)
        }
    } else if i + 1 < t.len() && compress::is_letter(t[i + 1]) {
        follow_start(t, i + 1, now, columns)
    } else {
        follow_text(t, i, now, columns)
    }
}

/// Nothing is read yet.
pub open spec fn nothing_read() -> Reading {
    Reading {
        open: seq![],
        texts: Texts { lead: Lead::Start, front: Lead::Broken, numeral: false },
    }
}

/// HTML that the converter takes: no list in it starts with too large a number,
/// and reading it comes to the end with no more than [`MAX_NESTING`] elements open
/// and without a text on which the converter may do harm.
pub open spec fn convertible(html: Seq<char>) -> bool {
    let t = lowered(html);
    has_small_starts(t) && reads(t, 0, nothing_read(), search::has_sub(t, "<col"@))
}

/// Whether the converter takes a text.
pub fn is_convertible(html: &str) -> (r: bool)
    ensures
        r == convertible(html@),
{
    let chars = text::chars_of(html);
    let lower_chars = to_lower(chars.as_slice());
    let t = lower_chars.as_slice();
    if !starts_small(t) {
        return false;
    }
    let columns = search::contains_sub(t, "<col");
    let mut now = Position {
        open: Vec::new(),
        texts: Texts { lead: Lead::Start, front: Lead::Broken, numeral: false },
    };
    let mut i: usize = 0;
    assert(now.reading().open =~= seq![]);
    while i < t.len()
        invariant
            i <= t@.len(),
            t@ == lowered(html@),
            has_small_starts(t@),
            columns == search::has_sub(t@, "<col"@),
            reads(t@, 0, nothing_read(), columns) == reads(t@, i as int, now.reading(), columns),
        decreases t@.len() - i,
    {
        match follow(t, i, now, columns) {
            Some((n, next)) => {
                i = n;
                now = next;
            },
            None => {
                return false;
            },
        }
    }
    true
}

} // verus!
