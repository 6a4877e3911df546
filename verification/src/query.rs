//! Full-text queries: what a user types, made safe for FTS5.

use crate::pieces;
use crate::search;
use crate::text;
use vstd::prelude::*;
use vstd::slice::*;
use vstd::string::*;

verus! {

// ---------------------------------------------------------------------------
// Sanitizing
// ---------------------------------------------------------------------------

/// The query without the white space around it and without the `*` of a prefix
/// query.
pub open spec fn query_stem(query: Seq<char>) -> Seq<char> {
    let t = text::trimmed(query);
    if t.len() > 0 && t.last() == '*' {
        t.drop_last()
    } else {
        t
    }
}

/// The query asks for a prefix: it ends in `*`.
pub open spec fn is_prefix_query(query: Seq<char>) -> bool {
    let t = text::trimmed(query);
    t.len() > 0 && t.last() == '*'
}

/// The text of the phrase: quotes doubled, operators left out.
pub open spec fn phrase_of(query: Seq<char>) -> Seq<char> {
    text::trimmed(
        pieces::without_chars(pieces::replaced(query_stem(query), "\""@, "\"\""@), '+', '^'),
    )
}

/// The FTS5 phrase for a query.
pub open spec fn sanitized(query: Seq<char>) -> Seq<char> {
    let quoted = "\""@ + phrase_of(query) + "\""@;
    if is_prefix_query(query) {
        quoted + "*"@
    } else {
        quoted
    }
}

/// Sanitize a user query for FTS5 phrase matching.
///
/// Wraps in double quotes for phrase mode, escapes embedded quotes, and strips
/// FTS5 operators that could break out of the phrase literal.
///
/// Supports trailing `*` for prefix matching: `grep*` becomes `"grep"*` which is
/// valid FTS5 prefix syntax.
pub fn sanitize_fts5_query(query: &str) -> (out: String)
    ensures
        out@ == sanitized(query@),
{
    let chars = text::chars_of(query);
    let trimmed = text::trim(chars.as_slice());
    let n = trimmed.len();
    let is_prefix = n > 0 && trimmed[n - 1] == '*';
    let stem = if is_prefix {
        let s = slice_subrange(trimmed, 0, n - 1);
        assert(s@ =~= trimmed@.drop_last());
        s
    } else {
        trimmed
    };
    proof {
        reveal_strlit("\"");
    }
    let doubled = pieces::replace(stem, "\"", "\"\"");
    let cleaned = pieces::drop_chars(doubled.as_slice(), '+', '^');
    let mut out = "\"".to_owned();
    text::push_chars(&mut out, text::trim(cleaned.as_slice()));
    out.append("\"");
    if is_prefix {
        out.append("*");
    }
    out
}

/// Every run of quotes in `s` has an even length: read as the inside of a
/// phrase, no quote of `s` ends it.
pub open spec fn quotes_paired(s: Seq<char>) -> bool
    decreases s.len(),
{
    if s.len() == 0 {
        true
    } else if s.last() != '"' {
        quotes_paired(s.drop_last())
    } else {
        s.len() >= 2 && s[s.len() - 2] == '"' && quotes_paired(s.drop_last().drop_last())
    }
}

proof fn lemma_paired_concat(a: Seq<char>, b: Seq<char>)
    requires
        quotes_paired(a),
        quotes_paired(b),
    ensures
        quotes_paired(a + b),
    decreases b.len(),
{
    if b.len() == 0 {
        assert(a + b =~= a);
    } else if b.last() != '"' {
        lemma_paired_concat(a, b.drop_last());
        assert((a + b).drop_last() =~= a + b.drop_last());
    } else {
        lemma_paired_concat(a, b.drop_last().drop_last());
        assert((a + b).drop_last().drop_last() =~= a + b.drop_last().drop_last());
    }
}

proof fn lemma_paired_without_quotes(s: Seq<char>)
    requires
        forall|i: int| 0 <= i < s.len() ==> s[i] != '"',
    ensures
        quotes_paired(s),
    decreases s.len(),
{
    if s.len() > 0 {
        lemma_paired_without_quotes(s.drop_last());
    }
}

proof fn lemma_paired_after_first(s: Seq<char>)
    requires
        quotes_paired(s),
        s.len() > 0,
        s[0] != '"',
    ensures
        quotes_paired(s.skip(1)),
    decreases s.len(),
{
    let rest = s.skip(1);
    if rest.len() > 0 {
        if s.last() != '"' {
            lemma_paired_after_first(s.drop_last());
            assert(s.drop_last().skip(1) =~= rest.drop_last());
        } else {
            lemma_paired_after_first(s.drop_last().drop_last());
            assert(s.drop_last().drop_last().skip(1) =~= rest.drop_last().drop_last());
        }
    }
}

proof fn lemma_paired_trimmed(s: Seq<char>)
    requires
        quotes_paired(s),
    ensures
        quotes_paired(text::trimmed(s)),
{
    lemma_paired_trimmed_start(s);
    lemma_paired_trimmed_end(text::trimmed_start(s));
}

proof fn lemma_paired_trimmed_start(s: Seq<char>)
    requires
        quotes_paired(s),
    ensures
        quotes_paired(text::trimmed_start(s)),
    decreases s.len(),
{
    if s.len() > 0 && text::is_white_space(s[0]) {
        lemma_paired_after_first(s);
        lemma_paired_trimmed_start(s.skip(1));
    }
}

proof fn lemma_paired_trimmed_end(s: Seq<char>)
    requires
        quotes_paired(s),
    ensures
        quotes_paired(text::trimmed_end(s)),
    decreases s.len(),
{
    if s.len() > 0 && text::is_white_space(s.last()) {
        lemma_paired_trimmed_end(s.drop_last());
    }
}

proof fn lemma_paired_without_chars(s: Seq<char>)
    requires
        quotes_paired(s),
    ensures
        quotes_paired(pieces::without_chars(s, '+', '^')),
    decreases s.len(),
{
    if s.len() > 0 {
        let t = pieces::without_chars(s, '+', '^');
        if s.last() != '"' {
            lemma_paired_without_chars(s.drop_last());
            if s.last() != '+' && s.last() != '^' {
                assert(t.drop_last() =~= pieces::without_chars(s.drop_last(), '+', '^'));
            }
        } else {
            let head = s.drop_last().drop_last();
            lemma_paired_without_chars(head);
            let u = pieces::without_chars(head, '+', '^');
            assert(pieces::without_chars(s.drop_last(), '+', '^') == u.push('"'));
            assert(t == u.push('"').push('"'));
            assert(t.drop_last().drop_last() =~= u);
        }
    }
}

proof fn lemma_paired_doubled(s: Seq<char>)
    ensures
        quotes_paired(pieces::replaced(s, "\""@, "\"\""@)),
    decreases s.len(),
{
    reveal_strlit("\"");
    reveal_strlit("\"\"");
    let one = "\""@;
    let two = "\"\""@;
    search::lemma_sub_index_from(s, one, 0);
    match search::sub_index(s, one) {
        Some(k) => {
            let head = s.take(k);
            let rest = s.skip(k + 1);
            assert forall|i: int| 0 <= i < head.len() implies head[i] != '"' by {
                if head[i] == '"' {
                    assert(s.subrange(i, i + 1) =~= one);
                    assert(search::stands_at(s, one, i));
                }
            }
            lemma_paired_without_quotes(head);
            lemma_paired_doubled(rest);
            assert(quotes_paired(two)) by {
                reveal_with_fuel(quotes_paired, 2);
            }
            lemma_paired_concat(head, two);
            lemma_paired_concat(head + two, pieces::replaced(rest, one, two));
        },
        None => {
            assert forall|i: int| 0 <= i < s.len() implies s[i] != '"' by {
                if s[i] == '"' {
                    assert(s.subrange(i, i + 1) =~= one);
                    assert(search::stands_at(s, one, i));
                }
            }
            lemma_paired_without_quotes(s);
        },
    }
}

/// A sanitized query is one phrase: nothing in it ends the quotes around it.
pub proof fn lemma_phrase_closed(query: Seq<char>)
    ensures
        quotes_paired(phrase_of(query)),
{
    let stem = query_stem(query);
    lemma_paired_doubled(stem);
    lemma_paired_without_chars(pieces::replaced(stem, "\""@, "\"\""@));
    lemma_paired_trimmed(
        pieces::without_chars(pieces::replaced(stem, "\""@, "\"\""@), '+', '^'),
    );
}

// ---------------------------------------------------------------------------
// Regular expressions
// ---------------------------------------------------------------------------

/// Regex metacharacter patterns that FTS5 does not support.
pub open spec fn regex_patterns() -> Seq<Seq<char>> {
    seq![
        "\\("@,
        "\\)"@,
        "\\|"@,
        "\\+"@,
        "\\{"@,
        "\\}"@,
        "["@,
        "]"@,
        "\\d"@,
        "\\w"@,
        "\\s"@,
        "\\b"@,
    ]
}

/// The patterns that a suggestion is scrubbed of, besides brackets.
pub open spec fn escape_patterns() -> Seq<Seq<char>> {
    seq![
        "\\("@,
        "\\)"@,
        "\\|"@,
        "\\+"@,
        "\\{"@,
        "\\}"@,
        "\\d"@,
        "\\w"@,
        "\\s"@,
        "\\b"@,
    ]
}

/// What a list of patterns stands for, none of them empty.
pub open spec fn are_patterns(found: Seq<&str>, expected: Seq<Seq<char>>) -> bool {
    &&& found.map_values(|p: &str| p@) == expected
    &&& forall|i: int| 0 <= i < found.len() ==> (#[trigger] found[i])@.len() > 0
}

fn list_regex_patterns() -> (out: Vec<&'static str>)
    ensures
        are_patterns(out@, regex_patterns()),
{
    proof {
        reveal_strlit("\\(");
        reveal_strlit("\\)");
        reveal_strlit("\\|");
        reveal_strlit("\\+");
        reveal_strlit("\\{");
        reveal_strlit("\\}");
        reveal_strlit("[");
        reveal_strlit("]");
        reveal_strlit("\\d");
        reveal_strlit("\\w");
        reveal_strlit("\\s");
        reveal_strlit("\\b");
    }
    let out: Vec<&'static str> = vec![
        "\\(",
        "\\)",
        "\\|",
        "\\+",
        "\\{",
        "\\}",
        "[",
        "]",
        "\\d",
        "\\w",
        "\\s",
        "\\b",
    ];
    assert(out@.map_values(|p: &str| p@) =~= regex_patterns());
    out
}

fn list_escape_patterns() -> (out: Vec<&'static str>)
    ensures
        are_patterns(out@, escape_patterns()),
{
    proof {
        reveal_strlit("\\(");
        reveal_strlit("\\)");
        reveal_strlit("\\|");
        reveal_strlit("\\+");
        reveal_strlit("\\{");
        reveal_strlit("\\}");
        reveal_strlit("\\d");
        reveal_strlit("\\w");
        reveal_strlit("\\s");
        reveal_strlit("\\b");
    }
    let out: Vec<&'static str> = vec![
        "\\(",
        "\\)",
        "\\|",
        "\\+",
        "\\{",
        "\\}",
        "\\d",
        "\\w",
        "\\s",
        "\\b",
    ];
    assert(out@.map_values(|p: &str| p@) =~= escape_patterns());
    out
}

/// The patterns of `patterns` that occur in `query`.
pub open spec fn occurring(query: Seq<char>, patterns: Seq<Seq<char>>) -> Seq<Seq<char>>
    decreases patterns.len(),
{
    if patterns.len() == 0 {
        seq![]
    } else if search::has_sub(query, patterns.last()) {
        occurring(query, patterns.drop_last()).push(patterns.last())
    } else {
        occurring(query, patterns.drop_last())
    }
}

fn find_patterns(query: &[char], patterns: &[&'static str]) -> (out: Vec<String>)
    ensures
        text::texts(out@) == occurring(query@, patterns@.map_values(|p: &str| p@)),
{
    let ghost all = patterns@.map_values(|p: &str| p@);
    let mut out: Vec<String> = Vec::new();
    let mut i: usize = 0;
    assert(all.take(0) =~= seq![]);
    assert(text::texts(out@) =~= seq![]);
    while i < patterns.len()
        invariant
            all == patterns@.map_values(|p: &str| p@),
            i <= patterns@.len(),
            text::texts(out@) == occurring(query@, all.take(i as int)),
        decreases patterns@.len() - i,
    {
        proof {
            assert(all.take(i + 1).drop_last() =~= all.take(i as int));
            assert(all.take(i + 1).last() == patterns@[i as int]@);
        }
        if search::contains_sub(query, patterns[i]) {
            let ghost before = text::texts(out@);
            out.push(patterns[i].to_owned());
            assert(text::texts(out@) =~= before.push(patterns@[i as int]@));
        }
        i += 1;
    }
    assert(all.take(i as int) =~= all);
    out
}

/// `s` with each of the patterns, one after the other, replaced by `to`.
pub open spec fn all_replaced(s: Seq<char>, patterns: Seq<Seq<char>>, to: Seq<char>) -> Seq<char>
    decreases patterns.len(),
{
    if patterns.len() == 0 {
        s
    } else {
        pieces::replaced(all_replaced(s, patterns.drop_last(), to), patterns.last(), to)
    }
}

/// `s` with each of the patterns replaced, and without brackets.
pub open spec fn scrubbed(s: Seq<char>, patterns: Seq<Seq<char>>, to: Seq<char>) -> Seq<char> {
    pieces::without_chars(all_replaced(s, patterns, to), '[', ']')
}

fn scrub(s: &[char], patterns: &[&'static str], to: &str) -> (out: Vec<char>)
    requires
        forall|i: int| 0 <= i < patterns@.len() ==> (#[trigger] patterns@[i])@.len() > 0,
    ensures
        out@ == scrubbed(s@, patterns@.map_values(|p: &str| p@), to@),
{
    let ghost all = patterns@.map_values(|p: &str| p@);
    let mut current: Vec<char> = Vec::new();
    pieces::push_all(&mut current, s);
    let mut i: usize = 0;
    assert(all.take(0) =~= seq![]);
    assert(current@ =~= s@);
    while i < patterns.len()
        invariant
            all == patterns@.map_values(|p: &str| p@),
            forall|k: int| 0 <= k < patterns@.len() ==> (#[trigger] patterns@[k])@.len() > 0,
            i <= patterns@.len(),
            current@ == all_replaced(s@, all.take(i as int), to@),
        decreases patterns@.len() - i,
    {
        proof {
            assert(all.take(i + 1).drop_last() =~= all.take(i as int));
            assert(all.take(i + 1).last() == patterns@[i as int]@);
        }
        current = pieces::replace(current.as_slice(), patterns[i], to);
        i += 1;
    }
    assert(all.take(i as int) =~= all);
    pieces::drop_chars(current.as_slice(), '[', ']')
}

/// `s` holds regex syntax.
pub open spec fn has_regex(s: Seq<char>) -> bool {
    occurring(s, regex_patterns()).len() > 0
}

fn holds_regex(s: &[char]) -> (r: bool)
    ensures
        r == has_regex(s@),
{
    let patterns = list_regex_patterns();
    let found = find_patterns(s, patterns.as_slice());
    assert(text::texts(found@).len() == found@.len());
    found.len() > 0
}

/// The words of `s` with spaces in place of regex syntax. What is left may come
/// together to new syntax.
pub open spec fn scrubbed_words(s: Seq<char>) -> Seq<char> {
    pieces::joined(pieces::words_of(scrubbed(s, escape_patterns(), " "@)), " "@)
}

/// The query in plain words: scrubbed until no regex syntax is left. Nothing
/// where scrubbing does not get further.
pub open spec fn plain_words(query: Seq<char>) -> Seq<char>
    decreases query.len(),
{
    let words = scrubbed_words(query);
    if !has_regex(words) {
        words
    } else if words.len() < query.len() {
        plain_words(words)
    } else {
        seq![]
    }
}

fn write_plain_words(query: &[char]) -> (out: Vec<char>)
    ensures
        out@ == plain_words(query@),
    decreases query@.len(),
{
    let escapes = list_escape_patterns();
    let scrubbed_query = scrub(query, escapes.as_slice(), " ");
    let words = pieces::split_words(scrubbed_query.as_slice());
    let joined = pieces::join(words.as_slice(), " ");
    let plain = text::chars_of(joined.as_str());
    if !holds_regex(plain.as_slice()) {
        plain
    } else if plain.len() < query.len() {
        write_plain_words(plain.as_slice())
    } else {
        let none: Vec<char> = Vec::new();
        assert(none@ =~= seq![]);
        none
    }
}

/// An alternative without regex syntax. What is left may come together to new
/// syntax.
pub open spec fn scrubbed_part(part: Seq<char>) -> Seq<char> {
    text::trimmed(scrubbed(text::trimmed(part), escape_patterns(), ""@))
}

/// An alternative, scrubbed until no regex syntax is left. Nothing where
/// scrubbing does not get further.
pub open spec fn plain_part(part: Seq<char>) -> Seq<char>
    decreases part.len(),
{
    let rest = scrubbed_part(part);
    if !has_regex(rest) {
        rest
    } else if rest.len() < part.len() {
        plain_part(rest)
    } else {
        seq![]
    }
}

fn write_plain_part(part: &[char]) -> (out: Vec<char>)
    ensures
        out@ == plain_part(part@),
    decreases part@.len(),
{
    let escapes = list_escape_patterns();
    let scrubbed_text = scrub(text::trim(part), escapes.as_slice(), "");
    let rest = text::trim(scrubbed_text.as_slice());
    if !holds_regex(rest) {
        let mut out: Vec<char> = Vec::new();
        pieces::push_all(&mut out, rest);
        assert(out@ =~= rest@);
        out
    } else if rest.len() < part.len() {
        write_plain_part(rest)
    } else {
        let none: Vec<char> = Vec::new();
        assert(none@ =~= seq![]);
        none
    }
}

/// The alternatives of a query, cleaned, those that are not empty.
pub open spec fn alternatives(parts: Seq<Seq<char>>) -> Seq<Seq<char>>
    decreases parts.len(),
{
    if parts.len() == 0 {
        seq![]
    } else {
        let before = alternatives(parts.drop_last());
        let cleaned = plain_part(parts.last());
        if cleaned.len() == 0 {
            before
        } else {
            before.push(cleaned)
        }
    }
}

fn clean_alternatives(parts: &[&[char]]) -> (out: Vec<String>)
    ensures
        text::texts(out@) == alternatives(text::views(parts@)),
{
    let ghost all = text::views(parts@);
    let mut out: Vec<String> = Vec::new();
    let mut i: usize = 0;
    assert(all.take(0) =~= seq![]);
    assert(text::texts(out@) =~= seq![]);
    while i < parts.len()
        invariant
            all == text::views(parts@),
            i <= parts@.len(),
            text::texts(out@) == alternatives(all.take(i as int)),
        decreases parts@.len() - i,
    {
        proof {
            assert(all.take(i + 1).drop_last() =~= all.take(i as int));
            assert(all.take(i + 1).last() == parts@[i as int]@);
        }
        let cleaned = write_plain_part(parts[i]);
        if cleaned.len() != 0 {
            let ghost before = text::texts(out@);
            out.push(text::string_of(cleaned.as_slice()));
            assert(text::texts(out@) =~= before.push(cleaned@));
        }
        i += 1;
    }
    assert(all.take(i as int) =~= all);
    out
}

/// The queries that are proposed in place of one with regex syntax: its
/// alternatives where it has several, else its plain words.
pub open spec fn proposals(query: Seq<char>) -> Seq<Seq<char>> {
    let cleaned = alternatives(pieces::pieces_of(query, "\\|"@));
    if search::has_sub(query, "\\|"@) && cleaned.len() > 1 {
        cleaned
    } else if plain_words(query).len() == 0 {
        seq![]
    } else {
        seq![plain_words(query)]
    }
}

fn list_proposals(query: &[char]) -> (out: Vec<String>)
    ensures
        text::texts(out@) == proposals(query@),
{
    if search::contains_sub(query, "\\|") {
        proof {
            reveal_strlit("\\|");
        }
        let parts = pieces::split_on(query, "\\|");
        let cleaned = clean_alternatives(parts.as_slice());
        assert(text::texts(cleaned@).len() == cleaned@.len());
        if cleaned.len() > 1 {
            return cleaned;
        }
    }
    let plain = write_plain_words(query);
    let mut out: Vec<String> = Vec::new();
    if plain.len() > 0 {
        out.push(text::string_of(plain.as_slice()));
    }
    assert(text::texts(out@) =~= proposals(query@));
    out
}

/// One search per query.
pub open spec fn search_commands(cleaned: Seq<Seq<char>>) -> Seq<Seq<char>> {
    cleaned.map_values(|c: Seq<char>| "ctxl search <handle> \""@ + c + "\""@)
}

fn list_search_commands(cleaned: &[String]) -> (out: Vec<String>)
    ensures
        text::texts(out@) == search_commands(text::texts(cleaned@)),
{
    let ghost all = search_commands(text::texts(cleaned@));
    let mut out: Vec<String> = Vec::new();
    let mut i: usize = 0;
    while i < cleaned.len()
        invariant
            all == search_commands(text::texts(cleaned@)),
            i <= cleaned@.len(),
            text::texts(out@) == all.take(i as int),
        decreases cleaned@.len() - i,
    {
        let ghost before = text::texts(out@);
        let mut s = "ctxl search <handle> \"".to_owned();
        s.append(cleaned[i].as_str());
        s.append("\"");
        out.push(s);
        i += 1;
        assert(text::texts(out@) =~= before.push(s@));
        assert(text::texts(out@) =~= all.take(i as int));
    }
    assert(all.take(i as int) =~= all);
    out
}

/// The head of every message on regex syntax.
pub open spec fn regex_note(query: Seq<char>) -> Seq<char> {
    "query contains regex syntax ("@ + pieces::joined(occurring(query, regex_patterns()), ", "@)
        + ") which FTS5 does not support"@
}

/// The message on the regex syntax of a query, where it holds any.
pub open spec fn regex_message(query: Seq<char>) -> Option<Seq<char>> {
    if !has_regex(query) {
        None
    } else if proposals(query).len() == 0 {
        Some(regex_note(query))
    } else {
        Some(
            regex_note(query) + ". Try: "@ + pieces::joined(
                search_commands(proposals(query)),
                " or "@,
            ),
        )
    }
}

/// Detect regex metacharacters in a query string.
///
/// Returns `Some(suggestion)` with a corrected syntax suggestion when regex
/// syntax is detected, or `None` when the query is clean.
pub fn detect_regex_metacharacters(query: &str) -> (r: Option<String>)
    ensures
        match r {
            Some(m) => regex_message(query@) == Some(m@),
            None => regex_message(query@) is None,
        },
{
    let chars = text::chars_of(query);
    let patterns = list_regex_patterns();
    let found = find_patterns(chars.as_slice(), patterns.as_slice());
    assert(text::texts(found@).len() == found@.len());
    if found.len() == 0 {
        return None;
    }
    let display = pieces::join_strings(found.as_slice(), ", ");
    let mut message = "query contains regex syntax (".to_owned();
    message.append(display.as_str());
    message.append(") which FTS5 does not support");
    let proposed = list_proposals(chars.as_slice());
    assert(text::texts(proposed@).len() == proposed@.len());
    if proposed.len() > 0 {
        let commands = list_search_commands(proposed.as_slice());
        let list = pieces::join_strings(commands.as_slice(), " or ");
        message.append(". Try: ");
        message.append(list.as_str());
    }
    Some(message)
}

proof fn lemma_plain_words(query: Seq<char>)
    requires
        plain_words(query).len() > 0,
    ensures
        !has_regex(plain_words(query)),
    decreases query.len(),
{
    let words = scrubbed_words(query);
    if has_regex(words) && words.len() < query.len() {
        lemma_plain_words(words);
    }
}

proof fn lemma_plain_part(part: Seq<char>)
    requires
        plain_part(part).len() > 0,
    ensures
        !has_regex(plain_part(part)),
    decreases part.len(),
{
    let rest = scrubbed_part(part);
    if has_regex(rest) && rest.len() < part.len() {
        lemma_plain_part(rest);
    }
}

proof fn lemma_alternatives(parts: Seq<Seq<char>>)
    ensures
        forall|i: int|
            0 <= i < alternatives(parts).len() ==> !has_regex(#[trigger] alternatives(parts)[i]),
    decreases parts.len(),
{
    if parts.len() > 0 {
        lemma_alternatives(parts.drop_last());
        if plain_part(parts.last()).len() > 0 {
            lemma_plain_part(parts.last());
        }
        let before = alternatives(parts.drop_last());
        assert forall|i: int| 0 <= i < alternatives(parts).len() implies !has_regex(
            #[trigger] alternatives(parts)[i],
        ) by {
            if i < before.len() {
                assert(alternatives(parts)[i] == before[i]);
            }
        }
    }
}

/// Every query that is proposed is itself free of regex syntax.
pub proof fn lemma_proposals_are_plain(query: Seq<char>, i: int)
    requires
        0 <= i < proposals(query).len(),
    ensures
        regex_message(proposals(query)[i]) is None,
{
    lemma_alternatives(pieces::pieces_of(query, "\\|"@));
    if plain_words(query).len() > 0 {
        lemma_plain_words(query);
    }
}

} // verus!
