//! Laws of search queries.

use crate::laws::find as find_laws;
use crate::laws::text as text_laws;
use crate::pieces;
use crate::query;
use crate::search;
use vstd::prelude::*;
use vstd::string::*;

verus! {

/// The syntax of regular expressions that a query must not hold.
pub open spec fn refused_syntax() -> Seq<Seq<char>> {
    seq![
        "\\("@,
        "\\)"@,
        "\\|"@,
        "\\+"@,
        "\\{"@,
        "\\}"@,
        "["@,
        "]"@,
        "\\d"@,
        "\\w"@,
        "\\s"@,
        "\\b"@,
    ]
}

/// The patterns that are found are those that stand in the query, in order.
pub proof fn lemma_occurring(q: Seq<char>, patterns: Seq<Seq<char>>)
    ensures
        query::occurring(q, patterns) == patterns.filter(
            |p: Seq<char>| find_laws::holds(q, p),
        ),
    decreases patterns.len(),
{
    reveal(Seq::filter);
    if patterns.len() > 0 {
        lemma_occurring(q, patterns.drop_last());
        find_laws::lemma_holds(q, patterns.last());
    }
}

/// A query is refused exactly where it holds some of the syntax.
pub proof fn lemma_refused(q: Seq<char>)
    ensures
        query::regex_message(q) is Some <==> exists|i: int|
            0 <= i < refused_syntax().len() && find_laws::holds(q, #[trigger] refused_syntax()[i]),
{
    let patterns = refused_syntax();
    let found = query::occurring(q, patterns);
    let pick = |p: Seq<char>| find_laws::holds(q, p);
    assert(patterns =~= query::regex_patterns());
    lemma_occurring(q, patterns);
    lemma_filter(patterns, pick);
    if found.len() > 0 {
        let p = found[0];
        assert(patterns.filter(pick).contains(p));
        let i = patterns.index_of(p);
        assert(find_laws::holds(q, patterns[i]));
    }
    if exists|i: int| 0 <= i < patterns.len() && find_laws::holds(q, #[trigger] patterns[i]) {
        let i = choose|i: int|
            0 <= i < patterns.len() && find_laws::holds(q, #[trigger] patterns[i]);
        assert(pick(patterns[i]));
        assert(found.contains(patterns[i]));
    }
}

proof fn lemma_filter(s: Seq<Seq<char>>, f: spec_fn(Seq<char>) -> bool)
    ensures
        forall|k: int|
            0 <= k < s.filter(f).len() ==> s.contains(#[trigger] s.filter(f)[k]) && f(
                s.filter(f)[k],
            ),
        forall|k: int| 0 <= k < s.len() && f(s[k]) ==> s.filter(f).contains(#[trigger] s[k]),
    decreases s.len(),
{
    reveal(Seq::filter);
    if s.len() > 0 {
        let head = s.drop_last();
        let kept = s.filter(f);
        lemma_filter(head, f);
        assert forall|k: int| 0 <= k < kept.len() implies s.contains(#[trigger] kept[k]) && f(
            kept[k],
        ) by {
            if k < head.filter(f).len() {
                assert(kept[k] == head.filter(f)[k]);
                let j = head.index_of(kept[k]);
                assert(s[j] == kept[k]);
            } else {
                assert(s[s.len() - 1] == s.last());
            }
        }
        assert forall|k: int| 0 <= k < s.len() && f(s[k]) implies kept.contains(
            #[trigger] s[k],
        ) by {
            if k < head.len() {
                assert(head[k] == s[k]);
                let j = head.filter(f).index_of(s[k]);
                assert(kept[j] == s[k]);
            } else {
                assert(kept[head.filter(f).len() as int] == s[k]);
            }
        }
    }
}

/// The message names the syntax that was found.
pub proof fn lemma_message_names_syntax(q: Seq<char>)
    requires
        query::regex_message(q) is Some,
    ensures
        ("query contains regex syntax ("@ + pieces::joined(
            refused_syntax().filter(|p: Seq<char>| find_laws::holds(q, p)),
            ", "@,
        ) + ") which FTS5 does not support"@).is_prefix_of(query::regex_message(q)->0),
{
    let patterns = refused_syntax();
    assert(patterns =~= query::regex_patterns());
    lemma_occurring(q, patterns);
    let note = query::regex_note(q);
    let message = query::regex_message(q)->0;
    assert(message.subrange(0, note.len() as int) =~= note);
}

/// A plain query is searched for as it is, without the white space around it, as
/// one phrase.
pub proof fn lemma_plain_phrase(lead: Seq<char>, words: Seq<char>, trail: Seq<char>)
    requires
        text_laws::is_blank(lead),
        text_laws::is_blank(trail),
        text_laws::is_tight(words),
        !words.contains('"') && !words.contains('+') && !words.contains('^'),
        words.len() > 0 ==> words.last() != '*',
    ensures
        query::sanitized(lead + words + trail) == "\""@ + words + "\""@,
{
    text_laws::lemma_trimmed(lead, words, trail);
    lemma_phrase(words);
    text_laws::lemma_trimmed_is(words);
}

/// A plain query with a star at its end is searched for as a prefix.
pub proof fn lemma_prefix_phrase(words: Seq<char>)
    requires
        text_laws::is_tight(words),
        words.len() > 0,
        !words.contains('"') && !words.contains('+') && !words.contains('^'),
    ensures
        query::sanitized(words.push('*')) == "\""@ + words + "\""@ + "*"@,
{
    let q = words.push('*');
    assert(q[0] == words[0]);
    text_laws::lemma_trimmed_is(q);
    assert(q.drop_last() =~= words);
    lemma_phrase(words);
    text_laws::lemma_trimmed_is(words);
}

proof fn lemma_phrase(words: Seq<char>)
    requires
        !words.contains('"') && !words.contains('+') && !words.contains('^'),
    ensures
        pieces::without_chars(pieces::replaced(words, "\""@, "\"\""@), '+', '^') == words,
{
    reveal_strlit("\"");
    search::lemma_sub_index_from(words, "\""@, 0);
    match search::sub_index(words, "\""@) {
        Some(k) => {
            assert(words.subrange(k, k + 1)[0] == words[k]);
            assert(words.contains(words[k]));
        },
        None => {},
    }
    text_laws::lemma_without_chars(words, '+', '^');
    lemma_all_kept(words);
}

proof fn lemma_all_kept(s: Seq<char>)
    requires
        !s.contains('+') && !s.contains('^'),
    ensures
        s.filter(|c: char| c != '+' && c != '^') == s,
    decreases s.len(),
{
    reveal(Seq::filter);
    if s.len() > 0 {
        let head = s.drop_last();
        assert(s.contains(s.last()));
        assert(!head.contains('+') && !head.contains('^')) by {
            assert forall|c: char| head.contains(c) implies s.contains(c) by {
                let k = head.index_of(c);
                assert(s[k] == c);
            }
        }
        lemma_all_kept(head);
        assert(head.push(s.last()) =~= s);
    }
}

/// The alternatives that are proposed are those of the query that are not empty
/// once they are plain, in order.
pub proof fn lemma_alternatives(parts: Seq<Seq<char>>)
    ensures
        query::alternatives(parts) == parts.map_values(
            |p: Seq<char>| query::plain_part(p),
        ).filter(|p: Seq<char>| p.len() > 0),
    decreases parts.len(),
{
    reveal(Seq::filter);
    let plain = parts.map_values(|p: Seq<char>| query::plain_part(p));
    if parts.len() > 0 {
        lemma_alternatives(parts.drop_last());
        assert(plain.drop_last() =~= parts.drop_last().map_values(
            |p: Seq<char>| query::plain_part(p),
        ));
    }
}

/// Two plain alternatives are proposed as two queries.
pub proof fn lemma_two_alternatives(a: Seq<char>, b: Seq<char>)
    requires
        is_plain_query(a),
        is_plain_query(b),
    ensures
        query::proposals(a + "\\|"@ + b) == seq![a, b],
{
    reveal_strlit("\\|");
    let or = "\\|"@;
    let q = a + or + b;
    let k = a.len() as int;
    assert(q.subrange(k, k + 2) =~= or);
    assert(search::stands_at(q, or, k));
    assert forall|j: int| 0 <= j < k implies !search::stands_at(q, or, j) by {
        if search::stands_at(q, or, j) {
            assert(q.subrange(j, j + 2)[0] == q[j]);
            assert(a.contains(a[j]));
        }
    }
    search::lemma_sub_index_from(q, or, 0);
    assert(search::sub_index(q, or) == Some(k));
    assert(q.take(k) =~= a);
    assert(q.skip(k + 2) =~= b);
    search::lemma_sub_index_from(b, or, 0);
    match search::sub_index(b, or) {
        Some(j) => {
            assert(b.subrange(j, j + 2)[0] == b[j]);
            assert(b.contains(b[j]));
        },
        None => {},
    }
    let parts = pieces::pieces_of(q, or);
    assert(pieces::pieces_of(b, or) =~= seq![b]);
    assert(parts =~= seq![a, b]);
    lemma_plain_part_stays(a);
    lemma_plain_part_stays(b);
    lemma_alternatives(parts);
    let plain = parts.map_values(|p: Seq<char>| query::plain_part(p));
    assert(plain =~= seq![a, b]);
    assert(plain.filter(|p: Seq<char>| p.len() > 0) =~= seq![a, b]) by {
        reveal_with_fuel(Seq::filter, 3);
        assert(plain.drop_last() =~= seq![a]);
        assert(plain.drop_last().drop_last() =~= Seq::<Seq<char>>::empty());
    }
}

/// Text without backslashes and brackets, and without white space at its ends.
pub open spec fn is_plain_query(s: Seq<char>) -> bool {
    s.len() > 0 && text_laws::is_tight(s) && !s.contains('\\') && !s.contains('[') && !s.contains(
        ']',
    )
}

/// An alternative without regex syntax stays as it is.
pub proof fn lemma_plain_part_stays(s: Seq<char>)
    requires
        is_plain_query(s),
    ensures
        query::plain_part(s) == s,
{
    text_laws::lemma_trimmed_is(s);
    lemma_no_escapes(s, query::escape_patterns());
    text_laws::lemma_without_chars(s, '[', ']');
    lemma_no_brackets(s);
    lemma_none_found(s, query::regex_patterns());
}

proof fn lemma_escape_starts()
    ensures
        forall|i: int|
            0 <= i < query::escape_patterns().len() ==> (
            #[trigger] query::escape_patterns()[i]).len() > 0 && query::escape_patterns()[i][0]
                == '\\',
        forall|i: int|
            0 <= i < query::regex_patterns().len() ==> (
            #[trigger] query::regex_patterns()[i]).len() > 0 && (query::regex_patterns()[i][0]
                == '\\' || query::regex_patterns()[i][0] == '[' || query::regex_patterns()[i][0]
                == ']'),
{
    reveal_strlit("\\(");
    reveal_strlit("\\)");
    reveal_strlit("\\|");
    reveal_strlit("\\+");
    reveal_strlit("\\{");
    reveal_strlit("\\}");
    reveal_strlit("[");
    reveal_strlit("]");
    reveal_strlit("\\d");
    reveal_strlit("\\w");
    reveal_strlit("\\s");
    reveal_strlit("\\b");
}

proof fn lemma_not_found(s: Seq<char>, p: Seq<char>)
    requires
        p.len() > 0,
        !s.contains(p[0]),
    ensures
        search::sub_index(s, p) is None,
{
    search::lemma_sub_index_from(s, p, 0);
    match search::sub_index(s, p) {
        Some(k) => {
            assert(s.subrange(k, k + p.len())[0] == s[k]);
            assert(s.contains(s[k]));
        },
        None => {},
    }
}

proof fn lemma_no_escapes(s: Seq<char>, patterns: Seq<Seq<char>>)
    requires
        is_plain_query(s),
        patterns == query::escape_patterns(),
    ensures
        query::all_replaced(s, patterns, ""@) == s,
{
    lemma_escape_starts();
    lemma_nothing_replaced(s, patterns);
}

proof fn lemma_nothing_replaced(s: Seq<char>, patterns: Seq<Seq<char>>)
    requires
        !s.contains('\\'),
        forall|i: int|
            0 <= i < patterns.len() ==> (#[trigger] patterns[i]).len() > 0 && patterns[i][0]
                == '\\',
    ensures
        query::all_replaced(s, patterns, ""@) == s,
    decreases patterns.len(),
{
    if patterns.len() > 0 {
        let head = patterns.drop_last();
        assert forall|i: int| 0 <= i < head.len() implies (#[trigger] head[i]).len() > 0
            && head[i][0] == '\\' by {
            assert(head[i] == patterns[i]);
        }
        lemma_nothing_replaced(s, head);
        assert(patterns[patterns.len() - 1] == patterns.last());
        lemma_not_found(s, patterns.last());
    }
}

proof fn lemma_no_brackets(s: Seq<char>)
    requires
        !s.contains('[') && !s.contains(']'),
    ensures
        s.filter(|c: char| c != '[' && c != ']') == s,
    decreases s.len(),
{
    reveal(Seq::filter);
    if s.len() > 0 {
        let head = s.drop_last();
        assert(s.contains(s.last()));
        assert(!head.contains('[') && !head.contains(']')) by {
            assert forall|c: char| head.contains(c) implies s.contains(c) by {
                let k = head.index_of(c);
                assert(s[k] == c);
            }
        }
        lemma_no_brackets(head);
        assert(head.push(s.last()) =~= s);
    }
}

proof fn lemma_none_found(s: Seq<char>, patterns: Seq<Seq<char>>)
    requires
        is_plain_query(s),
        patterns == query::regex_patterns(),
    ensures
        query::occurring(s, patterns).len() == 0,
{
    lemma_escape_starts();
    lemma_none_occurs(s, patterns);
}

proof fn lemma_none_occurs(s: Seq<char>, patterns: Seq<Seq<char>>)
    requires
        is_plain_query(s),
        forall|i: int|
            0 <= i < patterns.len() ==> (#[trigger] patterns[i]).len() > 0 && (patterns[i][0]
                == '\\' || patterns[i][0] == '[' || patterns[i][0] == ']'),
    ensures
        query::occurring(s, patterns).len() == 0,
    decreases patterns.len(),
{
    if patterns.len() > 0 {
        let head = patterns.drop_last();
        assert forall|i: int| 0 <= i < head.len() implies (#[trigger] head[i]).len() > 0 && (
        head[i][0] == '\\' || head[i][0] == '[' || head[i][0] == ']') by {
            assert(head[i] == patterns[i]);
        }
        lemma_none_occurs(s, head);
        assert(patterns[patterns.len() - 1] == patterns.last());
        lemma_not_found(s, patterns.last());
    }
}

} // verus!
