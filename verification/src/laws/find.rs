//! Laws of search.

use crate::number;
use crate::pieces;
use crate::retrieve::find;
use crate::retrieve::window;
use crate::search;
use vstd::prelude::*;
use vstd::string::*;

verus! {

/// A result: the number of a line, counted from one, and the line.
pub open spec fn entry(i: int, line: Seq<char>) -> Seq<char> {
    number::decimal((i + 1) as nat) + ":"@ + line
}

/// `part` stands somewhere in `s`.
pub open spec fn holds(s: Seq<char>, part: Seq<char>) -> bool {
    exists|k: int|
        0 <= k <= s.len() - part.len() && #[trigger] s.subrange(k, k + part.len()) == part
}

/// A line that a full-text match has marked.
pub open spec fn is_marked(line: Seq<char>) -> bool {
    line.contains('\x01')
}

/// A line without the marks of a full-text match.
pub open spec fn plain(line: Seq<char>) -> Seq<char> {
    line.filter(|c: char| c != '\x01' && c != '\x02')
}

/// A search finds a part exactly where it stands somewhere.
pub proof fn lemma_holds(s: Seq<char>, part: Seq<char>)
    ensures
        search::has_sub(s, part) == holds(s, part),
{
    search::lemma_sub_index_from(s, part, 0);
    match search::sub_index(s, part) {
        Some(k) => {
            assert(s.subrange(k, k + part.len()) == part);
        },
        None => {
            if holds(s, part) {
                let k = choose|k: int|
                    0 <= k <= s.len() - part.len() && #[trigger] s.subrange(k, k + part.len())
                        == part;
                assert(search::stands_at(s, part, k));
            }
        },
    }
}

proof fn lemma_marked(line: Seq<char>)
    ensures
        search::has_sub(line, find::MATCH_START@) == is_marked(line),
{
    reveal_strlit("\x01");
    let mark = find::MATCH_START@;
    lemma_holds(line, mark);
    if holds(line, mark) {
        let k = choose|k: int|
            0 <= k <= line.len() - mark.len() && #[trigger] line.subrange(k, k + mark.len())
                == mark;
        assert(line.subrange(k, k + 1)[0] == line[k]);
    }
    if is_marked(line) {
        let k = line.index_of('\x01');
        assert(line.subrange(k, k + 1) =~= mark);
    }
}

/// Replacing one character by nothing drops it.
proof fn lemma_dropped(s: Seq<char>, c: char)
    ensures
        pieces::replaced(s, seq![c], Seq::<char>::empty()) == s.filter(|x: char| x != c),
    decreases s.len(),
{
    let p = seq![c];
    let none = Seq::<char>::empty();
    let keep = |x: char| x != c;
    search::lemma_sub_index_from(s, p, 0);
    match search::sub_index(s, p) {
        Some(k) => {
            let head = s.take(k);
            let rest = s.skip(k + 1);
            assert(s.subrange(k, k + 1)[0] == s[k]);
            assert(s[k] == c);
            assert forall|j: int| 0 <= j < k implies s[j] != c by {
                if s[j] == c {
                    assert(s.subrange(j, j + 1) =~= p);
                    assert(search::stands_at(s, p, j));
                }
            }
            lemma_dropped(rest, c);
            lemma_kept(head, c);
            assert(s =~= (head + seq![c]) + rest);
            Seq::filter_distributes_over_add(head + seq![c], rest, keep);
            Seq::filter_distributes_over_add(head, seq![c], keep);
            assert(seq![c].filter(keep) =~= none) by {
                reveal_with_fuel(Seq::filter, 2);
                assert(seq![c].drop_last() =~= none);
            }
            assert(head + none + pieces::replaced(rest, p, none) =~= s.filter(keep));
        },
        None => {
            assert forall|j: int| 0 <= j < s.len() implies s[j] != c by {
                if s[j] == c {
                    assert(s.subrange(j, j + 1) =~= p);
                    assert(search::stands_at(s, p, j));
                }
            }
            lemma_kept(s, c);
        },
    }
}

proof fn lemma_kept(s: Seq<char>, c: char)
    requires
        forall|j: int| 0 <= j < s.len() ==> s[j] != c,
    ensures
        s.filter(|x: char| x != c) == s,
    decreases s.len(),
{
    reveal(Seq::filter);
    if s.len() > 0 {
        lemma_kept(s.drop_last(), c);
        assert(s.drop_last().push(s.last()) =~= s);
    }
}

proof fn lemma_plain(line: Seq<char>)
    ensures
        find::unmarked(line) == plain(line),
{
    reveal_strlit("\x01");
    reveal_strlit("\x02");
    reveal_strlit("");
    assert(find::MATCH_START@ =~= seq!['\x01']);
    assert(find::MATCH_END@ =~= seq!['\x02']);
    assert(""@ =~= Seq::<char>::empty());
    lemma_dropped(line, '\x01');
    let half = line.filter(|x: char| x != '\x01');
    lemma_dropped(half, '\x02');
    lemma_filter_twice(line);
}

proof fn lemma_filter_twice(s: Seq<char>)
    ensures
        s.filter(|x: char| x != '\x01').filter(|x: char| x != '\x02') == plain(s),
    decreases s.len(),
{
    reveal(Seq::filter);
    if s.len() > 0 {
        lemma_filter_twice(s.drop_last());
        let half = s.drop_last().filter(|x: char| x != '\x01');
        assert(half.push(s.last()).drop_last() =~= half);
    }
}

// ---------------------------------------------------------------------------
// Lines
// ---------------------------------------------------------------------------

/// The positions of the lines that are marked, in order.
pub open spec fn marked_positions(lines: Seq<Seq<char>>) -> Seq<int> {
    Seq::new(lines.len(), |i: int| i).filter(|i: int| is_marked(lines[i]))
}

/// The positions of the lines whose lowercase form holds that of the query, in
/// order.
pub open spec fn matching_positions(lines: Seq<Seq<char>>, q: Seq<char>) -> Seq<int> {
    Seq::new(lines.len(), |i: int| i).filter(
        |i: int| holds(find::lowercase(lines[i]), find::lowercase(q)),
    )
}

/// The lines of marked content that are found: each marked line, and no other,
/// with its number, in order.
pub proof fn lemma_marked_lines(lines: Seq<Seq<char>>)
    ensures
        find::marked_lines(lines) == marked_positions(lines).map_values(
            |i: int| entry(i, plain(lines[i])),
        ),
    decreases lines.len(),
{
    reveal(Seq::filter);
    let all = marked_positions(lines).map_values(|i: int| entry(i, plain(lines[i])));
    if lines.len() == 0 {
        assert(all =~= seq![]);
    } else {
        let n = (lines.len() - 1) as nat;
        let head = lines.drop_last();
        lemma_marked_lines(head);
        lemma_marked(lines.last());
        lemma_plain(lines.last());
        let pick = |i: int| is_marked(lines[i]);
        let head_pick = |i: int| is_marked(head[i]);
        let counted = Seq::new(n, |i: int| i);
        assert(Seq::new(lines.len(), |i: int| i).drop_last() =~= counted);
        lemma_filter_agrees(counted, pick, head_pick);
        assert(counted.filter(pick) == marked_positions(head));
        lemma_positions_in(counted, pick);
        let before = marked_positions(head).map_values(|i: int| entry(i, plain(head[i])));
        assert(before =~= marked_positions(head).map_values(|i: int| entry(i, plain(lines[i]))));
        if is_marked(lines.last()) {
            assert(marked_positions(lines) == marked_positions(head).push(n as int));
            assert(all =~= before.push(entry(n as int, plain(lines.last()))));
        } else {
            assert(marked_positions(lines) == marked_positions(head));
            assert(all =~= before);
        }
    }
}

proof fn lemma_filter_agrees(s: Seq<int>, f: spec_fn(int) -> bool, g: spec_fn(int) -> bool)
    requires
        forall|k: int| 0 <= k < s.len() ==> f(#[trigger] s[k]) == g(s[k]),
    ensures
        s.filter(f) == s.filter(g),
    decreases s.len(),
{
    reveal(Seq::filter);
    if s.len() > 0 {
        let head = s.drop_last();
        assert forall|k: int| 0 <= k < head.len() implies f(#[trigger] head[k]) == g(head[k]) by {
            assert(head[k] == s[k]);
        }
        lemma_filter_agrees(head, f, g);
        assert(f(s[s.len() - 1]) == g(s[s.len() - 1]));
    }
}

proof fn lemma_positions_in(s: Seq<int>, f: spec_fn(int) -> bool)
    ensures
        forall|k: int| 0 <= k < s.filter(f).len() ==> s.contains(#[trigger] s.filter(f)[k]),
    decreases s.len(),
{
    reveal(Seq::filter);
    if s.len() > 0 {
        let head = s.drop_last();
        lemma_positions_in(head, f);
        assert forall|k: int| 0 <= k < s.filter(f).len() implies s.contains(
            #[trigger] s.filter(f)[k],
        ) by {
            if k < head.filter(f).len() {
                let x = head.filter(f)[k];
                assert(head.contains(x));
                let j = head.index_of(x);
                assert(s[j] == x);
            } else {
                assert(s[s.len() - 1] == s.last());
            }
        }
    }
}

/// The lines that hold the query in any case: each of them, and no other, with
/// its number, in order.
pub proof fn lemma_substring_lines(content: Seq<char>, q: Seq<char>)
    ensures
        find::substring_lines(content, q) == matching_positions(
            pieces::lines_of(content),
            q,
        ).map_values(|i: int| entry(i, pieces::lines_of(content)[i])),
{
    lemma_holding(pieces::lines_of(content), q);
}

proof fn lemma_holding(lines: Seq<Seq<char>>, q: Seq<char>)
    ensures
        find::holding_lines(lines, find::lowered_lines(lines), find::lowercase(q))
            == matching_positions(lines, q).map_values(|i: int| entry(i, lines[i])),
    decreases lines.len(),
{
    reveal(Seq::filter);
    let all = matching_positions(lines, q).map_values(|i: int| entry(i, lines[i]));
    if lines.len() == 0 {
        assert(all =~= seq![]);
    } else {
        let n = (lines.len() - 1) as nat;
        let head = lines.drop_last();
        lemma_holding(head, q);
        assert(find::lowered_lines(lines).drop_last() =~= find::lowered_lines(head));
        lemma_holds(find::lowercase(lines.last()), find::lowercase(q));
        let pick = |i: int| holds(find::lowercase(lines[i]), find::lowercase(q));
        let head_pick = |i: int| holds(find::lowercase(head[i]), find::lowercase(q));
        let counted = Seq::new(n, |i: int| i);
        assert(Seq::new(lines.len(), |i: int| i).drop_last() =~= counted);
        lemma_filter_agrees(counted, pick, head_pick);
        lemma_positions_in(counted, pick);
        let before = matching_positions(head, q).map_values(|i: int| entry(i, head[i]));
        assert(before =~= matching_positions(head, q).map_values(|i: int| entry(i, lines[i])));
        if pick(n as int) {
            assert(matching_positions(lines, q) == matching_positions(head, q).push(n as int));
            assert(all =~= before.push(entry(n as int, lines.last())));
        } else {
            assert(matching_positions(lines, q) == matching_positions(head, q));
            assert(all =~= before);
        }
    }
}

// ---------------------------------------------------------------------------
// Search in one handle
// ---------------------------------------------------------------------------

/// Line `i` of the content as the full-text match marks it is marked, and `e` is
/// the result for it.
pub open spec fn marked_result(marked: Seq<char>, i: int, e: Seq<char>) -> bool {
    let lines = pieces::lines_of(marked);
    0 <= i < lines.len() && is_marked(lines[i]) && e == entry(i, plain(lines[i]))
}

/// The lowercase form of line `i` of the content holds that of the query, and
/// `e` is the result for it.
pub open spec fn matching_result(
    content: Seq<char>,
    q: Seq<char>,
    i: int,
    e: Seq<char>,
) -> bool {
    let lines = pieces::lines_of(content);
    0 <= i < lines.len() && holds(find::lowercase(lines[i]), find::lowercase(q)) && e == entry(
        i,
        lines[i],
    )
}

proof fn lemma_marked_results(marked: Seq<char>)
    ensures
        forall|e: Seq<char>|
            find::marked_lines(pieces::lines_of(marked)).contains(e) <==> exists|i: int|
                #[trigger]
                marked_result(marked, i, e),
{
    let lines = pieces::lines_of(marked);
    let found = find::marked_lines(lines);
    let places = marked_positions(lines);
    let counted = Seq::new(lines.len(), |i: int| i);
    let pick = |i: int| is_marked(lines[i]);
    lemma_marked_lines(lines);
    lemma_picked(counted, pick);
    assert forall|e: Seq<char>| found.contains(e) <==> exists|i: int| #[trigger]
        marked_result(marked, i, e) by {
        if found.contains(e) {
            let k = found.index_of(e);
            assert(marked_result(marked, places[k], e));
        }
        if exists|i: int| #[trigger] marked_result(marked, i, e) {
            let i = choose|i: int| #[trigger] marked_result(marked, i, e);
            assert(counted[i] == i);
            assert(places.contains(counted[i]));
            let k = places.index_of(i);
            assert(found[k] == e);
        }
    }
}

proof fn lemma_matching_results(content: Seq<char>, q: Seq<char>)
    ensures
        forall|e: Seq<char>|
            find::substring_lines(content, q).contains(e) <==> exists|i: int|
                #[trigger]
                matching_result(content, q, i, e),
{
    let lines = pieces::lines_of(content);
    let found = find::substring_lines(content, q);
    let places = matching_positions(lines, q);
    let counted = Seq::new(lines.len(), |i: int| i);
    let pick = |i: int| holds(find::lowercase(lines[i]), find::lowercase(q));
    lemma_substring_lines(content, q);
    lemma_picked(counted, pick);
    assert forall|e: Seq<char>| found.contains(e) <==> exists|i: int| #[trigger]
        matching_result(content, q, i, e) by {
        if found.contains(e) {
            let k = found.index_of(e);
            assert(matching_result(content, q, places[k], e));
        }
        if exists|i: int| #[trigger] matching_result(content, q, i, e) {
            let i = choose|i: int| #[trigger] matching_result(content, q, i, e);
            assert(counted[i] == i);
            assert(places.contains(counted[i]));
            let k = places.index_of(i);
            assert(found[k] == e);
        }
    }
}

pub(crate) proof fn lemma_picked(s: Seq<int>, f: spec_fn(int) -> bool)
    ensures
        forall|k: int|
            0 <= k < s.filter(f).len() ==> s.contains(#[trigger] s.filter(f)[k]) && f(
                s.filter(f)[k],
            ),
        forall|k: int| 0 <= k < s.len() && f(s[k]) ==> s.filter(f).contains(#[trigger] s[k]),
    decreases s.len(),
{
    lemma_positions_in(s, f);
    reveal(Seq::filter);
    if s.len() > 0 {
        let head = s.drop_last();
        lemma_picked(head, f);
        assert forall|k: int| 0 <= k < s.filter(f).len() implies f(#[trigger] s.filter(f)[k]) by {
            if k < head.filter(f).len() {
                assert(s.filter(f)[k] == head.filter(f)[k]);
            }
        }
        assert forall|k: int| 0 <= k < s.len() && f(s[k]) implies s.filter(f).contains(
            #[trigger] s[k],
        ) by {
            if k < head.len() {
                assert(head[k] == s[k]);
                let j = head.filter(f).index_of(s[k]);
                assert(s.filter(f)[j] == s[k]);
            } else {
                assert(s.filter(f)[head.filter(f).len() as int] == s[k]);
            }
        }
    }
}

/// A search in one handle: every result comes from a line that the full-text
/// match marks, or, where it marks none, from a line that holds the query in any
/// case. A search with fewer results than it may give leaves none of these lines
/// out.
pub proof fn lemma_search_complete(
    content: Seq<char>,
    highlighted: Option<Seq<char>>,
    q: Seq<char>,
    limit: nat,
)
    requires
        content.len() > 0,
        limit > 0,
    ensures
        ({
            let found = find::found_lines(content, highlighted, q, limit);
            let any_marked = highlighted matches Some(h) && exists|i: int, e: Seq<char>|
                #[trigger]
                marked_result(h, i, e);
            &&& any_marked ==> {
                &&& forall|e: Seq<char>| #[trigger]
                    found.contains(e) ==> exists|i: int| #[trigger]
                        marked_result(highlighted->0, i, e)
                &&& found.len() < limit ==> forall|i: int, e: Seq<char>| #[trigger]
                    marked_result(highlighted->0, i, e) ==> found.contains(e)
            }
            &&& !any_marked ==> {
                &&& forall|e: Seq<char>| #[trigger]
                    found.contains(e) ==> exists|i: int| #[trigger]
                        matching_result(content, q, i, e)
                &&& found.len() < limit ==> forall|i: int, e: Seq<char>| #[trigger]
                    matching_result(content, q, i, e) ==> found.contains(e)
            }
        }),
{
    let found = find::found_lines(content, highlighted, q, limit);
    lemma_matching_results(content, q);
    let held = find::substring_lines(content, q);
    lemma_first_of(held, limit);
    match highlighted {
        Some(h) => {
            lemma_marked_results(h);
            let marked = find::marked_lines(pieces::lines_of(h));
            lemma_first_of(marked, limit);
            if exists|i: int, e: Seq<char>| #[trigger] marked_result(h, i, e) {
                let (i, e) = choose|i: int, e: Seq<char>| #[trigger] marked_result(h, i, e);
                assert(marked.contains(e));
                assert(found == window::first_of(marked, limit));
            } else {
                if marked.len() > 0 {
                    assert(marked.contains(marked[0]));
                    let i = choose|i: int| #[trigger] marked_result(h, i, marked[0]);
                    assert(marked_result(h, i, marked[0]));
                }
                assert(found == window::first_of(held, limit));
            }
        },
        None => {
            assert(found == window::first_of(held, limit));
        },
    }
}

proof fn lemma_first_of<T>(s: Seq<T>, n: nat)
    ensures
        forall|x: T| #[trigger] window::first_of(s, n).contains(x) ==> s.contains(x),
        window::first_of(s, n).len() < n ==> window::first_of(s, n) == s,
        n > 0 && s.len() > 0 ==> window::first_of(s, n).len() > 0,
{
    let t = window::first_of(s, n);
    assert forall|x: T| #[trigger] t.contains(x) implies s.contains(x) by {
        let k = t.index_of(x);
        assert(s[k] == x);
    }
}

/// A search that may give fewer results gives the first of those that one that
/// may give more gives.
pub proof fn lemma_smaller_limit(
    content: Seq<char>,
    highlighted: Option<Seq<char>>,
    q: Seq<char>,
    small: nat,
    large: nat,
)
    requires
        0 < small <= large,
    ensures
        ({
            let few = find::found_lines(content, highlighted, q, small);
            let many = find::found_lines(content, highlighted, q, large);
            if many.len() <= small {
                few == many
            } else {
                few == many.take(small as int)
            }
        }),
{
    let held = find::substring_lines(content, q);
    let marked = match highlighted {
        Some(h) => find::marked_lines(pieces::lines_of(h)),
        None => seq![],
    };
    let few = find::found_lines(content, highlighted, q, small);
    let many = find::found_lines(content, highlighted, q, large);
    let source = if content.len() == 0 {
        seq![]
    } else if marked.len() > 0 {
        marked
    } else {
        held
    };
    assert(few == window::first_of(source, small));
    assert(many == window::first_of(source, large));
    if source.len() > large {
        assert(source.take(large as int).take(small as int) =~= source.take(small as int));
    }
}

// ---------------------------------------------------------------------------
// Search in all handles
// ---------------------------------------------------------------------------

/// Row `r`, one of the first ten, has a marked line `i`, and `m` is the result
/// for it: the handle and tool of the row and the line.
pub open spec fn marked_in_row(
    rows: Seq<(Seq<char>, Seq<char>, Seq<char>)>,
    r: int,
    i: int,
    m: (Seq<char>, Seq<char>, Seq<char>),
) -> bool {
    0 <= r < rows.len() && r < 10 && m.0 == rows[r].0 && m.1 == rows[r].1 && marked_result(
        rows[r].2,
        i,
        m.2,
    )
}

/// Row `r`, one of the first ten, has a line `i` that holds the query in any
/// case, and `m` is the result for it.
pub open spec fn matching_in_row(
    rows: Seq<(Seq<char>, Seq<char>, Seq<char>)>,
    q: Seq<char>,
    r: int,
    i: int,
    m: (Seq<char>, Seq<char>, Seq<char>),
) -> bool {
    0 <= r < rows.len() && r < 10 && m.0 == rows[r].0 && m.1 == rows[r].1 && matching_result(
        rows[r].2,
        q,
        i,
        m.2,
    )
}

/// What rows hold is what each of them holds.
proof fn lemma_rows(
    rows: Seq<(Seq<char>, Seq<char>, Seq<char>)>,
    q: Option<Seq<char>>,
)
    ensures
        forall|m: (Seq<char>, Seq<char>, Seq<char>)| #[trigger]
            find::all_matches(rows, q).contains(m) <==> exists|r: int|
                0 <= r < rows.len() && m.0 == (#[trigger] rows[r]).0 && m.1 == rows[r].1
                    && find::row_lines(rows[r].2, q).contains(m.2),
    decreases rows.len(),
{
    let all = find::all_matches(rows, q);
    if rows.len() > 0 {
        let head = rows.drop_last();
        let row = rows.last();
        lemma_rows(head, q);
        let before = find::all_matches(head, q);
        let own = find::row_matches(row, q);
        let lines = find::row_lines(row.2, q);
        assert forall|m: (Seq<char>, Seq<char>, Seq<char>)| #[trigger]
            all.contains(m) <==> exists|r: int|
            0 <= r < rows.len() && m.0 == (#[trigger] rows[r]).0 && m.1 == rows[r].1
                && find::row_lines(rows[r].2, q).contains(m.2) by {
            if all.contains(m) {
                let k = all.index_of(m);
                if k < before.len() {
                    assert(before[k] == m);
                    assert(before.contains(m));
                    let r = choose|r: int|
                        0 <= r < head.len() && m.0 == (#[trigger] head[r]).0 && m.1 == head[r].1
                            && find::row_lines(head[r].2, q).contains(m.2);
                    assert(rows[r] == head[r]);
                } else {
                    let j = k - before.len();
                    assert(own[j] == m);
                    assert(m == (row.0, row.1, lines[j]));
                    assert(lines.contains(m.2));
                    assert(rows[rows.len() - 1] == row);
                }
            }
            if exists|r: int|
                0 <= r < rows.len() && m.0 == (#[trigger] rows[r]).0 && m.1 == rows[r].1
                    && find::row_lines(rows[r].2, q).contains(m.2) {
                let r = choose|r: int|
                    0 <= r < rows.len() && m.0 == (#[trigger] rows[r]).0 && m.1 == rows[r].1
                        && find::row_lines(rows[r].2, q).contains(m.2);
                if r < head.len() {
                    assert(head[r] == rows[r]);
                    assert(before.contains(m));
                    let k = before.index_of(m);
                    assert(all[k] == m);
                } else {
                    let j = lines.index_of(m.2);
                    assert(own[j] == m);
                    assert(all[before.len() + j] == m);
                }
            }
        }
    } else {
        assert(all =~= seq![]);
    }
}

proof fn lemma_marked_rows(rows: Seq<(Seq<char>, Seq<char>, Seq<char>)>)
    ensures
        forall|m: (Seq<char>, Seq<char>, Seq<char>)|
            find::all_matches(window::first_of(rows, 10), None).contains(m) <==> exists|
                r: int,
                i: int,
            | #[trigger] marked_in_row(rows, r, i, m),
{
    let scanned = window::first_of(rows, 10);
    lemma_rows(scanned, None);
    let all = find::all_matches(scanned, None);
    assert forall|m: (Seq<char>, Seq<char>, Seq<char>)| all.contains(m) <==> exists|r: int, i: int|
        #[trigger] marked_in_row(rows, r, i, m) by {
        if all.contains(m) {
            let r = choose|r: int|
                0 <= r < scanned.len() && m.0 == (#[trigger] scanned[r]).0 && m.1 == scanned[r].1
                    && find::row_lines(scanned[r].2, None).contains(m.2);
            assert(rows[r] == scanned[r]);
            lemma_marked_results(rows[r].2);
            let i = choose|i: int| #[trigger] marked_result(rows[r].2, i, m.2);
            assert(marked_in_row(rows, r, i, m));
        }
        if exists|r: int, i: int| #[trigger] marked_in_row(rows, r, i, m) {
            let (r, i) = choose|r: int, i: int| #[trigger] marked_in_row(rows, r, i, m);
            assert(rows[r] == scanned[r]);
            lemma_marked_results(rows[r].2);
            assert(find::row_lines(scanned[r].2, None).contains(m.2));
        }
    }
}

proof fn lemma_matching_rows(rows: Seq<(Seq<char>, Seq<char>, Seq<char>)>, q: Seq<char>)
    ensures
        forall|m: (Seq<char>, Seq<char>, Seq<char>)|
            find::all_matches(window::first_of(rows, 10), Some(q)).contains(m) <==> exists|
                r: int,
                i: int,
            | #[trigger] matching_in_row(rows, q, r, i, m),
{
    let scanned = window::first_of(rows, 10);
    lemma_rows(scanned, Some(q));
    let all = find::all_matches(scanned, Some(q));
    assert forall|m: (Seq<char>, Seq<char>, Seq<char>)| all.contains(m) <==> exists|r: int, i: int|
        #[trigger] matching_in_row(rows, q, r, i, m) by {
        if all.contains(m) {
            let r = choose|r: int|
                0 <= r < scanned.len() && m.0 == (#[trigger] scanned[r]).0 && m.1 == scanned[r].1
                    && find::row_lines(scanned[r].2, Some(q)).contains(m.2);
            assert(rows[r] == scanned[r]);
            lemma_matching_results(rows[r].2, q);
            let i = choose|i: int| #[trigger] matching_result(rows[r].2, q, i, m.2);
            assert(matching_in_row(rows, q, r, i, m));
        }
        if exists|r: int, i: int| #[trigger] matching_in_row(rows, q, r, i, m) {
            let (r, i) = choose|r: int, i: int| #[trigger] matching_in_row(rows, q, r, i, m);
            assert(rows[r] == scanned[r]);
            lemma_matching_results(rows[r].2, q);
            assert(find::row_lines(scanned[r].2, Some(q)).contains(m.2));
        }
    }
}

/// A search in all handles: every result comes from a marked line of one of the
/// first ten rows that the full-text match found, or, where these have none, from
/// a line of one of the ten most recent rows that holds the query in any case. A
/// search with fewer results than it may give leaves none of these lines out.
pub proof fn lemma_search_all_complete(
    marked: Seq<(Seq<char>, Seq<char>, Seq<char>)>,
    recent: Seq<(Seq<char>, Seq<char>, Seq<char>)>,
    q: Seq<char>,
    limit: nat,
)
    requires
        limit > 0,
    ensures
        ({
            let found = find::found_in_all(marked, recent, q, limit);
            let any_marked = exists|r: int, i: int, m: (Seq<char>, Seq<char>, Seq<char>)|
                #[trigger]
                marked_in_row(marked, r, i, m);
            &&& any_marked ==> {
                &&& forall|m: (Seq<char>, Seq<char>, Seq<char>)| #[trigger]
                    found.contains(m) ==> exists|r: int, i: int| #[trigger]
                        marked_in_row(marked, r, i, m)
                &&& found.len() < limit ==> forall|
                    r: int,
                    i: int,
                    m: (Seq<char>, Seq<char>, Seq<char>),
                | #[trigger] marked_in_row(marked, r, i, m) ==> found.contains(m)
            }
            &&& !any_marked ==> {
                &&& forall|m: (Seq<char>, Seq<char>, Seq<char>)| #[trigger]
                    found.contains(m) ==> exists|r: int, i: int| #[trigger]
                        matching_in_row(recent, q, r, i, m)
                &&& found.len() < limit ==> forall|
                    r: int,
                    i: int,
                    m: (Seq<char>, Seq<char>, Seq<char>),
                | #[trigger] matching_in_row(recent, q, r, i, m) ==> found.contains(m)
            }
        }),
{
    let found = find::found_in_all(marked, recent, q, limit);
    lemma_marked_rows(marked);
    lemma_matching_rows(recent, q);
    let first = find::all_matches(window::first_of(marked, 10), None);
    let second = find::all_matches(window::first_of(recent, 10), Some(q));
    lemma_first_of(first, limit);
    lemma_first_of(second, limit);
    if exists|r: int, i: int, m: (Seq<char>, Seq<char>, Seq<char>)| #[trigger]
        marked_in_row(marked, r, i, m) {
        let (r, i, m) = choose|r: int, i: int, m: (Seq<char>, Seq<char>, Seq<char>)| #[trigger]
            marked_in_row(marked, r, i, m);
        assert(first.contains(m));
        assert(found == window::first_of(first, limit));
    } else {
        if first.len() > 0 {
            assert(first.contains(first[0]));
            let (r, i) = choose|r: int, i: int| #[trigger] marked_in_row(marked, r, i, first[0]);
            assert(marked_in_row(marked, r, i, first[0]));
        }
        assert(found == window::first_of(second, limit));
    }
}

/// A search in all handles that may give fewer results gives the first of those
/// that one that may give more gives.
pub proof fn lemma_smaller_limit_in_all(
    marked: Seq<(Seq<char>, Seq<char>, Seq<char>)>,
    recent: Seq<(Seq<char>, Seq<char>, Seq<char>)>,
    q: Seq<char>,
    small: nat,
    large: nat,
)
    requires
        0 < small <= large,
    ensures
        ({
            let few = find::found_in_all(marked, recent, q, small);
            let many = find::found_in_all(marked, recent, q, large);
            if many.len() <= small {
                few == many
            } else {
                few == many.take(small as int)
            }
        }),
{
    let first = find::all_matches(window::first_of(marked, 10), None);
    let second = find::all_matches(window::first_of(recent, 10), Some(q));
    let source = if first.len() > 0 {
        first
    } else {
        second
    };
    assert(find::found_in_all(marked, recent, q, small) == window::first_of(source, small));
    assert(find::found_in_all(marked, recent, q, large) == window::first_of(source, large));
    if source.len() > large {
        assert(source.take(large as int).take(small as int) =~= source.take(small as int));
    }
}

/// The results of rows stand in the order of the rows: those of the first rows,
/// then those of the others.
pub proof fn lemma_rows_in_order(
    a: Seq<(Seq<char>, Seq<char>, Seq<char>)>,
    b: Seq<(Seq<char>, Seq<char>, Seq<char>)>,
    q: Option<Seq<char>>,
)
    ensures
        find::all_matches(a + b, q) == find::all_matches(a, q) + find::all_matches(b, q),
    decreases b.len(),
{
    if b.len() == 0 {
        assert(a + b =~= a);
        assert(find::all_matches(a, q) + find::all_matches(b, q) =~= find::all_matches(a, q));
    } else {
        assert((a + b).drop_last() =~= a + b.drop_last());
        lemma_rows_in_order(a, b.drop_last(), q);
        assert(find::all_matches(a + b, q) =~= find::all_matches(a, q) + find::all_matches(b, q));
    }
}

} // verus!
