//! Laws of code skeletons.

use crate::compress;
use crate::compress::code;
use crate::compress::syntax;
use crate::compress::syntax::NodeView;
use crate::laws::find as find_laws;
use crate::number;
use crate::order;
use crate::pieces;
use vstd::prelude::*;
use vstd::string::*;

verus! {

// ---------------------------------------------------------------------------
// Which rows are left out
// ---------------------------------------------------------------------------

/// Node `p` is the parent of node `i`: the nearest one in front of it that lies
/// less deep.
pub open spec fn is_parent(nodes: Seq<NodeView>, p: int, i: int) -> bool {
    &&& 0 <= p < i < nodes.len()
    &&& nodes[p].depth < nodes[i].depth
    &&& forall|j: int| p < j < i ==> (#[trigger] nodes[j]).depth >= nodes[i].depth
}

/// Node `i` lies below node `o`.
pub open spec fn lies_in(nodes: Seq<NodeView>, o: int, i: int) -> bool {
    &&& 0 <= o < i < nodes.len()
    &&& forall|j: int| o < j <= i ==> (#[trigger] nodes[j]).depth > nodes[o].depth
}

/// The kinds of nodes that define functions.
pub open spec fn definitions(language: Seq<char>) -> Seq<Seq<char>> {
    if language == "rust"@ {
        seq!["function_item"@]
    } else if language == "typescript"@ || language == "tsx"@ || language == "javascript"@
        || language == "jsx"@ {
        seq![
            "function_declaration"@,
            "method_definition"@,
            "function"@,
            "arrow_function"@,
            "generator_function_declaration"@,
            "generator_function"@,
        ]
    } else if language == "python"@ || language == "c"@ || language == "cpp"@ || language
        == "c++"@ || language == "bash"@ || language == "sh"@ {
        seq!["function_definition"@]
    } else if language == "go"@ {
        seq!["function_declaration"@, "method_declaration"@]
    } else if language == "java"@ {
        seq!["method_declaration"@, "constructor_declaration"@]
    } else if language == "ruby"@ {
        seq!["method"@]
    } else {
        seq![]
    }
}

/// The kind of node that holds the statements of a function.
pub open spec fn statements(language: Seq<char>) -> Seq<char> {
    if language == "rust"@ || language == "python"@ || language == "go"@ || language == "java"@ {
        "block"@
    } else if language == "c"@ || language == "cpp"@ || language == "c++"@ || language == "bash"@
        || language == "sh"@ {
        "compound_statement"@
    } else if language == "ruby"@ {
        "body_statement"@
    } else {
        "statement_block"@
    }
}

/// Node `i` holds the statements of the function that node `p` defines.
pub open spec fn is_body_of(nodes: Seq<NodeView>, p: int, i: int, language: Seq<char>) -> bool {
    &&& is_parent(nodes, p, i)
    &&& nodes[i].kind == statements(language)
    &&& definitions(language).contains(nodes[p].kind)
}

/// Node `i` holds the statements of a function that lies in no other.
pub open spec fn is_outermost(nodes: Seq<NodeView>, p: int, i: int, language: Seq<char>) -> bool {
    &&& is_body_of(nodes, p, i, language)
    &&& forall|q: int, o: int| #[trigger]
        is_body_of(nodes, q, o, language) ==> !lies_in(nodes, o, i)
}

/// The row on which the statements open: in Python that of the definition.
pub open spec fn opening_row(nodes: Seq<NodeView>, p: int, i: int, language: Seq<char>) -> nat {
    if language == "python"@ {
        nodes[p].start_row
    } else {
        nodes[i].start_row
    }
}

proof fn lemma_parent(nodes: Seq<NodeView>, i: int)
    requires
        0 <= i < nodes.len(),
    ensures
        forall|p: int| #[trigger]
            is_parent(nodes, p, i) <==> syntax::parent_of(nodes, i) == Some(p),
{
    lemma_above(nodes, nodes[i].depth, i - 1);
    assert forall|p: int| #[trigger] is_parent(nodes, p, i) implies syntax::parent_of(nodes, i)
        == Some(p) by {
        match syntax::parent_of(nodes, i) {
            Some(q) => {
                if q < p {
                    assert(nodes[p].depth >= nodes[i].depth);
                }
                if p < q {
                    assert(nodes[q].depth >= nodes[i].depth);
                }
            },
            None => {
                assert(nodes[p].depth >= nodes[i].depth);
            },
        }
    }
}

proof fn lemma_above(nodes: Seq<NodeView>, depth: nat, j: int)
    requires
        -1 <= j < nodes.len(),
    ensures
        match syntax::above(nodes, depth, j) {
            Some(p) => 0 <= p <= j && nodes[p].depth < depth && (forall|k: int|
                p < k <= j ==> (#[trigger] nodes[k]).depth >= depth),
            None => forall|k: int| 0 <= k <= j ==> (#[trigger] nodes[k]).depth >= depth,
        },
    decreases j + 1,
{
    if j >= 0 && nodes[j].depth >= depth {
        lemma_above(nodes, depth, j - 1);
    }
}

/// The kinds that make a node a body.
proof fn lemma_kinds(language: Seq<char>, kind: Seq<char>, parent: Seq<char>)
    ensures
        code::body_kind(language, kind, parent) == (kind == statements(language) && definitions(
            language,
        ).contains(parent)),
{
    let d = definitions(language);
    reveal_strlit("rust");
    reveal_strlit("typescript");
    reveal_strlit("tsx");
    reveal_strlit("javascript");
    reveal_strlit("jsx");
    reveal_strlit("python");
    reveal_strlit("go");
    reveal_strlit("java");
    reveal_strlit("c");
    reveal_strlit("cpp");
    reveal_strlit("c++");
    reveal_strlit("ruby");
    reveal_strlit("bash");
    reveal_strlit("sh");
    assert("rust"@[0] == 'r' && "rust"@.len() == 4 && "rust"@[2] == 's');
    assert("ruby"@[2] == 'b' && "ruby"@.len() == 4 && "ruby"@[0] == 'r');
    assert("typescript"@.len() == 10 && "javascript"@.len() == 10 && "typescript"@[0] == 't');
    assert("javascript"@[0] == 'j');
    assert("tsx"@.len() == 3 && "tsx"@[0] == 't' && "jsx"@.len() == 3 && "jsx"@[0] == 'j');
    assert("python"@.len() == 6);
    assert("go"@.len() == 2 && "go"@[0] == 'g' && "sh"@.len() == 2 && "sh"@[0] == 's');
    assert("java"@.len() == 4 && "java"@[0] == 'j' && "bash"@.len() == 4 && "bash"@[0] == 'b');
    assert("c"@.len() == 1);
    assert("cpp"@.len() == 3 && "cpp"@[0] == 'c' && "c++"@.len() == 3 && "c++"@[0] == 'c');
    if d.len() > 0 {
        assert(d.contains(d[0]));
    }
    if d.len() > 1 {
        assert(d.contains(d[1]));
    }
    if d.len() > 2 {
        assert(d.contains(d[2]));
        assert(d.contains(d[3]));
        assert(d.contains(d[4]));
        assert(d.contains(d[5]));
    }
}

proof fn lemma_body_at(nodes: Seq<NodeView>, i: int, language: Seq<char>)
    requires
        0 <= i < nodes.len(),
    ensures
        code::is_body_at(nodes, i, language) <==> exists|p: int| #[trigger]
            is_body_of(nodes, p, i, language),
        forall|p: int| #[trigger]
            is_body_of(nodes, p, i, language) ==> code::open_row_at(nodes, i, language)
                == opening_row(nodes, p, i, language),
{
    lemma_parent(nodes, i);
    match syntax::parent_of(nodes, i) {
        Some(p) => {
            assert(is_parent(nodes, p, i));
            lemma_kinds(language, nodes[i].kind, nodes[p].kind);
            if code::is_body_at(nodes, i, language) {
                assert(is_body_of(nodes, p, i, language));
            }
        },
        None => {
            lemma_kinds(language, nodes[i].kind, ""@);
            reveal_strlit("");
            reveal_strlit("function_item");
            reveal_strlit("function_declaration");
            reveal_strlit("method_definition");
            reveal_strlit("function");
            reveal_strlit("arrow_function");
            reveal_strlit("generator_function_declaration");
            reveal_strlit("generator_function");
            reveal_strlit("function_definition");
            reveal_strlit("method_declaration");
            reveal_strlit("constructor_declaration");
            reveal_strlit("method");
            assert(""@.len() == 0);
            assert forall|k: int| 0 <= k < definitions(language).len() implies definitions(
                language,
            )[k].len() > 0 by {}
        },
    }
}

proof fn lemma_subtree_end(nodes: Seq<NodeView>, depth: nat, j: int)
    requires
        0 <= j <= nodes.len(),
    ensures
        j <= syntax::after_subtree(nodes, depth, j) <= nodes.len(),
        forall|k: int|
            j <= k < syntax::after_subtree(nodes, depth, j) ==> (#[trigger] nodes[k]).depth > depth,
        syntax::after_subtree(nodes, depth, j) < nodes.len() ==> nodes[syntax::after_subtree(
            nodes,
            depth,
            j,
        )].depth <= depth,
    decreases nodes.len() - j,
{
    if j < nodes.len() && nodes[j].depth > depth {
        lemma_subtree_end(nodes, depth, j + 1);
    }
}

/// The rows `r` are those of an outermost function at or behind node `i`, with
/// rows between where they open and where they close.
pub open spec fn comes_from(
    nodes: Seq<NodeView>,
    i: int,
    language: Seq<char>,
    r: (nat, nat),
) -> bool {
    exists|p: int, k: int|
        i <= k && #[trigger] is_outermost(nodes, p, k, language) && r == (
            opening_row(nodes, p, k, language),
            nodes[k].end_row,
        ) && r.1 > r.0 + 1
}

proof fn lemma_bodies_from(nodes: Seq<NodeView>, i: int, language: Seq<char>)
    requires
        0 <= i <= nodes.len(),
        forall|q: int, o: int| #[trigger]
            is_body_of(nodes, q, o, language) && o < i ==> !lies_in(nodes, o, i),
    ensures
        forall|r: (nat, nat)|
            code::bodies_from(nodes, i, language).contains(r) <==> #[trigger] comes_from(
                nodes,
                i,
                language,
                r,
            ),
    decreases nodes.len() - i,
{
    let all = code::bodies_from(nodes, i, language);
    if i < nodes.len() {
        lemma_body_at(nodes, i, language);
        if code::is_body_at(nodes, i, language) {
            let p = choose|p: int| #[trigger] is_body_of(nodes, p, i, language);
            let next = syntax::after_subtree(nodes, nodes[i].depth, i + 1);
            lemma_subtree_end(nodes, nodes[i].depth, i + 1);
            let rest = code::bodies_from(nodes, next, language);
            let first = (opening_row(nodes, p, i, language), nodes[i].end_row);
            assert(is_outermost(nodes, p, i, language)) by {
                assert forall|q: int, o: int| #[trigger]
                    is_body_of(nodes, q, o, language) implies !lies_in(nodes, o, i) by {}
            }
            assert forall|q: int, o: int| #[trigger]
                is_body_of(nodes, q, o, language) && o < next implies !lies_in(nodes, o, next) by {
                if lies_in(nodes, o, next) {
                    assert(nodes[next].depth > nodes[o].depth);
                    if o < i {
                        assert(lies_in(nodes, o, i));
                    }
                }
            }
            lemma_bodies_from(nodes, next, language);
            assert forall|r: (nat, nat)| all.contains(r) <==> #[trigger] comes_from(
                nodes,
                i,
                language,
                r,
            ) by {
                assert(comes_from(nodes, next, language, r) == rest.contains(r));
                if first.1 > first.0 + 1 {
                    assert(all == seq![first] + rest);
                    assert(all[0] == first);
                    if rest.contains(r) {
                        let k = rest.index_of(r);
                        assert(all[k + 1] == r);
                    }
                    if all.contains(r) {
                        let k = choose|k: int| 0 <= k < all.len() && all[k] == r;
                        if k > 0 {
                            assert(rest[k - 1] == r);
                        }
                    }
                }
                if comes_from(nodes, i, language, r) {
                    let (q, k) = choose|q: int, k: int|
                        i <= k && #[trigger] is_outermost(nodes, q, k, language) && r == (
                            opening_row(nodes, q, k, language),
                            nodes[k].end_row,
                        ) && r.1 > r.0 + 1;
                    if k == i {
                        assert(is_body_of(nodes, q, i, language));
                        assert(r == first);
                    } else if k < next {
                        assert(lies_in(nodes, i, k));
                        assert(is_body_of(nodes, p, i, language));
                    } else {
                        assert(comes_from(nodes, next, language, r));
                    }
                }
                if rest.contains(r) {
                    assert(comes_from(nodes, next, language, r));
                    let (q, k) = choose|q: int, k: int|
                        next <= k && #[trigger] is_outermost(nodes, q, k, language) && r == (
                            opening_row(nodes, q, k, language),
                            nodes[k].end_row,
                        ) && r.1 > r.0 + 1;
                    assert(is_outermost(nodes, q, k, language));
                }
            }
        } else {
            assert forall|q: int, o: int| #[trigger]
                is_body_of(nodes, q, o, language) && o < i + 1 implies !lies_in(nodes, o, i + 1) by {
                if o == i {
                    assert(code::is_body_at(nodes, i, language));
                } else if lies_in(nodes, o, i + 1) {
                    assert(lies_in(nodes, o, i));
                }
            }
            lemma_bodies_from(nodes, i + 1, language);
            assert forall|r: (nat, nat)| all.contains(r) <==> #[trigger] comes_from(
                nodes,
                i,
                language,
                r,
            ) by {
                assert(comes_from(nodes, i + 1, language, r) == all.contains(r));
                if comes_from(nodes, i, language, r) {
                    let (q, k) = choose|q: int, k: int|
                        i <= k && #[trigger] is_outermost(nodes, q, k, language) && r == (
                            opening_row(nodes, q, k, language),
                            nodes[k].end_row,
                        ) && r.1 > r.0 + 1;
                    assert(is_body_of(nodes, q, k, language));
                    assert(k != i);
                }
                if comes_from(nodes, i + 1, language, r) {
                    let (q, k) = choose|q: int, k: int|
                        i + 1 <= k && #[trigger] is_outermost(nodes, q, k, language) && r == (
                            opening_row(nodes, q, k, language),
                            nodes[k].end_row,
                        ) && r.1 > r.0 + 1;
                    assert(is_outermost(nodes, q, k, language));
                }
            }
        }
    } else {
        assert(all =~= seq![]);
        assert forall|r: (nat, nat)| !(#[trigger] comes_from(nodes, i, language, r)) by {
            if comes_from(nodes, i, language, r) {
                let (q, k) = choose|q: int, k: int|
                    i <= k && #[trigger] is_outermost(nodes, q, k, language) && r == (
                        opening_row(nodes, q, k, language),
                        nodes[k].end_row,
                    ) && r.1 > r.0 + 1;
                assert(is_body_of(nodes, q, k, language));
            }
        }
    }
}

/// What the skeleton leaves out are function bodies, and all of them that lie in
/// no other: every range of rows comes from the statements of an outermost
/// function, and every outermost function with rows between where it opens and
/// where it closes gives one.
pub proof fn lemma_bodies_are_functions(nodes: Seq<NodeView>, language: Seq<char>)
    ensures
        forall|r: (nat, nat)|
            code::by_open_row(code::bodies_from(nodes, 0, language)).contains(r)
                <==> #[trigger] comes_from(nodes, 0, language, r),
{
    let bodies = code::bodies_from(nodes, 0, language);
    lemma_bodies_from(nodes, 0, language);
    let before = |a: (nat, nat), b: (nat, nat)| a.0 < b.0;
    order::lemma_sorted_in_order(bodies, before);
    assert forall|r: (nat, nat)| code::by_open_row(bodies).contains(r) == bodies.contains(r) by {
        broadcast use vstd::seq_lib::group_to_multiset_ensures;

        assert(code::by_open_row(bodies).contains(r) <==> code::by_open_row(
            bodies,
        ).to_multiset().count(r) > 0);
        assert(bodies.contains(r) <==> bodies.to_multiset().count(r) > 0);
    }
}

/// A row is left out exactly where it lies between the row on which an outermost
/// function opens and the row on which it closes. So the row on which a function
/// starts stays, unless it lies in another function.
pub proof fn lemma_rows_left_out(nodes: Seq<NodeView>, language: Seq<char>, row: int)
    ensures
        code::is_hidden(code::by_open_row(code::bodies_from(nodes, 0, language)), row)
            <==> exists|p: int, i: int| #[trigger]
            is_outermost(nodes, p, i, language) && opening_row(nodes, p, i, language) < row
                < nodes[i].end_row,
{
    let ranges = code::by_open_row(code::bodies_from(nodes, 0, language));
    lemma_bodies_are_functions(nodes, language);
    code::lemma_hidden_rows(ranges, row);
    if code::is_hidden(ranges, row) {
        let k = choose|k: int|
            0 <= k < ranges.len() && (#[trigger] ranges[k]).0 < row < ranges[k].1;
        assert(ranges.contains(ranges[k]));
        assert(comes_from(nodes, 0, language, ranges[k]));
    }
    if exists|p: int, i: int| #[trigger]
        is_outermost(nodes, p, i, language) && opening_row(nodes, p, i, language) < row
            < nodes[i].end_row {
        let (p, i) = choose|p: int, i: int| #[trigger]
            is_outermost(nodes, p, i, language) && opening_row(nodes, p, i, language) < row
                < nodes[i].end_row;
        let r = (opening_row(nodes, p, i, language), nodes[i].end_row);
        assert(is_body_of(nodes, p, i, language));
        assert(comes_from(nodes, 0, language, r));
        let k = ranges.index_of(r);
        assert(ranges[k] == r);
    }
}

// ---------------------------------------------------------------------------
// What the skeleton shows
// ---------------------------------------------------------------------------

/// The rows that stay, in order.
pub open spec fn kept_rows(rows: nat, ranges: Seq<(nat, nat)>) -> Seq<int> {
    Seq::new(rows, |row: int| row).filter(
        |row: int|
            !(exists|k: int|
                0 <= k < ranges.len() && (#[trigger] ranges[k]).0 < row < ranges[k].1),
    )
}

/// The skeleton shows the rows that lie in no body, and no others, in order.
pub proof fn lemma_skeleton_shows(lines: Seq<Seq<char>>, ranges: Seq<(nat, nat)>)
    ensures
        code::skeleton_lines(lines, ranges) == kept_rows(lines.len(), ranges).map_values(
            |row: int| code::skeleton_line(lines[row], code::hidden_behind(ranges, row)),
        ),
    decreases lines.len(),
{
    reveal(Seq::filter);
    let n = lines.len();
    let stays = |row: int|
        !(exists|k: int| 0 <= k < ranges.len() && (#[trigger] ranges[k]).0 < row < ranges[k].1);
    let shown = kept_rows(n, ranges).map_values(
        |row: int| code::skeleton_line(lines[row], code::hidden_behind(ranges, row)),
    );
    if n == 0 {
        assert(shown =~= seq![]);
    } else {
        let head = lines.drop_last();
        let last = n - 1;
        lemma_skeleton_shows(head, ranges);
        code::lemma_hidden_rows(ranges, last);
        assert(Seq::new(n, |row: int| row).drop_last() =~= Seq::new(
            (n - 1) as nat,
            |row: int| row,
        ));
        let before = kept_rows((n - 1) as nat, ranges);
        lemma_rows_in_range((n - 1) as nat, ranges);
        assert(before.map_values(
            |row: int| code::skeleton_line(head[row], code::hidden_behind(ranges, row)),
        ) =~= before.map_values(
            |row: int| code::skeleton_line(lines[row], code::hidden_behind(ranges, row)),
        ));
        if stays(last) {
            assert(kept_rows(n, ranges) == before.push(last));
            assert(shown =~= before.map_values(
                |row: int| code::skeleton_line(lines[row], code::hidden_behind(ranges, row)),
            ).push(code::skeleton_line(lines[last], code::hidden_behind(ranges, last))));
        } else {
            assert(kept_rows(n, ranges) == before);
        }
    }
}

proof fn lemma_rows_in_range(n: nat, ranges: Seq<(nat, nat)>)
    ensures
        forall|i: int|
            0 <= i < kept_rows(n, ranges).len() ==> 0 <= #[trigger] kept_rows(n, ranges)[i] < n,
{
    let rows = Seq::new(n, |row: int| row);
    let stays = |row: int|
        !(exists|k: int| 0 <= k < ranges.len() && (#[trigger] ranges[k]).0 < row < ranges[k].1);
    find_laws::lemma_picked(rows, stays);
    assert forall|i: int| 0 <= i < kept_rows(n, ranges).len() implies 0 <= #[trigger] kept_rows(
        n,
        ranges,
    )[i] < n by {
        assert(rows.contains(rows.filter(stays)[i]));
    }
}

/// Where exactly one body opens on a row, its line says how many rows lie between
/// the row on which it opens and the one on which it closes; where none opens the
/// line stays as it is.
pub proof fn lemma_placeholder(
    line: Seq<char>,
    ranges: Seq<(nat, nat)>,
    k: int,
    row: int,
)
    requires
        0 <= k < ranges.len(),
        ranges[k].1 > ranges[k].0 + 1,
        forall|j: int| 0 <= j < ranges.len() && j != k ==> (#[trigger] ranges[j]).0 != ranges[k].0,
        forall|j: int| 0 <= j < ranges.len() ==> (#[trigger] ranges[j]).0 != row,
    ensures
        code::skeleton_line(line, code::hidden_behind(ranges, ranges[k].0 as int)) == line
            + " // ... "@ + number::decimal((ranges[k].1 - ranges[k].0 - 1) as nat) + " lines"@,
        code::skeleton_line(line, code::hidden_behind(ranges, row)) == line,
    decreases ranges.len(),
{
    lemma_hidden_count(ranges, k);
    lemma_none_hidden(ranges, row);
}

proof fn lemma_hidden_count(ranges: Seq<(nat, nat)>, k: int)
    requires
        0 <= k < ranges.len(),
        ranges[k].1 > ranges[k].0 + 1,
        forall|j: int| 0 <= j < ranges.len() && j != k ==> (#[trigger] ranges[j]).0 != ranges[k].0,
    ensures
        code::hidden_behind(ranges, ranges[k].0 as int) == Some(
            (ranges[k].1 - ranges[k].0 - 1) as nat,
        ),
    decreases ranges.len(),
{
    let head = ranges.drop_last();
    if k < head.len() {
        assert(head[k] == ranges[k]);
        assert(ranges[ranges.len() - 1].0 != ranges[k].0);
        assert forall|j: int| 0 <= j < head.len() && j != k implies (#[trigger] head[j]).0
            != head[k].0 by {
            assert(head[j] == ranges[j]);
        }
        lemma_hidden_count(head, k);
    }
}

proof fn lemma_none_hidden(ranges: Seq<(nat, nat)>, row: int)
    requires
        forall|j: int| 0 <= j < ranges.len() ==> (#[trigger] ranges[j]).0 != row,
    ensures
        code::hidden_behind(ranges, row) is None,
    decreases ranges.len(),
{
    if ranges.len() > 0 {
        let head = ranges.drop_last();
        assert(ranges[ranges.len() - 1].0 != row);
        assert forall|j: int| 0 <= j < head.len() implies (#[trigger] head[j]).0 != row by {
            assert(head[j] == ranges[j]);
        }
        lemma_none_hidden(head, row);
    }
}

/// Source without bodies to leave out is its own skeleton; otherwise the skeleton
/// has one line for each row that stays.
pub proof fn lemma_skeleton_text(source: Seq<char>, language: Seq<char>, nodes: Seq<NodeView>)
    requires
        nodes.len() > 0 ==> !nodes[0].has_error,
    ensures
        ({
            let ranges = code::by_open_row(code::bodies_from(nodes, 0, language));
            let out = code::compressed_from(source, language, nodes);
            &&& ranges.len() == 0 ==> out == source
            &&& ranges.len() > 0 ==> out == pieces::joined(
                kept_rows(pieces::lines_of(source).len(), ranges).map_values(
                    |row: int|
                        code::skeleton_line(
                            pieces::lines_of(source)[row],
                            code::hidden_behind(ranges, row),
                        ),
                ),
                "\n"@,
            )
        }),
{
    let ranges = code::by_open_row(code::bodies_from(nodes, 0, language));
    lemma_skeleton_shows(pieces::lines_of(source), ranges);
}

/// The grammars of the languages.
pub open spec fn grammars() -> Seq<(Seq<char>, Seq<char>)> {
    seq![
        ("rust"@, "rust"@),
        ("typescript"@, "typescript"@),
        ("tsx"@, "tsx"@),
        ("javascript"@, "javascript"@),
        ("jsx"@, "javascript"@),
        ("python"@, "python"@),
        ("go"@, "go"@),
        ("java"@, "java"@),
        ("c"@, "c"@),
        ("cpp"@, "cpp"@),
        ("c++"@, "cpp"@),
        ("ruby"@, "ruby"@),
        ("bash"@, "bash"@),
        ("sh"@, "bash"@),
        ("css"@, "css"@),
        ("json"@, "json"@),
    ]
}

/// A language has a grammar exactly where the table gives it one.
pub proof fn lemma_grammars(language: Seq<char>)
    ensures
        code::grammar_for(language) matches Some(g) ==> grammars().contains((language, g)),
        code::grammar_for(language) is None ==> forall|i: int|
            0 <= i < grammars().len() ==> (#[trigger] grammars()[i]).0 != language,
{
    let t = grammars();
    assert(t.contains(t[0]) && t.contains(t[1]) && t.contains(t[2]) && t.contains(t[3]));
    assert(t.contains(t[4]) && t.contains(t[5]) && t.contains(t[6]) && t.contains(t[7]));
    assert(t.contains(t[8]) && t.contains(t[9]) && t.contains(t[10]) && t.contains(t[11]));
    assert(t.contains(t[12]) && t.contains(t[13]) && t.contains(t[14]) && t.contains(t[15]));
}

/// The languages of the extensions.
pub open spec fn extensions() -> Seq<(Seq<char>, Seq<char>)> {
    seq![
        ("rs"@, "rust"@),
        ("ts"@, "typescript"@),
        ("tsx"@, "tsx"@),
        ("js"@, "javascript"@),
        ("mjs"@, "javascript"@),
        ("cjs"@, "javascript"@),
        ("jsx"@, "jsx"@),
        ("py"@, "python"@),
        ("go"@, "go"@),
        ("java"@, "java"@),
        ("c"@, "c"@),
        ("h"@, "c"@),
        ("cpp"@, "cpp"@),
        ("cc"@, "cpp"@),
        ("cxx"@, "cpp"@),
        ("hpp"@, "cpp"@),
        ("rb"@, "ruby"@),
        ("sh"@, "bash"@),
        ("bash"@, "bash"@),
        ("css"@, "css"@),
        ("json"@, "json"@),
    ]
}

/// An extension tells a language exactly where the table gives it one.
pub proof fn lemma_extensions(ext: Seq<char>)
    ensures
        compress::language_for(ext) matches Some(l) ==> extensions().contains((ext, l)),
        compress::language_for(ext) is None ==> forall|i: int|
            0 <= i < extensions().len() ==> (#[trigger] extensions()[i]).0 != ext,
{
    let t = extensions();
    assert(t.contains(t[0]) && t.contains(t[1]) && t.contains(t[2]) && t.contains(t[3]));
    assert(t.contains(t[4]) && t.contains(t[5]) && t.contains(t[6]) && t.contains(t[7]));
    assert(t.contains(t[8]) && t.contains(t[9]) && t.contains(t[10]) && t.contains(t[11]));
    assert(t.contains(t[12]) && t.contains(t[13]) && t.contains(t[14]) && t.contains(t[15]));
    assert(t.contains(t[16]) && t.contains(t[17]) && t.contains(t[18]) && t.contains(t[19]));
    assert(t.contains(t[20]));
}

} // verus!
