//! Structural code compression over syntax trees.
//!
//! Keeps imports, type declarations and function signatures of a source file.
//! Function bodies are replaced with `// ... N lines` placeholders.
//!
//! Falls back to [`crate::compress::passthrough::preview`] when:
//! - there is no grammar for the requested language
//! - the parser gives no tree at all
//! - the source is malformed: its tree holds an error

use crate::compress::passthrough;
use crate::compress::syntax;
use crate::compress::syntax::{find_parent, skip_subtree, syntax_nodes, NodeView, SyntaxNode};
use crate::number;
use crate::order;
use crate::order::Sortable;
use crate::pieces;
use crate::text;
use vstd::prelude::*;
use vstd::string::*;

verus! {

/// Head/tail lines used for passthrough fallback.
pub const PASSTHROUGH_LINES: usize = 20;

// ---------------------------------------------------------------------------
// Grammar selection
// ---------------------------------------------------------------------------

/// The name of the grammar for `language`.
pub open spec fn grammar_for(language: Seq<char>) -> Option<Seq<char>> {
    if language == "rust"@ {
        Some("rust"@)
    } else if language == "typescript"@ {
        Some("typescript"@)
    } else if language == "tsx"@ {
        Some("tsx"@)
    } else if language == "javascript"@ || language == "jsx"@ {
        Some("javascript"@)
    } else if language == "python"@ {
        Some("python"@)
    } else if language == "go"@ {
        Some("go"@)
    } else if language == "java"@ {
        Some("java"@)
    } else if language == "c"@ {
        Some("c"@)
    } else if language == "cpp"@ || language == "c++"@ {
        Some("cpp"@)
    } else if language == "ruby"@ {
        Some("ruby"@)
    } else if language == "bash"@ || language == "sh"@ {
        Some("bash"@)
    } else if language == "css"@ {
        Some("css"@)
    } else if language == "json"@ {
        Some("json"@)
    } else {
        None
    }
}

/// Return the tree-sitter grammar for `language`, or `None` when there is none.
pub fn grammar_for_language(language: &str) -> (r: Option<tree_sitter::Language>)
    ensures
        match r {
            Some(l) => grammar_for(language@) == Some(syntax::grammar_name(l)),
            None => grammar_for(language@) is None,
        },
{
    if text::same_text(language, "rust") {
        Some(tree_sitter_rust::language())
    } else if text::same_text(language, "typescript") {
        Some(tree_sitter_typescript::language_typescript())
    } else if text::same_text(language, "tsx") {
        Some(tree_sitter_typescript::language_tsx())
    } else if text::same_text(language, "javascript") || text::same_text(language, "jsx") {
        Some(tree_sitter_javascript::language())
    } else if text::same_text(language, "python") {
        Some(tree_sitter_python::language())
    } else if text::same_text(language, "go") {
        Some(tree_sitter_go::language())
    } else if text::same_text(language, "java") {
        Some(tree_sitter_java::language())
    } else if text::same_text(language, "c") {
        Some(tree_sitter_c::language())
    } else if text::same_text(language, "cpp") || text::same_text(language, "c++") {
        Some(tree_sitter_cpp::language())
    } else if text::same_text(language, "ruby") {
        Some(tree_sitter_ruby::language())
    } else if text::same_text(language, "bash") || text::same_text(language, "sh") {
        Some(tree_sitter_bash::language())
    } else if text::same_text(language, "css") {
        Some(tree_sitter_css::language())
    } else if text::same_text(language, "json") {
        Some(tree_sitter_json::language())
    } else {
        None
    }
}

// ---------------------------------------------------------------------------
// Function bodies
// ---------------------------------------------------------------------------

/// TypeScript or JavaScript, with or without JSX.
pub open spec fn is_script(language: Seq<char>) -> bool {
    language == "typescript"@ || language == "tsx"@ || language == "javascript"@ || language
        == "jsx"@
}

/// A node of kind `kind` under one of kind `parent` is a function body.
pub open spec fn body_kind(language: Seq<char>, kind: Seq<char>, parent: Seq<char>) -> bool {
    if language == "rust"@ {
        kind == "block"@ && parent == "function_item"@
    } else if is_script(language) {
        kind == "statement_block"@ && (parent == "function_declaration"@ || parent
            == "method_definition"@ || parent == "function"@ || parent == "arrow_function"@
            || parent == "generator_function_declaration"@ || parent == "generator_function"@)
    } else if language == "python"@ {
        kind == "block"@ && parent == "function_definition"@
    } else if language == "go"@ {
        kind == "block"@ && (parent == "function_declaration"@ || parent == "method_declaration"@)
    } else if language == "java"@ {
        kind == "block"@ && (parent == "method_declaration"@ || parent
            == "constructor_declaration"@)
    } else if language == "c"@ || language == "cpp"@ || language == "c++"@ {
        kind == "compound_statement"@ && parent == "function_definition"@
    } else if language == "ruby"@ {
        kind == "body_statement"@ && parent == "method"@
    } else if language == "bash"@ || language == "sh"@ {
        kind == "compound_statement"@ && parent == "function_definition"@
    } else {
        false
    }
}

/// The kind of the parent of node `i`; nothing for the root.
pub open spec fn parent_kind(nodes: Seq<NodeView>, i: int) -> Seq<char> {
    match syntax::parent_of(nodes, i) {
        Some(p) => nodes[p].kind,
        None => ""@,
    }
}

/// Node `i` is a function body.
pub open spec fn is_body_at(nodes: Seq<NodeView>, i: int, language: Seq<char>) -> bool {
    body_kind(language, nodes[i].kind, parent_kind(nodes, i))
}

fn has_body_kind(language: &str, kind: &str, parent: &str) -> (r: bool)
    ensures
        r == body_kind(language@, kind@, parent@),
{
    if text::same_text(language, "rust") {
        text::same_text(kind, "block") && text::same_text(parent, "function_item")
    } else if text::same_text(language, "typescript") || text::same_text(language, "tsx")
        || text::same_text(language, "javascript") || text::same_text(language, "jsx") {
        text::same_text(kind, "statement_block") && (text::same_text(parent, "function_declaration")
            || text::same_text(parent, "method_definition") || text::same_text(parent, "function")
            || text::same_text(parent, "arrow_function") || text::same_text(
            parent,
            "generator_function_declaration",
        ) || text::same_text(parent, "generator_function"))
    } else if text::same_text(language, "python") {
        text::same_text(kind, "block") && text::same_text(parent, "function_definition")
    } else if text::same_text(language, "go") {
        text::same_text(kind, "block") && (text::same_text(parent, "function_declaration")
            || text::same_text(parent, "method_declaration"))
    } else if text::same_text(language, "java") {
        text::same_text(kind, "block") && (text::same_text(parent, "method_declaration")
            || text::same_text(parent, "constructor_declaration"))
    } else if text::same_text(language, "c") || text::same_text(language, "cpp")
        || text::same_text(language, "c++") {
        text::same_text(kind, "compound_statement") && text::same_text(
            parent,
            "function_definition",
        )
    } else if text::same_text(language, "ruby") {
        text::same_text(kind, "body_statement") && text::same_text(parent, "method")
    } else if text::same_text(language, "bash") || text::same_text(language, "sh") {
        text::same_text(kind, "compound_statement") && text::same_text(
            parent,
            "function_definition",
        )
    } else {
        false
    }
}

/// Whether node `i` is a function body whose content is left out of the
/// skeleton.
pub fn is_function_body(nodes: &[SyntaxNode], i: usize, language: &str) -> (r: bool)
    requires
        i < nodes@.len(),
    ensures
        r == is_body_at(syntax::nodes_view(nodes@), i as int, language@),
{
    match find_parent(nodes, i) {
        Some(p) => has_body_kind(language, nodes[i].kind.as_str(), nodes[p].kind.as_str()),
        None => has_body_kind(language, nodes[i].kind.as_str(), ""),
    }
}

/// Rows of a function body.
#[derive(Debug, Clone, Copy)]
pub struct BodyRange {
    /// 0-indexed row of the opening `{` (or of Python's `def`).
    pub open_row: usize,
    /// 0-indexed row of the closing `}`.
    pub close_row: usize,
}

/// The row at which the body at node `i` opens: for Python, whose block starts
/// at the first statement, the row of the definition.
pub open spec fn open_row_at(nodes: Seq<NodeView>, i: int, language: Seq<char>) -> nat {
    if language == "python"@ {
        match syntax::parent_of(nodes, i) {
            Some(p) => nodes[p].start_row,
            None => nodes[i].start_row,
        }
    } else {
        nodes[i].start_row
    }
}

/// The rows of the outermost function bodies from node `i` on, those with inner
/// rows, in the order of the nodes.
pub open spec fn bodies_from(nodes: Seq<NodeView>, i: int, language: Seq<char>) -> Seq<(nat, nat)>
    decreases nodes.len() - i,
    via bodies_from_decreases
{
    if i < 0 || i >= nodes.len() {
        seq![]
    } else if is_body_at(nodes, i, language) {
        let open = open_row_at(nodes, i, language);
        let close = nodes[i].end_row;
        let rest = bodies_from(
            nodes,
            syntax::after_subtree(nodes, nodes[i].depth, i + 1),
            language,
        );
        if close > open + 1 {
            seq![(open, close)] + rest
        } else {
            rest
        }
    } else {
        bodies_from(nodes, i + 1, language)
    }
}

#[via_fn]
proof fn bodies_from_decreases(nodes: Seq<NodeView>, i: int, language: Seq<char>) {
    if 0 <= i < nodes.len() {
        syntax::lemma_after_subtree(nodes, nodes[i].depth, i + 1);
    }
}

/// What body ranges stand for.
pub open spec fn ranges_view(ranges: Seq<BodyRange>) -> Seq<(nat, nat)> {
    ranges.map_values(|r: BodyRange| (r.open_row as nat, r.close_row as nat))
}

impl Sortable for BodyRange {
    open spec fn precedes(&self, other: &Self) -> bool {
        self.open_row < other.open_row
    }

    proof fn lemma_order() {
    }

    fn comes_before(&self, other: &Self) -> (r: bool) {
        self.open_row < other.open_row
    }
}

/// Rows by where they open, ties as they came.
pub open spec fn by_open_row(ranges: Seq<(nat, nat)>) -> Seq<(nat, nat)> {
    order::sorted(ranges, |a: (nat, nat), b: (nat, nat)| a.0 < b.0)
}

/// Collect the rows of all function bodies that the skeleton leaves out.
///
/// Once a body is found, its interior is not scanned for nested bodies: they go
/// along with the outer one.
pub fn collect_function_bodies(nodes: &[SyntaxNode], language: &str) -> (out: Vec<BodyRange>)
    ensures
        ranges_view(out@) == by_open_row(bodies_from(syntax::nodes_view(nodes@), 0, language@)),
{
    let ghost view = syntax::nodes_view(nodes@);
    let ghost all = bodies_from(view, 0, language@);
    let mut out: Vec<BodyRange> = Vec::new();
    let mut i: usize = 0;
    assert(ranges_view(out@) + bodies_from(view, 0, language@) =~= all);
    while i < nodes.len()
        invariant
            view == syntax::nodes_view(nodes@),
            i <= nodes@.len(),
            ranges_view(out@) + bodies_from(view, i as int, language@) == all,
        decreases nodes@.len() - i,
    {
        if is_function_body(nodes, i, language) {
            let open_row = if text::same_text(language, "python") {
                match find_parent(nodes, i) {
                    Some(p) => nodes[p].start_row,
                    None => nodes[i].start_row,
                }
            } else {
                nodes[i].start_row
            };
            let close_row = nodes[i].end_row;
            let ghost before = ranges_view(out@);
            let next = skip_subtree(nodes, i);
            let ghost rest = bodies_from(view, next as int, language@);
            if close_row > open_row && close_row - open_row > 1 {
                out.push(BodyRange { open_row, close_row });
                assert(ranges_view(out@) =~= before.push((open_row as nat, close_row as nat)));
                assert(ranges_view(out@) + rest =~= before + (seq![
                    (open_row as nat, close_row as nat),
                ] + rest));
            }
            i = next;
        } else {
            i += 1;
        }
    }
    assert(ranges_view(out@) =~= all);
    proof {
        order::lemma_sorted_map(
            out@,
            |r: BodyRange| (r.open_row as nat, r.close_row as nat),
            |a: BodyRange, b: BodyRange| a.precedes(&b),
            |a: (nat, nat), b: (nat, nat)| a.0 < b.0,
        );
    }
    order::sort(out)
}

// ---------------------------------------------------------------------------
// Skeleton rendering
// ---------------------------------------------------------------------------

/// Row `row` lies strictly inside one of the ranges.
pub open spec fn is_hidden(ranges: Seq<(nat, nat)>, row: int) -> bool
    decreases ranges.len(),
{
    if ranges.len() == 0 {
        false
    } else {
        is_hidden(ranges.drop_last(), row) || ranges.last().0 < row < ranges.last().1
    }
}

/// The number of rows hidden behind row `row`, where a range opens there: that
/// of the last such range.
pub open spec fn hidden_behind(ranges: Seq<(nat, nat)>, row: int) -> Option<nat>
    decreases ranges.len(),
{
    if ranges.len() == 0 {
        None
    } else if ranges.last().0 == row && ranges.last().1 > row + 1 {
        Some((ranges.last().1 - row - 1) as nat)
    } else {
        hidden_behind(ranges.drop_last(), row)
    }
}

/// The line as it stands in the skeleton.
pub open spec fn skeleton_line(line: Seq<char>, hidden: Option<nat>) -> Seq<char> {
    match hidden {
        Some(count) => line + " // ... "@ + number::decimal(count) + " lines"@,
        None => line,
    }
}

/// The lines of the skeleton.
pub open spec fn skeleton_lines(lines: Seq<Seq<char>>, ranges: Seq<(nat, nat)>) -> Seq<Seq<char>>
    decreases lines.len(),
{
    if lines.len() == 0 {
        seq![]
    } else {
        let row = lines.len() - 1;
        let before = skeleton_lines(lines.drop_last(), ranges);
        if is_hidden(ranges, row) {
            before
        } else {
            before.push(skeleton_line(lines.last(), hidden_behind(ranges, row)))
        }
    }
}

/// The source with function bodies replaced by placeholders.
pub open spec fn skeleton(source: Seq<char>, ranges: Seq<(nat, nat)>) -> Seq<char> {
    if ranges.len() == 0 {
        source
    } else {
        pieces::joined(skeleton_lines(pieces::lines_of(source), ranges), "\n"@)
    }
}

fn row_is_hidden(ranges: &[BodyRange], row: usize) -> (r: bool)
    ensures
        r == is_hidden(ranges_view(ranges@), row as int),
{
    let ghost view = ranges_view(ranges@);
    let mut i: usize = 0;
    let mut hidden = false;
    assert(view.take(0) =~= seq![]);
    while i < ranges.len()
        invariant
            view == ranges_view(ranges@),
            i <= ranges@.len(),
            hidden == is_hidden(view.take(i as int), row as int),
        decreases ranges@.len() - i,
    {
        proof {
            assert(view.take(i + 1).drop_last() =~= view.take(i as int));
        }
        if ranges[i].open_row < row && row < ranges[i].close_row {
            hidden = true;
        }
        i += 1;
    }
    assert(view.take(i as int) =~= view);
    hidden
}

fn rows_hidden_behind(ranges: &[BodyRange], row: usize) -> (r: Option<usize>)
    ensures
        match r {
            Some(n) => hidden_behind(ranges_view(ranges@), row as int) == Some(n as nat),
            None => hidden_behind(ranges_view(ranges@), row as int) is None,
        },
{
    let ghost view = ranges_view(ranges@);
    let mut i: usize = 0;
    let mut found: Option<usize> = None;
    assert(view.take(0) =~= seq![]);
    while i < ranges.len()
        invariant
            view == ranges_view(ranges@),
            i <= ranges@.len(),
            match found {
                Some(n) => hidden_behind(view.take(i as int), row as int) == Some(n as nat),
                None => hidden_behind(view.take(i as int), row as int) is None,
            },
        decreases ranges@.len() - i,
    {
        proof {
            assert(view.take(i + 1).drop_last() =~= view.take(i as int));
        }
        if ranges[i].open_row == row && ranges[i].close_row > row && ranges[i].close_row - row
            > 1 {
            found = Some(ranges[i].close_row - row - 1);
        }
        i += 1;
    }
    assert(view.take(i as int) =~= view);
    found
}

/// Render `source` with function bodies replaced by `// ... N lines`.
pub fn render_skeleton(source: &str, body_ranges: &[BodyRange]) -> (out: String)
    ensures
        out@ == skeleton(source@, ranges_view(body_ranges@)),
{
    if body_ranges.len() == 0 {
        return source.to_owned();
    }
    let chars = text::chars_of(source);
    let lines = pieces::split_lines(chars.as_slice());
    let ghost all = pieces::lines_of(source@);
    let ghost ranges = ranges_view(body_ranges@);
    let mut out: Vec<String> = Vec::new();
    let mut i: usize = 0;
    assert(all.take(0) =~= seq![]);
    assert(text::texts(out@) =~= seq![]);
    while i < lines.len()
        invariant
            all == text::views(lines@),
            ranges == ranges_view(body_ranges@),
            i <= lines@.len(),
            text::texts(out@) == skeleton_lines(all.take(i as int), ranges),
        decreases lines@.len() - i,
    {
        proof {
            assert(all.take(i + 1).drop_last() =~= all.take(i as int));
            assert(all.take(i + 1).last() == lines@[i as int]@);
        }
        if !row_is_hidden(body_ranges, i) {
            let ghost before = text::texts(out@);
            let mut line = text::string_of(lines[i]);
            if let Some(count) = rows_hidden_behind(body_ranges, i) {
                line.append(" // ... ");
                number::push_count(&mut line, count);
                line.append(" lines");
            }
            assert(line@ =~= skeleton_line(lines@[i as int]@, hidden_behind(ranges, i as int)));
            out.push(line);
            assert(text::texts(out@) =~= before.push(line@));
        }
        i += 1;
    }
    assert(all.take(i as int) =~= all);
    pieces::join_strings(out.as_slice(), "\n")
}

/// Compress `source` to a code skeleton, given the nodes of its syntax tree. A
/// malformed source gives its two ends.
pub fn compress_nodes(source: &str, language: &str, nodes: &[SyntaxNode]) -> (out: String)
    ensures
        out@ == compressed_from(source@, language@, syntax::nodes_view(nodes@)),
{
    if nodes.len() > 0 && nodes[0].has_error {
        return passthrough::preview(source, PASSTHROUGH_LINES);
    }
    let ranges = collect_function_bodies(nodes, language);
    render_skeleton(source, ranges.as_slice())
}

/// The skeleton of `source`, given the nodes of its syntax tree.
pub open spec fn skeleton_from(
    source: Seq<char>,
    language: Seq<char>,
    nodes: Seq<NodeView>,
) -> Seq<char> {
    skeleton(source, by_open_row(bodies_from(nodes, 0, language)))
}

/// The tree holds an error: its root, the first node, says so.
pub open spec fn is_malformed(nodes: Seq<NodeView>) -> bool {
    nodes.len() > 0 && nodes[0].has_error
}

/// The skeleton of `source`, given the nodes of its syntax tree, or its two ends
/// where it is malformed.
pub open spec fn compressed_from(
    source: Seq<char>,
    language: Seq<char>,
    nodes: Seq<NodeView>,
) -> Seq<char> {
    if is_malformed(nodes) {
        passthrough::preview_of(source, PASSTHROUGH_LINES as nat)
    } else {
        skeleton_from(source, language, nodes)
    }
}

/// The skeleton of `source`, or its two ends where it cannot be parsed or is
/// malformed.
pub open spec fn compressed(source: Seq<char>, language: Seq<char>) -> Seq<char> {
    match grammar_for(language) {
        Some(grammar) => match syntax::syntax_of(source, grammar) {
            Some(nodes) => compressed_from(source, language, nodes),
            None => passthrough::preview_of(source, PASSTHROUGH_LINES as nat),
        },
        None => passthrough::preview_of(source, PASSTHROUGH_LINES as nat),
    }
}

/// Compress `source` to a code skeleton for the given `language`.
///
/// `language` should be a short lower-case identifier: `"rust"`,
/// `"typescript"`, `"tsx"`, `"javascript"`, `"jsx"`, `"python"`, `"go"`,
/// `"java"`, `"c"`, `"cpp"`, `"ruby"`, `"bash"`, `"css"`, or `"json"`.
///
/// Returns a skeleton string with function bodies replaced by `// ... N lines`
/// comments. Falls back to a head/tail preview for unsupported languages or
/// malformed sources.
pub fn compress(source: &str, language: &str) -> (out: String)
    ensures
        out@ == compressed(source@, language@),
{
    match grammar_for_language(language) {
        Some(grammar) => match syntax_nodes(source, &grammar) {
            Some(nodes) => compress_nodes(source, language, nodes.as_slice()),
            None => passthrough::preview(source, PASSTHROUGH_LINES),
        },
        None => passthrough::preview(source, PASSTHROUGH_LINES),
    }
}

// ---------------------------------------------------------------------------
// Laws
// ---------------------------------------------------------------------------

/// The rows that the skeleton leaves out are those strictly inside a body.
pub proof fn lemma_hidden_rows(ranges: Seq<(nat, nat)>, row: int)
    ensures
        is_hidden(ranges, row) <==> exists|k: int|
            0 <= k < ranges.len() && (#[trigger] ranges[k]).0 < row < ranges[k].1,
    decreases ranges.len(),
{
    if ranges.len() > 0 {
        let head = ranges.drop_last();
        lemma_hidden_rows(head, row);
        if is_hidden(head, row) {
            let k = choose|k: int|
                0 <= k < head.len() && (#[trigger] head[k]).0 < row < head[k].1;
            assert(ranges[k] == head[k]);
        }
        if exists|k: int| 0 <= k < ranges.len() && (#[trigger] ranges[k]).0 < row < ranges[k].1 {
            let k = choose|k: int|
                0 <= k < ranges.len() && (#[trigger] ranges[k]).0 < row < ranges[k].1;
            if k < head.len() {
                assert(head[k] == ranges[k]);
            }
        }
    }
}

/// The skeleton keeps every row outside the bodies, signatures among them, and
/// holds nothing else.
pub proof fn lemma_skeleton_rows(lines: Seq<Seq<char>>, ranges: Seq<(nat, nat)>)
    ensures
        forall|row: int|
            0 <= row < lines.len() && !is_hidden(ranges, row) ==> skeleton_lines(
                lines,
                ranges,
            ).contains(skeleton_line(#[trigger] lines[row], hidden_behind(ranges, row))),
        forall|i: int|
            0 <= i < skeleton_lines(lines, ranges).len() ==> exists|row: int|
                0 <= row < lines.len() && !is_hidden(ranges, row)
                    && #[trigger] skeleton_lines(lines, ranges)[i] == skeleton_line(
                    #[trigger] lines[row],
                    hidden_behind(ranges, row),
                ),
        skeleton_lines(lines, ranges).len() <= lines.len(),
    decreases lines.len(),
{
    if lines.len() > 0 {
        let head = lines.drop_last();
        let before = skeleton_lines(head, ranges);
        let all = skeleton_lines(lines, ranges);
        lemma_skeleton_rows(head, ranges);
        assert forall|row: int|
            0 <= row < lines.len() && !is_hidden(ranges, row) implies all.contains(
            skeleton_line(#[trigger] lines[row], hidden_behind(ranges, row)),
        ) by {
            let line = skeleton_line(lines[row], hidden_behind(ranges, row));
            if row < head.len() {
                assert(head[row] == lines[row]);
                let k = before.index_of(line);
                assert(all[k] == before[k]);
            } else {
                assert(all[before.len() as int] == line);
            }
        }
        assert forall|i: int| 0 <= i < all.len() implies exists|row: int|
            0 <= row < lines.len() && !is_hidden(ranges, row) && #[trigger] all[i]
                == skeleton_line(#[trigger] lines[row], hidden_behind(ranges, row)) by {
            if i < before.len() {
                let row = choose|row: int|
                    0 <= row < head.len() && !is_hidden(ranges, row) && before[i]
                        == skeleton_line(#[trigger] head[row], hidden_behind(ranges, row));
                assert(lines[row] == head[row]);
            } else {
                assert(lines[lines.len() - 1] == lines.last());
            }
        }
    }
}

} // verus!
