//! Syntax trees of source text, as plain lists of nodes.

use vstd::prelude::*;

verus! {

// ---------------------------------------------------------------------------
// Grammars
// ---------------------------------------------------------------------------

/// A grammar of tree-sitter, opaque.
#[verifier::external_type_specification]
#[verifier::external_body]
pub struct ExLanguage(tree_sitter::Language);

/// Which grammar a `tree_sitter::Language` is.
pub uninterp spec fn grammar_name(language: tree_sitter::Language) -> Seq<char>;

/// `tree_sitter_rust::language` gives the grammar of Rust.
pub assume_specification[ tree_sitter_rust::language ]() -> (l: tree_sitter::Language)
    ensures
        grammar_name(l) == "rust"@,
;

/// `tree_sitter_typescript::language_typescript` gives the grammar of
/// TypeScript.
pub assume_specification[ tree_sitter_typescript::language_typescript ]() -> (l:
    tree_sitter::Language)
    ensures
        grammar_name(l) == "typescript"@,
;

/// `tree_sitter_typescript::language_tsx` gives the grammar of TypeScript with
/// JSX.
pub assume_specification[ tree_sitter_typescript::language_tsx ]() -> (l: tree_sitter::Language)
    ensures
        grammar_name(l) == "tsx"@,
;

/// `tree_sitter_javascript::language` gives the grammar of JavaScript.
pub assume_specification[ tree_sitter_javascript::language ]() -> (l: tree_sitter::Language)
    ensures
        grammar_name(l) == "javascript"@,
;

/// `tree_sitter_python::language` gives the grammar of Python.
pub assume_specification[ tree_sitter_python::language ]() -> (l: tree_sitter::Language)
    ensures
        grammar_name(l) == "python"@,
;

/// `tree_sitter_go::language` gives the grammar of Go.
pub assume_specification[ tree_sitter_go::language ]() -> (l: tree_sitter::Language)
    ensures
        grammar_name(l) == "go"@,
;

/// `tree_sitter_java::language` gives the grammar of Java.
pub assume_specification[ tree_sitter_java::language ]() -> (l: tree_sitter::Language)
    ensures
        grammar_name(l) == "java"@,
;

/// `tree_sitter_c::language` gives the grammar of C.
pub assume_specification[ tree_sitter_c::language ]() -> (l: tree_sitter::Language)
    ensures
        grammar_name(l) == "c"@,
;

/// `tree_sitter_cpp::language` gives the grammar of C++.
pub assume_specification[ tree_sitter_cpp::language ]() -> (l: tree_sitter::Language)
    ensures
        grammar_name(l) == "cpp"@,
;

/// `tree_sitter_ruby::language` gives the grammar of Ruby.
pub assume_specification[ tree_sitter_ruby::language ]() -> (l: tree_sitter::Language)
    ensures
        grammar_name(l) == "ruby"@,
;

/// `tree_sitter_bash::language` gives the grammar of Bash.
pub assume_specification[ tree_sitter_bash::language ]() -> (l: tree_sitter::Language)
    ensures
        grammar_name(l) == "bash"@,
;

/// `tree_sitter_css::language` gives the grammar of CSS.
pub assume_specification[ tree_sitter_css::language ]() -> (l: tree_sitter::Language)
    ensures
        grammar_name(l) == "css"@,
;

/// `tree_sitter_json::language` gives the grammar of JSON.
pub assume_specification[ tree_sitter_json::language ]() -> (l: tree_sitter::Language)
    ensures
        grammar_name(l) == "json"@,
;

// ---------------------------------------------------------------------------
// Trees
// ---------------------------------------------------------------------------

/// A node of a syntax tree.
pub struct SyntaxNode {
    /// The kind that the grammar gives the node.
    pub kind: String,
    /// The number of nodes above it.
    pub depth: usize,
    /// The row in which it starts, from zero.
    pub start_row: usize,
    /// The row in which it ends, from zero.
    pub end_row: usize,
    /// Whether a syntax error stands in it.
    pub has_error: bool,
    /// The bytes of its child in the field `name`, where it has one.
    pub name: Option<(usize, usize)>,
}

/// What a node of a syntax tree stands for.
pub struct NodeView {
    pub kind: Seq<char>,
    pub depth: nat,
    pub start_row: nat,
    pub end_row: nat,
    pub has_error: bool,
    pub name: Option<(usize, usize)>,
}

impl View for SyntaxNode {
    type V = NodeView;

    open spec fn view(&self) -> NodeView {
        NodeView {
            kind: self.kind@,
            depth: self.depth as nat,
            start_row: self.start_row as nat,
            end_row: self.end_row as nat,
            has_error: self.has_error,
            name: self.name,
        }
    }
}

/// What a list of nodes stands for.
pub open spec fn nodes_view(nodes: Seq<SyntaxNode>) -> Seq<NodeView> {
    nodes.map_values(|n: SyntaxNode| n@)
}

/// A syntax tree of tree-sitter, opaque.
#[verifier::external_type_specification]
#[verifier::external_body]
pub struct ExTree(tree_sitter::Tree);

/// The nodes of a tree, each before its children and these in their order.
pub uninterp spec fn tree_nodes(tree: tree_sitter::Tree) -> Seq<NodeView>;

/// The nodes of the tree that tree-sitter parses from a source with a grammar,
/// where it gives a tree.
pub uninterp spec fn syntax_of(source: Seq<char>, grammar: Seq<char>) -> Option<Seq<NodeView>>;

/// Calls `tree_sitter::Parser::parse` with no earlier tree, on a new parser set
/// to `language`. Trusted: the nodes of the result are a function of the source
/// and the grammar; no result comes where the parser refuses the grammar or
/// gives no tree.
#[verifier::external_body]
fn parse_tree(source: &str, language: &tree_sitter::Language) -> (r: Option<tree_sitter::Tree>)
    ensures
        match r {
            Some(tree) => syntax_of(source@, grammar_name(*language)) == Some(tree_nodes(tree)),
            None => syntax_of(source@, grammar_name(*language)) is None,
        },
{
    let mut parser = tree_sitter::Parser::new();
    parser.set_language(language).ok()?;
    parser.parse(source, None)
}

/// Calls `tree_sitter::Node::descendant_count` on the root. Trusted: it is the
/// number of nodes of the tree.
#[verifier::external_body]
fn node_count(tree: &tree_sitter::Tree) -> (n: usize)
    ensures
        n == tree_nodes(*tree).len(),
{
    tree.root_node().descendant_count()
}

/// Calls `tree_sitter::TreeCursor::goto_descendant` on a cursor at the root and
/// reads the node that it reaches. Trusted: the cursor counts the nodes of the
/// tree in their order, the root first.
#[verifier::external_body]
fn node_at(tree: &tree_sitter::Tree, i: usize) -> (n: SyntaxNode)
    requires
        i < tree_nodes(*tree).len(),
    ensures
        n@ == tree_nodes(*tree)[i as int],
{
    let mut cursor = tree.walk();
    cursor.goto_descendant(i);
    let node = cursor.node();
    SyntaxNode {
        kind: node.kind().to_owned(),
        depth: cursor.depth() as usize,
        start_row: node.start_position().row,
        end_row: node.end_position().row,
        has_error: node.has_error(),
        name: node.child_by_field_name("name").map(|c| (c.start_byte(), c.end_byte())),
    }
}

/// Parse `source` and list the nodes of its tree, each before its children.
pub fn syntax_nodes(source: &str, language: &tree_sitter::Language) -> (r: Option<Vec<SyntaxNode>>)
    ensures
        match r {
            Some(nodes) => syntax_of(source@, grammar_name(*language)) == Some(nodes_view(nodes@)),
            None => syntax_of(source@, grammar_name(*language)) is None,
        },
{
    match parse_tree(source, language) {
        None => None,
        Some(tree) => {
            let count = node_count(&tree);
            let mut nodes: Vec<SyntaxNode> = Vec::new();
            let mut i: usize = 0;
            while i < count
                invariant
                    i <= count,
                    count == tree_nodes(tree).len(),
                    nodes_view(nodes@) == tree_nodes(tree).take(i as int),
                decreases count - i,
            {
                let ghost before = nodes_view(nodes@);
                let node = node_at(&tree, i);
                nodes.push(node);
                i += 1;
                assert(nodes_view(nodes@) =~= before.push(node@));
                assert(nodes_view(nodes@) =~= tree_nodes(tree).take(i as int));
            }
            assert(nodes_view(nodes@) =~= tree_nodes(tree));
            Some(nodes)
        },
    }
}

// ---------------------------------------------------------------------------
// The shape of a tree
// ---------------------------------------------------------------------------

/// The last node up to `j` that lies above depth `depth`.
pub open spec fn above(nodes: Seq<NodeView>, depth: nat, j: int) -> Option<int>
    decreases j + 1,
{
    if j < 0 || j >= nodes.len() {
        None
    } else if nodes[j].depth < depth {
        Some(j)
    } else {
        above(nodes, depth, j - 1)
    }
}

/// The parent of node `i`.
pub open spec fn parent_of(nodes: Seq<NodeView>, i: int) -> Option<int> {
    above(nodes, nodes[i].depth, i - 1)
}

/// The first node from `j` on that does not lie below depth `depth`.
pub open spec fn after_subtree(nodes: Seq<NodeView>, depth: nat, j: int) -> int
    decreases nodes.len() - j,
{
    if j < 0 || j >= nodes.len() || nodes[j].depth <= depth {
        j
    } else {
        after_subtree(nodes, depth, j + 1)
    }
}

/// A subtree ends at or behind the node at which the search for its end
/// starts.
pub proof fn lemma_after_subtree(nodes: Seq<NodeView>, depth: nat, j: int)
    requires
        0 <= j <= nodes.len(),
    ensures
        j <= after_subtree(nodes, depth, j) <= nodes.len(),
    decreases nodes.len() - j,
{
    if j < nodes.len() && nodes[j].depth > depth {
        lemma_after_subtree(nodes, depth, j + 1);
    }
}

/// The parent of node `i`.
pub fn find_parent(nodes: &[SyntaxNode], i: usize) -> (r: Option<usize>)
    requires
        i < nodes@.len(),
    ensures
        match r {
            Some(p) => p < i && parent_of(nodes_view(nodes@), i as int) == Some(p as int),
            None => parent_of(nodes_view(nodes@), i as int) is None,
        },
{
    let ghost view = nodes_view(nodes@);
    let depth = nodes[i].depth;
    let mut j: usize = i;
    while j > 0
        invariant
            view == nodes_view(nodes@),
            j <= i < nodes@.len(),
            depth == view[i as int].depth,
            parent_of(view, i as int) == above(view, depth as nat, j - 1),
        decreases j,
    {
        j -= 1;
        if nodes[j].depth < depth {
            return Some(j);
        }
    }
    None
}

/// The first node behind the subtree of node `i`.
pub fn skip_subtree(nodes: &[SyntaxNode], i: usize) -> (r: usize)
    requires
        i < nodes@.len(),
    ensures
        i < r <= nodes@.len(),
        r == after_subtree(nodes_view(nodes@), nodes_view(nodes@)[i as int].depth, i + 1),
{
    let ghost view = nodes_view(nodes@);
    let depth = nodes[i].depth;
    let mut j: usize = i + 1;
    while j < nodes.len() && nodes[j].depth > depth
        invariant
            view == nodes_view(nodes@),
            i < j <= nodes@.len(),
            after_subtree(view, depth as nat, i + 1) == after_subtree(view, depth as nat, j as int),
        decreases nodes@.len() - j,
    {
        j += 1;
    }
    j
}

} // verus!
