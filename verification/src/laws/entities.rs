//! Laws of the attribution of changes to functions and types.

use crate::compress::diff;
use crate::compress::diff::{FileView, HunkView};
use crate::compress::syntax::NodeView;
use crate::order;
use crate::text;
use vstd::prelude::*;
use vstd::string::*;

verus! {

// ---------------------------------------------------------------------------
// Entries
// ---------------------------------------------------------------------------

/// Entry `e` is that of hunk `h` of file `f`: the path of the file, the entity
/// and the change of the hunk.
pub open spec fn is_entry_of(
    files: Seq<FileView>,
    f: int,
    h: int,
    e: (Seq<char>, Seq<char>, Seq<char>),
) -> bool {
    &&& 0 <= f < files.len()
    &&& 0 <= h < files[f].hunks.len()
    &&& e.0 == files[f].path
    &&& e.1 == diff::entity_of(files[f].hunks[h], diff::language_of(files[f].path))
    &&& e.2 == diff::change_of(files[f].hunks[h].lines)
}

/// Every hunk of every file gives an entry, and nothing else does.
pub proof fn lemma_entries(files: Seq<FileView>)
    ensures
        forall|e: (Seq<char>, Seq<char>, Seq<char>)|
            diff::all_entries(files).contains(e) <==> exists|f: int, h: int| #[trigger]
                is_entry_of(files, f, h, e),
    decreases files.len(),
{
    let all = diff::all_entries(files);
    if files.len() > 0 {
        let head = files.drop_last();
        let last = files.last();
        let before = diff::all_entries(head);
        let own = diff::file_entries(last.path, last.hunks);
        lemma_entries(head);
        assert forall|e: (Seq<char>, Seq<char>, Seq<char>)| all.contains(e) <==> exists|
            f: int,
            h: int,
        | #[trigger] is_entry_of(files, f, h, e) by {
            if all.contains(e) {
                let k = all.index_of(e);
                if k < before.len() {
                    assert(before[k] == e);
                    assert(before.contains(e));
                    let (f, h) = choose|f: int, h: int| #[trigger] is_entry_of(head, f, h, e);
                    assert(files[f] == head[f]);
                    assert(is_entry_of(files, f, h, e));
                } else {
                    let h = k - before.len();
                    assert(own[h] == e);
                    assert(is_entry_of(files, files.len() - 1, h, e));
                }
            }
            if exists|f: int, h: int| #[trigger] is_entry_of(files, f, h, e) {
                let (f, h) = choose|f: int, h: int| #[trigger] is_entry_of(files, f, h, e);
                if f < head.len() {
                    assert(files[f] == head[f]);
                    assert(is_entry_of(head, f, h, e));
                    assert(before.contains(e));
                    let k = before.index_of(e);
                    assert(all[k] == e);
                } else {
                    assert(own[h] == e);
                    assert(all[before.len() + h] == e);
                }
            }
        }
    } else {
        assert(all =~= seq![]);
    }
}

/// Merged entries are in order of file and entity, and no file and entity has
/// two.
pub proof fn lemma_merged_order(entries: Seq<(Seq<char>, Seq<char>, Seq<char>)>)
    ensures
        forall|i: int, j: int|
            0 <= i < j < diff::merged_entries(entries).len() ==> diff::key_before(
                #[trigger] diff::merged_entries(entries)[i],
                #[trigger] diff::merged_entries(entries)[j],
            ),
{
    let merged = diff::merged_all(entries);
    let out = diff::merged_entries(entries);
    let before = |a: (Seq<char>, Seq<char>, Seq<char>), b: (Seq<char>, Seq<char>, Seq<char>)| diff::key_before(a, b);
    diff::lemma_merged_all(entries);
    lemma_key_is_order();
    order::lemma_sorted_in_order(merged, before);
    assert(merged.no_duplicates()) by {
        assert forall|i: int, j: int|
            0 <= i < merged.len() && 0 <= j < merged.len() && i != j implies merged[i]
            != merged[j] by {
            if i < j {
                assert(!diff::same_key(merged[i], merged[j]));
            } else {
                assert(!diff::same_key(merged[j], merged[i]));
            }
        }
    }
    merged.lemma_multiset_has_no_duplicates();
    out.lemma_multiset_has_no_duplicates_conv();
    assert forall|i: int, j: int| 0 <= i < j < out.len() implies diff::key_before(
        #[trigger] out[i],
        #[trigger] out[j],
    ) by {
        assert(!before(out[j], out[i]));
        assert(out[i] != out[j]);
        lemma_same_items(entries, out[i]);
        lemma_same_items(entries, out[j]);
        assert(out.contains(out[i]) && out.contains(out[j]));
        let a = merged.index_of(out[i]);
        let b = merged.index_of(out[j]);
        if a < b {
            assert(!diff::same_key(merged[a], merged[b]));
        } else {
            assert(!diff::same_key(merged[b], merged[a]));
        }
        order::lemma_lex_total(out[i].0, out[j].0);
        order::lemma_lex_total(out[i].1, out[j].1);
        order::lemma_lex_total(out[j].1, out[i].1);
    }
}

proof fn lemma_same_items(entries: Seq<(Seq<char>, Seq<char>, Seq<char>)>, e: (Seq<char>, Seq<char>, Seq<char>))
    ensures
        diff::merged_entries(entries).contains(e) == diff::merged_all(entries).contains(e),
{
    broadcast use vstd::seq_lib::group_to_multiset_ensures;

    let merged = diff::merged_all(entries);
    let out = diff::merged_entries(entries);
    lemma_key_is_order();
    order::lemma_sorted_in_order(merged, |a: (Seq<char>, Seq<char>, Seq<char>), b: (Seq<char>, Seq<char>, Seq<char>)| diff::key_before(a, b));
    assert(out.contains(e) <==> out.to_multiset().count(e) > 0);
    assert(merged.contains(e) <==> merged.to_multiset().count(e) > 0);
}

/// Some of `entries` is of file `file` and entity `entity`.
pub open spec fn speaks_of(entries: Seq<(Seq<char>, Seq<char>, Seq<char>)>, file: Seq<char>, entity: Seq<char>) -> bool {
    exists|i: int|
        0 <= i < entries.len() && (#[trigger] entries[i]).0 == file && entries[i].1 == entity
}

/// All of `entries` of file `file` and entity `entity` make the change `change`.
pub open spec fn agrees(
    entries: Seq<(Seq<char>, Seq<char>, Seq<char>)>,
    file: Seq<char>,
    entity: Seq<char>,
    change: Seq<char>,
) -> bool {
    forall|i: int|
        0 <= i < entries.len() && (#[trigger] entries[i]).0 == file && entries[i].1 == entity
            ==> entries[i].2 == change
}

/// Merging keeps every file and entity that is spoken of, and brings in no other.
pub proof fn lemma_merged_keys(entries: Seq<(Seq<char>, Seq<char>, Seq<char>)>, file: Seq<char>, entity: Seq<char>)
    ensures
        speaks_of(diff::merged_entries(entries), file, entity) == speaks_of(entries, file, entity),
{
    let merged = diff::merged_all(entries);
    let out = diff::merged_entries(entries);
    let e = (file, entity, seq![]);
    diff::lemma_merged_all(entries);
    assert(diff::has_key(entries, e) == diff::has_key(merged, e));
    if speaks_of(entries, file, entity) {
        let i = choose|i: int|
            0 <= i < entries.len() && (#[trigger] entries[i]).0 == file && entries[i].1 == entity;
        assert(diff::same_key(entries[i], e));
        let j = choose|j: int| 0 <= j < merged.len() && diff::same_key(#[trigger] merged[j], e);
        lemma_same_items(entries, merged[j]);
        assert(merged.contains(merged[j]));
        let k = out.index_of(merged[j]);
        assert(out[k].0 == file);
    }
    if speaks_of(out, file, entity) {
        let k = choose|k: int|
            0 <= k < out.len() && (#[trigger] out[k]).0 == file && out[k].1 == entity;
        lemma_same_items(entries, out[k]);
        assert(out.contains(out[k]));
        let j = merged.index_of(out[k]);
        assert(diff::same_key(merged[j], e));
        let i = choose|i: int| 0 <= i < entries.len() && diff::same_key(#[trigger] entries[i], e);
        assert(entries[i].0 == file);
    }
}

/// A merged entry makes the change on which all entries of its file and entity
/// agree, and is `modified` where they do not agree.
pub proof fn lemma_merged_change(entries: Seq<(Seq<char>, Seq<char>, Seq<char>)>, k: int, change: Seq<char>)
    requires
        0 <= k < diff::merged_entries(entries).len(),
    ensures
        ({
            let m = diff::merged_entries(entries)[k];
            &&& agrees(entries, m.0, m.1, change) ==> m.2 == change
            &&& !agrees(entries, m.0, m.1, m.2) ==> m.2 == "modified"@
        }),
{
    let merged = diff::merged_all(entries);
    let out = diff::merged_entries(entries);
    let m = out[k];
    diff::lemma_merged_all(entries);
    lemma_same_items(entries, m);
    assert(out.contains(m));
    let j = merged.index_of(m);
    assert(merged[j] == m);
    assert(diff::all_agree(entries, m, m.2) || m.2 == "modified"@);
    if agrees(entries, m.0, m.1, change) {
        assert(diff::all_agree(entries, merged[j], change)) by {
            assert forall|i: int|
                0 <= i < entries.len() && diff::same_key(
                    #[trigger] entries[i],
                    m,
                ) implies entries[i].2 == change by {
                assert(entries[i].0 == m.0);
            }
        }
    }
    if diff::all_agree(entries, m, m.2) {
        assert(agrees(entries, m.0, m.1, m.2)) by {
            assert forall|i: int|
                0 <= i < entries.len() && (#[trigger] entries[i]).0 == m.0 && entries[i].1
                    == m.1 implies entries[i].2 == m.2 by {
                assert(diff::same_key(entries[i], m));
            }
        }
    }
}

proof fn lemma_key_is_order()
    ensures
        order::is_order(
            |a: (Seq<char>, Seq<char>, Seq<char>), b: (Seq<char>, Seq<char>, Seq<char>)|
                diff::key_before(a, b),
        ),
{
    let before = |a: (Seq<char>, Seq<char>, Seq<char>), b: (Seq<char>, Seq<char>, Seq<char>)|
        diff::key_before(a, b);
    assert forall|
        a: (Seq<char>, Seq<char>, Seq<char>),
        b: (Seq<char>, Seq<char>, Seq<char>),
        c: (Seq<char>, Seq<char>, Seq<char>),
    | #[trigger] before(a, b) && #[trigger] before(b, c) implies before(a, c) by {
        diff::lemma_key_order(a, b, c);
    }
    assert forall|
        a: (Seq<char>, Seq<char>, Seq<char>),
        b: (Seq<char>, Seq<char>, Seq<char>),
        c: (Seq<char>, Seq<char>, Seq<char>),
    | !(#[trigger] before(a, b)) && (#[trigger] before(a, c)) implies before(b, c) by {
        diff::lemma_key_order(a, b, c);
    }
    assert forall|a: (Seq<char>, Seq<char>, Seq<char>)| !(#[trigger] before(a, a)) by {
        diff::lemma_key_order(a, a, a);
    }
}

// ---------------------------------------------------------------------------
// Changes
// ---------------------------------------------------------------------------

/// A hunk that only adds lines is an addition, one that only removes lines a
/// removal, and every other a modification.
pub proof fn lemma_change(lines: Seq<Seq<char>>)
    ensures
        ({
            let adds = exists|i: int|
                0 <= i < lines.len() && (#[trigger] lines[i]).len() > 0 && lines[i][0] == '+';
            let removes = exists|i: int|
                0 <= i < lines.len() && (#[trigger] lines[i]).len() > 0 && lines[i][0] == '-';
            &&& adds && !removes ==> diff::change_of(lines) == "added"@
            &&& removes && !adds ==> diff::change_of(lines) == "removed"@
            &&& adds == removes ==> diff::change_of(lines) == "modified"@
        }),
{
    assert(diff::any_sigil(lines, '+') == exists|i: int|
        0 <= i < lines.len() && (#[trigger] lines[i]).len() > 0 && lines[i][0] == '+') by {
        if diff::any_sigil(lines, '+') {
            let i = choose|i: int|
                0 <= i < lines.len() && diff::has_sigil(#[trigger] lines[i], '+');
            assert(lines[i].len() > 0 && lines[i][0] == '+');
        }
        if exists|i: int|
            0 <= i < lines.len() && (#[trigger] lines[i]).len() > 0 && lines[i][0] == '+' {
            let i = choose|i: int|
                0 <= i < lines.len() && (#[trigger] lines[i]).len() > 0 && lines[i][0] == '+';
            assert(diff::has_sigil(lines[i], '+'));
        }
    }
    assert(diff::any_sigil(lines, '-') == exists|i: int|
        0 <= i < lines.len() && (#[trigger] lines[i]).len() > 0 && lines[i][0] == '-') by {
        if diff::any_sigil(lines, '-') {
            let i = choose|i: int|
                0 <= i < lines.len() && diff::has_sigil(#[trigger] lines[i], '-');
            assert(lines[i].len() > 0 && lines[i][0] == '-');
        }
        if exists|i: int|
            0 <= i < lines.len() && (#[trigger] lines[i]).len() > 0 && lines[i][0] == '-' {
            let i = choose|i: int|
                0 <= i < lines.len() && (#[trigger] lines[i]).len() > 0 && lines[i][0] == '-';
            assert(diff::has_sigil(lines[i], '-'));
        }
    }
}

/// The text after a change holds the lines that are not removed, in order,
/// without the sigils of the others.
pub proof fn lemma_post_lines(lines: Seq<Seq<char>>)
    ensures
        diff::post_lines(lines) == lines.filter(
            |line: Seq<char>| !(line.len() > 0 && line[0] == '-'),
        ).map_values(
            |line: Seq<char>|
                if line.len() > 0 && (line[0] == '+' || line[0] == ' ') {
                    line.skip(1)
                } else {
                    line
                },
        ),
    decreases lines.len(),
{
    reveal(Seq::filter);
    let keep = |line: Seq<char>| !(line.len() > 0 && line[0] == '-');
    let bare = |line: Seq<char>|
        if line.len() > 0 && (line[0] == '+' || line[0] == ' ') {
            line.skip(1)
        } else {
            line
        };
    if lines.len() > 0 {
        let head = lines.drop_last();
        lemma_post_lines(head);
        if keep(lines.last()) {
            assert(head.filter(keep).push(lines.last()).map_values(bare) =~= head.filter(
                keep,
            ).map_values(bare).push(bare(lines.last())));
        }
    } else {
        assert(lines.filter(keep).map_values(bare) =~= seq![]);
    }
}

// ---------------------------------------------------------------------------
// Names
// ---------------------------------------------------------------------------

/// The words in front of a name in the order in which they are tried.
pub open spec fn keywords() -> Seq<Seq<char>> {
    seq![
        "pub async fn "@,
        "async fn "@,
        "pub fn "@,
        "fn "@,
        "async function "@,
        "export async function "@,
        "export function "@,
        "export default function "@,
        "export class "@,
        "function "@,
        "def "@,
        "class "@,
        "struct "@,
        "enum "@,
        "impl "@,
        "interface "@,
        "func "@,
    ]
}

/// A context that starts with one of the words, and with none that is tried
/// before it, has the name behind the word.
pub proof fn lemma_context_name(ctx: Seq<char>, k: int, name: Seq<char>, rest: Seq<char>)
    requires
        0 <= k < keywords().len(),
        text::trimmed(ctx) == keywords()[k] + name + rest,
        name.len() > 0,
        forall|i: int| 0 <= i < name.len() ==> diff::is_name_char(#[trigger] name[i]),
        rest.len() > 0 ==> !diff::is_name_char(rest[0]),
        forall|j: int| 0 <= j < k ==> !(#[trigger] keywords()[j]).is_prefix_of(text::trimmed(ctx)),
    ensures
        diff::context_name(ctx) == name,
{
    let s = text::trimmed(ctx);
    assert(keywords() =~= diff::prefixes());
    let p = keywords()[k];
    assert(p.is_prefix_of(s)) by {
        assert(s.subrange(0, p.len() as int) =~= p);
    }
    let after = s.skip(p.len() as int);
    assert(after =~= name + rest);
    lemma_name_len(name, rest);
    assert(after.take(name.len() as int) =~= name);
    lemma_named_from(s, 0, k);
}

proof fn lemma_named_from(s: Seq<char>, i: int, k: int)
    requires
        0 <= i <= k < keywords().len(),
        keywords() == diff::prefixes(),
        forall|j: int| 0 <= j < k ==> !(#[trigger] keywords()[j]).is_prefix_of(s),
    ensures
        diff::named_after(s, i) == diff::named_after(s, k),
    decreases k - i,
{
    if i < k {
        assert(!keywords()[i].is_prefix_of(s));
        lemma_named_from(s, i + 1, k);
    }
}

proof fn lemma_name_len(name: Seq<char>, rest: Seq<char>)
    requires
        forall|i: int| 0 <= i < name.len() ==> diff::is_name_char(#[trigger] name[i]),
        rest.len() > 0 ==> !diff::is_name_char(rest[0]),
    ensures
        diff::name_len(name + rest) == name.len(),
    decreases name.len(),
{
    let s = name + rest;
    if name.len() == 0 {
        assert(s =~= rest);
    } else {
        assert(s[0] == name[0]);
        assert(s.skip(1) =~= name.skip(1) + rest);
        assert forall|i: int| 0 <= i < name.skip(1).len() implies diff::is_name_char(
            #[trigger] name.skip(1)[i],
        ) by {
            assert(name.skip(1)[i] == name[i + 1]);
        }
        lemma_name_len(name.skip(1), rest);
    }
}

/// A context that starts with none of the words is named by what stands before
/// the first parenthesis, brace or angle bracket.
pub proof fn lemma_other_context(lead: Seq<char>, open: char, rest: Seq<char>)
    requires
        forall|j: int|
            0 <= j < keywords().len() ==> !(#[trigger] keywords()[j]).is_prefix_of(
                text::trimmed(lead.push(open) + rest),
            ),
        open == '(' || open == '{' || open == '<',
        !lead.contains('(') && !lead.contains('{') && !lead.contains('<'),
    ensures
        diff::context_name(lead.push(open) + rest) == text::trimmed(lead),
{
    let ctx = lead.push(open) + rest;
    let s = text::trimmed(ctx);
    assert(keywords() =~= diff::prefixes());
    lemma_never_named(s, 0);
    lemma_head_len(lead, open, rest);
    assert(ctx.take(lead.len() as int) =~= lead);
}

proof fn lemma_never_named(s: Seq<char>, i: int)
    requires
        0 <= i <= keywords().len(),
        keywords() == diff::prefixes(),
        forall|j: int| 0 <= j < keywords().len() ==> !(#[trigger] keywords()[j]).is_prefix_of(s),
    ensures
        diff::named_after(s, i) is None,
    decreases keywords().len() - i,
{
    if i < keywords().len() {
        assert(!keywords()[i].is_prefix_of(s));
        lemma_never_named(s, i + 1);
    }
}

proof fn lemma_head_len(lead: Seq<char>, open: char, rest: Seq<char>)
    requires
        open == '(' || open == '{' || open == '<',
        !lead.contains('(') && !lead.contains('{') && !lead.contains('<'),
    ensures
        diff::head_len(lead.push(open) + rest) == lead.len(),
    decreases lead.len(),
{
    let s = lead.push(open) + rest;
    if lead.len() > 0 {
        let tail = lead.skip(1);
        assert(lead.contains(lead[0]));
        assert(s.skip(1) =~= tail.push(open) + rest);
        assert(!tail.contains('(') && !tail.contains('{') && !tail.contains('<')) by {
            assert forall|c: char| tail.contains(c) implies lead.contains(c) by {
                let k = tail.index_of(c);
                assert(lead[k + 1] == c);
            }
        }
        lemma_head_len(tail, open, rest);
    }
}

// ---------------------------------------------------------------------------
// Enclosing entities
// ---------------------------------------------------------------------------

/// The kinds of nodes that name a function or a type.
pub open spec fn named_kinds(language: Seq<char>) -> Seq<Seq<char>> {
    if language == "rust"@ {
        seq!["function_item"@, "struct_item"@, "enum_item"@, "trait_item"@]
    } else if language == "typescript"@ || language == "tsx"@ || language == "javascript"@
        || language == "jsx"@ {
        seq!["function_declaration"@, "method_definition"@, "class_declaration"@]
    } else if language == "python"@ {
        seq!["function_definition"@, "class_definition"@]
    } else if language == "go"@ {
        seq!["function_declaration"@, "method_declaration"@]
    } else if language == "java"@ {
        seq!["method_declaration"@, "class_declaration"@]
    } else {
        seq![]
    }
}

/// A node names an entity exactly where its kind is one of the language's.
pub proof fn lemma_named_kinds(language: Seq<char>, kind: Seq<char>)
    ensures
        diff::is_entity_kind(language, kind) <==> named_kinds(language).contains(kind),
{
    let kinds = named_kinds(language);
    if kinds.len() > 0 {
        assert(kinds.contains(kinds[0]) && kinds.contains(kinds[1]));
    }
    if kinds.len() > 2 {
        assert(kinds.contains(kinds[2]));
    }
    if kinds.len() > 3 {
        assert(kinds.contains(kinds[3]));
    }
}

/// Node `i` names `name` and spans `row`.
pub open spec fn names_row(
    nodes: Seq<NodeView>,
    source: Seq<char>,
    row: nat,
    language: Seq<char>,
    i: int,
    name: Seq<char>,
) -> bool {
    &&& 0 <= i < nodes.len()
    &&& diff::entity_name(nodes[i], source, language) == Some(name)
    &&& nodes[i].start_row <= row <= nodes[i].end_row
}

/// The entity that encloses a row is one that spans it.
pub proof fn lemma_innermost_spans(
    nodes: Seq<NodeView>,
    source: Seq<char>,
    row: nat,
    language: Seq<char>,
) -> (i: int)
    requires
        diff::innermost(nodes, source, row, language) is Some,
    ensures
        diff::innermost(nodes, source, row, language) matches Some(found) && names_row(
            nodes,
            source,
            row,
            language,
            i,
            found.0,
        ) && found.1 == nodes[i].end_row - nodes[i].start_row,
    decreases nodes.len(),
{
    let head = nodes.drop_last();
    let last = nodes.len() - 1;
    assert(nodes[last] == nodes.last());
    let before = diff::innermost(head, source, row, language);
    if before == diff::innermost(nodes, source, row, language) {
        let i = lemma_innermost_spans(head, source, row, language);
        assert(head[i] == nodes[i]);
        i
    } else {
        last
    }
}

/// No entity that spans a row is smaller than the one that is found, and where
/// one spans the row, one is found.
pub proof fn lemma_innermost_least(
    nodes: Seq<NodeView>,
    source: Seq<char>,
    row: nat,
    language: Seq<char>,
    i: int,
    name: Seq<char>,
)
    requires
        names_row(nodes, source, row, language, i, name),
    ensures
        diff::innermost(nodes, source, row, language) matches Some(found) && found.1
            <= nodes[i].end_row - nodes[i].start_row,
    decreases nodes.len(),
{
    let head = nodes.drop_last();
    let last = nodes.len() - 1;
    assert(nodes[last] == nodes.last());
    if i < last {
        assert(head[i] == nodes[i]);
        assert(names_row(head, source, row, language, i, name));
        lemma_innermost_least(head, source, row, language, i, name);
    }
}

/// A hunk whose header names something belongs to that; a hunk whose header
/// names nothing to what the syntax tree names, or to `<unknown>`.
pub proof fn lemma_entity(hunk: HunkView, language: Option<Seq<char>>)
    ensures
        hunk.context.len() > 0 && diff::context_name(hunk.context).len() > 0 ==> diff::entity_of(
            hunk,
            language,
        ) == diff::context_name(hunk.context),
        hunk.context.len() == 0 && language is None ==> diff::entity_of(hunk, language)
            == "<unknown>"@,
        hunk.context.len() == 0 ==> (language matches Some(l) ==> diff::entity_of(hunk, language)
            == match diff::hunk_entity(hunk, l) {
            Some(name) => name,
            None => "<unknown>"@,
        }),
{
}

/// The first line that a hunk adds is found where it stands in the hunk as it is
/// after the change.
pub proof fn lemma_first_added(lines: Seq<Seq<char>>)
    ensures
        diff::first_added(lines) is None <==> !diff::any_sigil(lines, '+'),
        diff::first_added(lines) matches Some(row) ==> 0 <= row < diff::post_lines(lines).len()
            && exists|k: int|
            0 <= k < lines.len() && diff::has_sigil(#[trigger] lines[k], '+') && (forall|j: int|
                0 <= j < k ==> !diff::has_sigil(#[trigger] lines[j], '+')) && diff::post_lines(
                lines,
            )[row as int] == lines[k].skip(1) && row == diff::post_lines(lines.take(k)).len(),
    decreases lines.len(),
{
    if lines.len() > 0 {
        let head = lines.drop_last();
        lemma_first_added(head);
        match diff::first_added(head) {
            Some(row) => {
                let k = choose|k: int|
                    0 <= k < head.len() && diff::has_sigil(#[trigger] head[k], '+') && (forall|
                        j: int,
                    |
                        0 <= j < k ==> !diff::has_sigil(#[trigger] head[j], '+'))
                        && diff::post_lines(head)[row as int] == head[k].skip(1) && row
                        == diff::post_lines(head.take(k)).len();
                assert(lines[k] == head[k]);
                assert(lines.take(k) =~= head.take(k));
                assert forall|j: int| 0 <= j < k implies !diff::has_sigil(
                    #[trigger] lines[j],
                    '+',
                ) by {
                    assert(head[j] == lines[j]);
                }
                assert(diff::post_lines(lines)[row as int] == diff::post_lines(head)[row as int]);
            },
            None => {
                assert forall|j: int| 0 <= j < head.len() implies !diff::has_sigil(
                    #[trigger] lines[j],
                    '+',
                ) by {
                    assert(head[j] == lines[j]);
                }
                let k = lines.len() - 1;
                assert(lines.take(k) =~= head);
                if diff::has_sigil(lines.last(), '+') {
                    assert(lines[k] == lines.last());
                }
            },
        }
    }
}

} // verus!
