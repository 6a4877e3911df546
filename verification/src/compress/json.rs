//! JSON flattening.
//!
//! Converts nested JSON objects to `path = value` lines. Arrays use
//! `items[0].name` indexing. Null and empty values are omitted. Falls back to
//! passthrough on invalid JSON.

use crate::compress::passthrough;
use crate::json;
use crate::json::{Json, JsonView};
use crate::number;
use crate::order;
use crate::pieces;
use crate::text;
use vstd::prelude::*;
use vstd::string::*;

verus! {

/// Maximum lines shown when falling back to passthrough preview.
pub const PASSTHROUGH_MAX_LINES: usize = 20;

/// How the keys of a flat object are put together: `separator` stands between
/// the keys of nested objects, and a position in an array stands between
/// `start` and `end`.
pub struct KeyStyle {
    pub separator: Seq<char>,
    pub start: Seq<char>,
    pub end: Seq<char>,
}

/// The scalars of a tree that stands at `path`, each with the path that leads to
/// it.
pub open spec fn scalars(tree: JsonView, path: Seq<char>, style: KeyStyle) -> Seq<
    (Seq<char>, JsonView),
>
    decreases tree,
{
    match tree {
        JsonView::Array(items) => item_scalars(items, path, style),
        JsonView::Object(members) => member_scalars(members, path + style.separator, style),
        _ => seq![(path, tree)],
    }
}

/// The scalars of the items of an array that stands at `path`.
pub open spec fn item_scalars(items: Seq<JsonView>, path: Seq<char>, style: KeyStyle) -> Seq<
    (Seq<char>, JsonView),
>
    decreases items,
{
    if items.len() == 0 {
        seq![]
    } else {
        let position = number::decimal((items.len() - 1) as nat);
        item_scalars(items.drop_last(), path, style) + scalars(
            items.last(),
            path + style.start + position + style.end,
            style,
        )
    }
}

/// The scalars of the members of an object, whose keys follow `lead`.
pub open spec fn member_scalars(
    members: Seq<(Seq<char>, JsonView)>,
    lead: Seq<char>,
    style: KeyStyle,
) -> Seq<(Seq<char>, JsonView)>
    decreases members,
{
    if members.len() == 0 {
        seq![]
    } else {
        member_scalars(members.drop_last(), lead, style) + scalars(
            members.last().1,
            lead + members.last().0,
            style,
        )
    }
}

/// The flat object of an object: every scalar under the path that leads to it.
/// There is none where two scalars would have one key.
pub open spec fn flattened(tree: JsonView, style: KeyStyle) -> Option<JsonView> {
    match tree {
        JsonView::Object(members) => {
            let flat = member_scalars(members, seq![], style);
            if json::distinct_keys(flat) {
                Some(JsonView::Object(json::keyed(flat)))
            } else {
                None
            }
        },
        _ => None,
    }
}

/// Calls `flatten_json_object::Flattener::flatten`, with empty arrays and
/// objects left out. Trusted: an object gives the flat object of its scalars, each
/// under its path, unless two would have one key; anything else gives none.
#[verifier::external_body]
fn flatten(v: &serde_json::Value, separator: &str, start: &str, end: &str) -> (r: Option<
    serde_json::Value,
>)
    ensures
        match r {
            Some(flat) => flattened(
                json::value_tree(*v),
                (KeyStyle { separator: separator@, start: start@, end: end@ }),
            ) == Some(json::value_tree(flat)),
            None => flattened(
                json::value_tree(*v),
                (KeyStyle { separator: separator@, start: start@, end: end@ }),
            ) is None,
        },
{
    flatten_json_object::Flattener::new().set_key_separator(separator).set_array_formatting(
        flatten_json_object::ArrayFormatting::Surrounded {
            start: start.to_owned(),
            end: end.to_owned(),
        },
    ).set_preserve_empty_arrays(false).set_preserve_empty_objects(false).flatten(v).ok()
}

/// The text of a value for display.
pub open spec fn scalar_text(tree: JsonView) -> Seq<char> {
    match tree {
        JsonView::Text(s) => s,
        JsonView::Number(n) => n,
        JsonView::Bool(b) => if b {
            "true"@
        } else {
            "false"@
        },
        JsonView::Null => "null"@,
        _ => json::compact(json::canonical(tree)),
    }
}

/// Format a scalar JSON value for display; arrays and objects as compact JSON.
pub fn format_scalar(v: &Json) -> (s: String)
    ensures
        s@ == scalar_text(v@),
{
    match v {
        Json::Text(s) => s.clone(),
        Json::Number(n) => json::write_number(n),
        Json::Bool(b) => if *b {
            "true".to_owned()
        } else {
            "false".to_owned()
        },
        Json::Null => "null".to_owned(),
        other => other.to_text(),
    }
}

/// The value is omitted: null or an empty string.
pub open spec fn is_omitted(tree: JsonView) -> bool {
    match tree {
        JsonView::Null => true,
        JsonView::Text(s) => s.len() == 0,
        _ => false,
    }
}

/// Whether a value is omitted: null or an empty string.
pub fn should_omit(v: &Json) -> (r: bool)
    ensures
        r == is_omitted(v@),
{
    match v {
        Json::Null => true,
        Json::Text(s) => s.as_str().unicode_len() == 0,
        _ => false,
    }
}

/// The line of a member.
pub open spec fn member_line(member: (Seq<char>, JsonView)) -> Seq<char> {
    member.0 + " = "@ + scalar_text(member.1)
}

/// The lines of the members that are not omitted.
pub open spec fn member_lines(members: Seq<(Seq<char>, JsonView)>) -> Seq<Seq<char>>
    decreases members.len(),
{
    if members.len() == 0 {
        seq![]
    } else {
        let before = member_lines(members.drop_last());
        if is_omitted(members.last().1) {
            before
        } else {
            before.push(member_line(members.last()))
        }
    }
}

/// The members of a flat object as sorted `path = value` lines.
pub open spec fn member_text(members: Seq<(Seq<char>, JsonView)>) -> Seq<char> {
    pieces::joined(order::alphabetic(member_lines(members)), "\n"@)
}

/// Write the members of a flat object as sorted `path = value` lines.
pub fn render_members(members: &[(String, Json)]) -> (out: String)
    ensures
        out@ == member_text(json::members_view(members@)),
{
    let ghost all = json::members_view(members@);
    let mut lines: Vec<String> = Vec::new();
    let mut i: usize = 0;
    assert(all.take(0) =~= seq![]);
    assert(text::texts(lines@) =~= seq![]);
    while i < members.len()
        invariant
            all == json::members_view(members@),
            i <= members@.len(),
            text::texts(lines@) == member_lines(all.take(i as int)),
        decreases members@.len() - i,
    {
        proof {
            assert(all.take(i + 1).drop_last() =~= all.take(i as int));
            assert(all.take(i + 1).last() == (members@[i as int].0@, members@[i as int].1@));
        }
        if !should_omit(&members[i].1) {
            let mut line = members[i].0.clone();
            line.append(" = ");
            let value = format_scalar(&members[i].1);
            line.append(value.as_str());
            let ghost before = text::texts(lines@);
            lines.push(line);
            assert(text::texts(lines@) =~= before.push(line@));
        }
        i += 1;
    }
    assert(all.take(i as int) =~= all);
    let sorted = order::sort_strings(lines);
    pieces::join_strings(sorted.as_slice(), "\n")
}

/// The text in place of an input, given what flattening it gives.
pub open spec fn rendered(input: Seq<char>, flat: Option<JsonView>) -> Seq<char> {
    match flat {
        Some(JsonView::Object(members)) => member_text(members),
        _ => passthrough::preview_of(input, PASSTHROUGH_MAX_LINES as nat),
    }
}

/// Write what flattening an input gives; the two ends of the input where it
/// gives no object.
pub fn render_flat(input: &str, flat: Option<&Json>) -> (out: String)
    ensures
        out@ == rendered(
            input@,
            match flat {
                Some(j) => Some(j@),
                None => None,
            },
        ),
{
    match flat {
        Some(j) => {
            proof {
                json::lemma_view(*j);
            }
            match j {
                Json::Object(members) => render_members(members.as_slice()),
                _ => passthrough::preview(input, PASSTHROUGH_MAX_LINES),
            }
        },
        None => passthrough::preview(input, PASSTHROUGH_MAX_LINES),
    }
}

/// How paths are written: `items[0].name`.
pub open spec fn path_style() -> KeyStyle {
    KeyStyle { separator: "."@, start: "["@, end: "]"@ }
}

/// The flattened form of a JSON text.
pub open spec fn compressed(input: Seq<char>) -> Seq<char> {
    match json::parsed(input) {
        Some(tree) => rendered(input, flattened(tree, path_style())),
        None => rendered(input, None),
    }
}

/// Flatten a JSON string into `path = value` lines.
///
/// - Keys are joined with `.` (nested objects) or `[N]` (arrays).
/// - Null and empty-string values are omitted.
/// - On parse failure or non-object input, falls back to passthrough preview.
pub fn compress(input: &str) -> (out: String)
    ensures
        out@ == compressed(input@),
{
    match json::parse_value(input) {
        Some(v) => match json::read_value(&v) {
            Json::Object(_) => match flatten(&v, ".", "[", "]") {
                Some(flat) => {
                    let tree = json::read_value(&flat);
                    render_flat(input, Some(&tree))
                },
                None => render_flat(input, None),
            },
            _ => render_flat(input, None),
        },
        None => render_flat(input, None),
    }
}

// ---------------------------------------------------------------------------
// Laws
// ---------------------------------------------------------------------------

/// Every member has a line, unless its value is null or an empty string, and no
/// other lines are written.
pub proof fn lemma_member_lines(members: Seq<(Seq<char>, JsonView)>)
    ensures
        forall|j: int|
            0 <= j < members.len() && !is_omitted(members[j].1) ==> member_lines(members).contains(
                member_line(#[trigger] members[j]),
            ),
        forall|i: int|
            0 <= i < member_lines(members).len() ==> exists|j: int|
                0 <= j < members.len() && !is_omitted((#[trigger] members[j]).1)
                    && #[trigger] member_lines(members)[i] == member_line(members[j]),
    decreases members.len(),
{
    if members.len() > 0 {
        let head = members.drop_last();
        let before = member_lines(head);
        let all = member_lines(members);
        lemma_member_lines(head);
        assert forall|j: int| 0 <= j < members.len() && !is_omitted(members[j].1) implies all.contains(
            member_line(#[trigger] members[j]),
        ) by {
            if j < head.len() {
                assert(head[j] == members[j]);
                let i = before.index_of(member_line(head[j]));
                assert(all[i] == before[i]);
            } else {
                assert(all[before.len() as int] == member_line(members[j]));
            }
        }
        assert forall|i: int| 0 <= i < all.len() implies exists|j: int|
            0 <= j < members.len() && !is_omitted((#[trigger] members[j]).1)
                && #[trigger] all[i] == member_line(members[j]) by {
            if i < before.len() {
                let j = choose|j: int|
                    0 <= j < head.len() && !is_omitted((#[trigger] head[j]).1) && before[i]
                        == member_line(head[j]);
                assert(members[j] == head[j]);
            } else {
                assert(members[members.len() - 1] == members.last());
            }
        }
    }
}

/// What stands under a member's key is among what the object holds.
proof fn lemma_under_key(
    members: Seq<(Seq<char>, JsonView)>,
    lead: Seq<char>,
    style: KeyStyle,
    j: int,
    entry: (Seq<char>, JsonView),
)
    requires
        0 <= j < members.len(),
        scalars(members[j].1, lead + members[j].0, style).contains(entry),
    ensures
        member_scalars(members, lead, style).contains(entry),
    decreases members.len(),
{
    let before = member_scalars(members.drop_last(), lead, style);
    let own = scalars(members.last().1, lead + members.last().0, style);
    let all = member_scalars(members, lead, style);
    if j == members.len() - 1 {
        let k = own.index_of(entry);
        assert(all[before.len() + k] == own[k]);
    } else {
        lemma_under_key(members.drop_last(), lead, style, j, entry);
        let k = before.index_of(entry);
        assert(all[k] == before[k]);
    }
}

/// A scalar in an object in an object stands under both keys, with a dot between
/// them.
pub proof fn lemma_nested_path(
    members: Seq<(Seq<char>, JsonView)>,
    inner: Seq<(Seq<char>, JsonView)>,
    j: int,
    m: int,
)
    requires
        0 <= j < members.len(),
        members[j].1 == JsonView::Object(inner),
        0 <= m < inner.len(),
        !(inner[m].1 is Array),
        !(inner[m].1 is Object),
    ensures
        member_scalars(members, seq![], path_style()).contains(
            (members[j].0 + "."@ + inner[m].0, inner[m].1),
        ),
{
    let style = path_style();
    let key = members[j].0;
    let entry = (key + "."@ + inner[m].0, inner[m].1);
    assert(Seq::<char>::empty() + key =~= key);
    assert(scalars(inner[m].1, entry.0, style) =~= seq![entry]);
    assert(seq![entry][0] == entry);
    lemma_under_key(inner, key + "."@, style, m, entry);
    lemma_under_key(members, seq![], style, j, entry);
}

/// A scalar in an array stands under the key of the array, with its position in
/// brackets.
pub proof fn lemma_position_path(key: Seq<char>, items: Seq<JsonView>, i: int)
    requires
        0 <= i < items.len(),
        !(items[i] is Array),
        !(items[i] is Object),
    ensures
        item_scalars(items, key, path_style()).contains(
            (key + "["@ + number::decimal(i as nat) + "]"@, items[i]),
        ),
    decreases items.len(),
{
    let style = path_style();
    let path = key + "["@ + number::decimal(i as nat) + "]"@;
    let before = item_scalars(items.drop_last(), key, style);
    let all = item_scalars(items, key, style);
    if i == items.len() - 1 {
        assert(scalars(items[i], path, style) =~= seq![(path, items[i])]);
        assert(all[before.len() as int] == (path, items[i]));
    } else {
        lemma_position_path(key, items.drop_last(), i);
        let k = before.index_of((path, items[i]));
        assert(all[k] == before[k]);
    }
}

} // verus!
