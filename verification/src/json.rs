//! JSON values as plain trees.

use crate::number;
use crate::order;
use crate::order::Sortable;
use crate::text;
use vstd::prelude::*;

verus! {

// ---------------------------------------------------------------------------
// Trees
// ---------------------------------------------------------------------------

/// A JSON value.
#[derive(Debug)]
pub enum Json {
    Null,
    Bool(bool),
    Number(serde_json::Number),
    Text(String),
    Array(Vec<Json>),
    /// The members, each a key and its value.
    Object(Vec<(String, Json)>),
}

/// What a JSON value stands for. A number stands for its text.
pub enum JsonView {
    Null,
    Bool(bool),
    Number(Seq<char>),
    Text(Seq<char>),
    Array(Seq<JsonView>),
    Object(Seq<(Seq<char>, JsonView)>),
}

/// What a JSON value stands for.
pub open spec fn json_view(j: Json) -> JsonView
    decreases j,
{
    match j {
        Json::Null => JsonView::Null,
        Json::Bool(b) => JsonView::Bool(b),
        Json::Number(n) => JsonView::Number(number_text(n)),
        Json::Text(s) => JsonView::Text(s@),
        Json::Array(items) => JsonView::Array(
            Seq::new(
                items@.len(),
                |i: int|
                    if 0 <= i < items@.len() {
                        json_view(items@[i])
                    } else {
                        JsonView::Null
                    },
            ),
        ),
        Json::Object(members) => JsonView::Object(
            Seq::new(
                members@.len(),
                |i: int|
                    if 0 <= i < members@.len() {
                        (members@[i].0@, json_view(members@[i].1))
                    } else {
                        (seq![], JsonView::Null)
                    },
            ),
        ),
    }
}

impl View for Json {
    type V = JsonView;

    open spec fn view(&self) -> JsonView {
        json_view(*self)
    }
}

/// What JSON values stand for.
pub open spec fn items_view(items: Seq<Json>) -> Seq<JsonView> {
    items.map_values(|j: Json| j@)
}

/// What members stand for.
pub open spec fn members_view(members: Seq<(String, Json)>) -> Seq<(Seq<char>, JsonView)> {
    members.map_values(|m: (String, Json)| (m.0@, m.1@))
}

/// An array stands for its items, an object for its members.
pub proof fn lemma_view(j: Json)
    ensures
        j matches Json::Array(items) ==> j@ == JsonView::Array(items_view(items@)),
        j matches Json::Object(members) ==> j@ == JsonView::Object(members_view(members@)),
{
    match j {
        Json::Array(items) => {
            assert(j@->Array_0 =~= items_view(items@));
        },
        Json::Object(members) => {
            assert(j@->Object_0 =~= members_view(members@));
        },
        _ => {},
    }
}

/// The parts of a tree are smaller than the tree.
proof fn lemma_tree_smaller(tree: JsonView, i: int)
    ensures
        tree matches JsonView::Array(items) ==> 0 <= i < items.len() ==> decreases_to!(tree
            => items[i]),
        tree matches JsonView::Object(members) ==> 0 <= i < members.len() ==> decreases_to!(tree
            => members[i].1),
{
    match tree {
        JsonView::Array(items) => {
            assert(decreases_to!(tree => tree->Array_0));
            if 0 <= i < items.len() {
                assert(decreases_to!(items => items[i]));
            }
        },
        JsonView::Object(members) => {
            assert(decreases_to!(tree => tree->Object_0));
            if 0 <= i < members.len() {
                assert(decreases_to!(members => members[i]));
                assert(decreases_to!(members[i] => members[i].1));
            }
        },
        _ => {},
    }
}

/// The parts of a JSON value are smaller than the value.
proof fn lemma_json_smaller(j: Json, i: int)
    ensures
        j matches Json::Array(items) ==> 0 <= i < items@.len() ==> decreases_to!(j => items@[i]),
        j matches Json::Object(members) ==> 0 <= i < members@.len() ==> decreases_to!(j
            => members@[i].1),
{
    match j {
        Json::Array(items) => {
            assert(decreases_to!(j => j->Array_0));
            assert(decreases_to!(items => items@));
            if 0 <= i < items@.len() {
                assert(decreases_to!(items@ => items@[i]));
            }
        },
        Json::Object(members) => {
            assert(decreases_to!(j => j->Object_0));
            assert(decreases_to!(members => members@));
            if 0 <= i < members@.len() {
                assert(decreases_to!(members@ => members@[i]));
                assert(decreases_to!(members@[i] => members@[i].1));
            }
        },
        _ => {},
    }
}

// ---------------------------------------------------------------------------
// Values of serde_json
// ---------------------------------------------------------------------------

/// A number of serde_json, opaque.
#[verifier::external_type_specification]
#[verifier::external_body]
pub struct ExNumber(serde_json::Number);

/// A value of serde_json, opaque.
#[verifier::external_type_specification]
#[verifier::external_body]
pub struct ExValue(serde_json::Value);

/// The text of a number.
pub uninterp spec fn number_text(n: serde_json::Number) -> Seq<char>;

/// The tree that a value of serde_json holds, the members of an object in the
/// order in which they are walked.
pub uninterp spec fn value_tree(v: serde_json::Value) -> JsonView;

/// Calls `to_string` on a `serde_json::Number`. Trusted: the text is a function
/// of the number.
#[verifier::external_body]
pub(crate) fn write_number(n: &serde_json::Number) -> (s: String)
    ensures
        s@ == number_text(*n),
{
    n.to_string()
}

/// The trees of values.
pub open spec fn value_trees(values: Seq<serde_json::Value>) -> Seq<JsonView> {
    values.map_values(|v: serde_json::Value| value_tree(v))
}

/// The trees of values under their keys.
pub open spec fn pair_trees(pairs: Seq<(String, serde_json::Value)>) -> Seq<
    (Seq<char>, JsonView),
> {
    pairs.map_values(|m: (String, serde_json::Value)| (m.0@, value_tree(m.1)))
}

/// Calls `serde_json::Number::from` on a `u64`. Trusted: the text of the number
/// is its decimal text.
#[verifier::external_body]
pub(crate) fn number_of(n: u64) -> (r: serde_json::Number)
    ensures
        number_text(r) == number::decimal(n as nat),
{
    serde_json::Number::from(n)
}

/// Calls `serde_json::Number::from` on an `i64`. Trusted: the text of the number
/// is its decimal text.
#[verifier::external_body]
pub(crate) fn signed_number_of(n: i64) -> (r: serde_json::Number)
    ensures
        number_text(r) == number::signed_decimal(n as int),
{
    serde_json::Number::from(n)
}

/// One level of a value that is being read.
enum Opened<'a> {
    Null,
    Bool(bool),
    Number(serde_json::Number),
    Text(&'a String),
    Array(&'a Vec<serde_json::Value>),
    Object(Vec<(&'a String, &'a serde_json::Value)>),
}

/// What one level of a value stands for.
spec fn opened_view(o: Opened) -> JsonView {
    match o {
        Opened::Null => JsonView::Null,
        Opened::Bool(b) => JsonView::Bool(b),
        Opened::Number(n) => JsonView::Number(number_text(n)),
        Opened::Text(s) => JsonView::Text(s@),
        Opened::Array(items) => JsonView::Array(value_trees(items@)),
        Opened::Object(members) => JsonView::Object(
            members@.map_values(|m: (&String, &serde_json::Value)| (m.0@, value_tree(*m.1))),
        ),
    }
}

/// Tells the variants of a `serde_json::Value` apart. Trusted: its tree is made
/// of what the variant holds; an object is walked by `serde_json::Map::iter`.
#[verifier::external_body]
fn open<'a>(v: &'a serde_json::Value) -> (o: Opened<'a>)
    ensures
        value_tree(*v) == opened_view(o),
{
    match v {
        serde_json::Value::Null => Opened::Null,
        serde_json::Value::Bool(b) => Opened::Bool(*b),
        serde_json::Value::Number(n) => Opened::Number(n.clone()),
        serde_json::Value::String(s) => Opened::Text(s),
        serde_json::Value::Array(items) => Opened::Array(items),
        serde_json::Value::Object(members) => Opened::Object(members.iter().collect()),
    }
}

/// One level of a value that is being built.
enum Built<'a> {
    Null,
    Bool(bool),
    Number(&'a serde_json::Number),
    Text(&'a String),
    Array(Vec<serde_json::Value>),
    Object(Vec<(String, serde_json::Value)>),
}

/// `members` with `value` under `key`, in the order of the keys.
pub open spec fn put<V>(members: Seq<(Seq<char>, V)>, key: Seq<char>, value: V) -> Seq<
    (Seq<char>, V),
>
    decreases members.len(),
{
    if members.len() == 0 || order::lex_before(members.last().0, key) {
        members.push((key, value))
    } else if members.last().0 == key {
        members.drop_last().push((key, value))
    } else {
        put(members.drop_last(), key, value).push(members.last())
    }
}

/// The members in the order of their keys, of several with one key the last.
pub open spec fn keyed<V>(members: Seq<(Seq<char>, V)>) -> Seq<(Seq<char>, V)>
    decreases members.len(),
{
    if members.len() == 0 {
        seq![]
    } else {
        put(keyed(members.drop_last()), members.last().0, members.last().1)
    }
}

/// What one level of a value that is being built comes to.
spec fn built_view(b: Built) -> JsonView {
    match b {
        Built::Null => JsonView::Null,
        Built::Bool(x) => JsonView::Bool(x),
        Built::Number(n) => JsonView::Number(number_text(*n)),
        Built::Text(s) => JsonView::Text(s@),
        Built::Array(items) => JsonView::Array(value_trees(items@)),
        Built::Object(members) => JsonView::Object(keyed(pair_trees(members@))),
    }
}

/// Builds a `serde_json::Value`. Trusted: its tree is made of what it is built
/// from; `serde_json::Map` keeps its members in the order of their keys and of
/// several with one key the last.
#[verifier::external_body]
fn build(b: Built) -> (v: serde_json::Value)
    ensures
        value_tree(v) == built_view(b),
{
    match b {
        Built::Null => serde_json::Value::Null,
        Built::Bool(x) => serde_json::Value::Bool(x),
        Built::Number(n) => serde_json::Value::Number(n.clone()),
        Built::Text(s) => serde_json::Value::String(s.clone()),
        Built::Array(items) => serde_json::Value::Array(items),
        Built::Object(members) => serde_json::Value::Object(members.into_iter().collect()),
    }
}

/// The tree of the value that a text holds, where it is JSON.
pub uninterp spec fn parsed(source: Seq<char>) -> Option<JsonView>;

/// Levels of arrays and objects within each other that are read.
pub const READ_LEVELS: usize = 127;

/// Arrays and objects stand within each other on at most `levels` levels.
pub open spec fn nests(tree: JsonView, levels: nat) -> bool
    decreases levels,
{
    match tree {
        JsonView::Array(items) => levels > 0 && forall|i: int|
            0 <= i < items.len() ==> nests(#[trigger] items[i], (levels - 1) as nat),
        JsonView::Object(members) => levels > 0 && forall|i: int|
            0 <= i < members.len() ==> nests((#[trigger] members[i]).1, (levels - 1) as nat),
        _ => true,
    }
}

/// The text of a whole number.
pub open spec fn is_integer(n: Seq<char>) -> bool {
    let digits = if n.len() > 0 && n[0] == '-' {
        n.skip(1)
    } else {
        n
    };
    digits.len() > 0 && forall|i: int|
        0 <= i < digits.len() ==> '0' <= #[trigger] digits[i] && digits[i] <= '9'
}

/// On at most `levels` levels, and every number is a whole one.
pub open spec fn integral(tree: JsonView, levels: nat) -> bool
    decreases levels,
{
    match tree {
        JsonView::Number(n) => is_integer(n),
        JsonView::Array(items) => levels > 0 && forall|i: int|
            0 <= i < items.len() ==> integral(#[trigger] items[i], (levels - 1) as nat),
        JsonView::Object(members) => levels > 0 && forall|i: int|
            0 <= i < members.len() ==> integral((#[trigger] members[i]).1, (levels - 1) as nat),
        _ => true,
    }
}

/// Every number is a whole one.
pub open spec fn has_integers(tree: JsonView) -> bool {
    exists|levels: nat| integral(tree, levels)
}

/// Calls `serde_json::from_str`. Trusted: the value is a function of the text, and
/// has no more levels than the parser goes down.
#[verifier::external_body]
pub(crate) fn parse_value(source: &str) -> (r: Option<serde_json::Value>)
    ensures
        r matches Some(v) ==> nests(value_tree(v), READ_LEVELS as nat),
        match r {
            Some(v) => parsed(source@) == Some(value_tree(v)),
            None => parsed(source@) is None,
        },
{
    serde_json::from_str(source).ok()
}

/// The compact text of a tree.
pub uninterp spec fn compact(tree: JsonView) -> Seq<char>;

/// Calls `to_string` on a `serde_json::Value`. Trusted: the text is a function
/// of the tree, and parsing gives the tree back where it has no more levels than
/// the parser goes down and its numbers are whole. Of other numbers nothing is
/// said: the parser may read one that was written to another.
#[verifier::external_body]
fn write_value(v: &serde_json::Value) -> (s: String)
    ensures
        s@ == compact(value_tree(*v)),
        integral(value_tree(*v), READ_LEVELS as nat) ==> parsed(s@) == Some(value_tree(*v)),
{
    v.to_string()
}

/// The text of a tree with line breaks and indentation.
pub uninterp spec fn pretty(tree: JsonView) -> Seq<char>;

/// Calls `serde_json::to_string_pretty` on a `serde_json::Value`. Trusted: the
/// text, empty where it could not be written, is a function of the tree.
#[verifier::external_body]
fn write_value_pretty(v: &serde_json::Value) -> (s: String)
    ensures
        s@ == pretty(value_tree(*v)),
{
    serde_json::to_string_pretty(v).unwrap_or_default()
}

// ---------------------------------------------------------------------------
// Between trees and values
// ---------------------------------------------------------------------------

/// Read a value into a tree.
pub fn read_value(v: &serde_json::Value) -> (j: Json)
    ensures
        j@ == value_tree(*v),
    decreases value_tree(*v),
{
    match open(v) {
        Opened::Null => Json::Null,
        Opened::Bool(b) => Json::Bool(b),
        Opened::Number(n) => Json::Number(n),
        Opened::Text(s) => Json::Text(s.clone()),
        Opened::Array(items) => {
            let ghost tree = value_tree(*v)->Array_0;
            let mut out: Vec<Json> = Vec::new();
            let mut i: usize = 0;
            while i < items.len()
                invariant
                    value_tree(*v) == JsonView::Array(tree),
                    tree == value_trees(items@),
                    i <= items@.len(),
                    items_view(out@) == tree.take(i as int),
                decreases items@.len() - i,
            {
                let ghost before = items_view(out@);
                assert(tree[i as int] == value_tree(items@[i as int]));
                proof {
                    lemma_tree_smaller(value_tree(*v), i as int);
                }
                let item = read_value(&items[i]);
                out.push(item);
                i += 1;
                assert(items_view(out@) =~= before.push(item@));
                assert(items_view(out@) =~= tree.take(i as int));
            }
            assert(tree.take(i as int) =~= tree);
            let j = Json::Array(out);
            proof {
                lemma_view(j);
            }
            j
        },
        Opened::Object(members) => {
            let ghost tree = value_tree(*v)->Object_0;
            let mut out: Vec<(String, Json)> = Vec::new();
            let mut i: usize = 0;
            while i < members.len()
                invariant
                    value_tree(*v) == JsonView::Object(tree),
                    tree == members@.map_values(
                        |m: (&String, &serde_json::Value)| (m.0@, value_tree(*m.1)),
                    ),
                    i <= members@.len(),
                    members_view(out@) == tree.take(i as int),
                decreases members@.len() - i,
            {
                let ghost before = members_view(out@);
                let key = members[i].0;
                assert(tree[i as int] == (key@, value_tree(*members@[i as int].1)));
                proof {
                    lemma_tree_smaller(value_tree(*v), i as int);
                }
                let value = read_value(members[i].1);
                out.push((key.clone(), value));
                i += 1;
                assert(members_view(out@) =~= before.push((key@, value@)));
                assert(members_view(out@) =~= tree.take(i as int));
            }
            assert(tree.take(i as int) =~= tree);
            let j = Json::Object(out);
            proof {
                lemma_view(j);
            }
            j
        },
    }
}

/// The tree with the members of every object in the order of their keys, of
/// several with one key the last.
pub open spec fn canonical(tree: JsonView) -> JsonView
    decreases tree,
{
    match tree {
        JsonView::Array(items) => JsonView::Array(canonical_array(items)),
        JsonView::Object(members) => JsonView::Object(canonical_object(members)),
        _ => tree,
    }
}

/// The items of an array in canonical form.
pub open spec fn canonical_array(items: Seq<JsonView>) -> Seq<JsonView>
    decreases items,
{
    if items.len() == 0 {
        seq![]
    } else {
        canonical_array(items.drop_last()).push(canonical(items.last()))
    }
}

/// The members of an object in canonical form.
pub open spec fn canonical_object(members: Seq<(Seq<char>, JsonView)>) -> Seq<
    (Seq<char>, JsonView),
>
    decreases members,
{
    if members.len() == 0 {
        seq![]
    } else {
        put(
            canonical_object(members.drop_last()),
            members.last().0,
            canonical(members.last().1),
        )
    }
}

/// The canonical forms of trees.
pub open spec fn canonical_items(items: Seq<JsonView>) -> Seq<JsonView> {
    items.map_values(|t: JsonView| canonical(t))
}

/// The canonical forms of trees under their keys.
pub open spec fn canonical_members(members: Seq<(Seq<char>, JsonView)>) -> Seq<
    (Seq<char>, JsonView),
> {
    members.map_values(|m: (Seq<char>, JsonView)| (m.0, canonical(m.1)))
}

proof fn lemma_canonical_array(items: Seq<JsonView>)
    ensures
        canonical_array(items) == canonical_items(items),
    decreases items.len(),
{
    if items.len() == 0 {
        assert(canonical_items(items) =~= seq![]);
    } else {
        lemma_canonical_array(items.drop_last());
        assert(canonical_items(items) =~= canonical_items(items.drop_last()).push(
            canonical(items.last()),
        ));
    }
}

proof fn lemma_canonical_object(members: Seq<(Seq<char>, JsonView)>)
    ensures
        canonical_object(members) == keyed(canonical_members(members)),
    decreases members.len(),
{
    if members.len() == 0 {
        assert(canonical_members(members) =~= seq![]);
    } else {
        lemma_canonical_object(members.drop_last());
        assert(canonical_members(members).drop_last() =~= canonical_members(members.drop_last()));
    }
}

/// The canonical form of an array or an object is made of those of its parts.
pub proof fn lemma_canonical(tree: JsonView)
    ensures
        tree matches JsonView::Array(items) ==> canonical(tree) == JsonView::Array(
            canonical_items(items),
        ),
        tree matches JsonView::Object(members) ==> canonical(tree) == JsonView::Object(
            keyed(canonical_members(members)),
        ),
{
    match tree {
        JsonView::Array(items) => {
            lemma_canonical_array(items);
        },
        JsonView::Object(members) => {
            lemma_canonical_object(members);
        },
        _ => {},
    }
}

/// Build the value of a tree.
pub fn write_tree(j: &Json) -> (v: serde_json::Value)
    ensures
        value_tree(v) == canonical(j@),
    decreases *j,
{
    proof {
        lemma_view(*j);
        lemma_canonical(j@);
    }
    match j {
        Json::Null => build(Built::Null),
        Json::Bool(b) => build(Built::Bool(*b)),
        Json::Number(n) => build(Built::Number(n)),
        Json::Text(s) => build(Built::Text(s)),
        Json::Array(items) => {
            let ghost tree = canonical_items(items_view(items@));
            let mut out: Vec<serde_json::Value> = Vec::new();
            let mut i: usize = 0;
            while i < items.len()
                invariant
                    *j == Json::Array(*items),
                    tree == canonical_items(items_view(items@)),
                    i <= items@.len(),
                    value_trees(out@) == tree.take(i as int),
                decreases items@.len() - i,
            {
                let ghost before = value_trees(out@);
                proof {
                    lemma_json_smaller(*j, i as int);
                }
                let item = write_tree(&items[i]);
                out.push(item);
                i += 1;
                assert(value_trees(out@) =~= before.push(value_tree(item)));
                assert(value_trees(out@) =~= tree.take(i as int));
            }
            assert(tree.take(i as int) =~= tree);
            build(Built::Array(out))
        },
        Json::Object(members) => {
            let ghost tree = canonical_members(members_view(members@));
            let mut out: Vec<(String, serde_json::Value)> = Vec::new();
            let mut i: usize = 0;
            while i < members.len()
                invariant
                    *j == Json::Object(*members),
                    tree == canonical_members(members_view(members@)),
                    i <= members@.len(),
                    pair_trees(out@) == tree.take(i as int),
                decreases members@.len() - i,
            {
                let ghost before = pair_trees(out@);
                proof {
                    lemma_json_smaller(*j, i as int);
                }
                let value = write_tree(&members[i].1);
                let key = members[i].0.clone();
                out.push((key, value));
                i += 1;
                assert(pair_trees(out@) =~= before.push((key@, value_tree(value))));
                assert(pair_trees(out@) =~= tree.take(i as int));
            }
            assert(tree.take(i as int) =~= tree);
            build(Built::Object(out))
        },
    }
}

// ---------------------------------------------------------------------------
// Reading and changing trees
// ---------------------------------------------------------------------------

/// The first member from `i` on with key `key`.
pub open spec fn member_index<V>(members: Seq<(Seq<char>, V)>, key: Seq<char>, i: int) -> Option<
    int,
>
    decreases members.len() - i,
{
    if i < 0 || i >= members.len() {
        None
    } else if members[i].0 == key {
        Some(i)
    } else {
        member_index(members, key, i + 1)
    }
}

/// The value under `key`, where the tree is an object that has one.
pub open spec fn field(tree: JsonView, key: Seq<char>) -> Option<JsonView> {
    match tree {
        JsonView::Object(members) => match member_index(members, key, 0) {
            Some(i) => Some(members[i].1),
            None => None,
        },
        _ => None,
    }
}

/// The text under `key`, where there is one.
pub open spec fn text_field(tree: JsonView, key: Seq<char>) -> Option<Seq<char>> {
    match field(tree, key) {
        Some(JsonView::Text(s)) => Some(s),
        _ => None,
    }
}

/// The text under `key`, or `default`.
pub open spec fn text_field_or(tree: JsonView, key: Seq<char>, default: Seq<char>) -> Seq<char> {
    match text_field(tree, key) {
        Some(s) => s,
        None => default,
    }
}

/// The members but those under `key`.
pub open spec fn without_member(members: Seq<(Seq<char>, JsonView)>, key: Seq<char>) -> Seq<
    (Seq<char>, JsonView),
>
    decreases members.len(),
{
    if members.len() == 0 {
        seq![]
    } else if members.last().0 == key {
        without_member(members.drop_last(), key)
    } else {
        without_member(members.drop_last(), key).push(members.last())
    }
}

/// `serde_json::Number::clone` gives a number with the same text.
pub assume_specification[ <serde_json::Number as Clone>::clone ](n: &serde_json::Number) -> (r:
    serde_json::Number)
    ensures
        number_text(r) == number_text(*n),
;

impl Json {
    /// Read JSON text.
    pub fn parse(source: &str) -> (r: Option<Json>)
        ensures
            match r {
                Some(j) => parsed(source@) == Some(j@) && nests(j@, READ_LEVELS as nat),
                None => parsed(source@) is None,
            },
    {
        match parse_value(source) {
            Some(v) => Some(read_value(&v)),
            None => None,
        }
    }

    /// Write the value as compact JSON, the members of every object in the
    /// order of their keys.
    pub fn to_text(&self) -> (s: String)
        ensures
            s@ == compact(canonical(self@)),
            integral(canonical(self@), READ_LEVELS as nat) ==> parsed(s@) == Some(
                canonical(self@),
            ),
    {
        let v = write_tree(self);
        write_value(&v)
    }

    /// Write the value as JSON with line breaks and indentation, the members of
    /// every object in the order of their keys.
    pub fn to_pretty(&self) -> (s: String)
        ensures
            s@ == pretty(canonical(self@)),
    {
        let v = write_tree(self);
        write_value_pretty(&v)
    }

    /// A copy of the value.
    pub fn copy(&self) -> (j: Json)
        ensures
            j@ == self@,
        decreases *self,
    {
        proof {
            lemma_view(*self);
        }
        match self {
            Json::Null => Json::Null,
            Json::Bool(b) => Json::Bool(*b),
            Json::Number(n) => Json::Number(n.clone()),
            Json::Text(s) => Json::Text(s.clone()),
            Json::Array(items) => {
                let mut out: Vec<Json> = Vec::new();
                let mut i: usize = 0;
                while i < items.len()
                    invariant
                        *self == Json::Array(*items),
                        i <= items@.len(),
                        items_view(out@) == items_view(items@).take(i as int),
                    decreases items@.len() - i,
                {
                    proof {
                        lemma_json_smaller(*self, i as int);
                    }
                    let ghost before = items_view(out@);
                    let item = items[i].copy();
                    out.push(item);
                    i += 1;
                    assert(items_view(out@) =~= before.push(item@));
                    assert(items_view(out@) =~= items_view(items@).take(i as int));
                }
                assert(items_view(out@) =~= items_view(items@));
                let j = Json::Array(out);
                proof {
                    lemma_view(j);
                }
                j
            },
            Json::Object(members) => {
                let mut out: Vec<(String, Json)> = Vec::new();
                let mut i: usize = 0;
                while i < members.len()
                    invariant
                        *self == Json::Object(*members),
                        i <= members@.len(),
                        members_view(out@) == members_view(members@).take(i as int),
                    decreases members@.len() - i,
                {
                    proof {
                        lemma_json_smaller(*self, i as int);
                    }
                    let ghost before = members_view(out@);
                    let key = members[i].0.clone();
                    let value = members[i].1.copy();
                    out.push((key, value));
                    i += 1;
                    assert(members_view(out@) =~= before.push((key@, value@)));
                    assert(members_view(out@) =~= members_view(members@).take(i as int));
                }
                assert(members_view(out@) =~= members_view(members@));
                let j = Json::Object(out);
                proof {
                    lemma_view(j);
                }
                j
            },
        }
    }

    /// The value under `key`, where there is one.
    pub fn get(&self, key: &str) -> (r: Option<&Json>)
        ensures
            match r {
                Some(j) => field(self@, key@) == Some(j@),
                None => field(self@, key@) is None,
            },
    {
        proof {
            lemma_view(*self);
        }
        match self {
            Json::Object(members) => {
                let ghost view = members_view(members@);
                let mut i: usize = 0;
                while i < members.len()
                    invariant
                        view == members_view(members@),
                        self@ == JsonView::Object(view),
                        i <= members@.len(),
                        member_index(view, key@, 0) == member_index(view, key@, i as int),
                    decreases members@.len() - i,
                {
                    if text::same_text(members[i].0.as_str(), key) {
                        return Some(&members[i].1);
                    }
                    i += 1;
                }
                None
            },
            _ => None,
        }
    }

    /// The text that the value is, where it is one.
    pub fn as_text(&self) -> (r: Option<&String>)
        ensures
            match r {
                Some(s) => self@ == JsonView::Text(s@),
                None => !(self@ is Text),
            },
    {
        match self {
            Json::Text(s) => Some(s),
            _ => None,
        }
    }

    /// The text under `key`, where there is one.
    pub fn get_text(&self, key: &str) -> (r: Option<&String>)
        ensures
            match r {
                Some(s) => text_field(self@, key@) == Some(s@),
                None => text_field(self@, key@) is None,
            },
    {
        match self.get(key) {
            Some(j) => j.as_text(),
            None => None,
        }
    }

    /// The text under `key`, or `default`.
    pub fn get_text_or(&self, key: &str, default: &str) -> (r: String)
        ensures
            r@ == text_field_or(self@, key@, default@),
    {
        match self.get_text(key) {
            Some(s) => s.clone(),
            None => default.to_owned(),
        }
    }

    /// Put `value` under `key`: an object keeps its members in the order of
    /// their keys, and nothing becomes an object.
    pub fn set_field(&mut self, key: &str, value: Json)
        requires
            *old(self) is Object || *old(self) is Null,
        ensures
            *final(self) is Object,
            final(self)@ == field_set(old(self)@, key@, value@),
    {
        proof {
            lemma_view(*self);
        }
        let members: Vec<(String, Json)> = match self {
            Json::Object(members) => {
                let mut own: Vec<(String, Json)> = Vec::new();
                std::mem::swap(&mut own, members);
                own
            },
            _ => Vec::new(),
        };
        assert(members_view(members@) =~= match old(self)@ {
            JsonView::Object(m) => m,
            _ => seq![],
        });
        let placed = put_member(members, key, value);
        *self = Json::Object(placed);
        proof {
            lemma_view(*self);
        }
    }
}

/// The tree of an integer.
pub open spec fn integer_tree(n: int) -> JsonView {
    JsonView::Number(number::signed_decimal(n))
}

/// The tree of an integer that may be missing.
pub open spec fn optional_integer_tree(n: Option<i64>) -> JsonView {
    match n {
        Some(i) => integer_tree(i as int),
        None => JsonView::Null,
    }
}

/// The tree of a text that may be missing.
pub open spec fn optional_text_tree(s: Option<String>) -> JsonView {
    match s {
        Some(t) => JsonView::Text(t@),
        None => JsonView::Null,
    }
}

impl Json {
    /// An integer.
    pub fn integer(n: i64) -> (j: Json)
        ensures
            j@ == integer_tree(n as int),
    {
        Json::Number(signed_number_of(n))
    }

    /// An integer, or nothing.
    pub fn optional_integer(n: Option<i64>) -> (j: Json)
        ensures
            j@ == optional_integer_tree(n),
    {
        match n {
            Some(i) => Json::integer(i),
            None => Json::Null,
        }
    }

    /// A text.
    pub fn text(s: &str) -> (j: Json)
        ensures
            j@ == JsonView::Text(s@),
    {
        Json::Text(s.to_owned())
    }

    /// A text, or nothing.
    pub fn optional_text(s: &Option<String>) -> (j: Json)
        ensures
            j@ == optional_text_tree(*s),
    {
        match s {
            Some(t) => Json::Text(t.clone()),
            None => Json::Null,
        }
    }
}

/// The tree with `value` under `key`.
pub open spec fn field_set(tree: JsonView, key: Seq<char>, value: JsonView) -> JsonView {
    match tree {
        JsonView::Object(members) => JsonView::Object(put(members, key, value)),
        _ => JsonView::Object(put(seq![], key, value)),
    }
}

/// `members` with `value` under `key`.
fn put_member(members: Vec<(String, Json)>, key: &str, value: Json) -> (out: Vec<(String, Json)>)
    ensures
        members_view(out@) == put(members_view(members@), key@, value@),
{
    let ghost start = members_view(members@);
    let mut head = members;
    let mut tail: Vec<(String, Json)> = Vec::new();
    assert(members_view(tail@).reverse() =~= seq![]);
    assert(put(start, key@, value@) =~= put(members_view(head@), key@, value@) + members_view(
        tail@,
    ).reverse());
    loop
        invariant_except_break
            put(start, key@, value@) == put(members_view(head@), key@, value@) + members_view(
                tail@,
            ).reverse(),
        ensures
            put(start, key@, value@) == members_view(head@).push((key@, value@)) + members_view(
                tail@,
            ).reverse(),
        decreases head@.len(),
    {
        let ghost before = members_view(head@);
        match head.pop() {
            None => {
                assert(before =~= seq![]);
                assert(members_view(head@) =~= seq![]);
                break ;
            },
            Some(last) => {
                assert(before.last() == (last.0@, last.1@));
                assert(before.drop_last() =~= members_view(head@));
                if order::text_before(last.0.as_str(), key) {
                    head.push(last);
                    assert(members_view(head@) =~= before);
                    break ;
                }
                if text::same_text(last.0.as_str(), key) {
                    break ;
                }
                let ghost rest = members_view(tail@);
                tail.push(last);
                assert(members_view(tail@) =~= rest.push((last.0@, last.1@)));
                assert(put(start, key@, value@) =~= put(members_view(head@), key@, value@)
                    + members_view(tail@).reverse());
            },
        }
    }
    let ghost kept = members_view(head@);
    head.push((key.to_owned(), value));
    assert(members_view(head@) =~= kept.push((key@, value@)));
    while tail.len() > 0
        invariant
            put(start, key@, value@) == members_view(head@) + members_view(tail@).reverse(),
        decreases tail@.len(),
    {
        let ghost h = members_view(head@);
        let ghost t = members_view(tail@);
        if let Some(next) = tail.pop() {
            head.push(next);
            proof {
                assert(members_view(head@) =~= h.push((next.0@, next.1@)));
                assert(members_view(tail@) =~= t.drop_last());
                assert(t.last() == (next.0@, next.1@));
                assert(members_view(head@) + members_view(tail@).reverse() =~= h + t.reverse());
            }
        }
    }
    assert(members_view(tail@).reverse() =~= seq![]);
    assert(members_view(head@) =~= put(start, key@, value@));
    head
}

// ---------------------------------------------------------------------------
// Sorting
// ---------------------------------------------------------------------------

impl Sortable for (String, Json) {
    open spec fn precedes(&self, other: &Self) -> bool {
        order::lex_before(self.0@, other.0@)
    }

    proof fn lemma_order() {
        let before = |a: Self, b: Self| a.precedes(&b);
        assert forall|a: Self, b: Self, c: Self| #[trigger]
            before(a, b) && #[trigger] before(b, c) implies before(a, c) by {
            order::lemma_lex_transitive(a.0@, b.0@, c.0@);
        }
        assert forall|a: Self, b: Self, c: Self|
            !(#[trigger] before(a, b)) && (#[trigger] before(a, c)) implies before(b, c) by {
            order::lemma_lex_between(a.0@, b.0@, c.0@);
        }
        assert forall|a: Self| !(#[trigger] before(a, a)) by {
            order::lemma_lex_total(a.0@, a.0@);
        }
    }

    fn comes_before(&self, other: &Self) -> (r: bool) {
        order::text_before(self.0.as_str(), other.0.as_str())
    }
}

/// The members in the order of their keys.
pub open spec fn by_key(members: Seq<(Seq<char>, JsonView)>) -> Seq<(Seq<char>, JsonView)> {
    order::sorted(
        members,
        |a: (Seq<char>, JsonView), b: (Seq<char>, JsonView)| order::lex_before(a.0, b.0),
    )
}

/// The tree with the members of every object in the order of their keys.
pub open spec fn sorted_keys(tree: JsonView) -> JsonView
    decreases tree,
{
    match tree {
        JsonView::Array(items) => JsonView::Array(sorted_array(items)),
        JsonView::Object(members) => JsonView::Object(by_key(sorted_object(members))),
        _ => tree,
    }
}

/// The items of an array, each with its keys in order.
pub open spec fn sorted_array(items: Seq<JsonView>) -> Seq<JsonView>
    decreases items,
{
    if items.len() == 0 {
        seq![]
    } else {
        sorted_array(items.drop_last()).push(sorted_keys(items.last()))
    }
}

/// The members of an object as they came, each value with its keys in order.
pub open spec fn sorted_object(members: Seq<(Seq<char>, JsonView)>) -> Seq<(Seq<char>, JsonView)>
    decreases members,
{
    if members.len() == 0 {
        seq![]
    } else {
        sorted_object(members.drop_last()).push(
            (members.last().0, sorted_keys(members.last().1)),
        )
    }
}

/// Sort all JSON object keys recursively for canonical serialization.
pub fn sort_json_keys(val: &Json) -> (j: Json)
    ensures
        j@ == sorted_keys(val@),
    decreases *val,
{
    proof {
        lemma_view(*val);
    }
    match val {
        Json::Object(members) => {
            let ghost all = members_view(members@);
            let mut out: Vec<(String, Json)> = Vec::new();
            let mut i: usize = 0;
            assert(all.take(0) =~= seq![]);
            assert(members_view(out@) =~= seq![]);
            while i < members.len()
                invariant
                    *val == Json::Object(*members),
                    all == members_view(members@),
                    i <= members@.len(),
                    members_view(out@) == sorted_object(all.take(i as int)),
                decreases members@.len() - i,
            {
                proof {
                    lemma_json_smaller(*val, i as int);
                    assert(all.take(i + 1).drop_last() =~= all.take(i as int));
                }
                let ghost before = members_view(out@);
                let key = members[i].0.clone();
                let value = sort_json_keys(&members[i].1);
                out.push((key, value));
                i += 1;
                assert(members_view(out@) =~= before.push((key@, value@)));
            }
            assert(all.take(i as int) =~= all);
            proof {
                order::lemma_sorted_map(
                    out@,
                    |m: (String, Json)| (m.0@, m.1@),
                    |a: (String, Json), b: (String, Json)| a.precedes(&b),
                    |a: (Seq<char>, JsonView), b: (Seq<char>, JsonView)|
                        order::lex_before(a.0, b.0),
                );
            }
            let j = Json::Object(order::sort(out));
            proof {
                lemma_view(j);
            }
            j
        },
        Json::Array(items) => {
            let ghost all = items_view(items@);
            let mut out: Vec<Json> = Vec::new();
            let mut i: usize = 0;
            assert(all.take(0) =~= seq![]);
            assert(items_view(out@) =~= seq![]);
            while i < items.len()
                invariant
                    *val == Json::Array(*items),
                    all == items_view(items@),
                    i <= items@.len(),
                    items_view(out@) == sorted_array(all.take(i as int)),
                decreases items@.len() - i,
            {
                proof {
                    lemma_json_smaller(*val, i as int);
                    assert(all.take(i + 1).drop_last() =~= all.take(i as int));
                }
                let ghost before = items_view(out@);
                let item = sort_json_keys(&items[i]);
                out.push(item);
                i += 1;
                assert(items_view(out@) =~= before.push(item@));
            }
            assert(all.take(i as int) =~= all);
            let j = Json::Array(out);
            proof {
                lemma_view(j);
            }
            j
        },
        other => other.copy(),
    }
}

/// The members of `members` but those under `key`.
pub fn drop_member(members: &[(String, Json)], key: &str) -> (out: Vec<(String, Json)>)
    ensures
        members_view(out@) == without_member(members_view(members@), key@),
{
    let ghost all = members_view(members@);
    let mut out: Vec<(String, Json)> = Vec::new();
    let mut i: usize = 0;
    assert(all.take(0) =~= seq![]);
    assert(members_view(out@) =~= seq![]);
    while i < members.len()
        invariant
            all == members_view(members@),
            i <= members@.len(),
            members_view(out@) == without_member(all.take(i as int), key@),
        decreases members@.len() - i,
    {
        proof {
            assert(all.take(i + 1).drop_last() =~= all.take(i as int));
        }
        if !text::same_text(members[i].0.as_str(), key) {
            let ghost before = members_view(out@);
            let name = members[i].0.clone();
            let value = members[i].1.copy();
            out.push((name, value));
            assert(members_view(out@) =~= before.push((name@, value@)));
        }
        i += 1;
    }
    assert(all.take(i as int) =~= all);
    out
}

// ---------------------------------------------------------------------------
// Laws
// ---------------------------------------------------------------------------

/// No two members have the same key.
pub open spec fn distinct_keys(members: Seq<(Seq<char>, JsonView)>) -> bool {
    forall|i: int, j: int|
        0 <= i < j < members.len() ==> (#[trigger] members[i]).0 != (#[trigger] members[j]).0
}

/// The trees differ at most in the order in which the members of their objects
/// stand.
pub open spec fn same_up_to_order(a: JsonView, b: JsonView) -> bool
    decreases a, 0int,
{
    match (a, b) {
        (JsonView::Object(x), JsonView::Object(y)) => {
            &&& distinct_keys(x)
            &&& distinct_keys(y)
            &&& forall|i: int| 0 <= i < x.len() ==> has_match(#[trigger] x[i], y)
            &&& forall|j: int| 0 <= j < y.len() ==> is_matched(x, #[trigger] y[j])
        },
        (JsonView::Array(x), JsonView::Array(y)) => {
            &&& x.len() == y.len()
            &&& forall|i: int| 0 <= i < x.len() ==> same_up_to_order(#[trigger] x[i], y[i])
        },
        _ => a == b,
    }
}

/// A member of `y` has the key of `m` and a value that differs at most in
/// order.
pub open spec fn has_match(m: (Seq<char>, JsonView), y: Seq<(Seq<char>, JsonView)>) -> bool
    decreases m.1, 1int,
{
    exists|j: int|
        0 <= j < y.len() && m.0 == (#[trigger] y[j]).0 && same_up_to_order(m.1, y[j].1)
}

/// A member of `x` has the key of `n` and a value that differs at most in
/// order.
pub open spec fn is_matched(x: Seq<(Seq<char>, JsonView)>, n: (Seq<char>, JsonView)) -> bool
    decreases x, 1int,
{
    exists|i: int|
        0 <= i < x.len() && (#[trigger] x[i]).0 == n.0 && same_up_to_order(x[i].1, n.1)
}

proof fn lemma_sorted_array(items: Seq<JsonView>)
    ensures
        sorted_array(items).len() == items.len(),
        forall|i: int|
            0 <= i < items.len() ==> #[trigger] sorted_array(items)[i] == sorted_keys(items[i]),
    decreases items.len(),
{
    if items.len() > 0 {
        lemma_sorted_array(items.drop_last());
    }
}

proof fn lemma_sorted_object(members: Seq<(Seq<char>, JsonView)>)
    ensures
        sorted_object(members).len() == members.len(),
        forall|i: int|
            0 <= i < members.len() ==> #[trigger] sorted_object(members)[i] == (
                members[i].0,
                sorted_keys(members[i].1),
            ),
    decreases members.len(),
{
    if members.len() > 0 {
        lemma_sorted_object(members.drop_last());
    }
}

/// The order of members by their keys.
pub open spec fn key_order() -> spec_fn((Seq<char>, JsonView), (Seq<char>, JsonView)) -> bool {
    |a: (Seq<char>, JsonView), b: (Seq<char>, JsonView)| order::lex_before(a.0, b.0)
}

proof fn lemma_key_order()
    ensures
        order::is_order(key_order()),
{
    let before = key_order();
    assert forall|a: (Seq<char>, JsonView), b: (Seq<char>, JsonView), c: (Seq<char>, JsonView)|
        #[trigger] before(a, b) && #[trigger] before(b, c) implies before(a, c) by {
        order::lemma_lex_transitive(a.0, b.0, c.0);
    }
    assert forall|a: (Seq<char>, JsonView), b: (Seq<char>, JsonView), c: (Seq<char>, JsonView)|
        !(#[trigger] before(a, b)) && (#[trigger] before(a, c)) implies before(b, c) by {
        order::lemma_lex_between(a.0, b.0, c.0);
    }
    assert forall|a: (Seq<char>, JsonView)| !(#[trigger] before(a, a)) by {
        order::lemma_lex_total(a.0, a.0);
    }
}

/// Members with distinct keys, put in the order of their keys, are strictly in
/// order and stay the same.
pub proof fn lemma_by_key(members: Seq<(Seq<char>, JsonView)>)
    requires
        distinct_keys(members),
    ensures
        order::strictly_in_order(by_key(members), key_order()),
        forall|m: (Seq<char>, JsonView)|
            #[trigger] by_key(members).contains(m) == members.contains(m),
{
    let s = by_key(members);
    let before = key_order();
    lemma_key_order();
    order::lemma_sorted_in_order(members, before);
    assert(s == order::sorted(members, before));
    assert(members.no_duplicates()) by {
        assert forall|i: int, j: int|
            0 <= i < members.len() && 0 <= j < members.len() && i != j implies members[i]
            != members[j] by {
            if i < j {
                assert(members[i].0 != members[j].0);
            } else {
                assert(members[j].0 != members[i].0);
            }
        }
    }
    broadcast use vstd::seq_lib::group_to_multiset_ensures;

    assert forall|m: (Seq<char>, JsonView)| #[trigger] s.contains(m) == members.contains(m) by {
        assert(s.contains(m) <==> s.to_multiset().count(m) > 0);
        assert(members.contains(m) <==> members.to_multiset().count(m) > 0);
    }
    members.lemma_multiset_has_no_duplicates();
    s.lemma_multiset_has_no_duplicates_conv();
    assert forall|i: int, j: int| 0 <= i < j < s.len() implies before(
        #[trigger] s[i],
        #[trigger] s[j],
    ) by {
        assert(!before(s[j], s[i]));
        assert(s.contains(s[i]) && s.contains(s[j]));
        assert(members.contains(s[i]) && members.contains(s[j]));
        let p = choose|p: int| 0 <= p < members.len() && members[p] == s[i];
        let q = choose|q: int| 0 <= q < members.len() && members[q] == s[j];
        assert(s[i] != s[j]);
        assert(p != q);
        if p < q {
            assert(members[p].0 != members[q].0);
        } else {
            assert(members[q].0 != members[p].0);
        }
        order::lemma_lex_total(s[i].0, s[j].0);
    }
}

/// The order in which the members of objects stand, on any level, does not
/// affect the tree with sorted keys.
pub proof fn lemma_sorted_keys_canonical(a: JsonView, b: JsonView)
    requires
        same_up_to_order(a, b),
    ensures
        sorted_keys(a) == sorted_keys(b),
    decreases a,
{
    match (a, b) {
        (JsonView::Object(x), JsonView::Object(y)) => {
            lemma_sorted_members_canonical(x, y);
        },
        (JsonView::Array(x), JsonView::Array(y)) => {
            lemma_sorted_array(x);
            lemma_sorted_array(y);
            assert forall|i: int| 0 <= i < x.len() implies sorted_array(x)[i] == sorted_array(
                y,
            )[i] by {
                assert(same_up_to_order(x[i], y[i]));
                lemma_tree_smaller(a, i);
                lemma_sorted_keys_canonical(x[i], y[i]);
            }
            assert(sorted_array(x) =~= sorted_array(y));
        },
        _ => {},
    }
}

/// The order in which the members of an object stand does not affect its sorted
/// members.
pub proof fn lemma_sorted_members_canonical(
    x: Seq<(Seq<char>, JsonView)>,
    y: Seq<(Seq<char>, JsonView)>,
)
    requires
        same_up_to_order(JsonView::Object(x), JsonView::Object(y)),
    ensures
        by_key(sorted_object(x)) == by_key(sorted_object(y)),
    decreases JsonView::Object(x), 0int,
{
    let s = sorted_object(x);
    let t = sorted_object(y);
    lemma_sorted_object(x);
    lemma_sorted_object(y);
    assert(distinct_keys(s)) by {
        assert forall|i: int, j: int| 0 <= i < j < s.len() implies (#[trigger] s[i]).0 != (
        #[trigger] s[j]).0 by {
            assert(x[i].0 != x[j].0);
        }
    }
    assert(distinct_keys(t)) by {
        assert forall|i: int, j: int| 0 <= i < j < t.len() implies (#[trigger] t[i]).0 != (
        #[trigger] t[j]).0 by {
            assert(y[i].0 != y[j].0);
        }
    }
    lemma_by_key(s);
    lemma_by_key(t);
    let u = by_key(s);
    let v = by_key(t);
    assert forall|i: int| 0 <= i < u.len() implies v.contains(#[trigger] u[i]) by {
        assert(u.contains(u[i]));
        assert(s.contains(u[i]));
        let p = choose|p: int| 0 <= p < s.len() && s[p] == u[i];
        assert(x[p].0 == s[p].0);
        assert(has_match(x[p], y));
        let q = choose|q: int|
            0 <= q < y.len() && x[p].0 == (#[trigger] y[q]).0 && same_up_to_order(x[p].1, y[q].1);
        lemma_tree_smaller(JsonView::Object(x), p);
        lemma_sorted_keys_canonical(x[p].1, y[q].1);
        assert(t[q] == u[i]);
        assert(t.contains(u[i]));
    }
    assert forall|j: int| 0 <= j < v.len() implies u.contains(#[trigger] v[j]) by {
        assert(v.contains(v[j]));
        assert(t.contains(v[j]));
        let q = choose|q: int| 0 <= q < t.len() && t[q] == v[j];
        assert(y[q].0 == t[q].0);
        assert(is_matched(x, y[q]));
        let p = choose|p: int|
            0 <= p < x.len() && (#[trigger] x[p]).0 == y[q].0 && same_up_to_order(x[p].1, y[q].1);
        lemma_tree_smaller(JsonView::Object(x), p);
        lemma_sorted_keys_canonical(x[p].1, y[q].1);
        assert(s[p] == v[j]);
        assert(s.contains(v[j]));
    }
    lemma_key_order();
    order::lemma_strict_order_unique(u, v, key_order());
}

/// Leaving out a key leaves out its member and nothing else.
pub proof fn lemma_without_member(members: Seq<(Seq<char>, JsonView)>, key: Seq<char>)
    ensures
        forall|m: (Seq<char>, JsonView)|
            #[trigger] without_member(members, key).contains(m) == (members.contains(m) && m.0
                != key),
        distinct_keys(members) ==> distinct_keys(without_member(members, key)),
    decreases members.len(),
{
    let kept = without_member(members, key);
    if members.len() > 0 {
        let shorter = members.drop_last();
        let last = members.last();
        lemma_without_member(shorter, key);
        let before = without_member(shorter, key);
        assert forall|m: (Seq<char>, JsonView)| #[trigger] kept.contains(m) == (members.contains(
            m,
        ) && m.0 != key) by {
            assert(before.contains(m) == (shorter.contains(m) && m.0 != key));
            if members.contains(m) {
                let p = choose|p: int| 0 <= p < members.len() && members[p] == m;
                if p < shorter.len() {
                    assert(shorter[p] == m);
                }
            }
            if shorter.contains(m) {
                let p = choose|p: int| 0 <= p < shorter.len() && shorter[p] == m;
                assert(members[p] == m);
            }
            assert(members[members.len() - 1] == last);
            if last.0 != key {
                if kept.contains(m) {
                    let p = choose|p: int| 0 <= p < kept.len() && kept[p] == m;
                    if p < before.len() {
                        assert(before[p] == m);
                    }
                }
                if before.contains(m) {
                    let p = choose|p: int| 0 <= p < before.len() && before[p] == m;
                    assert(kept[p] == m);
                }
                assert(kept[before.len() as int] == last);
            }
        }
        if distinct_keys(members) {
            assert(distinct_keys(shorter)) by {
                assert forall|i: int, j: int| 0 <= i < j < shorter.len() implies (
                #[trigger] shorter[i]).0 != (#[trigger] shorter[j]).0 by {
                    assert(members[i].0 != members[j].0);
                }
            }
            if last.0 != key {
                assert forall|i: int, j: int| 0 <= i < j < kept.len() implies (
                #[trigger] kept[i]).0 != (#[trigger] kept[j]).0 by {
                    assert(before.contains(before[i]));
                    assert(shorter.contains(before[i]));
                    let p = choose|p: int| 0 <= p < shorter.len() && shorter[p] == before[i];
                    assert(members[p].0 != members[members.len() - 1].0);
                }
            }
        }
    }
}

// ---------------------------------------------------------------------------
// Reading back what was written
// ---------------------------------------------------------------------------

/// On at most `levels` levels, and the members of every object stand strictly in
/// the order of their keys.
pub open spec fn ordered(tree: JsonView, levels: nat) -> bool
    decreases levels,
{
    match tree {
        JsonView::Array(items) => levels > 0 && forall|i: int|
            0 <= i < items.len() ==> ordered(#[trigger] items[i], (levels - 1) as nat),
        JsonView::Object(members) => levels > 0 && order::strictly_in_order(members, key_order())
            && forall|i: int|
            0 <= i < members.len() ==> ordered((#[trigger] members[i]).1, (levels - 1) as nat),
        _ => true,
    }
}

/// Whole numbers on some levels are whole numbers on as many as there are.
pub proof fn lemma_integral_nests(tree: JsonView, levels: nat, bound: nat)
    requires
        integral(tree, levels),
        nests(tree, bound),
    ensures
        integral(tree, bound),
    decreases levels,
{
    match tree {
        JsonView::Array(items) => {
            assert forall|i: int| 0 <= i < items.len() implies integral(
                #[trigger] items[i],
                (bound - 1) as nat,
            ) by {
                lemma_integral_nests(items[i], (levels - 1) as nat, (bound - 1) as nat);
            }
        },
        JsonView::Object(members) => {
            assert forall|i: int| 0 <= i < members.len() implies integral(
                (#[trigger] members[i]).1,
                (bound - 1) as nat,
            ) by {
                lemma_integral_nests(members[i].1, (levels - 1) as nat, (bound - 1) as nat);
            }
        },
        _ => {},
    }
}

proof fn lemma_put(members: Seq<(Seq<char>, JsonView)>, key: Seq<char>, value: JsonView)
    requires
        order::strictly_in_order(members, key_order()),
    ensures
        order::strictly_in_order(put(members, key, value), key_order()),
        forall|i: int|
            0 <= i < put(members, key, value).len() ==> (#[trigger] put(members, key, value)[i]
                == (key, value) || members.contains(put(members, key, value)[i])),
    decreases members.len(),
{
    let out = put(members, key, value);
    let before = key_order();
    lemma_key_order();
    if members.len() == 0 {
    } else {
        let last = members.last();
        let head = members.drop_last();
        assert(last == members[members.len() - 1]);
        assert(order::strictly_in_order(head, before)) by {
            assert forall|i: int, j: int| 0 <= i < j < head.len() implies before(
                #[trigger] head[i],
                #[trigger] head[j],
            ) by {
                assert(before(members[i], members[j]));
            }
        }
        assert forall|i: int| 0 <= i < head.len() implies before(#[trigger] head[i], last) by {
            assert(before(members[i], members[members.len() - 1]));
        }
        if order::lex_before(last.0, key) {
            assert forall|i: int| 0 <= i < members.len() implies before(
                #[trigger] members[i],
                (key, value),
            ) by {
                if i < head.len() {
                    assert(before(head[i], last));
                    order::lemma_lex_transitive(head[i].0, last.0, key);
                }
            }
            assert forall|i: int| 0 <= i < out.len() implies (#[trigger] out[i] == (key, value)
                || members.contains(out[i])) by {
                if i < members.len() {
                    assert(out[i] == members[i]);
                }
            }
        } else if last.0 == key {
            assert forall|i: int| 0 <= i < out.len() implies (#[trigger] out[i] == (key, value)
                || members.contains(out[i])) by {
                if i < head.len() {
                    assert(out[i] == members[i]);
                }
            }
        } else {
            order::lemma_lex_total(last.0, key);
            lemma_put(head, key, value);
            let front = put(head, key, value);
            assert forall|i: int| 0 <= i < front.len() implies before(#[trigger] front[i], last) by {
                if front[i] != (key, value) {
                    assert(head.contains(front[i]));
                    let k = choose|k: int| 0 <= k < head.len() && head[k] == front[i];
                    assert(before(head[k], last));
                }
            }
            assert forall|i: int| 0 <= i < out.len() implies (#[trigger] out[i] == (key, value)
                || members.contains(out[i])) by {
                if i < front.len() {
                    assert(out[i] == front[i]);
                    if front[i] != (key, value) {
                        let k = choose|k: int| 0 <= k < head.len() && head[k] == front[i];
                        assert(members[k] == out[i]);
                    }
                } else {
                    assert(out[i] == members[members.len() - 1]);
                }
            }
        }
    }
}

/// Members by their keys stand strictly in order, and none is new.
pub proof fn lemma_keyed(members: Seq<(Seq<char>, JsonView)>)
    ensures
        order::strictly_in_order(keyed(members), key_order()),
        forall|i: int|
            0 <= i < keyed(members).len() ==> members.contains(#[trigger] keyed(members)[i]),
    decreases members.len(),
{
    if members.len() > 0 {
        let head = members.drop_last();
        let last = members.last();
        lemma_keyed(head);
        lemma_put(keyed(head), last.0, last.1);
        assert forall|i: int| 0 <= i < keyed(members).len() implies members.contains(
            #[trigger] keyed(members)[i],
        ) by {
            let m = keyed(members)[i];
            if m == last {
                assert(members[members.len() - 1] == m);
            } else {
                assert(keyed(head).contains(m));
                let k = choose|k: int| 0 <= k < keyed(head).len() && keyed(head)[k] == m;
                assert(head.contains(keyed(head)[k]));
                let p = choose|p: int| 0 <= p < head.len() && head[p] == m;
                assert(members[p] == m);
            }
        }
    }
}

/// Members that stand strictly in order stay as they are.
proof fn lemma_keyed_same(members: Seq<(Seq<char>, JsonView)>)
    requires
        order::strictly_in_order(members, key_order()),
    ensures
        keyed(members) == members,
        by_key(members) == members,
    decreases members.len(),
{
    if members.len() > 0 {
        let head = members.drop_last();
        let before = key_order();
        assert(order::strictly_in_order(head, before)) by {
            assert forall|i: int, j: int| 0 <= i < j < head.len() implies before(
                #[trigger] head[i],
                #[trigger] head[j],
            ) by {
                assert(before(members[i], members[j]));
            }
        }
        lemma_keyed_same(head);
        lemma_key_order();
        assert(by_key(members) == order::sorted(members, before));
        assert(by_key(head) == order::sorted(head, before));
        if head.len() > 0 {
            let a = members[members.len() - 2];
            let b = members[members.len() - 1];
            assert(before(a, b));
            assert(head.last() == a);
            if before(b, a) {
                assert(before(b, b));
            }
        }
        assert(head.push(members.last()) =~= members);
    }
}

/// The canonical form keeps levels and whole numbers, and is in order.
pub proof fn lemma_canonical_ordered(tree: JsonView, levels: nat)
    requires
        integral(tree, levels),
    ensures
        integral(canonical(tree), levels),
        ordered(canonical(tree), levels),
    decreases levels,
{
    lemma_canonical(tree);
    match tree {
        JsonView::Array(items) => {
            let out = canonical_items(items);
            let less = (levels - 1) as nat;
            assert forall|i: int| 0 <= i < out.len() implies integral(#[trigger] out[i], less)
                && ordered(out[i], less) by {
                assert(out[i] == canonical(items[i]));
                lemma_canonical_ordered(items[i], less);
            }
        },
        JsonView::Object(members) => {
            let parts = canonical_members(members);
            let out = keyed(parts);
            let less = (levels - 1) as nat;
            lemma_keyed(parts);
            assert forall|i: int| 0 <= i < out.len() implies integral((#[trigger] out[i]).1, less)
                && ordered(out[i].1, less) by {
                assert(parts.contains(out[i]));
                let k = choose|k: int| 0 <= k < parts.len() && parts[k] == out[i];
                assert(parts[k] == (members[k].0, canonical(members[k].1)));
                lemma_canonical_ordered(members[k].1, less);
            }
        },
        _ => {},
    }
}

/// What is in order is its own canonical form, and sorting leaves it as it is.
pub proof fn lemma_ordered_same(tree: JsonView, levels: nat)
    requires
        ordered(tree, levels),
    ensures
        canonical(tree) == tree,
        sorted_keys(tree) == tree,
    decreases levels,
{
    lemma_canonical(tree);
    match tree {
        JsonView::Array(items) => {
            lemma_sorted_array(items);
            assert forall|i: int| 0 <= i < items.len() implies canonical(#[trigger] items[i])
                == items[i] && sorted_keys(items[i]) == items[i] by {
                lemma_ordered_same(items[i], (levels - 1) as nat);
            }
            assert(canonical_items(items) =~= items);
            assert(sorted_array(items) =~= items);
        },
        JsonView::Object(members) => {
            lemma_sorted_object(members);
            assert forall|i: int| 0 <= i < members.len() implies canonical(
                (#[trigger] members[i]).1,
            ) == members[i].1 && sorted_keys(members[i].1) == members[i].1 by {
                lemma_ordered_same(members[i].1, (levels - 1) as nat);
            }
            assert(canonical_members(members) =~= members);
            assert(sorted_object(members) =~= members);
            lemma_keyed_same(members);
        },
        _ => {},
    }
}

/// The items of `by_key` are the members.
proof fn lemma_by_key_items(members: Seq<(Seq<char>, JsonView)>)
    ensures
        by_key(members).len() == members.len(),
        forall|i: int|
            0 <= i < by_key(members).len() ==> members.contains(#[trigger] by_key(members)[i]),
{
    broadcast use vstd::seq_lib::group_to_multiset_ensures;

    let s = by_key(members);
    lemma_key_order();
    order::lemma_sorted_in_order(members, key_order());
    assert(s == order::sorted(members, key_order()));
    assert forall|i: int| 0 <= i < s.len() implies members.contains(#[trigger] s[i]) by {
        assert(s.contains(s[i]));
        assert(s.to_multiset().count(s[i]) > 0);
        assert(members.to_multiset().count(s[i]) > 0);
    }
}

/// Sorting keys keeps levels and whole numbers.
pub proof fn lemma_sorted_integral(tree: JsonView, levels: nat)
    requires
        integral(tree, levels),
    ensures
        integral(sorted_keys(tree), levels),
    decreases levels,
{
    match tree {
        JsonView::Array(items) => {
            lemma_sorted_array(items);
            let out = sorted_array(items);
            assert forall|i: int| 0 <= i < out.len() implies integral(
                #[trigger] out[i],
                (levels - 1) as nat,
            ) by {
                lemma_sorted_integral(items[i], (levels - 1) as nat);
            }
        },
        JsonView::Object(members) => {
            lemma_sorted_object(members);
            let parts = sorted_object(members);
            let out = by_key(parts);
            lemma_by_key_items(parts);
            assert forall|i: int| 0 <= i < out.len() implies integral(
                (#[trigger] out[i]).1,
                (levels - 1) as nat,
            ) by {
                assert(parts.contains(out[i]));
                let k = choose|k: int| 0 <= k < parts.len() && parts[k] == out[i];
                lemma_sorted_integral(members[k].1, (levels - 1) as nat);
            }
        },
        _ => {},
    }
}

/// A member under `key` stands in neither form where none stood before.
pub proof fn lemma_key_stays_out(members: Seq<(Seq<char>, JsonView)>, key: Seq<char>)
    requires
        forall|i: int| 0 <= i < members.len() ==> (#[trigger] members[i]).0 != key,
    ensures
        canonical(sorted_keys(JsonView::Object(members))) matches JsonView::Object(out) && (forall|
            i: int,
        |
            0 <= i < out.len() ==> (#[trigger] out[i]).0 != key) && without_member(out, key) == out,
{
    let parts = sorted_object(members);
    let sorted = by_key(parts);
    lemma_sorted_object(members);
    lemma_by_key_items(parts);
    assert(sorted_keys(JsonView::Object(members)) == JsonView::Object(sorted));
    lemma_canonical(JsonView::Object(sorted));
    let forms = canonical_members(sorted);
    let out = keyed(forms);
    lemma_keyed(forms);
    assert forall|i: int| 0 <= i < out.len() implies (#[trigger] out[i]).0 != key by {
        assert(forms.contains(out[i]));
        let k = choose|k: int| 0 <= k < forms.len() && forms[k] == out[i];
        assert(forms[k].0 == sorted[k].0);
        assert(parts.contains(sorted[k]));
        let p = choose|p: int| 0 <= p < parts.len() && parts[p] == sorted[k];
        assert(parts[p].0 == members[p].0);
    }
    lemma_without_absent(out, key);
}

/// Leaving out a key that is not there leaves all members.
proof fn lemma_without_absent(members: Seq<(Seq<char>, JsonView)>, key: Seq<char>)
    requires
        forall|i: int| 0 <= i < members.len() ==> (#[trigger] members[i]).0 != key,
    ensures
        without_member(members, key) == members,
    decreases members.len(),
{
    if members.len() > 0 {
        let head = members.drop_last();
        assert forall|i: int| 0 <= i < head.len() implies (#[trigger] head[i]).0 != key by {
            assert(head[i] == members[i]);
        }
        lemma_without_absent(head, key);
        assert(members.last() == members[members.len() - 1]);
        assert(head.push(members.last()) =~= members);
    }
}

/// What is put in is there, and what has another key stays.
proof fn lemma_put_keeps(
    members: Seq<(Seq<char>, JsonView)>,
    key: Seq<char>,
    value: JsonView,
    m: (Seq<char>, JsonView),
)
    requires
        m == (key, value) || (members.contains(m) && m.0 != key),
    ensures
        put(members, key, value).contains(m),
    decreases members.len(),
{
    let out = put(members, key, value);
    if members.len() == 0 || order::lex_before(members.last().0, key) {
        if m == (key, value) {
            assert(out[members.len() as int] == m);
        } else {
            let k = choose|k: int| 0 <= k < members.len() && members[k] == m;
            assert(out[k] == m);
        }
    } else {
        let head = members.drop_last();
        if members.last().0 == key {
            if m == (key, value) {
                assert(out[head.len() as int] == m);
            } else {
                let k = choose|k: int| 0 <= k < members.len() && members[k] == m;
                assert(head[k] == m);
                assert(out[k] == m);
            }
        } else {
            let front = put(head, key, value);
            if m == members.last() {
                assert(out[front.len() as int] == m);
            } else {
                if m != (key, value) {
                    let k = choose|k: int| 0 <= k < members.len() && members[k] == m;
                    assert(head[k] == m);
                }
                lemma_put_keeps(head, key, value, m);
                let k = choose|k: int| 0 <= k < front.len() && front[k] == m;
                assert(out[k] == m);
            }
        }
    }
}

proof fn lemma_keyed_keeps(members: Seq<(Seq<char>, JsonView)>, m: (Seq<char>, JsonView))
    requires
        distinct_keys(members),
        members.contains(m),
    ensures
        keyed(members).contains(m),
    decreases members.len(),
{
    let k = choose|k: int| 0 <= k < members.len() && members[k] == m;
    let head = members.drop_last();
    let last = members.last();
    if k < head.len() {
        assert(head[k] == m);
        assert(members[k].0 != members[members.len() - 1].0);
        assert forall|i: int, j: int| 0 <= i < j < head.len() implies (#[trigger] head[i]).0 != (
        #[trigger] head[j]).0 by {
            assert(members[i].0 != members[j].0);
        }
        lemma_keyed_keeps(head, m);
    }
    lemma_put_keeps(keyed(head), last.0, last.1, m);
}

/// Sorting and the canonical form keep every member of an object without repeated
/// keys: its key, and its value in that form.
pub proof fn lemma_member_kept(
    members: Seq<(Seq<char>, JsonView)>,
    key: Seq<char>,
    value: JsonView,
)
    requires
        distinct_keys(members),
        members.contains((key, value)),
    ensures
        canonical(sorted_keys(JsonView::Object(members))) matches JsonView::Object(out)
            && out.contains((key, canonical(sorted_keys(value)))),
{
    let parts = sorted_object(members);
    lemma_sorted_object(members);
    let k = choose|k: int| 0 <= k < members.len() && members[k] == (key, value);
    assert forall|i: int, j: int| 0 <= i < j < parts.len() implies (#[trigger] parts[i]).0 != (
    #[trigger] parts[j]).0 by {
        assert(members[i].0 != members[j].0);
    }
    assert(parts[k] == (key, sorted_keys(value)));
    lemma_by_key(parts);
    let s = by_key(parts);
    assert(s.contains(parts[k]));
    let p = choose|p: int| 0 <= p < s.len() && s[p] == parts[k];
    lemma_canonical(JsonView::Object(s));
    let forms = canonical_members(s);
    assert(forms[p] == (key, canonical(sorted_keys(value))));
    assert forall|i: int, j: int| 0 <= i < j < forms.len() implies (#[trigger] forms[i]).0 != (
    #[trigger] forms[j]).0 by {
        let before = key_order();
        assert(before(s[i], s[j]));
        order::lemma_lex_total(s[i].0, s[j].0);
    }
    lemma_keyed_keeps(forms, forms[p]);
}

} // verus!
