//! Ordering: strings by code points, and a stable sort.

use crate::text;
use vstd::prelude::*;

verus! {

// ---------------------------------------------------------------------------
// Lexicographic order
// ---------------------------------------------------------------------------

/// `a` comes before `b` in the lexicographic order of their code points.
pub open spec fn lex_before(a: Seq<char>, b: Seq<char>) -> bool
    decreases a.len(),
{
    if b.len() == 0 {
        false
    } else if a.len() == 0 {
        true
    } else if a[0] == b[0] {
        lex_before(a.skip(1), b.skip(1))
    } else {
        a[0] < b[0]
    }
}

/// The lexicographic order is transitive.
pub proof fn lemma_lex_transitive(a: Seq<char>, b: Seq<char>, c: Seq<char>)
    requires
        lex_before(a, b),
        lex_before(b, c),
    ensures
        lex_before(a, c),
    decreases a.len(),
{
    if a.len() > 0 && b.len() > 0 && c.len() > 0 && a[0] == b[0] && b[0] == c[0] {
        lemma_lex_transitive(a.skip(1), b.skip(1), c.skip(1));
    }
}

/// Of two different strings exactly one comes first, and none comes before
/// itself.
pub proof fn lemma_lex_total(a: Seq<char>, b: Seq<char>)
    ensures
        a == b ==> !lex_before(a, b),
        a != b ==> (lex_before(a, b) <==> !lex_before(b, a)),
    decreases a.len(),
{
    if a.len() > 0 && b.len() > 0 {
        if a[0] == b[0] {
            lemma_lex_total(a.skip(1), b.skip(1));
            if a.skip(1) == b.skip(1) {
                assert(a =~= seq![a[0]] + a.skip(1));
                assert(b =~= seq![b[0]] + b.skip(1));
            }
        }
    } else if a.len() == 0 && b.len() == 0 {
        assert(a =~= b);
    }
}

/// A string comes before those that it begins.
pub proof fn lemma_prefix_before(a: Seq<char>, b: Seq<char>)
    requires
        a.len() < b.len(),
        forall|i: int| 0 <= i < a.len() ==> a[i] == b[i],
    ensures
        lex_before(a, b),
    decreases a.len(),
{
    if a.len() > 0 {
        lemma_prefix_before(a.skip(1), b.skip(1));
    }
}

/// A string that `a` does not precede comes before what `a` precedes.
pub proof fn lemma_lex_between(a: Seq<char>, b: Seq<char>, c: Seq<char>)
    requires
        !lex_before(a, b),
        lex_before(a, c),
    ensures
        lex_before(b, c),
{
    lemma_lex_total(a, b);
    if a != b {
        lemma_lex_transitive(b, a, c);
    }
}

/// Whether `a` comes before `b`.
pub fn text_before(a: &str, b: &str) -> (r: bool)
    ensures
        r == lex_before(a@, b@),
{
    let mut x = a.chars();
    let mut y = b.chars();
    loop
        invariant
            lex_before(a@, b@) == lex_before(vstd::std_specs::iter::IteratorSpec::remaining(&x), vstd::std_specs::iter::IteratorSpec::remaining(&y)),
            vstd::std_specs::iter::IteratorSpec::decrease(&x) is Some,
        decreases vstd::std_specs::iter::IteratorSpec::decrease(&x)->0,
    {
        let ghost x0 = vstd::std_specs::iter::IteratorSpec::remaining(&x);
        let ghost y0 = vstd::std_specs::iter::IteratorSpec::remaining(&y);
        match y.next() {
            None => {
                return false;
            },
            Some(d) => match x.next() {
                None => {
                    return true;
                },
                Some(c) => {
                    proof {
                        assert(x0.drop_first() =~= x0.skip(1));
                        assert(y0.drop_first() =~= y0.skip(1));
                    }
                    if c != d {
                        return c < d;
                    }
                },
            },
        }
    }
}

// ---------------------------------------------------------------------------
// Stable sorting
// ---------------------------------------------------------------------------

/// `sorted` with `x` put in after everything that it does not come before.
pub open spec fn inserted<T>(sorted: Seq<T>, x: T, before: spec_fn(T, T) -> bool) -> Seq<T>
    decreases sorted.len(),
{
    if sorted.len() == 0 || !before(x, sorted.last()) {
        sorted.push(x)
    } else {
        inserted(sorted.drop_last(), x, before).push(sorted.last())
    }
}

/// `items` in order, those that neither precede nor follow each other as they
/// came.
pub open spec fn sorted<T>(items: Seq<T>, before: spec_fn(T, T) -> bool) -> Seq<T>
    decreases items.len(),
{
    if items.len() == 0 {
        seq![]
    } else {
        inserted(sorted(items.drop_last(), before), items.last(), before)
    }
}

/// A relation that orders its items up to ties.
pub open spec fn is_order<T>(before: spec_fn(T, T) -> bool) -> bool {
    &&& forall|a: T, b: T, c: T| #[trigger]
        before(a, b) && #[trigger] before(b, c) ==> before(a, c)
    &&& forall|a: T, b: T, c: T|
        !(#[trigger] before(a, b)) && (#[trigger] before(a, c)) ==> before(b, c)
    &&& forall|a: T| !(#[trigger] before(a, a))
}

/// Two sorted runs in one, ties from `a` first.
pub open spec fn merged<T>(a: Seq<T>, b: Seq<T>, before: spec_fn(T, T) -> bool) -> Seq<T>
    decreases a.len() + b.len(),
{
    if a.len() == 0 {
        b
    } else if b.len() == 0 {
        a
    } else if before(b.last(), a.last()) {
        merged(a.drop_last(), b, before).push(a.last())
    } else {
        merged(a, b.drop_last(), before).push(b.last())
    }
}

/// Insertion and merging commute.
pub proof fn lemma_merge_insert<T>(a: Seq<T>, b: Seq<T>, x: T, before: spec_fn(T, T) -> bool)
    requires
        is_order(before),
    ensures
        merged(a, inserted(b, x, before), before) == inserted(merged(a, b, before), x, before),
    decreases a.len() + b.len(),
{
    let ix = inserted(b, x, before);
    if b.len() == 0 {
        assert(ix =~= seq![x]);
        assert(ix.drop_last() =~= b);
        if a.len() == 0 {
            assert(b.push(x) =~= a.push(x));
        } else if before(x, a.last()) {
            lemma_merge_insert(a.drop_last(), b, x, before);
            assert(merged(a.drop_last(), b, before) =~= a.drop_last());
        } else {
            assert(merged(a, ix.drop_last(), before) =~= a);
        }
    } else if a.len() > 0 {
        let la = a.last();
        let lb = b.last();
        if !before(x, lb) {
            assert(ix.drop_last() =~= b);
            assert(ix.last() == x);
            if before(x, la) {
                lemma_merge_insert(a.drop_last(), b, x, before);
                assert(merged(a, b, before).drop_last() =~= merged(a.drop_last(), b, before));
            }
        } else {
            let iy = inserted(b.drop_last(), x, before);
            assert(ix.drop_last() =~= iy);
            assert(ix.last() == lb);
            if before(lb, la) {
                lemma_merge_insert(a.drop_last(), b, x, before);
                assert(merged(a, b, before).drop_last() =~= merged(a.drop_last(), b, before));
            } else {
                lemma_merge_insert(a, b.drop_last(), x, before);
                assert(merged(a, b, before).drop_last() =~= merged(a, b.drop_last(), before));
            }
        }
    }
}

/// Sorting two halves and merging them sorts the whole.
pub proof fn lemma_merge_sorts<T>(a: Seq<T>, b: Seq<T>, before: spec_fn(T, T) -> bool)
    requires
        is_order(before),
    ensures
        merged(sorted(a, before), sorted(b, before), before) == sorted(a + b, before),
    decreases b.len(),
{
    if b.len() == 0 {
        assert(a + b =~= a);
        assert(merged(sorted(a, before), sorted(b, before), before) =~= sorted(a, before));
    } else {
        assert((a + b).drop_last() =~= a + b.drop_last());
        lemma_merge_sorts(a, b.drop_last(), before);
        lemma_merge_insert(sorted(a, before), sorted(b.drop_last(), before), b.last(), before);
    }
}

/// What `sorted` gives is in order, and holds the same items.
pub proof fn lemma_sorted_in_order<T>(items: Seq<T>, before: spec_fn(T, T) -> bool)
    requires
        is_order(before),
    ensures
        forall|i: int, j: int|
            0 <= i < j < items.len() ==> !before(
                #[trigger] sorted(items, before)[j],
                #[trigger] sorted(items, before)[i],
            ),
        sorted(items, before).len() == items.len(),
        sorted(items, before).to_multiset() == items.to_multiset(),
    decreases items.len(),
{
    broadcast use vstd::seq_lib::group_to_multiset_ensures;

    if items.len() > 0 {
        lemma_sorted_in_order(items.drop_last(), before);
        lemma_inserted_in_order(sorted(items.drop_last(), before), items.last(), before);
        assert(items =~= items.drop_last().push(items.last()));
    }
}

proof fn lemma_inserted_in_order<T>(s: Seq<T>, x: T, before: spec_fn(T, T) -> bool)
    requires
        is_order(before),
        forall|i: int, j: int| 0 <= i < j < s.len() ==> !before(#[trigger] s[j], #[trigger] s[i]),
    ensures
        inserted(s, x, before).len() == s.len() + 1,
        inserted(s, x, before).to_multiset() == s.to_multiset().insert(x),
        forall|i: int, j: int|
            0 <= i < j < s.len() + 1 ==> !before(
                #[trigger] inserted(s, x, before)[j],
                #[trigger] inserted(s, x, before)[i],
            ),
        forall|i: int|
            0 <= i < s.len() + 1 ==> (#[trigger] inserted(s, x, before)[i] == x || s.contains(
                inserted(s, x, before)[i],
            )),
    decreases s.len(),
{
    broadcast use vstd::seq_lib::group_to_multiset_ensures;

    let t = inserted(s, x, before);
    if s.len() == 0 || !before(x, s.last()) {
        assert forall|i: int, j: int| 0 <= i < j < t.len() implies !before(
            #[trigger] t[j],
            #[trigger] t[i],
        ) by {
            if j == s.len() && i < s.len() - 1 {
                assert(!before(s[s.len() - 1], s[i]));
                if before(x, s[i]) {
                    assert(!before(x, s.last()));
                }
            }
        }
        assert forall|i: int| 0 <= i < t.len() implies (#[trigger] t[i] == x || s.contains(t[i])) by {
            if i < s.len() {
                assert(s[i] == t[i]);
            }
        }
    } else {
        let r = s.drop_last();
        lemma_inserted_in_order(r, x, before);
        let u = inserted(r, x, before);
        assert(s =~= r.push(s.last()));
        assert(t.to_multiset() =~= s.to_multiset().insert(x));
        assert forall|i: int, j: int| 0 <= i < j < t.len() implies !before(
            #[trigger] t[j],
            #[trigger] t[i],
        ) by {
            if j == s.len() {
                assert(t[i] == u[i]);
                if u[i] != x {
                    let k = choose|k: int| 0 <= k < r.len() && r[k] == u[i];
                    assert(s[k] == u[i]);
                    assert(!before(s[s.len() - 1], s[k]));
                } else if before(s.last(), x) {
                    assert(before(x, x));
                }
            } else {
                assert(t[i] == u[i] && t[j] == u[j]);
            }
        }
        assert forall|i: int| 0 <= i < t.len() implies (#[trigger] t[i] == x || s.contains(t[i])) by {
            if i < s.len() {
                assert(t[i] == u[i]);
                if u[i] != x {
                    let k = choose|k: int| 0 <= k < r.len() && r[k] == u[i];
                    assert(s[k] == u[i]);
                }
            } else {
                assert(t[i] == s[s.len() - 1]);
            }
        }
    }
}

/// Each item comes before those behind it.
pub open spec fn strictly_in_order<T>(s: Seq<T>, before: spec_fn(T, T) -> bool) -> bool {
    forall|i: int, j: int| 0 <= i < j < s.len() ==> before(#[trigger] s[i], #[trigger] s[j])
}

/// Two lists that are strictly in order and hold the same items are equal.
pub proof fn lemma_strict_order_unique<T>(a: Seq<T>, b: Seq<T>, before: spec_fn(T, T) -> bool)
    requires
        is_order(before),
        strictly_in_order(a, before),
        strictly_in_order(b, before),
        forall|i: int| 0 <= i < a.len() ==> b.contains(#[trigger] a[i]),
        forall|j: int| 0 <= j < b.len() ==> a.contains(#[trigger] b[j]),
    ensures
        a == b,
    decreases a.len(),
{
    if a.len() == 0 {
        if b.len() > 0 {
            assert(a.contains(b[0]));
        }
        assert(a =~= b);
    } else {
        assert(b.contains(a[0]));
        let x = a.last();
        let y = b.last();
        let p = choose|p: int| 0 <= p < b.len() && b[p] == x;
        assert(b.contains(a[a.len() - 1]));
        assert(b[p] == x);
        let q = choose|q: int| 0 <= q < a.len() && a[q] == y;
        assert(a.contains(b[b.len() - 1]));
        assert(a[q] == y);
        assert(!before(x, x));
        if p < b.len() - 1 {
            assert(before(b[p], b[b.len() - 1]));
            if q < a.len() - 1 {
                assert(before(a[q], a[a.len() - 1]));
                assert(before(x, y) && before(y, x));
                assert(before(x, x));
            }
        }
        assert(x == y);
        let s = a.drop_last();
        let t = b.drop_last();
        assert forall|i: int| 0 <= i < s.len() implies t.contains(#[trigger] s[i]) by {
            assert(b.contains(a[i]));
            let k = choose|k: int| 0 <= k < b.len() && b[k] == a[i];
            assert(before(a[i], a[a.len() - 1]));
            assert(!before(a[i], a[i]));
            assert(t[k] == s[i]);
        }
        assert forall|j: int| 0 <= j < t.len() implies s.contains(#[trigger] t[j]) by {
            assert(a.contains(b[j]));
            let k = choose|k: int| 0 <= k < a.len() && a[k] == b[j];
            assert(before(b[j], b[b.len() - 1]));
            assert(!before(b[j], b[j]));
            assert(s[k] == t[j]);
        }
        lemma_strict_order_unique(s, t, before);
        assert(a =~= s.push(x));
        assert(b =~= t.push(y));
    }
}

/// Sorting commutes with a mapping that keeps the order.
pub proof fn lemma_sorted_map<T, U>(
    items: Seq<T>,
    f: spec_fn(T) -> U,
    before_t: spec_fn(T, T) -> bool,
    before_u: spec_fn(U, U) -> bool,
)
    requires
        forall|a: T, b: T| #[trigger] before_t(a, b) == before_u(f(a), f(b)),
    ensures
        sorted(items, before_t).map_values(f) == sorted(items.map_values(f), before_u),
    decreases items.len(),
{
    if items.len() == 0 {
        assert(sorted(items, before_t).map_values(f) =~= seq![]);
        assert(items.map_values(f) =~= seq![]);
    } else {
        lemma_sorted_map(items.drop_last(), f, before_t, before_u);
        assert(items.map_values(f).drop_last() =~= items.drop_last().map_values(f));
        lemma_inserted_map(sorted(items.drop_last(), before_t), items.last(), f, before_t, before_u);
    }
}

proof fn lemma_inserted_map<T, U>(
    s: Seq<T>,
    x: T,
    f: spec_fn(T) -> U,
    before_t: spec_fn(T, T) -> bool,
    before_u: spec_fn(U, U) -> bool,
)
    requires
        forall|a: T, b: T| #[trigger] before_t(a, b) == before_u(f(a), f(b)),
    ensures
        inserted(s, x, before_t).map_values(f) == inserted(s.map_values(f), f(x), before_u),
    decreases s.len(),
{
    if s.len() == 0 || !before_t(x, s.last()) {
        if s.len() > 0 {
            assert(!before_t(x, s.last()));
        }
        assert(s.push(x).map_values(f) =~= s.map_values(f).push(f(x)));
    } else {
        assert(before_t(x, s.last()));
        lemma_inserted_map(s.drop_last(), x, f, before_t, before_u);
        assert(s.map_values(f).drop_last() =~= s.drop_last().map_values(f));
        assert(inserted(s.drop_last(), x, before_t).push(s.last()).map_values(f) =~= inserted(
            s.drop_last(),
            x,
            before_t,
        ).map_values(f).push(f(s.last())));
    }
}

/// Items that a sort can put in order.
pub trait Sortable: Sized {
    /// `self` comes strictly before `other`.
    spec fn precedes(&self, other: &Self) -> bool;

    /// The order is one.
    proof fn lemma_order()
        ensures
            is_order(|a: Self, b: Self| a.precedes(&b)),
    ;

    /// Whether `self` comes strictly before `other`.
    fn comes_before(&self, other: &Self) -> (r: bool)
        ensures
            r == self.precedes(other),
    ;
}

/// `items` in order, ties as they came.
pub open spec fn sorted_items<T: Sortable>(items: Seq<T>) -> Seq<T> {
    sorted(items, |a: T, b: T| a.precedes(&b))
}

/// Merge two sorted runs.
fn merge<T: Sortable>(a: Vec<T>, b: Vec<T>) -> (out: Vec<T>)
    ensures
        out@ == merged(a@, b@, |x: T, y: T| x.precedes(&y)),
{
    let ghost before = |x: T, y: T| x.precedes(&y);
    let ghost whole = merged(a@, b@, before);
    let mut left = a;
    let mut right = b;
    let mut tail: Vec<T> = Vec::new();
    assert(merged(left@, right@, before) + tail@.reverse() =~= whole);
    while left.len() > 0 && right.len() > 0
        invariant
            before == (|x: T, y: T| x.precedes(&y)),
            merged(left@, right@, before) + tail@.reverse() == whole,
        decreases left@.len() + right@.len(),
    {
        let ghost l0 = left@;
        let ghost r0 = right@;
        let ghost t0 = tail@;
        let take_left = right[right.len() - 1].comes_before(&left[left.len() - 1]);
        if take_left {
            if let Some(x) = left.pop() {
                tail.push(x);
                assert(left@ =~= l0.drop_last());
            }
        } else {
            if let Some(x) = right.pop() {
                tail.push(x);
                assert(right@ =~= r0.drop_last());
            }
        }
        assert(tail@.reverse() =~= seq![tail@.last()] + t0.reverse());
        assert(merged(left@, right@, before) + tail@.reverse() =~= merged(l0, r0, before)
            + t0.reverse());
    }
    let mut out = left;
    if out.len() == 0 {
        out = right;
    }
    assert(out@ + tail@.reverse() =~= whole);
    while tail.len() > 0
        invariant
            out@ + tail@.reverse() == whole,
        decreases tail@.len(),
    {
        let ghost o0 = out@;
        let ghost t0 = tail@;
        if let Some(x) = tail.pop() {
            out.push(x);
            assert(t0.reverse() =~= seq![x] + tail@.reverse());
        }
        assert(out@ + tail@.reverse() =~= o0 + t0.reverse());
    }
    assert(out@ + tail@.reverse() =~= out@);
    out
}

/// Sort `items`, ties as they came.
pub fn sort<T: Sortable>(items: Vec<T>) -> (out: Vec<T>)
    ensures
        out@ == sorted_items(items@),
    decreases items@.len(),
{
    let n = items.len();
    let ghost before = |a: T, b: T| a.precedes(&b);
    if n == 0 {
        return items;
    }
    if n == 1 {
        proof {
            let single = items@.drop_last();
            assert(single =~= seq![]);
            assert(sorted(single, before) =~= seq![]);
            assert(inserted(Seq::<T>::empty(), items@.last(), before) =~= items@);
        }
        return items;
    }
    let mut first = items;
    let second = first.split_off(n / 2);
    proof {
        T::lemma_order();
        assert(first@ + second@ =~= items@);
        lemma_merge_sorts(first@, second@, before);
    }
    let a = sort(first);
    let b = sort(second);
    merge(a, b)
}

// ---------------------------------------------------------------------------
// Orders in use
// ---------------------------------------------------------------------------

/// The larger count comes first, and of equal counts the earlier name.
pub open spec fn ranks_before(a: (Seq<char>, nat), b: (Seq<char>, nat)) -> bool {
    a.1 > b.1 || (a.1 == b.1 && lex_before(a.0, b.0))
}

/// Ranking is an order.
pub proof fn lemma_rank_order(a: (Seq<char>, nat), b: (Seq<char>, nat), c: (Seq<char>, nat))
    ensures
        ranks_before(a, b) && ranks_before(b, c) ==> ranks_before(a, c),
        !ranks_before(a, b) && ranks_before(a, c) ==> ranks_before(b, c),
        !ranks_before(a, a),
{
    lemma_lex_total(a.0, a.0);
    if lex_before(a.0, b.0) && lex_before(b.0, c.0) {
        lemma_lex_transitive(a.0, b.0, c.0);
    }
    if !lex_before(a.0, b.0) && lex_before(a.0, c.0) {
        lemma_lex_between(a.0, b.0, c.0);
    }
}

/// What a counted name stands for.
pub open spec fn entry_view(e: (String, usize)) -> (Seq<char>, nat) {
    (e.0@, e.1 as nat)
}

/// What counted names stand for.
pub open spec fn entries_view(s: Seq<(String, usize)>) -> Seq<(Seq<char>, nat)> {
    s.map_values(|e: (String, usize)| entry_view(e))
}

impl Sortable for (String, usize) {
    open spec fn precedes(&self, other: &Self) -> bool {
        ranks_before(entry_view(*self), entry_view(*other))
    }

    proof fn lemma_order() {
        let before = |a: Self, b: Self| a.precedes(&b);
        assert forall|a: Self, b: Self, c: Self| #[trigger]
            before(a, b) && #[trigger] before(b, c) implies before(a, c) by {
            lemma_rank_order(entry_view(a), entry_view(b), entry_view(c));
        }
        assert forall|a: Self, b: Self, c: Self|
            !(#[trigger] before(a, b)) && (#[trigger] before(a, c)) implies before(b, c) by {
            lemma_rank_order(entry_view(a), entry_view(b), entry_view(c));
        }
        assert forall|a: Self| !(#[trigger] before(a, a)) by {
            lemma_rank_order(entry_view(a), entry_view(a), entry_view(a));
        }
    }

    fn comes_before(&self, other: &Self) -> (r: bool) {
        self.1 > other.1 || (self.1 == other.1 && text_before(self.0.as_str(), other.0.as_str()))
    }
}

/// Counted names by descending count, then by name.
pub open spec fn ranked(entries: Seq<(Seq<char>, nat)>) -> Seq<(Seq<char>, nat)> {
    sorted(entries, |a: (Seq<char>, nat), b: (Seq<char>, nat)| ranks_before(a, b))
}

/// Sort counted names by descending count, then by name.
pub fn rank(entries: Vec<(String, usize)>) -> (out: Vec<(String, usize)>)
    ensures
        entries_view(out@) == ranked(entries_view(entries@)),
{
    proof {
        lemma_sorted_map(
            entries@,
            |e: (String, usize)| entry_view(e),
            |a: (String, usize), b: (String, usize)| a.precedes(&b),
            |a: (Seq<char>, nat), b: (Seq<char>, nat)| ranks_before(a, b),
        );
    }
    sort(entries)
}

/// What a flagged count stands for.
pub open spec fn flagged_view(e: (String, usize, bool)) -> (Seq<char>, nat, bool) {
    (e.0@, e.1 as nat, e.2)
}

/// What flagged counts stand for.
pub open spec fn flagged_views(s: Seq<(String, usize, bool)>) -> Seq<(Seq<char>, nat, bool)> {
    s.map_values(|e: (String, usize, bool)| flagged_view(e))
}

/// The ranking of flagged counts does not look at the flag.
pub open spec fn flagged_before(a: (Seq<char>, nat, bool), b: (Seq<char>, nat, bool)) -> bool {
    ranks_before((a.0, a.1), (b.0, b.1))
}

impl Sortable for (String, usize, bool) {
    open spec fn precedes(&self, other: &Self) -> bool {
        flagged_before(flagged_view(*self), flagged_view(*other))
    }

    proof fn lemma_order() {
        let before = |a: Self, b: Self| a.precedes(&b);
        assert forall|a: Self, b: Self, c: Self| #[trigger]
            before(a, b) && #[trigger] before(b, c) implies before(a, c) by {
            lemma_rank_order((a.0@, a.1 as nat), (b.0@, b.1 as nat), (c.0@, c.1 as nat));
        }
        assert forall|a: Self, b: Self, c: Self|
            !(#[trigger] before(a, b)) && (#[trigger] before(a, c)) implies before(b, c) by {
            lemma_rank_order((a.0@, a.1 as nat), (b.0@, b.1 as nat), (c.0@, c.1 as nat));
        }
        assert forall|a: Self| !(#[trigger] before(a, a)) by {
            lemma_rank_order((a.0@, a.1 as nat), (a.0@, a.1 as nat), (a.0@, a.1 as nat));
        }
    }

    fn comes_before(&self, other: &Self) -> (r: bool) {
        self.1 > other.1 || (self.1 == other.1 && text_before(self.0.as_str(), other.0.as_str()))
    }
}

/// Flagged counts by descending count, then by name, ties as they came.
pub open spec fn flagged_ranked(entries: Seq<(Seq<char>, nat, bool)>) -> Seq<
    (Seq<char>, nat, bool),
> {
    sorted(entries, |a: (Seq<char>, nat, bool), b: (Seq<char>, nat, bool)| flagged_before(a, b))
}

/// Sort flagged counts by descending count, then by name.
pub fn rank_flagged(entries: Vec<(String, usize, bool)>) -> (out: Vec<(String, usize, bool)>)
    ensures
        flagged_views(out@) == flagged_ranked(flagged_views(entries@)),
{
    proof {
        lemma_sorted_map(
            entries@,
            |e: (String, usize, bool)| flagged_view(e),
            |a: (String, usize, bool), b: (String, usize, bool)| a.precedes(&b),
            |a: (Seq<char>, nat, bool), b: (Seq<char>, nat, bool)| flagged_before(a, b),
        );
    }
    sort(entries)
}

impl Sortable for String {
    open spec fn precedes(&self, other: &Self) -> bool {
        lex_before(self@, other@)
    }

    proof fn lemma_order() {
        let before = |a: Self, b: Self| a.precedes(&b);
        assert forall|a: Self, b: Self, c: Self| #[trigger]
            before(a, b) && #[trigger] before(b, c) implies before(a, c) by {
            lemma_lex_transitive(a@, b@, c@);
        }
        assert forall|a: Self, b: Self, c: Self|
            !(#[trigger] before(a, b)) && (#[trigger] before(a, c)) implies before(b, c) by {
            lemma_lex_between(a@, b@, c@);
        }
        assert forall|a: Self| !(#[trigger] before(a, a)) by {
            lemma_lex_total(a@, a@);
        }
    }

    fn comes_before(&self, other: &Self) -> (r: bool) {
        text_before(self.as_str(), other.as_str())
    }
}

/// Strings in lexicographic order.
pub open spec fn alphabetic(items: Seq<Seq<char>>) -> Seq<Seq<char>> {
    sorted(items, |a: Seq<char>, b: Seq<char>| lex_before(a, b))
}

/// Sort strings in lexicographic order.
pub fn sort_strings(items: Vec<String>) -> (out: Vec<String>)
    ensures
        text::texts(out@) == alphabetic(text::texts(items@)),
{
    proof {
        let f = |s: String| s@;
        lemma_sorted_map(
            items@,
            f,
            |a: String, b: String| a.precedes(&b),
            |a: Seq<char>, b: Seq<char>| lex_before(a, b),
        );
        assert(text::texts(items@) =~= items@.map_values(f));
        assert(text::texts(sorted_items(items@)) =~= sorted_items(items@).map_values(f));
    }
    sort(items)
}

} // verus!
