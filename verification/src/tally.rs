//! Counting how often each name occurs.

use crate::order;
use vstd::hash_map::StringHashMap;
use vstd::prelude::*;

verus! {

/// The position of the entry for `name`.
pub open spec fn entry_index(entries: Seq<(Seq<char>, nat)>, name: Seq<char>) -> Option<int>
    decreases entries.len(),
{
    if entries.len() == 0 {
        None
    } else if entries.last().0 == name {
        Some(entries.len() - 1)
    } else {
        entry_index(entries.drop_last(), name)
    }
}

/// `entries` after one more occurrence of `name`.
pub open spec fn bumped(entries: Seq<(Seq<char>, nat)>, name: Seq<char>) -> Seq<
    (Seq<char>, nat),
> {
    match entry_index(entries, name) {
        Some(k) => entries.update(k, (name, entries[k].1 + 1)),
        None => entries.push((name, 1)),
    }
}

/// Each name with the number of times it occurs, in the order in which the
/// names first occur.
pub open spec fn counted(names: Seq<Seq<char>>) -> Seq<(Seq<char>, nat)>
    decreases names.len(),
{
    if names.len() == 0 {
        seq![]
    } else {
        bumped(counted(names.drop_last()), names.last())
    }
}

/// What `entry_index` says of the entries.
pub proof fn lemma_entry_index(entries: Seq<(Seq<char>, nat)>, name: Seq<char>)
    ensures
        match entry_index(entries, name) {
            Some(k) => 0 <= k < entries.len() && entries[k].0 == name,
            None => forall|i: int| 0 <= i < entries.len() ==> (#[trigger] entries[i]).0 != name,
        },
    decreases entries.len(),
{
    if entries.len() > 0 && entries.last().0 != name {
        lemma_entry_index(entries.drop_last(), name);
        assert forall|i: int| entry_index(entries, name) is None && 0 <= i
            < entries.len() implies (#[trigger] entries[i]).0 != name by {
            if i < entries.len() - 1 {
                assert(entries.drop_last()[i] == entries[i]);
            }
        }
    }
}

/// No name has two entries.
pub open spec fn distinct_names(entries: Seq<(Seq<char>, nat)>) -> bool {
    forall|i: int, j: int|
        0 <= i < j < entries.len() ==> (#[trigger] entries[i]).0 != (#[trigger] entries[j]).0
}

/// The only entry for a name is the one that is found.
pub proof fn lemma_entry_index_is(entries: Seq<(Seq<char>, nat)>, k: int)
    requires
        distinct_names(entries),
        0 <= k < entries.len(),
    ensures
        entry_index(entries, entries[k].0) == Some(k),
{
    lemma_entry_index(entries, entries[k].0);
}

/// How often `name` occurs in `names`.
pub open spec fn occurrences(names: Seq<Seq<char>>, name: Seq<char>) -> nat
    decreases names.len(),
{
    if names.len() == 0 {
        0
    } else {
        occurrences(names.drop_last(), name) + if names.last() == name {
            1nat
        } else {
            0nat
        }
    }
}

/// A count gives every name that occurs one entry, with the number of times
/// that it occurs, and no other entries.
pub proof fn lemma_counted(names: Seq<Seq<char>>)
    ensures
        distinct_names(counted(names)),
        forall|i: int|
            0 <= i < counted(names).len() ==> (#[trigger] counted(names)[i]).1 == occurrences(
                names,
                counted(names)[i].0,
            ) && counted(names)[i].1 >= 1,
        forall|name: Seq<char>| #[trigger]
            occurrences(names, name) > 0 ==> entry_index(counted(names), name) is Some,
    decreases names.len(),
{
    if names.len() > 0 {
        let shorter = names.drop_last();
        let last = names.last();
        lemma_counted(shorter);
        let old_entries = counted(shorter);
        let entries = counted(names);
        lemma_entry_index(old_entries, last);
        if entry_index(old_entries, last) is None {
            assert(occurrences(shorter, last) == 0);
        }
        assert forall|i: int| 0 <= i < entries.len() implies (#[trigger] entries[i]).1
            == occurrences(names, entries[i].0) && entries[i].1 >= 1 by {
            match entry_index(old_entries, last) {
                Some(k) => {
                    assert(old_entries[i].0 == entries[i].0);
                    if i != k {
                        assert(entries[i] == old_entries[i]);
                        if i < k {
                            assert(old_entries[i].0 != old_entries[k].0);
                        } else {
                            assert(old_entries[k].0 != old_entries[i].0);
                        }
                    }
                },
                None => {
                    if i < old_entries.len() {
                        assert(entries[i] == old_entries[i]);
                    }
                },
            }
        }
        assert(distinct_names(entries)) by {
            assert forall|i: int, j: int| 0 <= i < j < entries.len() implies (
            #[trigger] entries[i]).0 != (#[trigger] entries[j]).0 by {
                match entry_index(old_entries, last) {
                    Some(k) => {
                        assert(old_entries[i].0 == entries[i].0);
                        assert(old_entries[j].0 == entries[j].0);
                    },
                    None => {
                        assert(entries[i] == old_entries[i]);
                        if j < old_entries.len() {
                            assert(entries[j] == old_entries[j]);
                        }
                    },
                }
            }
        }
        assert forall|name: Seq<char>| #[trigger] occurrences(names, name)
            > 0 implies entry_index(entries, name) is Some by {
            lemma_entry_index(entries, name);
            lemma_entry_index(old_entries, name);
            if name == last {
                match entry_index(old_entries, last) {
                    Some(k) => {
                        assert(entries[k].0 == name);
                    },
                    None => {
                        assert(entries[entries.len() - 1].0 == name);
                    },
                }
            } else {
                assert(occurrences(shorter, name) > 0);
                let k = entry_index(old_entries, name)->0;
                match entry_index(old_entries, last) {
                    Some(l) => {
                        assert(entries[k].0 == old_entries[k].0);
                    },
                    None => {
                        assert(entries[k] == old_entries[k]);
                    },
                }
            }
        }
    }
}

/// A running count of names.
pub struct Tally {
    names: Vec<String>,
    counts: Vec<usize>,
    index: StringHashMap<usize>,
    total: usize,
}

impl Tally {
    /// The entries counted so far, in the order of first occurrence.
    pub closed spec fn entries(&self) -> Seq<(Seq<char>, nat)> {
        Seq::new(self.names@.len(), |i: int| (self.names@[i]@, self.counts@[i] as nat))
    }

    /// The number of names counted so far.
    pub closed spec fn total(&self) -> nat {
        self.total as nat
    }

    /// The map finds each entry, and no count is larger than the total.
    pub closed spec fn wf(&self) -> bool {
        &&& self.names@.len() == self.counts@.len()
        &&& distinct_names(self.entries())
        &&& forall|i: int|
            0 <= i < self.names@.len() ==> self.index@.contains_key(#[trigger] self.names@[i]@)
                && self.index@[self.names@[i]@] == i
        &&& forall|name: Seq<char>| #[trigger]
            self.index@.contains_key(name) ==> self.index@[name] < self.names@.len()
                && self.names@[self.index@[name] as int]@ == name
        &&& forall|i: int| 0 <= i < self.counts@.len() ==> #[trigger] self.counts@[i] <= self.total
    }

    /// A count of nothing.
    pub fn new() -> (t: Tally)
        ensures
            t.wf(),
            t.entries() == counted(seq![]),
            t.total() == 0,
    {
        let t = Tally {
            names: Vec::new(),
            counts: Vec::new(),
            index: StringHashMap::new(),
            total: 0,
        };
        assert(t.entries() =~= seq![]);
        t
    }

    /// Count one more occurrence of `name`.
    pub fn bump(&mut self, name: String)
        requires
            old(self).wf(),
            old(self).total() < usize::MAX,
        ensures
            final(self).wf(),
            final(self).entries() == bumped(old(self).entries(), name@),
            final(self).total() == old(self).total() + 1,
    {
        let ghost entries = self.entries();
        let ghost name_view = name@;
        let found: Option<usize> = match self.index.get(name.as_str()) {
            Some(k) => Some(*k),
            None => None,
        };
        self.total = self.total + 1;
        match found {
            Some(k) => {
                proof {
                    assert(entries[k as int].0 == name_view);
                    lemma_entry_index_is(entries, k as int);
                }
                let c = self.counts[k];
                self.counts.set(k, c + 1);
                assert(self.entries() =~= bumped(entries, name_view));
                assert(distinct_names(self.entries())) by {
                    assert forall|i: int, j: int| 0 <= i < j < self.entries().len() implies (
                    #[trigger] self.entries()[i]).0 != (#[trigger] self.entries()[j]).0 by {
                        assert(entries[i].0 == self.entries()[i].0);
                        assert(entries[j].0 == self.entries()[j].0);
                    }
                }
            },
            None => {
                proof {
                    lemma_entry_index(entries, name_view);
                    match entry_index(entries, name_view) {
                        Some(k) => {
                            assert(self.index@.contains_key(self.names@[k]@));
                        },
                        None => {},
                    }
                }
                let position = self.names.len();
                self.index.insert(name.clone(), position);
                self.names.push(name);
                self.counts.push(1);
                assert(self.entries() =~= bumped(entries, name_view));
                assert forall|i: int| 0 <= i < self.names@.len() implies self.index@.contains_key(
                    #[trigger] self.names@[i]@,
                ) && self.index@[self.names@[i]@] == i by {
                    if i < position {
                        assert(entries[i].0 == self.names@[i]@);
                        assert(entries[i].0 != name_view);
                    }
                }
                assert(distinct_names(self.entries())) by {
                    assert forall|i: int, j: int| 0 <= i < j < self.entries().len() implies (
                    #[trigger] self.entries()[i]).0 != (#[trigger] self.entries()[j]).0 by {
                        assert(self.entries()[i] == entries[i]);
                        if j < position {
                            assert(self.entries()[j] == entries[j]);
                        }
                    }
                }
            },
        }
    }

    /// The entries, in the order of first occurrence.
    pub fn into_entries(self) -> (out: Vec<(String, usize)>)
        requires
            self.wf(),
        ensures
            order::entries_view(out@) == self.entries(),
    {
        let mut out: Vec<(String, usize)> = Vec::new();
        let mut i: usize = 0;
        while i < self.names.len()
            invariant
                self.names@.len() == self.counts@.len(),
                i <= self.names@.len(),
                order::entries_view(out@) == self.entries().take(i as int),
            decreases self.names@.len() - i,
        {
            let entry = (self.names[i].clone(), self.counts[i]);
            let ghost before = order::entries_view(out@);
            out.push(entry);
            assert(order::entries_view(out@) =~= before.push(order::entry_view(entry)));
            i += 1;
            assert(order::entries_view(out@) =~= self.entries().take(i as int));
        }
        assert(self.entries().take(i as int) =~= self.entries());
        out
    }
}

} // verus!
