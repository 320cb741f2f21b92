//! A table from names to values, in order of insertion.

use vstd::prelude::*;
use crate::text::same_text;

verus! {

/// Values found by name. Each name occurs once.
#[derive(Debug)]
pub struct NameMap<V> {
    pub entries: Vec<(String, V)>,
}

/// `name` is a key.
pub open spec fn has_key<V>(entries: Seq<(String, V)>, name: Seq<char>) -> bool {
    exists|i: int| 0 <= i < entries.len() && (#[trigger] entries[i]).0@ == name
}

/// The position of a key.
pub open spec fn key_at<V>(entries: Seq<(String, V)>, name: Seq<char>) -> int {
    choose|i: int| 0 <= i < entries.len() && (#[trigger] entries[i]).0@ == name
}

/// No two entries have one name.
pub open spec fn distinct_keys<V>(entries: Seq<(String, V)>) -> bool {
    forall|i: int, j: int|
        0 <= i < j < entries.len() ==> (#[trigger] entries[i]).0@ != (#[trigger] entries[j]).0@
}

/// The map that the entries stand for.
pub open spec fn entries_map<V>(entries: Seq<(String, V)>) -> Map<Seq<char>, V> {
    Map::new(|name: Seq<char>| has_key(entries, name), |name: Seq<char>| entries[key_at(entries, name)].1)
}

impl<V> View for NameMap<V> {
    type V = Map<Seq<char>, V>;

    open spec fn view(&self) -> Map<Seq<char>, V> {
        entries_map(self.entries@)
    }
}

/// What an entry maps to.
pub proof fn lemma_entry<V>(entries: Seq<(String, V)>, i: int)
    requires
        distinct_keys(entries),
        0 <= i < entries.len(),
    ensures
        entries_map(entries).dom().contains(entries[i].0@),
        entries_map(entries)[entries[i].0@] == entries[i].1,
        key_at(entries, entries[i].0@) == i,
{
    let name = entries[i].0@;
    assert(has_key(entries, name));
    let k = key_at(entries, name);
    assert(0 <= k < entries.len() && entries[k].0@ == name);
    if k != i {
        if k < i {
            assert(entries[k].0@ != entries[i].0@);
        } else {
            assert(entries[i].0@ != entries[k].0@);
        }
    }
}

/// Replacing the value of an entry.
pub proof fn lemma_set_value<V>(entries: Seq<(String, V)>, i: int, next: Seq<(String, V)>)
    requires
        distinct_keys(entries),
        0 <= i < entries.len(),
        next.len() == entries.len(),
        forall|j: int| 0 <= j < entries.len() ==> (#[trigger] next[j]).0 == entries[j].0,
        forall|j: int| 0 <= j < entries.len() && j != i ==> #[trigger] next[j] == entries[j],
    ensures
        distinct_keys(next),
        entries_map(next) == entries_map(entries).insert(entries[i].0@, next[i].1),
{
    assert forall|a: int, b: int| 0 <= a < b < next.len() implies (#[trigger] next[a]).0@ != (
    #[trigger] next[b]).0@ by {
        assert(entries[a].0@ != entries[b].0@);
    }
    let m = entries_map(entries).insert(entries[i].0@, next[i].1);
    assert forall|name: Seq<char>| has_key(next, name) <==> #[trigger] m.dom().contains(name) by {
        if has_key(next, name) {
            let j = key_at(next, name);
            assert(entries[j].0@ == name);
            assert(has_key(entries, name));
        }
        if has_key(entries, name) {
            let j = key_at(entries, name);
            assert(next[j].0@ == name);
        }
        if name == entries[i].0@ {
            assert(next[i].0@ == name);
        }
    }
    assert forall|name: Seq<char>| #[trigger] m.dom().contains(name) implies entries_map(next)[name]
        == m[name] by {
        let j = key_at(next, name);
        assert(has_key(next, name));
        lemma_entry(next, j);
        lemma_entry(entries, j);
        lemma_entry(entries, i);
        if j == i {
        } else {
            assert(next[j] == entries[j]);
            if name == entries[i].0@ {
                lemma_entry(next, i);
                assert(next[i].0@ == name);
            }
        }
    }
    assert(entries_map(next) =~= m);
}

/// Adding an entry with a new name.
pub proof fn lemma_push_entry<V>(entries: Seq<(String, V)>, e: (String, V))
    requires
        distinct_keys(entries),
        !has_key(entries, e.0@),
    ensures
        distinct_keys(entries.push(e)),
        entries_map(entries.push(e)) == entries_map(entries).insert(e.0@, e.1),
{
    let next = entries.push(e);
    let n = entries.len() as int;
    assert forall|a: int, b: int| 0 <= a < b < next.len() implies (#[trigger] next[a]).0@ != (
    #[trigger] next[b]).0@ by {
        if b < n {
            assert(entries[a].0@ != entries[b].0@);
        } else {
            assert(entries[a].0@ != e.0@);
        }
    }
    let m = entries_map(entries).insert(e.0@, e.1);
    assert forall|name: Seq<char>| has_key(next, name) <==> #[trigger] m.dom().contains(name) by {
        if has_key(next, name) {
            let j = key_at(next, name);
            if j < n {
                assert(entries[j].0@ == name);
            }
        }
        if has_key(entries, name) {
            let j = key_at(entries, name);
            assert(next[j].0@ == name);
        }
        if name == e.0@ {
            assert(next[n].0@ == name);
        }
    }
    assert forall|name: Seq<char>| #[trigger] m.dom().contains(name) implies entries_map(next)[name]
        == m[name] by {
        assert(has_key(next, name));
        let j = key_at(next, name);
        lemma_entry(next, j);
        if j < n {
            assert(entries[j] == next[j]);
            lemma_entry(entries, j);
        }
    }
    assert(entries_map(next) =~= m);
}

/// Removing an entry.
pub proof fn lemma_remove_entry<V>(entries: Seq<(String, V)>, i: int)
    requires
        distinct_keys(entries),
        0 <= i < entries.len(),
    ensures
        distinct_keys(entries.remove(i)),
        entries_map(entries.remove(i)) == entries_map(entries).remove(entries[i].0@),
{
    let next = entries.remove(i);
    assert forall|a: int| 0 <= a < next.len() implies #[trigger] next[a] == entries[if a < i {
        a
    } else {
        a + 1
    }] by {}
    assert forall|a: int, b: int| 0 <= a < b < next.len() implies (#[trigger] next[a]).0@ != (
    #[trigger] next[b]).0@ by {
        let a2 = if a < i { a } else { a + 1 };
        let b2 = if b < i { b } else { b + 1 };
        assert(entries[a2].0@ != entries[b2].0@);
    }
    let m = entries_map(entries).remove(entries[i].0@);
    assert forall|name: Seq<char>| has_key(next, name) <==> #[trigger] m.dom().contains(name) by {
        if has_key(next, name) {
            let j = key_at(next, name);
            let j2 = if j < i { j } else { j + 1 };
            assert(entries[j2].0@ == name);
            lemma_entry(entries, j2);
            lemma_entry(entries, i);
        }
        if m.dom().contains(name) {
            let j = key_at(entries, name);
            assert(has_key(entries, name));
            let j2 = if j < i { j } else { j - 1 };
            assert(next[j2].0@ == name);
        }
    }
    assert forall|name: Seq<char>| #[trigger] m.dom().contains(name) implies entries_map(next)[name]
        == m[name] by {
        assert(has_key(next, name));
        let j = key_at(next, name);
        lemma_entry(next, j);
        let j2 = if j < i { j } else { j + 1 };
        assert(entries[j2] == next[j]);
        lemma_entry(entries, j2);
    }
    assert(entries_map(next) =~= m);
}

impl<V> NameMap<V> {
    /// Each name occurs once.
    pub open spec fn wf(&self) -> bool {
        distinct_keys(self.entries@)
    }

    /// An empty table.
    pub fn new() -> (r: NameMap<V>)
        ensures
            r.wf(),
            r@ == Map::<Seq<char>, V>::empty(),
            r.entries@.len() == 0,
    {
        let r = NameMap { entries: Vec::new() };
        assert(r@ =~= Map::<Seq<char>, V>::empty());
        r
    }

    /// The position of a name.
    pub fn position(&self, name: &str) -> (r: Option<usize>)
        requires
            self.wf(),
        ensures
            r is Some <==> self@.dom().contains(name@),
            r is Some <==> has_key(self.entries@, name@),
            r matches Some(i) ==> i < self.entries@.len() && self.entries@[i as int].0@ == name@
                && self@[name@] == self.entries@[i as int].1,
    {
        for i in 0..self.entries.len()
            invariant
                self.wf(),
                forall|j: int| 0 <= j < i ==> (#[trigger] self.entries@[j]).0@ != name@,
        {
            if same_text(self.entries[i].0.as_str(), name) {
                proof {
                    lemma_entry(self.entries@, i as int);
                }
                return Some(i);
            }
        }
        None
    }

    /// Whether a name is in the table.
    pub fn contains(&self, name: &str) -> (r: bool)
        requires
            self.wf(),
        ensures
            r == self@.dom().contains(name@),
    {
        self.position(name).is_some()
    }

    /// The value of a name.
    pub fn get(&self, name: &str) -> (r: Option<&V>)
        requires
            self.wf(),
        ensures
            r is Some <==> self@.dom().contains(name@),
            r matches Some(v) ==> *v == self@[name@],
    {
        match self.position(name) {
            Some(i) => Some(&self.entries[i].1),
            None => None,
        }
    }

    /// The value of a name, for changing it.
    pub fn get_mut(&mut self, name: &str) -> (r: Option<&mut V>)
        requires
            old(self).wf(),
        ensures
            final(self).wf(),
            r is Some <==> old(self)@.dom().contains(name@),
            match r {
                Some(v) => *v == old(self)@[name@] && final(self)@ == old(self)@.insert(
                    name@,
                    *final(v),
                ),
                None => final(self)@ == old(self)@ && *final(self) == *old(self),
            },
    {
        match self.position(name) {
            Some(i) => {
                let ghost before = self.entries@;
                proof {
                    lemma_entry(before, i as int);
                    assert forall|next: Seq<(String, V)>, v: V|
                        #![trigger next.len(), before.update(i as int, (before[i as int].0, v))]
                        next == before.update(i as int, (before[i as int].0, v)) implies distinct_keys(next)
                        && entries_map(next) == entries_map(before).insert(name@, v) by {
                        lemma_set_value(before, i as int, next);
                    }
                }
                Some(&mut self.entries[i].1)
            },
            None => None,
        }
    }

    /// Sets the value of a name.
    pub fn insert(&mut self, name: &str, value: V)
        requires
            old(self).wf(),
        ensures
            final(self).wf(),
            final(self)@ == old(self)@.insert(name@, value),
    {
        let ghost before = self.entries@;
        match self.position(name) {
            Some(i) => {
                self.entries[i].1 = value;
                proof {
                    lemma_set_value(before, i as int, self.entries@);
                }
            },
            None => {
                let key = name.to_owned();
                self.entries.push((key, value));
                proof {
                    lemma_push_entry(before, (key, value));
                }
            },
        }
    }

    /// Takes a name out of the table.
    pub fn remove(&mut self, name: &str) -> (r: Option<V>)
        requires
            old(self).wf(),
        ensures
            final(self).wf(),
            final(self)@ == old(self)@.remove(name@),
            r is Some <==> old(self)@.dom().contains(name@),
            r matches Some(v) ==> v == old(self)@[name@],
    {
        let ghost before = self.entries@;
        match self.position(name) {
            Some(i) => {
                proof {
                    lemma_entry(before, i as int);
                    lemma_remove_entry(before, i as int);
                }
                let e = self.entries.remove(i);
                Some(e.1)
            },
            None => {
                assert(self@.remove(name@) =~= self@);
                None
            },
        }
    }
}

} // verus!
