//! Named per-element attributes: for each name, one value per element.
use vstd::prelude::*;

verus! {

/// The value list of attribute `name` among `entries`, the last one under that name.
pub open spec fn lookup<V>(entries: Seq<(Seq<char>, Seq<V>)>, name: Seq<char>) -> Option<Seq<V>>
    decreases entries.len(),
{
    if entries.len() == 0 {
        None
    } else if entries.last().0 == name {
        Some(entries.last().1)
    } else {
        lookup(entries.drop_last(), name)
    }
}

/// Attribute storage: named lists of values, one value per element.
pub struct AttributeStore<V> {
    data: Vec<(String, Vec<V>)>,
}

impl<V> AttributeStore<V> {
    /// The stored (name, values) entries.
    pub closed spec fn entries(self) -> Seq<(Seq<char>, Seq<V>)> {
        self.data@.map_values(|e: (String, Vec<V>)| (e.0@, e.1@))
    }

    /// No two entries share a name.
    pub closed spec fn wf(self) -> bool {
        forall|i: int, j: int|
            0 <= i < j < self.entries().len() ==> (#[trigger] self.entries()[i]).0 != (
            #[trigger] self.entries()[j]).0
    }

    /// The values stored under `name`, if any.
    pub open spec fn values_of(self, name: Seq<char>) -> Option<Seq<V>> {
        lookup(self.entries(), name)
    }

    pub fn new() -> (r: Self)
        ensures
            r.wf(),
            forall|name: Seq<char>| #[trigger] r.values_of(name) is None,
    {
        let r = AttributeStore { data: Vec::new() };
        proof {
            assert(r.entries() =~= Seq::<(Seq<char>, Seq<V>)>::empty());
        }
        r
    }

    proof fn lemma_lookup_at(self, i: int)
        requires
            self.wf(),
            0 <= i < self.entries().len(),
        ensures
            self.values_of(self.entries()[i].0) == Some(self.entries()[i].1),
    {
        lemma_lookup_unique(self.entries(), i);
    }

    /// Index of the entry named `name`, if any.
    fn find(&self, name: &String) -> (r: Option<usize>)
        requires
            self.wf(),
        ensures
            r matches Some(i) ==> i < self.entries().len() && self.entries()[i as int].0 == name@
                && self.values_of(name@) == Some(self.entries()[i as int].1),
            r is None ==> self.values_of(name@) is None,
    {
        let mut i: usize = 0;
        while i < self.data.len()
            invariant
                i <= self.data@.len(),
                self.wf(),
                forall|j: int| 0 <= j < i ==> (#[trigger] self.entries()[j]).0 != name@,
            decreases self.data.len() - i,
        {
            let same = self.data[i].0 == *name;
            assert(self.entries()[i as int].0 == self.data@[i as int].0@);
            if same {
                proof {
                    self.lemma_lookup_at(i as int);
                }
                return Some(i);
            }
            i = i + 1;
        }
        proof {
            lemma_lookup_absent(self.entries(), name@);
        }
        None
    }

    /// Store `values` under `name`, replacing what was stored there.
    pub fn add_attribute(&mut self, name: &str, values: Vec<V>)
        requires
            old(self).wf(),
        ensures
            final(self).wf(),
            final(self).values_of(name@) == Some(values@),
            forall|other: Seq<char>| other != name@ ==> #[trigger] final(self).values_of(other) == old(self).values_of(other),
    {
        let key = name.to_owned();
        let ghost before = self.entries();
        match self.find(&key) {
            Some(i) => {
                let ghost vs = values@;
                self.data.set(i, (key, values));
                proof {
                    assert(self.entries() =~= before.update(i as int, (name@, vs)));
                    assert(self.wf()) by {
                        assert forall|a: int, b: int|
                            0 <= a < b < self.entries().len() implies (#[trigger] self.entries()[a]).0 != (
                            #[trigger] self.entries()[b]).0 by {
                            assert(before[a].0 != before[b].0);
                        }
                    }
                    self.lemma_lookup_at(i as int);
                    assert forall|other: Seq<char>| other != name@ implies #[trigger] self.values_of(other)
                        == lookup(before, other) by {
                        lemma_lookup_update(before, i as int, (name@, vs), other);
                    }
                }
            },
            None => {
                let ghost vs = values@;
                self.data.push((key, values));
                proof {
                    assert(self.entries() =~= before.push((name@, vs)));
                    assert(self.entries().drop_last() =~= before);
                    assert(self.wf()) by {
                        assert forall|a: int, b: int|
                            0 <= a < b < self.entries().len() implies (#[trigger] self.entries()[a]).0 != (
                            #[trigger] self.entries()[b]).0 by {
                            if b == before.len() {
                                assert(self.entries()[a] == before[a]);
                                if before[a].0 == name@ {
                                    lemma_lookup_unique(before, a);
                                }
                            } else {
                                assert(before[a].0 != before[b].0);
                            }
                        }
                    }
                }
            },
        }
    }

    /// The value of element `index` of attribute `name`, if both exist.
    pub fn get(&self, name: &str, index: usize) -> (r: Option<&V>)
        requires
            self.wf(),
        ensures
            r == (match self.values_of(name@) {
                Some(vs) => if index < vs.len() {
                    Some(&vs[index as int])
                } else {
                    None
                },
                None => None,
            }),
    {
        let key = name.to_owned();
        match self.find(&key) {
            Some(i) => {
                let vs = &self.data[i].1;
                assert(vs@ == self.entries()[i as int].1);
                if index < vs.len() {
                    Some(&vs[index])
                } else {
                    None
                }
            },
            None => None,
        }
    }

    /// Set element `index` of attribute `name` to `value`; nothing happens if the
    /// attribute or the element does not exist.
    pub fn set(&mut self, name: &str, index: usize, value: V)
        requires
            old(self).wf(),
        ensures
            final(self).wf(),
            final(self).values_of(name@) == (match old(self).values_of(name@) {
                Some(vs) => if index < vs.len() {
                    Some(vs.update(index as int, value))
                } else {
                    Some(vs)
                },
                None => None,
            }),
            forall|other: Seq<char>| other != name@ ==> #[trigger] final(self).values_of(other) == old(self).values_of(other),
    {
        let key = name.to_owned();
        let ghost before = self.entries();
        match self.find(&key) {
            Some(i) => {
                if index < self.data[i].1.len() {
                    let (k, mut vs) = self.data.remove(i);
                    let ghost old_vs = vs@;
                    vs.set(index, value);
                    let ghost new_vs = vs@;
                    self.data.insert(i, (k, vs));
                    proof {
                        assert(self.entries() =~= before.update(i as int, (name@, new_vs)));
                        assert(self.wf()) by {
                            assert forall|a: int, b: int|
                                0 <= a < b < self.entries().len() implies (#[trigger] self.entries()[a]).0 != (
                                #[trigger] self.entries()[b]).0 by {
                                assert(before[a].0 != before[b].0);
                            }
                        }
                        self.lemma_lookup_at(i as int);
                        assert forall|other: Seq<char>| other != name@ implies #[trigger] self.values_of(other)
                            == lookup(before, other) by {
                            lemma_lookup_update(before, i as int, (name@, new_vs), other);
                        }
                    }
                }
            },
            None => {},
        }
    }
}

impl<V> Default for AttributeStore<V> {
    /// An empty store.
    fn default() -> (r: Self)
        ensures
            r.wf(),
            forall|name: Seq<char>| #[trigger] r.values_of(name) is None,
    {
        Self::new()
    }
}

/// With distinct names, the entry at `i` is the one found under its name.
proof fn lemma_lookup_unique<V>(entries: Seq<(Seq<char>, Seq<V>)>, i: int)
    requires
        0 <= i < entries.len(),
        forall|a: int, b: int| 0 <= a < b < entries.len() ==> (#[trigger] entries[a]).0 != (#[trigger] entries[b]).0,
    ensures
        lookup(entries, entries[i].0) == Some(entries[i].1),
    decreases entries.len(),
{
    if i < entries.len() - 1 {
        let d = entries.drop_last();
        assert(entries[i] == d[i]);
        assert(entries[i].0 != entries[entries.len() - 1].0);
        lemma_lookup_unique(d, i);
    }
}

/// A name that no entry has is not found.
proof fn lemma_lookup_absent<V>(entries: Seq<(Seq<char>, Seq<V>)>, name: Seq<char>)
    requires
        forall|j: int| 0 <= j < entries.len() ==> (#[trigger] entries[j]).0 != name,
    ensures
        lookup(entries, name) is None,
    decreases entries.len(),
{
    if entries.len() > 0 {
        let d = entries.drop_last();
        assert forall|j: int| 0 <= j < d.len() implies (#[trigger] d[j]).0 != name by {
            assert(d[j] == entries[j]);
        }
        assert(entries[entries.len() - 1].0 != name);
        lemma_lookup_absent(d, name);
    }
}

/// Replacing entry `i` by one with the same name leaves other names' lookups as they were.
proof fn lemma_lookup_update<V>(
    entries: Seq<(Seq<char>, Seq<V>)>,
    i: int,
    e: (Seq<char>, Seq<V>),
    other: Seq<char>,
)
    requires
        0 <= i < entries.len(),
        e.0 == entries[i].0,
        other != e.0,
    ensures
        lookup(entries.update(i, e), other) == lookup(entries, other),
    decreases entries.len(),
{
    let u = entries.update(i, e);
    if i < entries.len() - 1 {
        assert(u.drop_last() =~= entries.drop_last().update(i, e));
        lemma_lookup_update(entries.drop_last(), i, e, other);
    } else {
        assert(u.drop_last() =~= entries.drop_last());
    }
}

} // verus!
