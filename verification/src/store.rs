use vstd::prelude::*;

verus! {

/// An association list from path strings to values with pairwise-distinct
/// keys, abstracted as a `Map<Seq<char>, V>`. It backs the holding store
/// (path to instant of last successful hold) and the model of the mirror
/// tree (destination path to mirrored bytes).
pub struct PathTable<V> {
    entries: Vec<(String, V)>,
}

/// Keys are pairwise distinct.
pub open spec fn unique_keys<V>(entries: Seq<(String, V)>) -> bool {
    forall|i: int, j: int|
        0 <= i < j < entries.len() ==> entries[i].0@ != entries[j].0@
}

/// The map an entry sequence stands for; later entries shadow earlier ones,
/// which never happens under `unique_keys`.
pub open spec fn table_map<V>(entries: Seq<(String, V)>) -> Map<Seq<char>, V>
    decreases entries.len(),
{
    if entries.len() == 0 {
        Map::empty()
    } else {
        table_map(entries.drop_last()).insert(entries.last().0@, entries.last().1)
    }
}

/// A key is in the map exactly when some entry carries it.
pub proof fn lemma_table_contains<V>(entries: Seq<(String, V)>, k: Seq<char>)
    ensures
        table_map(entries).contains_key(k) <==> (exists|i: int|
            0 <= i < entries.len() && entries[i].0@ == k),
    decreases entries.len(),
{
    if entries.len() == 0 {
    } else {
        lemma_table_contains(entries.drop_last(), k);
        if entries.last().0@ == k {
            assert(entries[entries.len() - 1].0@ == k);
        } else {
            if exists|i: int| 0 <= i < entries.len() && entries[i].0@ == k {
                let i = choose|i: int| 0 <= i < entries.len() && entries[i].0@ == k;
                assert(entries.drop_last()[i] == entries[i]);
            }
            if exists|i: int| 0 <= i < entries.drop_last().len() && entries.drop_last()[i].0@
                == k {
                let i = choose|i: int|
                    0 <= i < entries.drop_last().len() && entries.drop_last()[i].0@ == k;
                assert(entries[i] == entries.drop_last()[i]);
            }
        }
    }
}

/// Under distinct keys, the map sends each entry's key to its value.
pub proof fn lemma_table_get<V>(entries: Seq<(String, V)>, i: int)
    requires
        unique_keys(entries),
        0 <= i < entries.len(),
    ensures
        table_map(entries).contains_key(entries[i].0@),
        table_map(entries)[entries[i].0@] == entries[i].1,
    decreases entries.len(),
{
    if i == entries.len() - 1 {
    } else {
        assert(forall|j: int|
            0 <= j < entries.len() - 1 ==> entries.drop_last()[j] == entries[j]);
        lemma_table_get(entries.drop_last(), i);
        assert(entries[i].0@ != entries.last().0@);
    }
}

/// Updating the entry that carries a key updates the map at that key.
pub proof fn lemma_table_update<V>(entries: Seq<(String, V)>, i: int, e: (String, V))
    requires
        unique_keys(entries),
        0 <= i < entries.len(),
        e.0@ == entries[i].0@,
    ensures
        table_map(entries.update(i, e)) == table_map(entries).insert(e.0@, e.1),
    decreases entries.len(),
{
    let u = entries.update(i, e);
    if i == entries.len() - 1 {
        assert(u.drop_last() =~= entries.drop_last());
        assert(u.last() == e);
        assert(table_map(u) =~= table_map(entries).insert(e.0@, e.1));
    } else {
        assert(forall|j: int|
            0 <= j < entries.len() - 1 ==> entries.drop_last()[j] == entries[j]);
        lemma_table_update(entries.drop_last(), i, e);
        assert(u.drop_last() =~= entries.drop_last().update(i, e));
        assert(u.last() == entries.last());
        assert(entries[i].0@ != entries.last().0@);
        assert(table_map(u) =~= table_map(entries).insert(e.0@, e.1));
    }
}

/// Appending a fresh entry inserts its binding.
pub proof fn lemma_table_push<V>(entries: Seq<(String, V)>, e: (String, V))
    ensures
        table_map(entries.push(e)) == table_map(entries).insert(e.0@, e.1),
{
    assert(entries.push(e).drop_last() =~= entries);
    assert(entries.push(e).last() == e);
}

impl<V> PathTable<V> {
    /// Keys are pairwise distinct, so the entry list and the map agree.
    pub closed spec fn wf(self) -> bool {
        unique_keys(self.entries@)
    }

    /// The map this table stands for.
    pub closed spec fn as_map(self) -> Map<Seq<char>, V> {
        table_map(self.entries@)
    }

    /// How many paths are recorded.
    pub closed spec fn count(self) -> nat {
        self.entries@.len()
    }

    pub fn new() -> (r: Self)
        ensures
            r.wf(),
            r.as_map() == Map::<Seq<char>, V>::empty(),
            r.count() == 0,
    {
        PathTable { entries: Vec::new() }
    }

    pub fn len(&self) -> (n: usize)
        ensures
            n == self.count(),
    {
        self.entries.len()
    }

    /// The value recorded against `key`, if any.
    pub fn get(&self, key: &String) -> (r: Option<&V>)
        requires
            self.wf(),
        ensures
            match r {
                Some(v) => self.as_map().contains_key(key@) && *v == self.as_map()[key@],
                None => !self.as_map().contains_key(key@),
            },
    {
        let n = self.entries.len();
        let mut i: usize = 0;
        while i < n
            invariant
                n == self.entries@.len(),
                i <= n,
                self.wf(),
                forall|j: int| 0 <= j < i ==> self.entries@[j].0@ != key@,
            decreases n - i,
        {
            let e = &self.entries[i];
            if e.0 == *key {
                proof {
                    lemma_table_get(self.entries@, i as int);
                }
                return Some(&self.entries[i].1);
            }
            i = i + 1;
        }
        proof {
            lemma_table_contains(self.entries@, key@);
        }
        None
    }

    /// Record `value` against `key`, replacing any earlier binding.
    pub fn set(&mut self, key: &String, value: V)
        requires
            old(self).wf(),
        ensures
            final(self).wf(),
            final(self).as_map() == old(self).as_map().insert(key@, value),
            final(self).count() == old(self).count() + (if old(self).as_map().contains_key(
                key@,
            ) {
                0int
            } else {
                1int
            }),
    {
        let n = self.entries.len();
        let mut i: usize = 0;
        while i < n
            invariant
                n == self.entries@.len(),
                i <= n,
                self.wf(),
                self.entries@ == old(self).entries@,
                forall|j: int| 0 <= j < i ==> self.entries@[j].0@ != key@,
            decreases n - i,
        {
            if self.entries[i].0 == *key {
                let k2 = key.clone();
                let ghost old_entries = self.entries@;
                self.entries[i] = (k2, value);
                proof {
                    lemma_table_contains(old_entries, key@);
                    lemma_table_get(old_entries, i as int);
                    lemma_table_update(old_entries, i as int, self.entries@[i as int]);
                }
                return;
            }
            i = i + 1;
        }
        let k2 = key.clone();
        let ghost old_entries = self.entries@;
        self.entries.push((k2, value));
        proof {
            lemma_table_contains(old_entries, key@);
            lemma_table_push(old_entries, self.entries@.last());
        }
    }
}

} // verus!
