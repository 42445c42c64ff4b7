//! A map over small sets of copyable keys.

use vstd::prelude::*;

verus! {

/// A key that can be told apart from another of its kind.
pub trait MapKey: Copy {
    /// Whether the two keys are the same.
    fn same(&self, other: &Self) -> (same: bool)
        ensures
            same == (*self == *other),
    ;
}

/// Values by key; no key occurs twice.
#[derive(Debug)]
pub struct KeyMap<K, V> {
    entries: Vec<(K, V)>,
}

/// No two entries share a key.
pub open spec fn distinct_keys<K, V>(entries: Seq<(K, V)>) -> bool {
    forall|i: int, j: int|
        0 <= i < j < entries.len() ==> (#[trigger] entries[i]).0 != (#[trigger] entries[j]).0
}

/// The entries as a map.
pub open spec fn entries_map<K, V>(entries: Seq<(K, V)>) -> Map<K, V>
    decreases entries.len(),
{
    if entries.len() == 0 {
        Map::empty()
    } else {
        entries_map(entries.drop_last()).insert(entries.last().0, entries.last().1)
    }
}

/// What a map of distinct entries holds.
pub proof fn lemma_entries_map<K, V>(entries: Seq<(K, V)>)
    requires
        distinct_keys(entries),
    ensures
        forall|i: int|
            #![trigger entries[i]]
            0 <= i < entries.len() ==> entries_map(entries).contains_key(entries[i].0)
                && entries_map(entries)[entries[i].0] == entries[i].1,
        forall|k: K|
            entries_map(entries).contains_key(k) ==> exists|i: int|
                0 <= i < entries.len() && (#[trigger] entries[i]).0 == k,
        entries_map(entries).dom().finite(),
    decreases entries.len(),
{
    if entries.len() > 0 {
        let init = entries.drop_last();
        assert(distinct_keys(init)) by {
            assert forall|i: int, j: int| 0 <= i < j < init.len() implies (
            #[trigger] init[i]).0 != (#[trigger] init[j]).0 by {
                assert(entries[i].0 != entries[j].0);
            }
        }
        lemma_entries_map(init);
        let m = entries_map(entries);
        assert forall|i: int| #![trigger entries[i]] 0 <= i < entries.len() implies m.contains_key(
            entries[i].0,
        ) && m[entries[i].0] == entries[i].1 by {
            if i < init.len() {
                assert(init[i] == entries[i]);
                assert(entries[i].0 != entries[entries.len() - 1].0);
            }
        }
        assert forall|k: K| m.contains_key(k) implies exists|i: int|
            0 <= i < entries.len() && (#[trigger] entries[i]).0 == k by {
            if k == entries.last().0 {
                assert(entries[entries.len() - 1].0 == k);
            } else {
                let i = choose|i: int| 0 <= i < init.len() && (#[trigger] init[i]).0 == k;
                assert(entries[i].0 == k);
            }
        }
    }
}

/// Two lists of distinct entries that agree on lookups are the same map.
proof fn lemma_same_map<K, V>(a: Seq<(K, V)>, m: Map<K, V>)
    requires
        distinct_keys(a),
        forall|i: int|
            #![trigger a[i]]
            0 <= i < a.len() ==> m.contains_key(a[i].0) && m[a[i].0] == a[i].1,
        forall|k: K| #[trigger]
            m.contains_key(k) ==> exists|i: int| 0 <= i < a.len() && (#[trigger] a[i]).0 == k,
    ensures
        entries_map(a) == m,
{
    lemma_entries_map(a);
    let e = entries_map(a);
    assert forall|k: K| e.contains_key(k) <==> m.contains_key(k) by {
        if e.contains_key(k) {
            let i = choose|i: int| 0 <= i < a.len() && (#[trigger] a[i]).0 == k;
            assert(m.contains_key(a[i].0));
        }
        if m.contains_key(k) {
            let i = choose|i: int| 0 <= i < a.len() && (#[trigger] a[i]).0 == k;
            assert(e.contains_key(a[i].0));
        }
    }
    assert forall|k: K| e.contains_key(k) implies e[k] == m[k] by {
        let i = choose|i: int| 0 <= i < a.len() && (#[trigger] a[i]).0 == k;
        assert(e[a[i].0] == a[i].1);
        assert(m[a[i].0] == a[i].1);
    }
    assert(e =~= m);
}

impl<K, V> View for KeyMap<K, V> {
    type V = Map<K, V>;

    closed spec fn view(&self) -> Map<K, V> {
        entries_map(self.entries@)
    }
}

impl<K, V> KeyMap<K, V> {
    #[verifier::type_invariant]
    spec fn well_formed(self) -> bool {
        distinct_keys(self.entries@)
    }

    /// The empty map.
    pub fn new() -> (map: Self)
        ensures
            map@ == Map::<K, V>::empty(),
    {
        KeyMap { entries: Vec::new() }
    }
}

impl<K: MapKey, V> KeyMap<K, V> {
    fn position(&self, key: &K) -> (found: Option<usize>)
        ensures
            found matches Some(i) ==> i < self.entries@.len() && self.entries@[i as int].0 == *key,
            found is None ==> forall|j: int|
                0 <= j < self.entries@.len() ==> (#[trigger] self.entries@[j]).0 != *key,
    {
        let mut i: usize = 0;
        while i < self.entries.len()
            invariant
                i <= self.entries@.len(),
                forall|j: int| 0 <= j < i ==> (#[trigger] self.entries@[j]).0 != *key,
            decreases self.entries@.len() - i,
        {
            if self.entries[i].0.same(key) {
                return Some(i);
            }
            i = i + 1;
        }
        None
    }

    /// The value under `key`.
    pub fn get(&self, key: &K) -> (value: Option<&V>)
        ensures
            value matches Some(v) ==> self@.contains_key(*key) && self@[*key] == *v,
            value is None ==> !self@.contains_key(*key),
    {
        proof {
            use_type_invariant(self);
            lemma_entries_map(self.entries@);
        }
        match self.position(key) {
            Some(i) => Some(&self.entries[i].1),
            None => None,
        }
    }

    /// Whether `key` has a value.
    pub fn contains_key(&self, key: &K) -> (found: bool)
        ensures
            found == self@.contains_key(*key),
    {
        self.get(key).is_some()
    }

    /// Puts `value` under `key`, in place of what was there.
    pub fn insert(&mut self, key: K, value: V)
        ensures
            final(self)@ == old(self)@.insert(key, value),
    {
        proof {
            use_type_invariant(&*self);
            lemma_entries_map(self.entries@);
        }
        let ghost before = self.entries@;
        let found = self.position(&key);
        let mut entries: Vec<(K, V)> = Vec::new();
        std::mem::swap(&mut entries, &mut self.entries);
        match found {
            Some(i) => {
                entries.set(i, (key, value));
                proof {
                    let m = entries_map(before).insert(key, value);
                    assert forall|j: int|
                        #![trigger entries@[j]]
                        0 <= j < entries@.len() implies m.contains_key(entries@[j].0)
                        && m[entries@[j].0] == entries@[j].1 by {
                        assert(before[j].0 == entries@[j].0);
                        if j != i {
                            assert(before[j] == entries@[j]);
                            if j < i {
                                assert(before[j].0 != before[i as int].0);
                            } else {
                                assert(before[i as int].0 != before[j].0);
                            }
                        }
                    }
                    assert forall|k: K| #[trigger]
                        m.contains_key(k) implies exists|j: int|
                        0 <= j < entries@.len() && (#[trigger] entries@[j]).0 == k by {
                        if k == key {
                            assert(entries@[i as int].0 == k);
                        } else {
                            let j = choose|j: int|
                                0 <= j < before.len() && (#[trigger] before[j]).0 == k;
                            assert(entries@[j].0 == k);
                        }
                    }
                    assert(distinct_keys(entries@)) by {
                        assert forall|a: int, b: int|
                            0 <= a < b < entries@.len() implies (#[trigger] entries@[a]).0 != (
                        #[trigger] entries@[b]).0 by {
                            assert(before[a].0 != before[b].0);
                        }
                    }
                    lemma_same_map(entries@, m);
                }
            },
            None => {
                entries.push((key, value));
                proof {
                    assert(entries@.drop_last() =~= before);
                    assert(distinct_keys(entries@)) by {
                        assert forall|a: int, b: int|
                            0 <= a < b < entries@.len() implies (#[trigger] entries@[a]).0 != (
                        #[trigger] entries@[b]).0 by {
                            if b < before.len() {
                                assert(before[a].0 != before[b].0);
                            } else {
                                assert(before[a].0 != key);
                            }
                        }
                    }
                }
            },
        }
        self.entries = entries;
    }

    /// Takes out the value under `key`.
    pub fn remove(&mut self, key: &K) -> (removed: Option<V>)
        ensures
            final(self)@ == old(self)@.remove(*key),
            removed matches Some(v) ==> old(self)@.contains_key(*key) && old(self)@[*key] == v,
            removed is None ==> !old(self)@.contains_key(*key),
    {
        proof {
            use_type_invariant(&*self);
            lemma_entries_map(self.entries@);
        }
        let ghost before = self.entries@;
        match self.position(key) {
            None => {
                proof {
                    assert(entries_map(before).remove(*key) =~= entries_map(before));
                }
                None
            },
            Some(i) => {
                let mut entries: Vec<(K, V)> = Vec::new();
                std::mem::swap(&mut entries, &mut self.entries);
                let taken = entries.remove(i);
                proof {
                    let m = entries_map(before).remove(*key);
                    assert forall|j: int|
                        #![trigger entries@[j]]
                        0 <= j < entries@.len() implies m.contains_key(entries@[j].0)
                        && m[entries@[j].0] == entries@[j].1 by {
                        let k = if j < i {
                            j
                        } else {
                            j + 1
                        };
                        assert(before[k] == entries@[j]);
                        if k < i {
                            assert(before[k].0 != before[i as int].0);
                        } else {
                            assert(before[i as int].0 != before[k].0);
                        }
                    }
                    assert forall|k: K| #[trigger]
                        m.contains_key(k) implies exists|j: int|
                        0 <= j < entries@.len() && (#[trigger] entries@[j]).0 == k by {
                        let j = choose|j: int|
                            0 <= j < before.len() && (#[trigger] before[j]).0 == k;
                        assert(j != i);
                        if j < i {
                            assert(entries@[j].0 == k);
                        } else {
                            assert(entries@[j - 1].0 == k);
                        }
                    }
                    assert(distinct_keys(entries@)) by {
                        assert forall|a: int, b: int|
                            0 <= a < b < entries@.len() implies (#[trigger] entries@[a]).0 != (
                        #[trigger] entries@[b]).0 by {
                            let x = if a < i { a } else { a + 1 };
                            let y = if b < i { b } else { b + 1 };
                            assert(before[x].0 != before[y].0);
                        }
                    }
                    lemma_same_map(entries@, m);
                }
                self.entries = entries;
                Some(taken.1)
            },
        }
    }

    /// All keys, each once.
    pub fn keys(&self) -> (keys: Vec<K>)
        ensures
            forall|k: K| self@.contains_key(k) <==> keys@.contains(k),
            keys@.no_duplicates(),
    {
        proof {
            use_type_invariant(self);
            lemma_entries_map(self.entries@);
        }
        let mut keys: Vec<K> = Vec::new();
        let mut i: usize = 0;
        while i < self.entries.len()
            invariant
                i <= self.entries@.len(),
                keys@.len() == i,
                forall|j: int| 0 <= j < i ==> #[trigger] keys@[j] == self.entries@[j].0,
            decreases self.entries@.len() - i,
        {
            keys.push(self.entries[i].0);
            i = i + 1;
        }
        proof {
            assert forall|k: K| self@.contains_key(k) <==> keys@.contains(k) by {
                if self@.contains_key(k) {
                    let j = choose|j: int|
                        0 <= j < self.entries@.len() && (#[trigger] self.entries@[j]).0 == k;
                    assert(keys@[j] == k);
                }
                if keys@.contains(k) {
                    let j = choose|j: int| 0 <= j < keys@.len() && keys@[j] == k;
                    assert(self.entries@[j].0 == k);
                }
            }
            assert forall|a: int, b: int|
                0 <= a < keys@.len() && 0 <= b < keys@.len() && a != b implies keys@[a]
                != keys@[b] by {
                assert(keys@[a] == self.entries@[a].0);
                assert(keys@[b] == self.entries@[b].0);
            }
        }
        keys
    }
}

} // verus!
