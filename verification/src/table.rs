//! A small keyed table: a vector of entries with distinct keys, viewed as a
//! finite map.  Keys are compared by a verified equality on their spec value.

use vstd::prelude::*;

verus! {

/// A key whose equality is decided by comparing its spec value.
pub trait TableKey: Sized {
    type Key;

    spec fn key(&self) -> Self::Key;

    fn same_key(&self, other: &Self) -> (res: bool)
        ensures
            res == (self.key() == other.key());

    /// A copy with the same key.
    fn copy_key(&self) -> (res: Self)
        ensures
            res.key() == self.key();
}

impl TableKey for u64 {
    type Key = u64;

    open spec fn key(&self) -> u64 {
        *self
    }

    fn same_key(&self, other: &Self) -> (res: bool) {
        *self == *other
    }

    fn copy_key(&self) -> (res: Self) {
        *self
    }
}

/// Entries with pairwise distinct keys.
pub struct Table<K, V> {
    entries: Vec<(K, V)>,
}

/// Position `i` of `s` holds key `k`.
pub open spec fn holds_key<K: TableKey, V>(s: Seq<(K, V)>, i: int, k: K::Key) -> bool {
    0 <= i < s.len() && s[i].0.key() == k
}

/// The keys of `s` are pairwise distinct.
pub open spec fn distinct_keys<K: TableKey, V>(s: Seq<(K, V)>) -> bool {
    forall|i: int, j: int|
        0 <= i < s.len() && 0 <= j < s.len() && i != j ==> (#[trigger] s[i]).0.key() != (
        #[trigger] s[j]).0.key()
}

/// The map that a sequence of entries with distinct keys stands for.
pub open spec fn map_of<K: TableKey, V>(s: Seq<(K, V)>) -> Map<K::Key, V> {
    Map::new(
        |k: K::Key| exists|i: int| holds_key(s, i, k),
        |k: K::Key| s[choose|i: int| holds_key(s, i, k)].1,
    )
}

/// Each entry is found in the map.
pub proof fn lemma_map_of_at<K: TableKey, V>(s: Seq<(K, V)>, i: int)
    requires
        distinct_keys(s),
        0 <= i < s.len(),
    ensures
        map_of(s).contains_key(s[i].0.key()),
        map_of(s)[s[i].0.key()] == s[i].1,
{
    let k = s[i].0.key();
    assert(holds_key(s, i, k));
    let j = choose|j: int| holds_key(s, j, k);
    assert(j == i);
}

/// Appending an entry with a new key inserts it.
pub proof fn lemma_map_of_push<K: TableKey, V>(s: Seq<(K, V)>, key: K, v: V)
    requires
        distinct_keys(s),
        !map_of(s).contains_key(key.key()),
    ensures
        distinct_keys(s.push((key, v))),
        map_of(s.push((key, v))) =~= map_of(s).insert(key.key(), v),
{
    let t = s.push((key, v));
    assert forall|i: int, j: int|
        0 <= i < t.len() && 0 <= j < t.len() && i != j implies (#[trigger] t[i]).0.key() != (
        #[trigger] t[j]).0.key() by {
        if i == s.len() as int {
            assert(!holds_key(s, j, key.key()));
        } else if j == s.len() as int {
            assert(!holds_key(s, i, key.key()));
        } else {
            assert(t[i] == s[i] && t[j] == s[j]);
        }
    }
    assert forall|k: K::Key| #[trigger] map_of(t).contains_key(k) == map_of(s).insert(
        key.key(),
        v,
    ).contains_key(k) by {
        if map_of(s).contains_key(k) {
            let i = choose|i: int| holds_key(s, i, k);
            assert(holds_key(t, i, k));
        }
        if k == key.key() {
            assert(holds_key(t, s.len() as int, k));
        }
        if map_of(t).contains_key(k) {
            let i = choose|i: int| holds_key(t, i, k);
            if i < s.len() {
                assert(holds_key(s, i, k));
            }
        }
    }
    assert forall|k: K::Key| #[trigger] map_of(t).contains_key(k) implies map_of(t)[k] == map_of(
        s,
    ).insert(key.key(), v)[k] by {
        let i = choose|i: int| holds_key(t, i, k);
        lemma_map_of_at(t, i);
        if i < s.len() {
            assert(t[i] == s[i]);
            lemma_map_of_at(s, i);
        }
    }
}

/// Replacing the value at `i` updates the map at that key.
pub proof fn lemma_map_of_update<K: TableKey, V>(s: Seq<(K, V)>, i: int, v: V)
    requires
        distinct_keys(s),
        0 <= i < s.len(),
    ensures
        distinct_keys(s.update(i, (s[i].0, v))),
        map_of(s.update(i, (s[i].0, v))) =~= map_of(s).insert(s[i].0.key(), v),
{
    let t = s.update(i, (s[i].0, v));
    lemma_map_of_at(s, i);
    assert forall|a: int, b: int|
        0 <= a < t.len() && 0 <= b < t.len() && a != b implies (#[trigger] t[a]).0.key() != (
        #[trigger] t[b]).0.key() by {
        assert(t[a].0 == s[a].0 && t[b].0 == s[b].0);
    }
    assert forall|k: K::Key| #[trigger] map_of(t).contains_key(k) == map_of(s).insert(
        s[i].0.key(),
        v,
    ).contains_key(k) by {
        if map_of(s).contains_key(k) {
            let j = choose|j: int| holds_key(s, j, k);
            assert(holds_key(t, j, k));
        }
        if map_of(t).contains_key(k) {
            let j = choose|j: int| holds_key(t, j, k);
            assert(holds_key(s, j, k));
        }
    }
    assert forall|k: K::Key| #[trigger] map_of(t).contains_key(k) implies map_of(t)[k] == map_of(
        s,
    ).insert(s[i].0.key(), v)[k] by {
        let j = choose|j: int| holds_key(t, j, k);
        lemma_map_of_at(t, j);
        if j != i {
            lemma_map_of_at(s, j);
        }
    }
}

/// Removing the entry at `i` removes its key.
pub proof fn lemma_map_of_remove<K: TableKey, V>(s: Seq<(K, V)>, i: int)
    requires
        distinct_keys(s),
        0 <= i < s.len(),
    ensures
        distinct_keys(s.remove(i)),
        map_of(s.remove(i)) =~= map_of(s).remove(s[i].0.key()),
{
    let t = s.remove(i);
    let ki = s[i].0.key();
    assert forall|a: int| 0 <= a < t.len() implies #[trigger] t[a] == s[if a < i {
        a
    } else {
        a + 1
    }] by {}
    assert forall|a: int, b: int|
        0 <= a < t.len() && 0 <= b < t.len() && a != b implies (#[trigger] t[a]).0.key() != (
        #[trigger] t[b]).0.key() by {
        let a2 = if a < i { a } else { a + 1 };
        let b2 = if b < i { b } else { b + 1 };
        assert(t[a] == s[a2] && t[b] == s[b2]);
    }
    assert forall|k: K::Key| #[trigger] map_of(t).contains_key(k) == map_of(s).remove(
        ki,
    ).contains_key(k) by {
        if map_of(t).contains_key(k) {
            let a = choose|a: int| holds_key(t, a, k);
            let a2 = if a < i { a } else { a + 1 };
            assert(t[a] == s[a2]);
            assert(holds_key(s, a2, k));
            assert(a2 != i);
        }
        if map_of(s).contains_key(k) && k != ki {
            let a = choose|a: int| holds_key(s, a, k);
            assert(a != i);
            let a2 = if a < i { a } else { a - 1 };
            assert(t[a2] == s[a]);
            assert(holds_key(t, a2, k));
        }
    }
    assert forall|k: K::Key| #[trigger] map_of(t).contains_key(k) implies map_of(t)[k] == map_of(
        s,
    ).remove(ki)[k] by {
        let a = choose|a: int| holds_key(t, a, k);
        lemma_map_of_at(t, a);
        let a2 = if a < i { a } else { a + 1 };
        assert(t[a] == s[a2]);
        lemma_map_of_at(s, a2);
    }
}

impl<K: TableKey, V> Table<K, V> {
    /// The entries, in table order.
    pub closed spec fn entries(&self) -> Seq<(K, V)> {
        self.entries@
    }

    /// The keys are distinct.
    pub open spec fn wf(&self) -> bool {
        distinct_keys(self.entries())
    }

    /// The table as a map.
    pub open spec fn view(&self) -> Map<K::Key, V> {
        map_of(self.entries())
    }

    /// An empty table.
    pub fn new() -> (res: Self)
        ensures
            res.wf(),
            res.entries().len() == 0,
            res@ == Map::<K::Key, V>::empty(),
    {
        let res = Table { entries: Vec::new() };
        assert(res@ =~= Map::<K::Key, V>::empty());
        res
    }

    /// The number of entries.
    pub fn len(&self) -> (res: usize)
        ensures
            res == self.entries().len(),
    {
        self.entries.len()
    }

    /// The entry at position `i`.
    pub fn entry(&self, i: usize) -> (res: &(K, V))
        requires
            i < self.entries().len(),
        ensures
            *res == self.entries()[i as int],
    {
        &self.entries[i]
    }

    /// Position of the entry with the key of `k`.
    pub fn position(&self, k: &K) -> (res: Option<usize>)
        requires
            self.wf(),
        ensures
            match res {
                Some(i) => i < self.entries().len() && self.entries()[i as int].0.key() == k.key(),
                None => !self@.contains_key(k.key()),
            },
    {
        let mut i: usize = 0;
        while i < self.entries.len()
            invariant
                i <= self.entries@.len(),
                forall|j: int| 0 <= j < i ==> (#[trigger] self.entries@[j]).0.key() != k.key(),
            decreases self.entries@.len() - i,
        {
            if self.entries[i].0.same_key(k) {
                return Some(i);
            }
            i = i + 1;
        }
        assert forall|j: int| !holds_key(self.entries(), j, k.key()) by {}
        None
    }

    /// The value stored under the key of `k`.
    pub fn get(&self, k: &K) -> (res: Option<&V>)
        requires
            self.wf(),
        ensures
            match res {
                Some(v) => self@.contains_key(k.key()) && self@[k.key()] == *v,
                None => !self@.contains_key(k.key()),
            },
    {
        match self.position(k) {
            Some(i) => {
                proof {
                    lemma_map_of_at(self.entries(), i as int);
                }
                Some(&self.entries[i].1)
            },
            None => None,
        }
    }

    /// Whether the key of `k` is present.
    pub fn contains(&self, k: &K) -> (res: bool)
        requires
            self.wf(),
        ensures
            res == self@.contains_key(k.key()),
    {
        match self.position(k) {
            Some(i) => {
                proof {
                    lemma_map_of_at(self.entries(), i as int);
                }
                true
            },
            None => false,
        }
    }

    /// Stores `v` under `k`, in place of the value stored there, which is returned.
    pub fn insert(&mut self, k: K, v: V) -> (res: Option<V>)
        requires
            old(self).wf(),
        ensures
            final(self).wf(),
            final(self)@ == old(self)@.insert(k.key(), v),
            match res {
                Some(w) => old(self)@.contains_key(k.key()) && old(self)@[k.key()] == w,
                None => !old(self)@.contains_key(k.key()),
            },
    {
        match self.position(&k) {
            Some(i) => {
                proof {
                    lemma_map_of_at(self.entries(), i as int);
                    lemma_map_of_update(self.entries(), i as int, v);
                }
                let ghost key_i = self.entries@[i as int].0;
                let ghost s = self.entries@;
                let (old_k, old_v) = self.entries.remove(i);
                self.entries.insert(i, (old_k, v));
                assert(self.entries@ =~= s.update(i as int, (key_i, v)));
                Some(old_v)
            },
            None => {
                proof {
                    lemma_map_of_push(self.entries(), k, v);
                }
                self.entries.push((k, v));
                None
            },
        }
    }

    /// Removes the entry at position `i`.
    pub fn remove_at(&mut self, i: usize) -> (res: (K, V))
        requires
            old(self).wf(),
            i < old(self).entries().len(),
        ensures
            final(self).wf(),
            res == old(self).entries()[i as int],
            final(self).entries() == old(self).entries().remove(i as int),
            final(self)@ == old(self)@.remove(res.0.key()),
    {
        proof {
            lemma_map_of_remove(self.entries(), i as int);
        }
        self.entries.remove(i)
    }

    /// Removes the entry with the key of `k`, returning its value.
    pub fn remove(&mut self, k: &K) -> (res: Option<V>)
        requires
            old(self).wf(),
        ensures
            final(self).wf(),
            final(self)@ == old(self)@.remove(k.key()),
            match res {
                Some(w) => old(self)@.contains_key(k.key()) && old(self)@[k.key()] == w,
                None => !old(self)@.contains_key(k.key()),
            },
    {
        match self.position(k) {
            Some(i) => {
                proof {
                    lemma_map_of_at(self.entries(), i as int);
                }
                let (_, v) = self.remove_at(i);
                Some(v)
            },
            None => {
                assert(old(self)@.remove(k.key()) =~= old(self)@);
                None
            },
        }
    }
}

impl<K: TableKey> Table<K, u64> {
    /// Whether some key holds the value `v`.
    pub fn contains_value(&self, v: u64) -> (res: bool)
        requires
            self.wf(),
        ensures
            res == exists|k: K::Key| #[trigger] self@.contains_key(k) && self@[k] == v,
    {
        let mut i: usize = 0;
        while i < self.entries.len()
            invariant
                i <= self.entries@.len(),
                distinct_keys(self.entries@),
                forall|j: int| 0 <= j < i ==> (#[trigger] self.entries@[j]).1 != v,
            decreases self.entries@.len() - i,
        {
            if self.entries[i].1 == v {
                proof {
                    lemma_map_of_at(self.entries(), i as int);
                    let k = self.entries@[i as int].0.key();
                    assert(self@.contains_key(k) && self@[k] == v);
                }
                return true;
            }
            i = i + 1;
        }
        assert forall|k: K::Key| #[trigger] self@.contains_key(k) implies self@[k] != v by {
            let j = choose|j: int| holds_key(self.entries(), j, k);
            lemma_map_of_at(self.entries(), j);
        }
        false
    }
}

} // verus!
