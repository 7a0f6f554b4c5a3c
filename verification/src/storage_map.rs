//! A map kept as a list of entries.
use vstd::prelude::*;

use crate::numbers::Identity;

verus! {

/// The map that a list of entries stands for: of two entries with one key, the later one counts.
spec fn as_map<K, V>(entries: Seq<(K, V)>) -> Map<K, V>
    decreases entries.len(),
{
    if entries.len() == 0 {
        Map::empty()
    } else {
        as_map(entries.drop_last()).insert(entries.last().0, entries.last().1)
    }
}

/// A map from `K` to `V`. Its view is the mathematical map.
pub struct StorageMap<K, V> {
    entries: Vec<(K, V)>,
}

impl<K, V> View for StorageMap<K, V> {
    type V = Map<K, V>;

    closed spec fn view(&self) -> Map<K, V> {
        as_map(self.entries@)
    }
}

/// The later part of a list decides alone wherever it holds the key.
proof fn lemma_last_entry_counts<K, V>(entries: Seq<(K, V)>, i: int)
    requires
        0 <= i < entries.len(),
        forall|j: int| i < j < entries.len() ==> (#[trigger] entries[j]).0 != entries[i].0,
    ensures
        as_map(entries).contains_key(entries[i].0),
        as_map(entries)[entries[i].0] == entries[i].1,
    decreases entries.len(),
{
    if i < entries.len() - 1 {
        let front = entries.drop_last();
        assert forall|j: int| i < j < front.len() implies (#[trigger] front[j]).0 != front[i].0 by {
            assert(front[j] == entries[j]);
        }
        assert(front[i] == entries[i]);
        lemma_last_entry_counts(front, i);
        assert(entries.last() == entries[entries.len() - 1]);
    }
}

/// A key that no entry holds is not in the map.
proof fn lemma_missing_key<K, V>(entries: Seq<(K, V)>, key: K)
    requires
        forall|j: int| 0 <= j < entries.len() ==> (#[trigger] entries[j]).0 != key,
    ensures
        !as_map(entries).contains_key(key),
    decreases entries.len(),
{
    if entries.len() > 0 {
        let front = entries.drop_last();
        assert forall|j: int| 0 <= j < front.len() implies (#[trigger] front[j]).0 != key by {
            assert(front[j] == entries[j]);
        }
        lemma_missing_key(front, key);
        assert(entries.last() == entries[entries.len() - 1]);
    }
}

/// Dropping an entry touches the map at that entry's key alone.
proof fn lemma_drop_entry<K, V>(entries: Seq<(K, V)>, i: int)
    requires
        0 <= i < entries.len(),
    ensures
        as_map(entries.remove(i)).remove(entries[i].0) == as_map(entries).remove(entries[i].0),
    decreases entries.len(),
{
    let key = entries[i].0;
    let less = entries.remove(i);
    if i == entries.len() - 1 {
        assert(less =~= entries.drop_last());
        assert(as_map(less).remove(key) =~= as_map(entries).remove(key));
    } else {
        let front = entries.drop_last();
        lemma_drop_entry(front, i);
        assert(less.drop_last() =~= front.remove(i));
        assert(less.last() == entries.last());
        let last = entries.last();
        let thinned = as_map(front.remove(i));
        let whole = as_map(front);
        assert(as_map(less) == thinned.insert(last.0, last.1));
        assert(as_map(entries) == whole.insert(last.0, last.1));
        assert forall|k: K| k != key implies #[trigger] thinned.contains_key(k)
            == whole.contains_key(k) && (thinned.contains_key(k) ==> thinned[k] == whole[k]) by {
            assert(thinned.remove(key).contains_key(k) == whole.remove(key).contains_key(k));
            assert(thinned.contains_key(k) ==> thinned.remove(key)[k] == whole.remove(key)[k]);
        }
        assert(as_map(less).remove(key) =~= as_map(entries).remove(key));
    }
}

impl<K: Identity, V> StorageMap<K, V> {
    /// An empty map.
    pub fn new() -> (r: StorageMap<K, V>)
        ensures
            r@ == Map::<K, V>::empty(),
    {
        StorageMap { entries: Vec::new() }
    }

    /// The value stored under `key`, if any.
    pub fn get(&self, key: &K) -> (r: Option<&V>)
        ensures
            r == (if self@.contains_key(*key) {
                Some(&self@[*key])
            } else {
                None
            }),
    {
        let mut i: usize = self.entries.len();
        while i > 0
            invariant
                i <= self.entries.len(),
                forall|j: int| i <= j < self.entries.len() ==> (#[trigger] self.entries@[j]).0 != *key,
            decreases i,
        {
            i = i - 1;
            if self.entries[i].0.same(key) {
                proof {
                    lemma_last_entry_counts(self.entries@, i as int);
                }
                return Some(&self.entries[i].1);
            }
        }
        proof {
            lemma_missing_key(self.entries@, *key);
        }
        None
    }

    /// Whether anything is stored under `key`.
    pub fn contains_key(&self, key: &K) -> (r: bool)
        ensures
            r == self@.contains_key(*key),
    {
        self.get(key).is_some()
    }

    /// Removes what is stored under `key` and returns it.
    pub fn take(&mut self, key: &K) -> (r: Option<V>)
        ensures
            final(self)@ == old(self)@.remove(*key),
            r == (if old(self)@.contains_key(*key) {
                Some(old(self)@[*key])
            } else {
                None
            }),
    {
        let mut found: Option<V> = None;
        let mut i: usize = self.entries.len();
        while i > 0
            invariant
                i <= self.entries.len(),
                forall|j: int| i <= j < self.entries.len() ==> (#[trigger] self.entries@[j]).0 != *key,
                as_map(self.entries@).remove(*key) == as_map(old(self).entries@).remove(*key),
                match found {
                    Some(v) => as_map(old(self).entries@).contains_key(*key)
                        && as_map(old(self).entries@)[*key] == v,
                    None => self.entries@ == old(self).entries@,
                },
            decreases i,
        {
            i = i - 1;
            if self.entries[i].0.same(key) {
                proof {
                    lemma_drop_entry(self.entries@, i as int);
                    if found is None {
                        lemma_last_entry_counts(self.entries@, i as int);
                    }
                }
                let ghost before = self.entries@;
                let (_, value) = self.entries.remove(i);
                assert forall|j: int| i <= j < self.entries.len() implies (
                #[trigger] self.entries@[j]).0 != *key by {
                    assert(self.entries@[j] == before[j + 1]);
                }
                if found.is_none() {
                    found = Some(value);
                }
            }
        }
        proof {
            lemma_missing_key(self.entries@, *key);
            assert(as_map(self.entries@).remove(*key) =~= as_map(self.entries@));
        }
        found
    }

    /// Stores `value` under `key`, in place of what was there.
    pub fn insert(&mut self, key: K, value: V)
        ensures
            final(self)@ == old(self)@.insert(key, value),
    {
        let _ = self.take(&key);
        let ghost before = self.entries@;
        self.entries.push((key, value));
        proof {
            assert(self.entries@.drop_last() =~= before);
            assert(self@ =~= old(self)@.insert(key, value));
        }
    }
}

} // verus!
