//! A small map from names to values that keeps the order of insertion.
//!
//! The install state, the cask state, the tap registry and the lockfile
//! are all maps keyed by a name. They are few entries long, so a list with
//! distinct keys serves; walking it is deterministic.

use vstd::prelude::*;

verus! {

/// One entry of a table.
pub struct Entry<V> {
    pub key: String,
    pub value: V,
}

/// A map from names to values, in order of first insertion.
pub struct Table<V> {
    entries: Vec<Entry<V>>,
}

/// The keys of a list of entries, in order.
pub open spec fn keys_of<V>(entries: Seq<Entry<V>>) -> Seq<Seq<char>> {
    Seq::new(entries.len(), |i: int| entries[i].key@)
}

/// The mapping that a list of entries stands for.
pub open spec fn entry_map<V>(entries: Seq<Entry<V>>) -> Map<Seq<char>, V>
    decreases entries.len(),
{
    if entries.len() == 0 {
        Map::empty()
    } else {
        entry_map(entries.drop_last()).insert(entries.last().key@, entries.last().value)
    }
}

/// The entry at position `k` is held under its key.
pub proof fn lemma_entry_at<V>(entries: Seq<Entry<V>>, k: int)
    requires
        keys_of(entries).no_duplicates(),
        0 <= k < entries.len(),
    ensures
        entry_map(entries).dom().contains(entries[k].key@),
        entry_map(entries)[entries[k].key@] == entries[k].value,
    decreases entries.len(),
{
    let last = entries.len() - 1;
    if k < last {
        let front = entries.drop_last();
        assert(keys_of(front) =~= keys_of(entries).drop_last());
        assert(keys_of(entries)[k] != keys_of(entries)[last]);
        lemma_entry_at(front, k);
    }
}

/// A key of the mapping is the key of some entry.
pub proof fn lemma_entry_of<V>(entries: Seq<Entry<V>>, key: Seq<char>) -> (k: int)
    requires
        entry_map(entries).dom().contains(key),
    ensures
        0 <= k < entries.len(),
        entries[k].key@ == key,
    decreases entries.len(),
{
    if entries.last().key@ == key {
        entries.len() - 1
    } else {
        lemma_entry_of(entries.drop_last(), key)
    }
}

/// A key that no entry has is not in the mapping.
pub proof fn lemma_no_entry<V>(entries: Seq<Entry<V>>, key: Seq<char>)
    requires
        forall|j: int| 0 <= j < entries.len() ==> #[trigger] entries[j].key@ != key,
    ensures
        !entry_map(entries).dom().contains(key),
{
    if entry_map(entries).dom().contains(key) {
        let k = lemma_entry_of(entries, key);
    }
}

/// The mapping has as many keys as the list has entries.
pub proof fn lemma_entry_count<V>(entries: Seq<Entry<V>>)
    requires
        keys_of(entries).no_duplicates(),
    ensures
        entry_map(entries).dom().finite(),
        entry_map(entries).dom().len() == entries.len(),
    decreases entries.len(),
{
    if entries.len() > 0 {
        let front = entries.drop_last();
        assert(keys_of(front) =~= keys_of(entries).drop_last());
        lemma_entry_count(front);
        assert forall|j: int| 0 <= j < front.len() implies #[trigger] front[j].key@
            != entries.last().key@ by {
            assert(keys_of(entries)[j] != keys_of(entries)[entries.len() - 1]);
        }
        lemma_no_entry(front, entries.last().key@);
    }
}

/// Replacing the value at `k` is inserting under the same key.
proof fn lemma_update_is_insert<V>(entries: Seq<Entry<V>>, k: int, e: Entry<V>)
    requires
        keys_of(entries).no_duplicates(),
        0 <= k < entries.len(),
        e.key@ == entries[k].key@,
    ensures
        keys_of(entries.update(k, e)) == keys_of(entries),
        entry_map(entries.update(k, e)) == entry_map(entries).insert(e.key@, e.value),
{
    let after = entries.update(k, e);
    let want = entry_map(entries).insert(e.key@, e.value);
    assert(keys_of(after) =~= keys_of(entries));
    lemma_entry_at(after, k);
    assert forall|n: Seq<char>| #[trigger] entry_map(after).dom().contains(n) implies want.dom().contains(
        n,
    ) && entry_map(after)[n] == want[n] by {
        let i = lemma_entry_of(after, n);
        lemma_entry_at(after, i);
        if i != k {
            assert(after[i] == entries[i]);
            lemma_entry_at(entries, i);
            assert(keys_of(entries)[i] != keys_of(entries)[k]);
        }
    }
    assert forall|n: Seq<char>| #[trigger] want.dom().contains(n) implies entry_map(
        after,
    ).dom().contains(n) by {
        if n != e.key@ {
            let i = lemma_entry_of(entries, n);
            assert(after[i] == entries[i]);
            lemma_entry_at(after, i);
        }
    }
    assert(entry_map(after) =~= want);
}

/// Taking out the entry at `k` removes its key.
proof fn lemma_remove_is_remove<V>(entries: Seq<Entry<V>>, k: int)
    requires
        keys_of(entries).no_duplicates(),
        0 <= k < entries.len(),
    ensures
        keys_of(entries.remove(k)).no_duplicates(),
        entry_map(entries.remove(k)) == entry_map(entries).remove(entries[k].key@),
{
    let after = entries.remove(k);
    let want = entry_map(entries).remove(entries[k].key@);
    assert forall|i: int, j: int|
        0 <= i < after.len() && 0 <= j < after.len() && i != j implies keys_of(after)[i]
        != keys_of(after)[j] by {
        let a = if i < k {
            i
        } else {
            i + 1
        };
        let b = if j < k {
            j
        } else {
            j + 1
        };
        assert(keys_of(after)[i] == keys_of(entries)[a]);
        assert(keys_of(after)[j] == keys_of(entries)[b]);
    }
    assert forall|n: Seq<char>| #[trigger] entry_map(after).dom().contains(n) implies want.dom().contains(
        n,
    ) && entry_map(after)[n] == want[n] by {
        let i = lemma_entry_of(after, n);
        lemma_entry_at(after, i);
        let a = if i < k {
            i
        } else {
            i + 1
        };
        assert(after[i] == entries[a]);
        lemma_entry_at(entries, a);
        assert(keys_of(entries)[a] != keys_of(entries)[k]);
    }
    assert forall|n: Seq<char>| #[trigger] want.dom().contains(n) implies entry_map(
        after,
    ).dom().contains(n) by {
        let a = lemma_entry_of(entries, n);
        let i = if a < k {
            a
        } else {
            a - 1
        };
        assert(after[i] == entries[a]);
        lemma_entry_at(after, i);
    }
    assert(entry_map(after) =~= want);
}

impl<V> View for Table<V> {
    type V = Map<Seq<char>, V>;

    closed spec fn view(&self) -> Map<Seq<char>, V> {
        entry_map(self.entries@)
    }
}

impl<V> Table<V> {
    #[verifier::type_invariant]
    spec fn distinct_keys(self) -> bool {
        keys_of(self.entries@).no_duplicates()
    }

    /// The keys in order of first insertion.
    pub closed spec fn keys(&self) -> Seq<Seq<char>> {
        keys_of(self.entries@)
    }

    /// The values in the order of their keys.
    pub closed spec fn values(&self) -> Seq<V> {
        Seq::new(self.entries@.len(), |i: int| self.entries@[i].value)
    }

    /// States what holds of every table: the keys are distinct, they are
    /// the keys of the mapping, and each value stands at the place of its key.
    pub fn inspect(&self)
        ensures
            self.keys().no_duplicates(),
            self.keys().len() == self.values().len(),
            forall|n: Seq<char>| #[trigger] self@.dom().contains(n) <==> self.keys().contains(n),
            forall|i: int|
                0 <= i < self.keys().len() ==> self@.dom().contains(#[trigger] self.keys()[i])
                    && self@[self.keys()[i]] == self.values()[i],
    {
        proof {
            use_type_invariant(self);
            let entries = self.entries@;
            assert forall|n: Seq<char>| #[trigger]
                self@.dom().contains(n) <==> self.keys().contains(n) by {
                if self@.dom().contains(n) {
                    let k = lemma_entry_of(entries, n);
                    assert(keys_of(entries)[k] == n);
                }
                if self.keys().contains(n) {
                    let k = choose|k: int| 0 <= k < entries.len() && keys_of(entries)[k] == n;
                    lemma_entry_at(entries, k);
                }
            }
            assert forall|i: int| 0 <= i < self.keys().len() implies self@.dom().contains(
                #[trigger] self.keys()[i],
            ) && self@[self.keys()[i]] == self.values()[i] by {
                lemma_entry_at(entries, i);
            }
        }
    }

    /// An empty table.
    pub fn new() -> (t: Table<V>)
        ensures
            t@ == Map::<Seq<char>, V>::empty(),
            t.keys() == Seq::<Seq<char>>::empty(),
    {
        let t = Table { entries: Vec::new() };
        assert(keys_of(t.entries@) =~= Seq::empty());
        t
    }

    /// Number of entries.
    pub fn len(&self) -> (n: usize)
        ensures
            n == self.keys().len(),
            n == self@.dom().len(),
            self@.dom().finite(),
    {
        proof {
            use_type_invariant(self);
            lemma_entry_count(self.entries@);
        }
        self.entries.len()
    }

    /// Whether the table has no entry.
    pub fn is_empty(&self) -> (r: bool)
        ensures
            r == (self.keys().len() == 0),
    {
        self.entries.len() == 0
    }

    /// Position of the entry under `key`.
    fn position(&self, key: &str) -> (r: Option<usize>)
        ensures
            match r {
                Some(k) => k < self.entries.len() && self.entries@[k as int].key@ == key@,
                None => forall|j: int|
                    0 <= j < self.entries.len() ==> #[trigger] self.entries@[j].key@ != key@,
            },
    {
        let mut i: usize = 0;
        while i < self.entries.len()
            invariant
                i <= self.entries.len(),
                forall|j: int| 0 <= j < i ==> #[trigger] self.entries@[j].key@ != key@,
            decreases self.entries.len() - i,
        {
            if crate::text::str_eq(self.entries[i].key.as_str(), key) {
                return Some(i);
            }
            i += 1;
        }
        None
    }

    /// The value under `key`, if there is one.
    pub fn get(&self, key: &str) -> (r: Option<&V>)
        ensures
            match r {
                Some(v) => self@.dom().contains(key@) && self@[key@] == *v,
                None => !self@.dom().contains(key@),
            },
    {
        proof {
            use_type_invariant(self);
        }
        match self.position(key) {
            Some(k) => {
                proof {
                    lemma_entry_at(self.entries@, k as int);
                }
                Some(&self.entries[k].value)
            },
            None => {
                proof {
                    lemma_no_entry(self.entries@, key@);
                }
                None
            },
        }
    }

    /// Whether there is a value under `key`.
    pub fn contains_key(&self, key: &str) -> (r: bool)
        ensures
            r == self@.dom().contains(key@),
    {
        self.get(key).is_some()
    }

    /// The key at position `i`, in order of first insertion.
    pub fn key_at(&self, i: usize) -> (r: &String)
        requires
            i < self.keys().len(),
        ensures
            r@ == self.keys()[i as int],
    {
        &self.entries[i].key
    }

    /// The value at position `i`, in the order of the keys.
    pub fn value_at(&self, i: usize) -> (r: &V)
        requires
            i < self.keys().len(),
        ensures
            *r == self.values()[i as int],
    {
        &self.entries[i].value
    }

    /// Puts `value` under `key`, replacing what was there.
    pub fn insert(&mut self, key: String, value: V)
        ensures
            final(self)@ == old(self)@.insert(key@, value),
            old(self)@.dom().contains(key@) ==> final(self).keys() == old(self).keys(),
            !old(self)@.dom().contains(key@) ==> final(self).keys() == old(self).keys().push(key@),
    {
        proof {
            use_type_invariant(&*self);
        }
        let at = self.position(key.as_str());
        let mut taken = Table::new();
        core::mem::swap(self, &mut taken);
        let mut entries = taken.entries;
        let ghost before = entries@;
        let entry = Entry { key, value };
        match at {
            Some(k) => {
                proof {
                    lemma_update_is_insert(before, k as int, entry);
                    lemma_entry_at(before, k as int);
                }
                entries.set(k, entry);
            },
            None => {
                proof {
                    let after = before.push(entry);
                    assert(after.drop_last() =~= before);
                    assert(keys_of(after) =~= keys_of(before).push(entry.key@));
                    lemma_no_entry(before, entry.key@);
                    assert forall|i: int, j: int|
                        0 <= i < after.len() && 0 <= j < after.len() && i != j implies keys_of(
                        after,
                    )[i] != keys_of(after)[j] by {
                        if i < before.len() && j < before.len() {
                            assert(keys_of(before)[i] != keys_of(before)[j]);
                        }
                    }
                }
                entries.push(entry);
            },
        }
        *self = Table { entries };
    }

    /// Takes out the value under `key`, if there is one.
    pub fn remove(&mut self, key: &str) -> (r: Option<V>)
        ensures
            final(self)@ == old(self)@.remove(key@),
            match r {
                Some(v) => old(self)@.dom().contains(key@) && old(self)@[key@] == v,
                None => !old(self)@.dom().contains(key@),
            },
    {
        proof {
            use_type_invariant(&*self);
        }
        let at = self.position(key);
        let mut taken = Table::new();
        core::mem::swap(self, &mut taken);
        let mut entries = taken.entries;
        let ghost before = entries@;
        let r = match at {
            Some(k) => {
                proof {
                    lemma_remove_is_remove(before, k as int);
                    lemma_entry_at(before, k as int);
                }
                let e = entries.remove(k);
                Some(e.value)
            },
            None => {
                proof {
                    lemma_no_entry(before, key@);
                    assert(entry_map(before).remove(key@) =~= entry_map(before));
                }
                None
            },
        };
        *self = Table { entries };
        r
    }
}

} // verus!
