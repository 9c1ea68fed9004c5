//! A small key/value table: the in-memory image of a family of ledger entries.

use vstd::prelude::*;

use crate::types::{Address, UserMarketKey};

verus! {

/// A key that can be compared for equality.
pub trait Key: Copy {
    fn same(&self, other: &Self) -> (same: bool)
        ensures
            same == (*self == *other),
    ;
}

impl Key for u32 {
    fn same(&self, other: &Self) -> (same: bool) {
        *self == *other
    }
}

impl Key for Address {
    fn same(&self, other: &Self) -> (same: bool) {
        *self == *other
    }
}

impl Key for UserMarketKey {
    fn same(&self, other: &Self) -> (same: bool) {
        *self == *other
    }
}

/// A finite map from keys to values.
#[verifier::reject_recursive_types(K)]
#[derive(Debug)]
pub struct Table<K, V> {
    entries: Vec<(K, V)>,
}

/// The map that a list of entries stands for: a later entry shadows an earlier one.
pub closed spec fn entries_map<K, V: View>(entries: Seq<(K, V)>) -> Map<K, V::V>
    decreases entries.len(),
{
    if entries.len() == 0 {
        Map::empty()
    } else {
        entries_map(entries.drop_last()).insert(entries.last().0, entries.last().1@)
    }
}

/// Lookup by position: what the last entry with a key says is what the map says.
proof fn lemma_last_entry<K, V: View>(entries: Seq<(K, V)>, i: int)
    requires
        0 <= i < entries.len(),
        forall|j: int| i < j < entries.len() ==> (#[trigger] entries[j]).0 != entries[i].0,
    ensures
        entries_map(entries).contains_key(entries[i].0),
        entries_map(entries)[entries[i].0] == entries[i].1@,
    decreases entries.len(),
{
    if i < entries.len() - 1 {
        assert(entries.drop_last()[i] == entries[i]);
        assert(entries.last() == entries[entries.len() - 1]);
        lemma_last_entry(entries.drop_last(), i);
    }
}

/// A key that no entry carries is not in the map.
proof fn lemma_no_entry<K, V: View>(entries: Seq<(K, V)>, key: K)
    requires
        forall|j: int| 0 <= j < entries.len() ==> (#[trigger] entries[j]).0 != key,
    ensures
        !entries_map(entries).contains_key(key),
    decreases entries.len(),
{
    if entries.len() > 0 {
        assert(entries.last() == entries[entries.len() - 1]);
        assert forall|j: int| 0 <= j < entries.len() - 1 implies (
        #[trigger] entries.drop_last()[j]).0 != key by {
            assert(entries.drop_last()[j] == entries[j]);
        }
        lemma_no_entry(entries.drop_last(), key);
    }
}

impl<K, V: View> View for Table<K, V> {
    type V = Map<K, V::V>;

    closed spec fn view(&self) -> Map<K, V::V> {
        entries_map(self.entries@)
    }
}

impl<K: Key, V: View> Table<K, V> {
    /// The empty table.
    pub fn new() -> (table: Self)
        ensures
            table@ == Map::<K, V::V>::empty(),
    {
        Table { entries: Vec::new() }
    }

    /// The value under `key`, if there is one.
    pub fn get(&self, key: K) -> (value: Option<&V>)
        ensures
            match value {
                Some(v) => self@.contains_key(key) && v@ == self@[key],
                None => !self@.contains_key(key),
            },
    {
        let mut i: usize = self.entries.len();
        while i > 0
            invariant
                i <= self.entries.len(),
                forall|j: int| i <= j < self.entries.len() ==> (#[trigger] self.entries@[j]).0 != key,
            decreases i,
        {
            i = i - 1;
            if self.entries[i].0.same(&key) {
                proof {
                    lemma_last_entry(self.entries@, i as int);
                }
                return Some(&self.entries[i].1);
            }
        }
        proof {
            lemma_no_entry(self.entries@, key);
        }
        None
    }

    /// Puts `value` under `key`, in place of what was there.
    pub fn set(&mut self, key: K, value: V)
        ensures
            final(self)@ == old(self)@.insert(key, value@),
    {
        self.remove(key);
        let ghost others = self.entries@;
        self.entries.push((key, value));
        proof {
            assert(self.entries@.drop_last() =~= others);
            assert(self@ =~= old(self)@.insert(key, value@));
        }
    }

    /// Takes `key` out, if it is there.
    pub fn remove(&mut self, key: K)
        ensures
            final(self)@ == old(self)@.remove(key),
    {
        let mut i: usize = 0;
        while i < self.entries.len()
            invariant
                i <= self.entries.len(),
                entries_map(self.entries@).remove(key) == old(self)@.remove(key),
                forall|j: int| 0 <= j < i ==> (#[trigger] self.entries@[j]).0 != key,
            decreases self.entries.len() - i,
        {
            if self.entries[i].0.same(&key) {
                proof {
                    lemma_drop_entry(self.entries@, i as int);
                }
                self.entries.remove(i);
            } else {
                i = i + 1;
            }
        }
        proof {
            lemma_no_entry(self.entries@, key);
            assert(entries_map(self.entries@) =~= entries_map(self.entries@).remove(key));
        }
    }
}

/// Dropping an entry changes the map at most at that entry's key.
proof fn lemma_drop_entry<K, V: View>(entries: Seq<(K, V)>, i: int)
    requires
        0 <= i < entries.len(),
    ensures
        entries_map(entries.remove(i)).remove(entries[i].0) == entries_map(entries).remove(
            entries[i].0,
        ),
    decreases entries.len(),
{
    let key = entries[i].0;
    if i == entries.len() - 1 {
        assert(entries.remove(i) =~= entries.drop_last());
        assert(entries_map(entries.remove(i)).remove(key) =~= entries_map(entries).remove(key));
    } else {
        let rest = entries.drop_last();
        assert(rest[i] == entries[i]);
        lemma_drop_entry(rest, i);
        assert(entries.remove(i).drop_last() =~= rest.remove(i));
        assert(entries.remove(i).last() == entries.last());
        let last = entries.last();
        assert(entries_map(entries.remove(i)) == entries_map(rest.remove(i)).insert(
            last.0,
            last.1@,
        ));
        let a = entries_map(rest.remove(i));
        let b = entries_map(rest);
        assert(a.remove(key) == b.remove(key));
        assert(a.remove(key).insert(last.0, last.1@).remove(key) =~= a.insert(
            last.0,
            last.1@,
        ).remove(key));
        assert(b.remove(key).insert(last.0, last.1@).remove(key) =~= b.insert(
            last.0,
            last.1@,
        ).remove(key));
    }
}

} // verus!
