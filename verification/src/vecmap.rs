//! A small map that keeps its entries in a vector and finds them by the view
//! of their key.

use vstd::prelude::*;

verus! {

/// A key that can be told apart from another by its view.
pub trait Key: View + Sized {
    /// Whether `self` and `other` stand for the same key.
    fn same(&self, other: &Self) -> (r: bool)
        ensures
            r == (self@ == other@),
    ;
}

impl Key for String {
    fn same(&self, other: &Self) -> (r: bool) {
        *self == *other
    }
}

/// A map from keys to values in which no key occurs twice.
pub struct VecMap<K: Key, V> {
    entries: Vec<(K, V)>,
}

/// Whether some entry of `entries` has the key `k`.
pub open spec fn has_key<K: Key, V>(entries: Seq<(K, V)>, k: K::V) -> bool {
    exists|i: int| 0 <= i < entries.len() && (#[trigger] entries[i]).0@ == k
}

/// The place of an entry with the key `k`.
pub open spec fn place_of<K: Key, V>(entries: Seq<(K, V)>, k: K::V) -> int {
    choose|i: int| 0 <= i < entries.len() && (#[trigger] entries[i]).0@ == k
}

/// Whether no two entries of `entries` have the same key.
pub open spec fn distinct_keys<K: Key, V>(entries: Seq<(K, V)>) -> bool {
    forall|i: int, j: int|
        0 <= i < j < entries.len() ==> (#[trigger] entries[i]).0@ != (#[trigger] entries[j]).0@
}

/// The map that `entries` stand for.
pub open spec fn as_map<K: Key, V>(entries: Seq<(K, V)>) -> Map<K::V, V> {
    Map::new(|k: K::V| has_key(entries, k), |k: K::V| entries[place_of(entries, k)].1)
}

impl<K: Key, V> View for VecMap<K, V> {
    type V = Map<K::V, V>;

    closed spec fn view(&self) -> Map<K::V, V> {
        as_map(self.entries@)
    }
}

impl<K: Key, V> VecMap<K, V> {
    #[verifier::type_invariant]
    spec fn inv(self) -> bool {
        distinct_keys(self.entries@)
    }

    /// An empty map.
    pub fn new() -> (m: Self)
        ensures
            m@ == Map::<K::V, V>::empty(),
    {
        let m = VecMap { entries: Vec::new() };
        assert(m@ =~= Map::<K::V, V>::empty());
        m
    }

    /// The place of `key` among the entries, if it is there.
    fn find(&self, key: &K) -> (at: Option<usize>)
        ensures
            match at {
                Some(i) => i < self.entries.len() && self.entries[i as int].0@ == key@,
                None => !has_key(self.entries@, key@),
            },
    {
        let mut i: usize = 0;
        while i < self.entries.len()
            invariant
                i <= self.entries.len(),
                forall|j: int| 0 <= j < i ==> (#[trigger] self.entries[j]).0@ != key@,
            decreases self.entries.len() - i,
        {
            if self.entries[i].0.same(key) {
                return Some(i);
            }
            i += 1;
        }
        None
    }

    /// Whether `key` has a value.
    pub fn contains_key(&self, key: &K) -> (r: bool)
        ensures
            r == self@.contains_key(key@),
    {
        self.find(key).is_some()
    }

    /// The value of `key`, if it has one.
    pub fn get(&self, key: &K) -> (r: Option<&V>)
        ensures
            match r {
                Some(v) => self@.contains_key(key@) && *v == self@[key@],
                None => !self@.contains_key(key@),
            },
    {
        proof {
            use_type_invariant(self);
        }
        match self.find(key) {
            Some(i) => {
                assert(self.entries@[i as int].0@ == key@);
                assert(place_of(self.entries@, key@) == i);
                Some(&self.entries[i].1)
            },
            None => None,
        }
    }

    /// Gives `key` the value `value`, in place of the one it had, if any.
    pub fn insert(&mut self, key: K, value: V)
        ensures
            final(self)@ == old(self)@.insert(key@, value),
    {
        proof {
            use_type_invariant(&*self);
        }
        let ghost before = self.entries@;
        let found = self.find(&key);
        let mut entries: Vec<(K, V)> = Vec::new();
        core::mem::swap(&mut self.entries, &mut entries);
        match found {
            Some(i) => {
                entries[i] = (key, value);
                proof {
                    let after = entries@;
                    assert(distinct_keys(after));
                    assert forall|k: K::V| has_key(after, k) == (has_key(before, k) || k == key@) by {
                        if has_key(before, k) {
                            let j = place_of(before, k);
                            assert(after[j].0@ == k);
                        }
                        if k == key@ {
                            assert(after[i as int].0@ == k);
                        }
                        if has_key(after, k) {
                            let j = place_of(after, k);
                            assert(before[j].0@ == k);
                        }
                    }
                    assert forall|k: K::V| has_key(after, k) implies as_map(after)[k] == (
                    if k == key@ {
                        value
                    } else {
                        as_map(before)[k]
                    }) by {
                        let j = place_of(after, k);
                        if k == key@ {
                            assert(j == i);
                        } else {
                            assert(before[j].0@ == k);
                            assert(place_of(before, k) == j);
                        }
                    }
                    assert(as_map(after) =~= as_map(before).insert(key@, value));
                }
            },
            None => {
                entries.push((key, value));
                proof {
                    let after = entries@;
                    let n = before.len() as int;
                    assert(distinct_keys(after)) by {
                        assert forall|i: int, j: int| 0 <= i < j < after.len() implies (
                        #[trigger] after[i]).0@ != (#[trigger] after[j]).0@ by {
                            if j < n {
                                assert(before[i].0@ != before[j].0@);
                            } else {
                                assert(before[i].0@ != key@);
                            }
                        }
                    }
                    assert forall|k: K::V| has_key(after, k) == (has_key(before, k) || k == key@) by {
                        if has_key(before, k) {
                            let j = place_of(before, k);
                            assert(after[j].0@ == k);
                        }
                        if k == key@ {
                            assert(after[n].0@ == k);
                        }
                        if has_key(after, k) {
                            let j = place_of(after, k);
                            if j < n {
                                assert(before[j].0@ == k);
                            }
                        }
                    }
                    assert forall|k: K::V| has_key(after, k) implies as_map(after)[k] == (
                    if k == key@ {
                        value
                    } else {
                        as_map(before)[k]
                    }) by {
                        let j = place_of(after, k);
                        if k == key@ {
                            assert(after[n].0@ == k);
                            assert(j == n);
                        } else {
                            assert(before[j].0@ == k);
                            assert(place_of(before, k) == j);
                        }
                    }
                    assert(as_map(after) =~= as_map(before).insert(key@, value));
                }
            },
        }
        core::mem::swap(&mut self.entries, &mut entries);
    }
}

} // verus!
