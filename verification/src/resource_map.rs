//! A map from resource keys to shared values that remembers the order of insertion.

use crate::key::ResourceKey;
use crate::text::same_text;
use std::sync::Arc;
use vstd::prelude::*;

verus! {

/// Resources by key. Keys are distinct and kept in the order of their first insertion.
pub struct ResourceMap<V> {
    entries: Vec<(ResourceKey, Arc<V>)>,
}

/// The keys of a list of entries.
spec fn keys_of<V>(entries: Seq<(ResourceKey, Arc<V>)>) -> Seq<Seq<char>> {
    entries.map_values(|entry: (ResourceKey, Arc<V>)| entry.0@)
}

/// The texts of a list of keys.
pub open spec fn key_texts(keys: Seq<ResourceKey>) -> Seq<Seq<char>> {
    keys.map_values(|key: ResourceKey| key@)
}

impl<V: View> View for ResourceMap<V> {
    type V = Map<Seq<char>, V::V>;

    closed spec fn view(&self) -> Map<Seq<char>, V::V> {
        Map::new(
            |key: Seq<char>| self.keys().contains(key),
            |key: Seq<char>| self.entries@[self.keys().index_of(key)].1@,
        )
    }
}

impl<V> ResourceMap<V> {
    #[verifier::type_invariant]
    closed spec fn well_formed(self) -> bool {
        keys_of(self.entries@).no_duplicates()
    }

    /// The keys, in the order of their first insertion.
    pub closed spec fn keys(self) -> Seq<Seq<char>> {
        keys_of(self.entries@)
    }
}

/// The keys of a map are the keys of its entries.
pub proof fn map_keys<V: View>(map: ResourceMap<V>)
    ensures
        forall|key: Seq<char>| #[trigger] map@.contains_key(key) <==> map.keys().contains(key),
{
}

impl<V: View> ResourceMap<V> {
    /// A map without entries.
    pub fn new() -> (map: ResourceMap<V>)
        ensures
            map@ == Map::<Seq<char>, V::V>::empty(),
            map.keys() == Seq::<Seq<char>>::empty(),
    {
        let map = ResourceMap { entries: Vec::new() };
        assert(map.keys() =~= Seq::<Seq<char>>::empty());
        assert(map@ =~= Map::<Seq<char>, V::V>::empty());
        map
    }

    /// The number of entries.
    pub fn len(&self) -> (count: usize)
        ensures
            count == self.keys().len(),
            count == self@.len(),
            self.keys().no_duplicates(),
            self.keys().to_set() == self@.dom(),
    {
        proof {
            use_type_invariant(self);
            assert(self.keys().to_set() =~= self@.dom());
            self.keys().unique_seq_to_set();
        }
        self.entries.len()
    }

    /// The entry at a position in the order of insertion.
    pub fn entry(&self, position: usize) -> (entry: (&ResourceKey, &Arc<V>))
        requires
            position < self.keys().len(),
        ensures
            entry.0@ == self.keys()[position as int],
            self@.contains_key(entry.0@),
            entry.1@ == self@[entry.0@],
    {
        proof {
            use_type_invariant(self);
            let key = self.keys()[position as int];
            assert(self.keys().contains(key));
            assert(self.keys().index_of(key) == position);
        }
        (&self.entries[position].0, &self.entries[position].1)
    }

    fn position(&self, key: &ResourceKey) -> (position: Option<usize>)
        ensures
            match position {
                Some(position) => {
                    &&& position < self.entries@.len()
                    &&& self.keys()[position as int] == key@
                    &&& self.keys().contains(key@)
                    &&& self.keys().index_of(key@) == position
                },
                None => !self.keys().contains(key@),
            },
    {
        proof {
            use_type_invariant(self);
        }
        for i in 0..self.entries.len()
            invariant
                self.keys().no_duplicates(),
                forall|j: int| 0 <= j < i ==> self.keys()[j] != key@,
        {
            if same_text(self.entries[i].0.as_str(), key.as_str()) {
                assert(self.keys()[i as int] == key@);
                return Some(i);
            }
        }
        None
    }

    /// The value under `key`.
    pub fn get(&self, key: &ResourceKey) -> (value: Option<&Arc<V>>)
        ensures
            match value {
                Some(value) => self@.contains_key(key@) && self@[key@] == value@,
                None => !self@.contains_key(key@),
            },
    {
        match self.position(key) {
            Some(position) => Some(&self.entries[position].1),
            None => None,
        }
    }

    /// Whether there is a value under `key`.
    pub fn contains_key(&self, key: &ResourceKey) -> (found: bool)
        ensures
            found == self@.contains_key(key@),
    {
        self.position(key).is_some()
    }

    /// Puts `value` under `key`, in place of what was there.
    pub fn insert(&mut self, key: ResourceKey, value: Arc<V>)
        ensures
            final(self)@ == old(self)@.insert(key@, value@),
            final(self).keys() == (if old(self)@.contains_key(key@) {
                old(self).keys()
            } else {
                old(self).keys().push(key@)
            }),
    {
        proof {
            use_type_invariant(&*self);
        }
        let position: Option<usize> = self.position(&key);
        let ghost before = *self;
        let mut entries: Vec<(ResourceKey, Arc<V>)> = Vec::new();
        std::mem::swap(&mut entries, &mut self.entries);
        match position {
            Some(position) => {
                entries[position] = (key, value);
                assert(keys_of(entries@) =~= before.keys());
            },
            None => {
                entries.push((key, value));
                assert(keys_of(entries@) =~= before.keys().push(key@));
            },
        }
        self.entries = entries;
        proof {
            let inserted = before@.insert(key@, value@);
            assert forall|k: Seq<char>| self.keys().contains(k) <==> (before.keys().contains(k) || k
                == key@) by {
                if before.keys().contains(k) {
                    assert(self.keys()[before.keys().index_of(k)] == k);
                }
                if position is None {
                    assert(self.keys()[before.keys().len() as int] == key@);
                }
            }
            assert forall|k: Seq<char>| #[trigger] inserted.contains_key(k) implies self@[k]
                == inserted[k] by {
                let i = self.keys().index_of(k);
                assert(self.keys()[i] == k);
                if k != key@ {
                    let j = before.keys().index_of(k);
                    assert(before.keys()[j] == k);
                    assert(self.keys()[j] == k);
                }
            }
            assert(self@ =~= inserted);
        }
    }
}

impl<V: View> ResourceMap<V> {
    /// Takes over the entries of `later` whose keys are still free, and returns the keys that
    /// were not, in the order of `later`.
    pub fn absorb(&mut self, later: &ResourceMap<V>) -> (taken: Vec<ResourceKey>)
        ensures
            final(self)@ == later@.union_prefer_right(old(self)@),
            key_texts(taken@) == later.keys().filter(|key: Seq<char>| old(self)@.contains_key(key)),
    {
        let ghost before = *self;
        let ghost held = |key: Seq<char>| before@.contains_key(key);
        let ghost keys = later.keys();
        let mut taken: Vec<ResourceKey> = Vec::new();
        let count: usize = later.len();
        proof {
            assert(key_texts(taken@) =~= keys.take(0).filter(held)) by {
                reveal(Seq::filter);
            }
            assert(self@ =~= later@.restrict(keys.take(0).to_set()).union_prefer_right(before@));
        }
        for i in 0..count
            invariant
                count == keys.len(),
                keys == later.keys(),
                keys.no_duplicates(),
                keys.to_set() == later@.dom(),
                held == (|key: Seq<char>| before@.contains_key(key)),
                self@ == later@.restrict(keys.take(i as int).to_set()).union_prefer_right(before@),
                key_texts(taken@) == keys.take(i as int).filter(held),
        {
            let entry = later.entry(i);
            let ghost so_far = keys.take(i as int);
            let ghost current = self@;
            proof {
                assert(keys.take(i + 1) =~= so_far.push(keys[i as int]));
                assert(!so_far.contains(keys[i as int]));
                assert(keys.take(i + 1).drop_last() =~= so_far);
                assert(keys.take(i + 1).filter(held) == if held(keys[i as int]) {
                    so_far.filter(held).push(keys[i as int])
                } else {
                    so_far.filter(held)
                }) by {
                    reveal(Seq::filter);
                }
                assert forall|key: Seq<char>| keys.take(i + 1).to_set().contains(key)
                    <==> (so_far.to_set().contains(key) || key == keys[i as int]) by {
                    if so_far.contains(key) {
                        assert(keys.take(i + 1)[so_far.index_of(key)] == key);
                    }
                    assert(keys.take(i + 1)[i as int] == keys[i as int]);
                }
            }
            if self.contains_key(entry.0) {
                let ghost was = taken@;
                taken.push(entry.0.clone());
                assert(key_texts(taken@) =~= key_texts(was).push(keys[i as int]));
            } else {
                self.insert(entry.0.clone(), Arc::clone(entry.1));
            }
            assert(self@ =~= later@.restrict(keys.take(i + 1).to_set()).union_prefer_right(
                before@,
            ));
        }
        proof {
            assert(keys.take(count as int) =~= keys);
            assert(later@.restrict(keys.to_set()) =~= later@);
        }
        taken
    }
}

impl<V: View> Clone for ResourceMap<V> {
    fn clone(&self) -> (copy: ResourceMap<V>)
        ensures
            copy@ == self@,
            copy.keys() == self.keys(),
    {
        let mut entries: Vec<(ResourceKey, Arc<V>)> = Vec::new();
        for i in 0..self.entries.len()
            invariant
                entries@.len() == i,
                forall|j: int| 0 <= j < i ==> (#[trigger] entries@[j]).0@ == self.entries@[j].0@,
                forall|j: int| 0 <= j < i ==> (#[trigger] entries@[j]).1 == self.entries@[j].1,
        {
            let key = self.entries[i].0.clone();
            let value = Arc::clone(&self.entries[i].1);
            entries.push((key, value));
        }
        proof {
            use_type_invariant(self);
            assert(keys_of(entries@) =~= keys_of(self.entries@));
        }
        let copy = ResourceMap { entries };
        assert(copy@ =~= self@);
        copy
    }
}

} // verus!
