//! A map from query keys to values: a hash index into an arena.
//!
//! The index is a `DashMap` from each key to its slot. Keys and values stand in
//! two vectors, slot by slot, in the order in which the keys first arrived, so
//! that a walk over the table has one order, whatever the hasher does.

use vstd::prelude::*;
use dashmap::DashMap;
use crate::key::{KeySpec, QueryKey};

verus! {

/// The slot that each key has in an index, as the map holds it.
pub uninterp spec fn key_slots(index: DashMap<QueryKey, usize>) -> Map<KeySpec, usize>;

/// Calls `DashMap::new`. Trusted: the new map holds nothing.
#[verifier::external_body]
pub(crate) fn slots_new() -> (fresh: DashMap<QueryKey, usize>)
    ensures
        key_slots(fresh) == (Map::<KeySpec, usize>::empty()),
{
    DashMap::new()
}

/// Calls `DashMap::insert`. Trusted: afterwards the map holds `slot` under
/// `key`, and under every other key what it held before. Keys are told apart
/// by their views: the derived `Eq` and `Hash` of a key go by its fields.
#[verifier::external_body]
pub(crate) fn slots_insert(index: &mut DashMap<QueryKey, usize>, key: QueryKey, slot: usize)
    ensures
        key_slots(*final(index)) == key_slots(*old(index)).insert(key@, slot),
{
    index.insert(key, slot);
}

/// Calls `DashMap::get`. Trusted: the result is the slot held under `key`, and
/// `None` where the map holds none.
#[verifier::external_body]
pub(crate) fn slots_get(index: &DashMap<QueryKey, usize>, key: &QueryKey) -> (slot: Option<usize>)
    ensures
        slot == (if key_slots(*index).contains_key(key@) {
            Some(key_slots(*index)[key@])
        } else {
            None
        }),
{
    index.get(key).map(|entry| *entry.value())
}

/// A map from keys to values of type `V`.
pub struct Table<V> {
    index: DashMap<QueryKey, usize>,
    keys: Vec<QueryKey>,
    values: Vec<V>,
}

impl<V> Table<V> {
    /// The index and the two vectors agree.
    pub closed spec fn wf(&self) -> bool {
        &&& self.keys@.len() == self.values@.len()
        &&& forall|key: KeySpec| #[trigger]
            key_slots(self.index).contains_key(key) ==> {
                &&& key_slots(self.index)[key] < self.keys@.len()
                &&& self.keys@[key_slots(self.index)[key] as int]@ == key
            }
        &&& forall|i: int|
            0 <= i < self.keys@.len() ==> {
                &&& key_slots(self.index).contains_key((#[trigger] self.keys@[i])@)
                &&& key_slots(self.index)[self.keys@[i]@] == i
            }
    }

    /// What the table holds under each key.
    pub closed spec fn map(&self) -> Map<KeySpec, V> {
        Map::new(
            |key: KeySpec| key_slots(self.index).contains_key(key),
            |key: KeySpec| self.values@[key_slots(self.index)[key] as int],
        )
    }

    /// The keys, in the order in which they first arrived.
    pub closed spec fn keys(&self) -> Seq<KeySpec> {
        Seq::new(self.keys@.len(), |i: int| self.keys@[i]@)
    }

    /// An empty table.
    pub fn new() -> (table: Self)
        ensures
            table.wf(),
            table.map() == Map::<KeySpec, V>::empty(),
            table.keys() == Seq::<KeySpec>::empty(),
    {
        let table = Table { index: slots_new(), keys: Vec::new(), values: Vec::new() };
        assert(table.map() =~= Map::<KeySpec, V>::empty());
        assert(table.keys() =~= Seq::<KeySpec>::empty());
        table
    }

    /// Puts `value` under `key`, in place of what stood there.
    pub fn insert(&mut self, key: QueryKey, value: V)
        requires
            old(self).wf(),
        ensures
            final(self).wf(),
            final(self).map() == old(self).map().insert(key@, value),
            final(self).keys() == (if old(self).map().contains_key(key@) {
                old(self).keys()
            } else {
                old(self).keys().push(key@)
            }),
    {
        match slots_get(&self.index, &key) {
            Some(slot) => {
                self.values[slot] = value;
                assert(self.map() =~= old(self).map().insert(key@, value));
                assert(self.keys() =~= old(self).keys());
            },
            None => {
                let slot = self.keys.len();
                let ghost spec_key = key@;
                slots_insert(&mut self.index, key.clone(), slot);
                self.keys.push(key);
                self.values.push(value);
                assert(self.map() =~= old(self).map().insert(spec_key, value));
                assert(self.keys() =~= old(self).keys().push(spec_key));
            },
        }
    }

    /// What stands under `key`, if anything does.
    pub fn get(&self, key: &QueryKey) -> (value: Option<&V>)
        requires
            self.wf(),
        ensures
            value == (if self.map().contains_key(key@) {
                Some(&self.map()[key@])
            } else {
                None
            }),
    {
        match slots_get(&self.index, key) {
            Some(slot) => Some(&self.values[slot]),
            None => None,
        }
    }

    /// How many keys the table holds.
    pub fn len(&self) -> (n: usize)
        requires
            self.wf(),
        ensures
            n == self.keys().len(),
    {
        self.keys.len()
    }

    /// The key that arrived as number `i`.
    pub fn key_at(&self, i: usize) -> (key: &QueryKey)
        requires
            self.wf(),
            i < self.keys().len(),
        ensures
            key@ == self.keys()[i as int],
    {
        &self.keys[i]
    }

    /// The keys of the table are its domain, each once.
    pub proof fn lemma_keys(&self)
        requires
            self.wf(),
        ensures
            forall|i: int| 0 <= i < self.keys().len() ==> self.map().contains_key(#[trigger] self.keys()[i]),
            forall|key: KeySpec| #[trigger]
                self.map().contains_key(key) ==> self.keys().contains(key),
            self.keys().no_duplicates(),
    {
        assert forall|key: KeySpec| #[trigger] self.map().contains_key(key) implies self.keys().contains(
            key,
        ) by {
            let i = key_slots(self.index)[key] as int;
            assert(self.keys()[i] == key);
        }
        assert forall|i: int, j: int|
            0 <= i < self.keys().len() && 0 <= j < self.keys().len() && i != j implies self.keys()[i]
            != self.keys()[j] by {
            assert(key_slots(self.index)[self.keys@[i]@] == i);
            assert(key_slots(self.index)[self.keys@[j]@] == j);
        }
    }
}

} // verus!
