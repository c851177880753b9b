//! The cache: for each query that has run, the output that it last returned.

use vstd::prelude::*;
use crate::key::{KeySpec, QueryKey};
use crate::output::{output_encoding, output_fits, AnyOutput, OutputSpec};
use crate::table::Table;
use crate::to_hash::{hash_eq, sha256, ToHash};

verus! {

/// The digest of an output.
pub open spec fn output_digest(output: OutputSpec) -> Seq<u8> {
    sha256(output_encoding(output))
}

/// The outputs of all kinds of query, each under its key.
pub struct QueryCache {
    table: Table<AnyOutput>,
}

impl View for QueryCache {
    type V = Map<KeySpec, OutputSpec>;

    closed spec fn view(&self) -> Map<KeySpec, OutputSpec> {
        Map::new(
            |key: KeySpec| self.table.map().contains_key(key),
            |key: KeySpec| self.table.map()[key]@,
        )
    }
}

impl QueryCache {
    /// Every output is of the type that its key's kind returns.
    pub closed spec fn wf(&self) -> bool {
        &&& self.table.wf()
        &&& forall|key: KeySpec| #[trigger]
            self.table.map().contains_key(key) ==> output_fits(key, self.table.map()[key]@)
    }

    /// The keys, in the order in which they first arrived.
    pub closed spec fn keys(&self) -> Seq<KeySpec> {
        self.table.keys()
    }

    /// An empty cache.
    pub fn new() -> (cache: Self)
        ensures
            cache.wf(),
            cache@ == Map::<KeySpec, OutputSpec>::empty(),
            cache.keys() == Seq::<KeySpec>::empty(),
    {
        let cache = QueryCache { table: Table::new() };
        assert(cache@ =~= Map::<KeySpec, OutputSpec>::empty());
        cache
    }

    /// Puts `value` under `key` and says whether that changed the output: true
    /// where there was an output before and its digest differs from the new
    /// one's, false where the digests agree or there was none.
    pub fn insert(&mut self, key: QueryKey, value: AnyOutput) -> (changed: bool)
        requires
            old(self).wf(),
            output_fits(key@, value@),
        ensures
            final(self).wf(),
            final(self)@ == old(self)@.insert(key@, value@),
            changed == (old(self)@.contains_key(key@) && output_digest(old(self)@[key@])
                != output_digest(value@)),
            final(self).keys() == (if old(self)@.contains_key(key@) {
                old(self).keys()
            } else {
                old(self).keys().push(key@)
            }),
    {
        let digest = value.to_hash();
        let changed = match self.table.get(&key) {
            Some(previous) => {
                let before = previous.to_hash();
                !hash_eq(&before, &digest)
            },
            None => false,
        };
        self.table.insert(key, value);
        assert(self@ =~= old(self)@.insert(key@, value@));
        changed
    }

    /// A copy of the output under `key`, if there is one.
    pub fn get(&self, key: &QueryKey) -> (output: Option<AnyOutput>)
        requires
            self.wf(),
        ensures
            output.is_some() == self@.contains_key(key@),
            output matches Some(value) ==> value@ == self@[key@],
    {
        match self.table.get(key) {
            Some(value) => Some(value.clone()),
            None => None,
        }
    }

    /// Whether the cache holds an output under `key`.
    pub fn contains(&self, key: &QueryKey) -> (held: bool)
        requires
            self.wf(),
        ensures
            held == self@.contains_key(key@),
    {
        self.table.get(key).is_some()
    }

    /// The keys that the cache holds, in the order in which they first arrived.
    pub fn iter_keys(&self) -> (keys: Vec<QueryKey>)
        requires
            self.wf(),
        ensures
            keys@.len() == self.keys().len(),
            forall|i: int| 0 <= i < keys@.len() ==> (#[trigger] keys@[i])@ == self.keys()[i],
    {
        let mut keys: Vec<QueryKey> = Vec::new();
        let mut i: usize = 0;
        while i < self.table.len()
            invariant
                self.table.wf(),
                i <= self.table.keys().len(),
                keys@.len() == i,
                forall|j: int| 0 <= j < i ==> (#[trigger] keys@[j])@ == self.table.keys()[j],
            decreases self.table.keys().len() - i,
        {
            keys.push(self.table.key_at(i).clone());
            i += 1;
        }
        keys
    }

    /// The keys of the cache are the keys under which it holds an output,
    /// each once.
    pub proof fn lemma_keys(&self)
        requires
            self.wf(),
        ensures
            forall|i: int| 0 <= i < self.keys().len() ==> self@.contains_key(#[trigger] self.keys()[i]),
            forall|key: KeySpec| #[trigger] self@.contains_key(key) ==> self.keys().contains(key),
            self.keys().no_duplicates(),
    {
        self.table.lemma_keys();
    }

    /// Every output in the cache is of the type that its key's kind returns.
    pub proof fn lemma_outputs_fit(&self, key: KeySpec)
        requires
            self.wf(),
            self@.contains_key(key),
        ensures
            output_fits(key, self@[key]),
    {
    }
}

} // verus!
