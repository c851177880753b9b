//! The state that the engine keeps between queries: colors, revision, cache
//! and objects.

use vstd::prelude::*;
use crate::cache::QueryCache;
use crate::color::Color;
use crate::key::{KeySpec, QueryKey};
use crate::object::Objects;
use crate::table::Table;

verus! {

/// For each query, the verdict of the cycle in which it was last judged.
pub struct ColorMap(Table<(Color, usize)>);

impl View for ColorMap {
    type V = Map<KeySpec, (Color, usize)>;

    closed spec fn view(&self) -> Map<KeySpec, (Color, usize)> {
        self.0.map()
    }
}

impl ColorMap {
    /// The map is in order.
    pub closed spec fn wf(&self) -> bool {
        self.0.wf()
    }

    /// A map without verdicts.
    pub fn new() -> (colors: Self)
        ensures
            colors.wf(),
            colors@ == Map::<KeySpec, (Color, usize)>::empty(),
    {
        ColorMap(Table::new())
    }

    /// Marks `key` as verified up to date in `revision`.
    pub fn mark_green(&mut self, key: &QueryKey, revision: usize)
        requires
            old(self).wf(),
        ensures
            final(self).wf(),
            final(self)@ == old(self)@.insert(key@, (Color::Green, revision)),
    {
        self.0.insert(key.clone(), (Color::Green, revision));
    }

    /// Marks `key` as stale or changed in `revision`.
    pub fn mark_red(&mut self, key: &QueryKey, revision: usize)
        requires
            old(self).wf(),
        ensures
            final(self).wf(),
            final(self)@ == old(self)@.insert(key@, (Color::Red, revision)),
    {
        self.0.insert(key.clone(), (Color::Red, revision));
    }

    /// The verdict on `key` and the revision it was given in, if `key` has one.
    pub fn get(&self, key: &QueryKey) -> (verdict: Option<(Color, usize)>)
        requires
            self.wf(),
        ensures
            verdict == (if self@.contains_key(key@) {
                Some(self@[key@])
            } else {
                None
            }),
    {
        match self.0.get(key) {
            Some(verdict) => Some(*verdict),
            None => None,
        }
    }
}

/// Colors, revision, cache and objects: what queries read and write.
pub struct Database {
    pub colors: ColorMap,
    pub revision: usize,
    pub cache: QueryCache,
    pub objects: Objects,
}

impl Database {
    /// Every part is in order.
    pub open spec fn wf(&self) -> bool {
        &&& self.colors.wf()
        &&& self.cache.wf()
        &&& self.objects.wf()
    }

    /// A database that has seen nothing, at revision 0.
    pub fn new() -> (db: Self)
        ensures
            db.wf(),
            db.colors@ == Map::<KeySpec, (Color, usize)>::empty(),
            db.cache@ == Map::<KeySpec, crate::output::OutputSpec>::empty(),
            db.objects@ == Map::<Seq<u8>, Seq<u8>>::empty(),
            db.revision == 0,
    {
        Database { colors: ColorMap::new(), revision: 0, cache: QueryCache::new(), objects: Objects::new() }
    }
}

} // verus!
