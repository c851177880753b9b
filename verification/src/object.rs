//! Content-addressed storage: every blob is kept once, under its SHA-256.

use vstd::prelude::*;
use vstd::string::*;
use dashmap::DashMap;
use crate::to_hash::{hash_eq, sha256, tag, Hasher, ToHash};

verus! {

/// A digest that stands for content in the store.
#[derive(Hash, PartialEq, Eq, Debug)]
pub struct Object(crate::to_hash::Hash);

impl View for Object {
    type V = Seq<u8>;

    closed spec fn view(&self) -> Seq<u8> {
        self.0@
    }
}

impl Clone for Object {
    fn clone(&self) -> (copy: Self)
        ensures
            copy@ == self@,
    {
        Object(self.0)
    }
}

/// The lower-case hexadecimal digit for `n`, which is below 16.
pub open spec fn hex_digit(n: int) -> char {
    if n == 0 {
        '0'
    } else if n == 1 {
        '1'
    } else if n == 2 {
        '2'
    } else if n == 3 {
        '3'
    } else if n == 4 {
        '4'
    } else if n == 5 {
        '5'
    } else if n == 6 {
        '6'
    } else if n == 7 {
        '7'
    } else if n == 8 {
        '8'
    } else if n == 9 {
        '9'
    } else if n == 10 {
        'a'
    } else if n == 11 {
        'b'
    } else if n == 12 {
        'c'
    } else if n == 13 {
        'd'
    } else if n == 14 {
        'e'
    } else {
        'f'
    }
}

/// `bytes` in lower-case hexadecimal: two digits for each byte, the high one first.
pub open spec fn hex_text(bytes: Seq<u8>) -> Seq<char> {
    Seq::new(
        2 * bytes.len(),
        |i: int| if i % 2 == 0 { hex_digit(bytes[i / 2] as int / 16) } else { hex_digit(bytes[i / 2] as int % 16) },
    )
}

/// The digit for `n`, which is below 16, as a text of one character.
pub fn hex_digit_text(n: u8) -> (s: &'static str)
    requires
        n < 16,
    ensures
        s@ == seq![hex_digit(n as int)],
{
    proof {
        reveal_strlit("0");
        reveal_strlit("1");
        reveal_strlit("2");
        reveal_strlit("3");
        reveal_strlit("4");
        reveal_strlit("5");
        reveal_strlit("6");
        reveal_strlit("7");
        reveal_strlit("8");
        reveal_strlit("9");
        reveal_strlit("a");
        reveal_strlit("b");
        reveal_strlit("c");
        reveal_strlit("d");
        reveal_strlit("e");
        reveal_strlit("f");
    }
    let s = match n {
        0 => "0",
        1 => "1",
        2 => "2",
        3 => "3",
        4 => "4",
        5 => "5",
        6 => "6",
        7 => "7",
        8 => "8",
        9 => "9",
        10 => "a",
        11 => "b",
        12 => "c",
        13 => "d",
        14 => "e",
        _ => "f",
    };
    assert(s@ =~= seq![hex_digit(n as int)]);
    s
}

/// `bytes` written out in lower-case hexadecimal.
pub fn to_hex(bytes: &[u8]) -> (text: String)
    ensures
        text@ == hex_text(bytes@),
{
    let mut text = String::new();
    let mut i: usize = 0;
    while i < bytes.len()
        invariant
            i <= bytes.len(),
            text@ == hex_text(bytes@.subrange(0, i as int)),
        decreases bytes.len() - i,
    {
        let byte = bytes[i];
        text.append(hex_digit_text(byte / 16));
        text.append(hex_digit_text(byte % 16));
        assert(text@ =~= hex_text(bytes@.subrange(0, i + 1)));
        i += 1;
    }
    assert(bytes@.subrange(0, bytes.len() as int) =~= bytes@);
    text
}

impl Object {
    /// The object that `hash` names. Nothing is looked up: whether the store
    /// holds content under that digest is for the store to say.
    pub fn from_hash(hash: crate::to_hash::Hash) -> (object: Self)
        ensures
            object@ == hash@,
    {
        Object(hash)
    }

    /// The digest that names this object.
    pub fn hash(&self) -> (hash: &crate::to_hash::Hash)
        ensures
            hash@ == self@,
    {
        &self.0
    }

    /// The digest in lower-case hexadecimal, 64 digits.
    pub fn to_string(&self) -> (text: String)
        ensures
            text@ == hex_text(self@),
    {
        to_hex(self.0.as_slice())
    }
}

impl ToHash for Object {
    open spec fn encoding(&self) -> Seq<u8> {
        tag("Object(") + self@ + tag(")")
    }

    fn run_hash(&self, hasher: &mut Hasher) {
        hasher.update_tag("Object(");
        hasher.update(self.0.as_slice());
        hasher.update_tag(")");
    }
}

/// The slot that each digest has in an index, as the map holds it.
pub uninterp spec fn object_slots(index: DashMap<crate::to_hash::Hash, usize>) -> Map<Seq<u8>, usize>;

/// Calls `DashMap::new`. Trusted: the new map holds nothing.
#[verifier::external_body]
fn index_new() -> (fresh: DashMap<crate::to_hash::Hash, usize>)
    ensures
        object_slots(fresh) == (Map::<Seq<u8>, usize>::empty()),
{
    DashMap::new()
}

/// Calls `DashMap::insert`. Trusted: afterwards the map holds `slot` under
/// `key`, and under every other key what it held before.
#[verifier::external_body]
fn index_insert(index: &mut DashMap<crate::to_hash::Hash, usize>, key: crate::to_hash::Hash, slot: usize)
    ensures
        object_slots(*final(index)) == object_slots(*old(index)).insert(key@, slot),
{
    index.insert(key, slot);
}

/// Calls `DashMap::get`. Trusted: the result is the slot held under `key`, and
/// `None` where the map holds none.
#[verifier::external_body]
fn index_get(index: &DashMap<crate::to_hash::Hash, usize>, key: &crate::to_hash::Hash) -> (slot: Option<usize>)
    ensures
        slot == (if object_slots(*index).contains_key(key@) {
            Some(object_slots(*index)[key@])
        } else {
            None
        }),
{
    index.get(key).map(|entry| *entry.value())
}

/// The store: each blob once, under the digest of its bytes.
pub struct Objects {
    index: DashMap<crate::to_hash::Hash, usize>,
    entries: Vec<(crate::to_hash::Hash, Vec<u8>)>,
}

impl View for Objects {
    type V = Map<Seq<u8>, Seq<u8>>;

    closed spec fn view(&self) -> Map<Seq<u8>, Seq<u8>> {
        Map::new(
            |digest: Seq<u8>| object_slots(self.index).contains_key(digest),
            |digest: Seq<u8>| self.entries@[object_slots(self.index)[digest] as int].1@,
        )
    }
}

impl Objects {
    /// The index and the entries agree, and every blob sits under its own digest.
    pub closed spec fn wf(&self) -> bool {
        &&& forall|digest: Seq<u8>| #[trigger]
            object_slots(self.index).contains_key(digest) ==> {
                &&& object_slots(self.index)[digest] < self.entries@.len()
                &&& self.entries@[object_slots(self.index)[digest] as int].0@ == digest
            }
        &&& forall|i: int|
            0 <= i < self.entries@.len() ==> {
                &&& object_slots(self.index).contains_key((#[trigger] self.entries@[i]).0@)
                &&& object_slots(self.index)[self.entries@[i].0@] == i
                &&& sha256(self.entries@[i].1@) == self.entries@[i].0@
            }
    }

    /// An empty store.
    pub fn new() -> (store: Self)
        ensures
            store.wf(),
            store@ == Map::<Seq<u8>, Seq<u8>>::empty(),
    {
        let store = Objects { index: index_new(), entries: Vec::new() };
        assert(store@ =~= Map::<Seq<u8>, Seq<u8>>::empty());
        store
    }

    /// Stores `contents` under `object` without hashing them again. The caller
    /// answers for the digest.
    pub fn store_raw(&mut self, object: Object, contents: Vec<u8>)
        requires
            old(self).wf(),
            sha256(contents@) == object@,
        ensures
            final(self).wf(),
            final(self)@ == old(self)@.insert(object@, contents@),
    {
        match index_get(&self.index, &object.0) {
            Some(slot) => {
                self.entries[slot] = (object.0, contents);
                assert(self@ =~= old(self)@.insert(object@, contents@));
            },
            None => {
                let slot = self.entries.len();
                self.entries.push((object.0, contents));
                index_insert(&mut self.index, object.0, slot);
                assert(self@ =~= old(self)@.insert(object@, contents@));
            },
        }
    }

    /// Stores `contents` under `object` if `object` is their digest, and says
    /// whether it did. Otherwise the store stays as it was.
    pub fn store_checked(&mut self, object: Object, contents: Vec<u8>) -> (stored: bool)
        requires
            old(self).wf(),
        ensures
            final(self).wf(),
            stored == (sha256(contents@) == object@),
            stored ==> final(self)@ == old(self)@.insert(object@, contents@),
            !stored ==> final(self)@ == old(self)@,
    {
        let mut hasher = Hasher::new();
        hasher.update(contents.as_slice());
        let digest = hasher.finalize();
        assert(Seq::<u8>::empty() + contents@ =~= contents@);
        if hash_eq(&digest, &object.0) {
            self.store_raw(object, contents);
            true
        } else {
            false
        }
    }

    /// Stores `contents` and returns the object that names them: their SHA-256.
    /// Content that the store already holds under that digest stays.
    pub fn store(&mut self, contents: Vec<u8>) -> (object: Object)
        requires
            old(self).wf(),
        ensures
            final(self).wf(),
            object@ == sha256(contents@),
            final(self)@ == (if old(self)@.contains_key(object@) {
                old(self)@
            } else {
                old(self)@.insert(object@, contents@)
            }),
    {
        let mut hasher = Hasher::new();
        hasher.update(contents.as_slice());
        let digest = hasher.finalize();
        assert(Seq::<u8>::empty() + contents@ =~= contents@);
        let object = Object(digest);
        if index_get(&self.index, &digest).is_none() {
            self.store_raw(Object(digest), contents);
        }
        object
    }

    /// The bytes stored under `object`, if there are any.
    pub fn get(&self, object: &Object) -> (contents: Option<&Vec<u8>>)
        requires
            self.wf(),
        ensures
            contents.is_some() == self@.contains_key(object@),
            contents matches Some(bytes) ==> bytes@ == self@[object@],
    {
        match index_get(&self.index, &object.0) {
            Some(slot) => Some(&self.entries[slot].1),
            None => None,
        }
    }

    /// How many objects the store holds.
    pub closed spec fn spec_len(&self) -> nat {
        self.entries@.len()
    }

    /// The object and the bytes of the entry at `i`, in the order of arrival.
    pub closed spec fn entry_at(&self, i: int) -> (Object, Vec<u8>) {
        (Object(self.entries@[i].0), self.entries@[i].1)
    }

    /// How many objects the store holds.
    pub fn len(&self) -> (n: usize)
        ensures
            n == self.spec_len(),
    {
        self.entries.len()
    }

    /// The object and the bytes of the entry at `i`.
    pub fn entry(&self, i: usize) -> (entry: (Object, &Vec<u8>))
        requires
            i < self.spec_len(),
        ensures
            entry.0 == self.entry_at(i as int).0,
            *entry.1 == self.entry_at(i as int).1,
    {
        (Object(self.entries[i].0), &self.entries[i].1)
    }

    /// Hands each entry to `f`, in the order of arrival, until `f` fails: the
    /// first error ends the walk and is returned.
    pub fn for_each<E, F: Fn(&Object, &Vec<u8>) -> Result<(), E>>(&self, f: F) -> (result: Result<(), E>)
        requires
            forall|i: int|
                0 <= i < self.spec_len() ==> call_requires(
                    f,
                    (&#[trigger] self.entry_at(i).0, &self.entry_at(i).1),
                ),
        ensures
            match result {
                Ok(_) => forall|i: int|
                    0 <= i < self.spec_len() ==> call_ensures(
                        f,
                        (&#[trigger] self.entry_at(i).0, &self.entry_at(i).1),
                        Ok(()),
                    ),
                Err(e) => exists|i: int|
                    {
                        &&& 0 <= i < self.spec_len()
                        &&& call_ensures(
                            f,
                            (&#[trigger] self.entry_at(i).0, &self.entry_at(i).1),
                            Err(e),
                        )
                        &&& forall|j: int|
                            0 <= j < i ==> call_ensures(
                                f,
                                (&#[trigger] self.entry_at(j).0, &self.entry_at(j).1),
                                Ok(()),
                            )
                    },
            },
    {
        let mut i: usize = 0;
        while i < self.entries.len()
            invariant
                i <= self.entries@.len(),
                forall|k: int|
                    0 <= k < self.spec_len() ==> call_requires(
                        f,
                        (&#[trigger] self.entry_at(k).0, &self.entry_at(k).1),
                    ),
                forall|j: int|
                    0 <= j < i ==> call_ensures(
                        f,
                        (&#[trigger] self.entry_at(j).0, &self.entry_at(j).1),
                        Ok(()),
                    ),
            decreases self.entries@.len() - i,
        {
            let object = Object(self.entries[i].0);
            assert(object == self.entry_at(i as int).0);
            let outcome = f(&object, &self.entries[i].1);
            assert(self.entries@[i as int].1 == self.entry_at(i as int).1);
            match outcome {
                Ok(done) => {
                    assert(done == ());
                    assert(outcome == Ok::<(), E>(()));
                },
                Err(e) => {
                    return Err(e);
                },
            }
            i += 1;
        }
        Ok(())
    }

    /// Every blob of a well-formed store sits under its own SHA-256.
    pub proof fn lemma_content_addressed(&self, object: Seq<u8>)
        requires
            self.wf(),
            self@.contains_key(object),
        ensures
            sha256(self@[object]) == object,
    {
    }

    /// The entries, walked in the order of arrival, are what the store holds.
    pub proof fn lemma_entries(&self)
        requires
            self.wf(),
        ensures
            forall|i: int|
                0 <= i < self.spec_len() ==> self@.contains_pair(
                    (#[trigger] self.entry_at(i)).0@,
                    self.entry_at(i).1@,
                ),
            forall|object: Seq<u8>| #[trigger]
                self@.contains_key(object) ==> exists|i: int|
                    0 <= i < self.spec_len() && (#[trigger] self.entry_at(i)).0@ == object,
            forall|i: int, j: int|
                0 <= i < j < self.spec_len() ==> (#[trigger] self.entry_at(i)).0@ != (
                #[trigger] self.entry_at(j)).0@,
    {
        assert forall|object: Seq<u8>| #[trigger] self@.contains_key(object) implies exists|i: int|
            0 <= i < self.spec_len() && (#[trigger] self.entry_at(i)).0@ == object by {
            let i = object_slots(self.index)[object] as int;
            assert(self.entry_at(i).0@ == object);
        }
    }
}

} // verus!
