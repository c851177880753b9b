//! The values that a script hands back: what survives a trip through the cache.

use vstd::prelude::*;
use vstd::string::*;
use crate::object::Object;
use crate::to_hash::{tag, Hasher, ToHash};

verus! {

/// A handle on stored content, as scripts hold it.
#[derive(Hash, PartialEq, Eq, Debug)]
pub struct StoreObject {
    pub object: Object,
}

impl View for StoreObject {
    type V = Seq<u8>;

    open spec fn view(&self) -> Seq<u8> {
        self.object@
    }
}

impl Clone for StoreObject {
    fn clone(&self) -> (copy: Self)
        ensures
            copy@ == self@,
    {
        StoreObject { object: self.object.clone() }
    }
}

/// What a `RustValue` is, as a mathematical value.
pub enum ValueSpec {
    Undefined,
    Null,
    Bool(bool),
    Int(int),
    String(Seq<char>),
    Array(Seq<ValueSpec>),
    Store(Seq<u8>),
}

/// The simple values that pass between scripts and the engine without loss.
#[derive(Hash, PartialEq, Eq, Debug)]
pub enum RustValue {
    Undefined,
    Null,
    Bool(bool),
    Int(i32),
    String(String),
    Array(Vec<RustValue>),
    Store(StoreObject),
}

impl View for RustValue {
    type V = ValueSpec;

    open spec fn view(&self) -> ValueSpec
        decreases self,
    {
        match self {
            RustValue::Undefined => ValueSpec::Undefined,
            RustValue::Null => ValueSpec::Null,
            RustValue::Bool(b) => ValueSpec::Bool(*b),
            RustValue::Int(i) => ValueSpec::Int(*i as int),
            RustValue::String(s) => ValueSpec::String(s@),
            RustValue::Array(vs) => ValueSpec::Array(
                Seq::new(
                    vs@.len(),
                    |i: int|
                        if 0 <= i < vs@.len() {
                            vs@[i]@
                        } else {
                            ValueSpec::Undefined
                        },
                ),
            ),
            RustValue::Store(o) => ValueSpec::Store(o@),
        }
    }
}

/// The parts of `parts`, one after another.
pub open spec fn join<A>(parts: Seq<Seq<A>>) -> Seq<A>
    decreases parts.len(),
{
    if parts.len() == 0 {
        Seq::<A>::empty()
    } else {
        join(parts.drop_last()) + parts.last()
    }
}

/// Joining one part more appends that part.
pub proof fn lemma_join_step<A>(parts: Seq<Seq<A>>, i: int)
    requires
        0 <= i < parts.len(),
    ensures
        join(parts.subrange(0, i + 1)) == join(parts.subrange(0, i)) + parts[i],
        join(parts.subrange(0, 0)) == Seq::<A>::empty(),
        i + 1 == parts.len() ==> parts.subrange(0, i + 1) == parts,
{
    assert(parts.subrange(0, i + 1).drop_last() =~= parts.subrange(0, i));
    assert(parts.subrange(0, parts.len() as int) =~= parts);
}

/// The four bytes of a 32-bit integer in two's complement, the lowest first.
pub open spec fn le_bytes(i: int) -> Seq<u8> {
    let u = if i >= 0 {
        i
    } else {
        i + 0x1_0000_0000
    };
    seq![
        (u % 256) as u8,
        ((u / 256) % 256) as u8,
        ((u / 65536) % 256) as u8,
        ((u / 16777216) % 256) as u8,
    ]
}

/// The canonical encoding of a value.
pub open spec fn value_encoding(v: ValueSpec) -> Seq<u8>
    decreases v,
{
    match v {
        ValueSpec::Undefined => tag("RustValue::Undefined"),
        ValueSpec::Null => tag("RustValue::Null"),
        ValueSpec::Bool(b) => tag("RustValue::Bool(") + seq![if b { 255u8 } else { 0u8 }] + tag(")"),
        ValueSpec::Int(i) => tag("RustValue::Int(") + le_bytes(i) + tag(")"),
        ValueSpec::String(s) => tag("RustValue::String(") + vstd::utf8::encode_utf8(s) + tag(")"),
        ValueSpec::Array(vs) => tag("RustValue::Array(") + join(encodings(vs)) + tag(")"),
        ValueSpec::Store(o) => tag("RustValue::Store(") + (tag("Object(") + o + tag(")")) + tag(")"),
    }
}

/// The encodings of the items of `vs`, each in its place.
pub open spec fn encodings(vs: Seq<ValueSpec>) -> Seq<Seq<u8>>
    decreases vs,
{
    Seq::new(
        vs.len(),
        |i: int|
            if 0 <= i < vs.len() {
                value_encoding(vs[i])
            } else {
                Seq::<u8>::empty()
            },
    )
}

/// The views of `vs`, each in its place.
pub open spec fn views(vs: Seq<RustValue>) -> Seq<ValueSpec> {
    Seq::new(
        vs.len(),
        |i: int|
            if 0 <= i < vs.len() {
                vs[i]@
            } else {
                ValueSpec::Undefined
            },
    )
}

impl Clone for RustValue {
    #[verifier::loop_isolation(false)]
    fn clone(&self) -> (copy: Self)
        ensures
            copy@ == self@,
        decreases self,
    {
        match self {
            RustValue::Undefined => RustValue::Undefined,
            RustValue::Null => RustValue::Null,
            RustValue::Bool(b) => RustValue::Bool(*b),
            RustValue::Int(i) => RustValue::Int(*i),
            RustValue::String(s) => RustValue::String(s.clone()),
            RustValue::Array(vs) => {
                let mut out: Vec<RustValue> = Vec::new();
                let mut i: usize = 0;
                while i < vs.len()
                    invariant
                        i <= vs.len(),
                        out@.len() == i,
                        forall|j: int| 0 <= j < i ==> out@[j]@ == vs@[j]@,
                    decreases vs.len() - i,
                {
                    out.push(vs[i].clone());
                    i += 1;
                }
                let copy = RustValue::Array(out);
                assert(copy@->Array_0 =~= self@->Array_0);
                copy
            },
            RustValue::Store(o) => RustValue::Store(o.clone()),
        }
    }
}

/// The four bytes of `i` in two's complement, the lowest first.
pub fn i32_le_bytes(i: i32) -> (bytes: [u8; 4])
    ensures
        bytes@ == le_bytes(i as int),
{
    let u: u64 = if i >= 0 {
        i as u64
    } else {
        (i as i64 + 0x1_0000_0000i64) as u64
    };
    let bytes: [u8; 4] = [
        (u % 256) as u8,
        ((u / 256) % 256) as u8,
        ((u / 65536) % 256) as u8,
        ((u / 16777216) % 256) as u8,
    ];
    assert(bytes@ =~= le_bytes(i as int));
    bytes
}

impl ToHash for RustValue {
    open spec fn encoding(&self) -> Seq<u8> {
        value_encoding(self@)
    }

    #[verifier::loop_isolation(false)]
    fn run_hash(&self, hasher: &mut Hasher)
        decreases self,
    {
        match self {
            RustValue::Undefined => {
                hasher.update_tag("RustValue::Undefined");
            },
            RustValue::Null => {
                hasher.update_tag("RustValue::Null");
            },
            RustValue::Bool(b) => {
                hasher.update_tag("RustValue::Bool(");
                let byte: [u8; 1] = [if *b { 255u8 } else { 0u8 }];
                assert(byte@ =~= seq![if *b { 255u8 } else { 0u8 }]);
                hasher.update(byte.as_slice());
                hasher.update_tag(")");
            },
            RustValue::Int(i) => {
                hasher.update_tag("RustValue::Int(");
                let bytes = i32_le_bytes(*i);
                hasher.update(bytes.as_slice());
                hasher.update_tag(")");
            },
            RustValue::String(s) => {
                hasher.update_tag("RustValue::String(");
                hasher.update(s.as_str().as_bytes());
                hasher.update_tag(")");
            },
            RustValue::Array(vs) => {
                hasher.update_tag("RustValue::Array(");
                let ghost parts = encodings(views(vs@));
                let mut i: usize = 0;
                while i < vs.len()
                    invariant
                        i <= vs.len(),
                        hasher@ == old(hasher)@ + tag("RustValue::Array(") + join(
                            parts.subrange(0, i as int),
                        ),
                    decreases vs.len() - i,
                {
                    let ghost before = hasher@;
                    vs[i].run_hash(hasher);
                    proof {
                        lemma_join_step(parts, i as int);
                        assert(parts[i as int] == value_encoding(vs@[i as int]@));
                        assert(vs@[i as int].encoding() == value_encoding(vs@[i as int]@));
                        assert(hasher@ == before + vs@[i as int].encoding());
                        assert(hasher@ =~= old(hasher)@ + tag("RustValue::Array(") + join(
                            parts.subrange(0, i + 1),
                        ));
                    }
                    i += 1;
                }
                assert(parts.subrange(0, vs.len() as int) =~= parts);
                assert(views(vs@) =~= self@->Array_0);
                hasher.update_tag(")");
                assert(hasher@ =~= old(hasher)@ + (tag("RustValue::Array(") + join(parts) + tag(")")));
            },
            RustValue::Store(o) => {
                hasher.update_tag("RustValue::Store(");
                o.object.run_hash(hasher);
                hasher.update_tag(")");
                assert(hasher@ =~= old(hasher)@ + value_encoding(self@));
            },
        }
    }
}

} // verus!
