//! Canonical, type-tagged digests.
//!
//! Every value that serves as a query output has a canonical byte encoding:
//! a literal tag naming its type, the encodings of its parts, and closing
//! delimiters. Its digest is the SHA-256 of that encoding.

use vstd::prelude::*;
use vstd::string::*;

verus! {

/// A SHA-256 digest.
pub type Hash = [u8; 32];

/// The SHA-256 digest of `data`, as the `sha2` crate computes it.
pub uninterp spec fn sha256(data: Seq<u8>) -> Seq<u8>;

/// Calls `sha2::Sha256::digest`. Trusted: the 32 bytes that come back are the
/// SHA-256 digest of `data`, which the contract names `sha256(data@)`.
#[verifier::external_body]
fn sha256_digest(data: &[u8]) -> (digest: Hash)
    ensures
        digest@ == sha256(data@),
{
    <sha2::Sha256 as sha2::Digest>::digest(data).into()
}

/// The bytes of a tag literal.
pub open spec fn tag(s: &str) -> Seq<u8> {
    s.spec_bytes()
}

/// Whether two digests hold the same bytes.
pub fn hash_eq(a: &Hash, b: &Hash) -> (same: bool)
    ensures
        same == (a@ == b@),
{
    let mut i: usize = 0;
    while i < 32
        invariant
            i <= 32,
            forall|j: int| 0 <= j < i ==> a@[j] == b@[j],
        decreases 32 - i,
    {
        if a[i] != b[i] {
            return false;
        }
        i += 1;
    }
    assert(a@ =~= b@);
    true
}

/// Collects the bytes of an encoding, then digests them.
pub struct Hasher {
    bytes: Vec<u8>,
}

impl View for Hasher {
    type V = Seq<u8>;

    closed spec fn view(&self) -> Seq<u8> {
        self.bytes@
    }
}

impl Hasher {
    /// A hasher that has taken in nothing.
    pub fn new() -> (hasher: Self)
        ensures
            hasher@ == Seq::<u8>::empty(),
    {
        Hasher { bytes: Vec::new() }
    }

    /// Takes in `data` after everything taken in before.
    pub fn update(&mut self, data: &[u8])
        ensures
            final(self)@ == old(self)@ + data@,
    {
        let mut i: usize = 0;
        while i < data.len()
            invariant
                i <= data.len(),
                self.bytes@ == old(self).bytes@ + data@.subrange(0, i as int),
            decreases data.len() - i,
        {
            self.bytes.push(data[i]);
            assert(data@.subrange(0, i as int).push(data@[i as int]) =~= data@.subrange(
                0,
                i + 1,
            ));
            i += 1;
        }
        assert(data@.subrange(0, data.len() as int) =~= data@);
    }

    /// Takes in the bytes of a tag literal.
    pub fn update_tag(&mut self, s: &str)
        ensures
            final(self)@ == old(self)@ + tag(s),
    {
        self.update(s.as_bytes());
    }

    /// The SHA-256 digest of everything taken in.
    pub fn finalize(self) -> (digest: Hash)
        ensures
            digest@ == sha256(self@),
    {
        sha256_digest(self.bytes.as_slice())
    }
}

/// A value with a canonical encoding and the digest that follows from it.
pub trait ToHash {
    /// The canonical encoding: tag, parts, delimiters.
    spec fn encoding(&self) -> Seq<u8>;

    /// Feeds the canonical encoding to `hasher`.
    fn run_hash(&self, hasher: &mut Hasher)
        ensures
            final(hasher)@ == old(hasher)@ + self.encoding(),
    ;

    /// The digest of the canonical encoding.
    fn to_hash(&self) -> (digest: Hash)
        ensures
            digest@ == sha256(self.encoding()),
    {
        let mut hasher = Hasher::new();
        self.run_hash(&mut hasher);
        assert(hasher@ =~= self.encoding());
        hasher.finalize()
    }
}

impl ToHash for Hash {
    open spec fn encoding(&self) -> Seq<u8> {
        tag("Hash(") + self@ + tag(")")
    }

    fn run_hash(&self, hasher: &mut Hasher) {
        hasher.update_tag("Hash(");
        hasher.update(self.as_slice());
        hasher.update_tag(")");
    }
}

impl ToHash for String {
    open spec fn encoding(&self) -> Seq<u8> {
        tag("String(") + vstd::utf8::encode_utf8(self@) + tag(")")
    }

    fn run_hash(&self, hasher: &mut Hasher) {
        hasher.update_tag("String(");
        hasher.update(self.as_str().as_bytes());
        hasher.update_tag(")");
    }
}

impl ToHash for () {
    open spec fn encoding(&self) -> Seq<u8> {
        tag("()")
    }

    fn run_hash(&self, hasher: &mut Hasher) {
        hasher.update_tag("()");
    }
}

impl ToHash for bool {
    open spec fn encoding(&self) -> Seq<u8> {
        tag("bool") + seq![if *self { 1u8 } else { 0u8 }]
    }

    fn run_hash(&self, hasher: &mut Hasher) {
        hasher.update_tag("bool");
        let byte: [u8; 1] = [if *self { 1u8 } else { 0u8 }];
        hasher.update(byte.as_slice());
        assert(byte@ =~= seq![if *self { 1u8 } else { 0u8 }]);
    }
}

/// The encodings of the items of `items`, one after another.
pub open spec fn encoding_of_all<A: ToHash>(items: Seq<A>) -> Seq<u8>
    decreases items.len(),
{
    if items.len() == 0 {
        Seq::<u8>::empty()
    } else {
        encoding_of_all(items.drop_last()) + items.last().encoding()
    }
}

impl<A: ToHash> ToHash for Vec<A> {
    open spec fn encoding(&self) -> Seq<u8> {
        tag("Vec[") + encoding_of_all(self@) + tag("]")
    }

    fn run_hash(&self, hasher: &mut Hasher) {
        hasher.update_tag("Vec[");
        let mut i: usize = 0;
        while i < self.len()
            invariant
                i <= self.len(),
                hasher@ == old(hasher)@ + tag("Vec[") + encoding_of_all(self@.subrange(0, i as int)),
            decreases self.len() - i,
        {
            self[i].run_hash(hasher);
            assert(self@.subrange(0, i + 1).drop_last() =~= self@.subrange(0, i as int));
            i += 1;
        }
        assert(self@.subrange(0, self.len() as int) =~= self@);
        hasher.update_tag("]");
    }
}

impl<A: ToHash> ToHash for Option<A> {
    open spec fn encoding(&self) -> Seq<u8> {
        match self {
            None => tag("Option::None"),
            Some(a) => tag("Option::Some(") + a.encoding() + tag(")"),
        }
    }

    fn run_hash(&self, hasher: &mut Hasher) {
        match self {
            None => {
                hasher.update_tag("Option::None");
            },
            Some(a) => {
                hasher.update_tag("Option::Some(");
                a.run_hash(hasher);
                hasher.update_tag(")");
            },
        }
    }
}

impl<T: ToHash, E: ToHash> ToHash for Result<T, E> {
    open spec fn encoding(&self) -> Seq<u8> {
        match self {
            Ok(t) => tag("Result::Ok(") + t.encoding() + tag(")"),
            Err(e) => tag("Result::Err(") + e.encoding() + tag(")"),
        }
    }

    fn run_hash(&self, hasher: &mut Hasher) {
        match self {
            Ok(t) => {
                hasher.update_tag("Result::Ok(");
                t.run_hash(hasher);
                hasher.update_tag(")");
            },
            Err(e) => {
                hasher.update_tag("Result::Err(");
                e.run_hash(hasher);
                hasher.update_tag(")");
            },
        }
    }
}

impl<A: ToHash> ToHash for Box<A> {
    open spec fn encoding(&self) -> Seq<u8> {
        tag("Box") + (**self).encoding()
    }

    fn run_hash(&self, hasher: &mut Hasher) {
        hasher.update_tag("Box");
        (**self).run_hash(hasher);
    }
}

impl<A: ToHash> ToHash for std::rc::Rc<A> {
    open spec fn encoding(&self) -> Seq<u8> {
        tag("Rc") + (**self).encoding()
    }

    fn run_hash(&self, hasher: &mut Hasher) {
        hasher.update_tag("Rc");
        (**self).run_hash(hasher);
    }
}

impl<A: ToHash> ToHash for std::sync::Arc<A> {
    open spec fn encoding(&self) -> Seq<u8> {
        tag("Arc") + (**self).encoding()
    }

    fn run_hash(&self, hasher: &mut Hasher) {
        hasher.update_tag("Arc");
        (**self).run_hash(hasher);
    }
}

impl<A: ToHash, B: ToHash> ToHash for (A, B) {
    open spec fn encoding(&self) -> Seq<u8> {
        tag("(") + self.0.encoding() + tag(",") + self.1.encoding() + tag(")")
    }

    fn run_hash(&self, hasher: &mut Hasher) {
        hasher.update_tag("(");
        self.0.run_hash(hasher);
        hasher.update_tag(",");
        self.1.run_hash(hasher);
        hasher.update_tag(")");
    }
}

impl<A: ToHash, B: ToHash, C: ToHash> ToHash for (A, B, C) {
    open spec fn encoding(&self) -> Seq<u8> {
        tag("(") + self.0.encoding() + tag(",") + self.1.encoding() + tag(",") + self.2.encoding()
            + tag(")")
    }

    fn run_hash(&self, hasher: &mut Hasher) {
        hasher.update_tag("(");
        self.0.run_hash(hasher);
        hasher.update_tag(",");
        self.1.run_hash(hasher);
        hasher.update_tag(",");
        self.2.run_hash(hasher);
        hasher.update_tag(")");
    }
}

} // verus!
