//! Where the state lies on disk: the files of the cache directory, and the
//! place of each object under it.

use vstd::prelude::*;
use vstd::string::*;
use crate::error::Error;
use crate::object::{hex_digit, hex_text, to_hex, Object};

verus! {

/// The value of a hexadecimal digit, of either case.
pub open spec fn hex_value(c: char) -> Option<int> {
    if '0' <= c <= '9' {
        Some(c as int - '0' as int)
    } else if 'a' <= c <= 'f' {
        Some(c as int - 'a' as int + 10)
    } else if 'A' <= c <= 'F' {
        Some(c as int - 'A' as int + 10)
    } else {
        None
    }
}

/// Whether `text` encodes bytes in hexadecimal: an even number of digits.
pub open spec fn is_hex(text: Seq<char>) -> bool {
    text.len() % 2 == 0 && forall|i: int| 0 <= i < text.len() ==> hex_value(#[trigger] text[i]) is Some
}

/// The bytes that `text` encodes: one for each two digits, the high one first.
pub open spec fn hex_bytes(text: Seq<char>) -> Seq<u8> {
    Seq::new(
        text.len() / 2,
        |i: int| (16 * hex_value(text[2 * i]).unwrap() + hex_value(text[2 * i + 1]).unwrap()) as u8,
    )
}

/// Calls `hex::decode`. Trusted: the result is `Ok` exactly where the text is
/// an even number of hexadecimal digits, of either case, and then holds the
/// bytes that they encode.
#[verifier::external_body]
fn hex_decode(text: &str) -> (bytes: Result<Vec<u8>, hex::FromHexError>)
    ensures
        bytes is Ok == is_hex(text@),
        bytes matches Ok(decoded) ==> decoded@ == hex_bytes(text@),
{
    hex::decode(text)
}

/// Formats a `hex::FromHexError`. Trusted for nothing: the message is
/// whatever the crate words it as.
#[verifier::external_body]
fn hex_error_message(error: &hex::FromHexError) -> (message: String) {
    format!("{}", error)
}

/// The text under which hexadecimal digits decode to bytes again.
pub proof fn lemma_hex_round_trip(bytes: Seq<u8>)
    ensures
        is_hex(hex_text(bytes)),
        hex_bytes(hex_text(bytes)) == bytes,
{
    let text = hex_text(bytes);
    assert forall|n: int| 0 <= n < 16 implies hex_value(#[trigger] hex_digit(n)) == Some(n) by {}
    assert forall|i: int| 0 <= i < text.len() implies hex_value(#[trigger] text[i]) is Some by {
        let byte = bytes[i / 2] as int;
        if i % 2 == 0 {
            assert(hex_value(hex_digit(byte / 16)) == Some(byte / 16));
        } else {
            assert(hex_value(hex_digit(byte % 16)) == Some(byte % 16));
        }
    }
    assert forall|i: int| 0 <= i < bytes.len() implies hex_bytes(text)[i] == bytes[i] by {
        let byte = bytes[i] as int;
        assert((2 * i) / 2 == i && (2 * i) % 2 == 0);
        assert((2 * i + 1) / 2 == i && (2 * i + 1) % 2 == 1);
        assert(hex_value(hex_digit(byte / 16)) == Some(byte / 16));
        assert(hex_value(hex_digit(byte % 16)) == Some(byte % 16));
        assert(text[2 * i] == hex_digit(byte / 16));
        assert(text[2 * i + 1] == hex_digit(byte % 16));
    }
    assert(hex_bytes(text) =~= bytes);
}

/// The message for a file name that is hexadecimal but not 64 digits long.
pub open spec fn not_a_hash() -> Seq<char> {
    "couldn't convert object filename to hash"@
}

/// The directory and the file name under which an object is kept: the first
/// two digits of its hexadecimal name, and the other 62.
pub fn object_location(object: &Object) -> (place: (String, String))
    ensures
        place.0@ == hex_text(object@).subrange(0, 2),
        place.1@ == hex_text(object@).subrange(2, 64),
        place.0@ + place.1@ == hex_text(object@),
{
    let hash = object.hash();
    let mut head: Vec<u8> = Vec::new();
    head.push(hash[0]);
    let mut tail: Vec<u8> = Vec::new();
    let mut i: usize = 1;
    while i < 32
        invariant
            1 <= i <= 32,
            tail@ == hash@.subrange(1, i as int),
        decreases 32 - i,
    {
        tail.push(hash[i]);
        assert(hash@.subrange(1, i as int).push(hash@[i as int]) =~= hash@.subrange(1, i + 1));
        i += 1;
    }
    let prefix = to_hex(head.as_slice());
    let rest = to_hex(tail.as_slice());
    assert(head@ =~= hash@.subrange(0, 1));
    assert(prefix@ =~= hex_text(object@).subrange(0, 2));
    assert(rest@ =~= hex_text(object@).subrange(2, 64));
    assert(prefix@ + rest@ =~= hex_text(object@));
    (prefix, rest)
}

/// The object that is kept in directory `prefix` under file name `rest`:
/// together they are its name, 64 hexadecimal digits. Any other name gives an
/// error.
pub fn object_from_name(prefix: &str, rest: &str) -> (object: Result<Object, Error>)
    ensures
        object is Ok == (is_hex(prefix@ + rest@) && (prefix@ + rest@).len() == 64),
        object matches Ok(found) ==> found@ == hex_bytes(prefix@ + rest@),
        object matches Err(e) ==> (is_hex(prefix@ + rest@) ==> e@ == not_a_hash()),
{
    let mut name = prefix.to_owned();
    name.append(rest);
    match hex_decode(name.as_str()) {
        Err(e) => Err(Error::from_string(hex_error_message(&e))),
        Ok(decoded) => {
            if decoded.len() != 32 {
                Err(Error::new("couldn't convert object filename to hash"))
            } else {
                let mut hash: [u8; 32] = [0u8; 32];
                let mut i: usize = 0;
                while i < 32
                    invariant
                        i <= 32,
                        decoded@.len() == 32,
                        forall|j: int| 0 <= j < i ==> hash@[j] == decoded@[j],
                    decreases 32 - i,
                {
                    hash[i] = decoded[i];
                    i += 1;
                }
                assert(hash@ =~= decoded@);
                Ok(Object::from_hash(hash))
            }
        },
    }
}

/// The location of an object names that object.
pub proof fn lemma_location_names_object(object: Seq<u8>)
    requires
        object.len() == 32,
    ensures
        is_hex(hex_text(object).subrange(0, 2) + hex_text(object).subrange(2, 64)),
        hex_bytes(hex_text(object).subrange(0, 2) + hex_text(object).subrange(2, 64)) == object,
{
    lemma_hex_round_trip(object);
    assert(hex_text(object).subrange(0, 2) + hex_text(object).subrange(2, 64) =~= hex_text(object));
}

/// `name` under the directory `dir`.
pub open spec fn joined(dir: Seq<char>, name: Seq<char>) -> Seq<char> {
    if dir.len() == 0 {
        name
    } else if dir.last() == '/' {
        dir + name
    } else {
        dir + seq!['/'] + name
    }
}

/// The path of `name` under the directory `dir`.
pub fn join(dir: &str, name: &str) -> (path: String)
    ensures
        path@ == joined(dir@, name@),
{
    let n = dir.unicode_len();
    if n == 0 {
        name.to_owned()
    } else {
        let mut path = dir.to_owned();
        if dir.get_char(n - 1) != '/' {
            proof {
                reveal_strlit("/");
            }
            path.append("/");
            assert("/"@ =~= seq!['/']);
        }
        path.append(name);
        path
    }
}

/// The files and the directory that hold the state.
pub struct Filenames {
    /// The file of the cache.
    pub cache_filename: String,
    /// The file of the dependency graph.
    pub depgraph_filename: String,
    /// The directory of the objects.
    pub objects_dirname: String,
}

/// Where the state lies under the cache directory `dir`.
pub fn get_filenames(dir: &str) -> (names: Filenames)
    ensures
        names.cache_filename@ == joined(dir@, "cache.v1.pc"@),
        names.depgraph_filename@ == joined(dir@, "depgraph.v1.pc"@),
        names.objects_dirname@ == joined(dir@, "objects"@),
{
    Filenames {
        cache_filename: join(dir, "cache.v1.pc"),
        depgraph_filename: join(dir, "depgraph.v1.pc"),
        objects_dirname: join(dir, "objects"),
    }
}

} // verus!
