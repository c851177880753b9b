use query::error::Error;
use query::object::{to_hex, Object};
use query::to_hash::{Hasher, ToHash};

fn sha256_of(bytes: &[u8]) -> [u8; 32] {
    let mut hasher = Hasher::new();
    hasher.update(bytes);
    hasher.finalize()
}

#[test]
fn digest_of_nothing_is_the_known_value() {
    assert_eq!(
        to_hex(&sha256_of(b"")),
        "e3b0c44298fc1c149afbf4c8996fb92427ae41e4649b934ca495991b7852b855"
    );
}

#[test]
fn digest_of_abc_is_the_known_value() {
    assert_eq!(
        to_hex(&sha256_of(b"abc")),
        "ba7816bf8f01cfea414140de5dae2223b00361a396177a9cb410ff61f20015ad"
    );
}

#[test]
fn error_hashes_as_its_tagged_message() {
    assert_eq!(Error::new("boom").to_hash(), sha256_of(b"Error(boom)"));
}

#[test]
fn string_hashes_as_its_tagged_bytes() {
    assert_eq!(String::from("a").to_hash(), sha256_of(b"String(a)"));
}

#[test]
fn object_and_hash_of_same_bytes_differ() {
    let digest = sha256_of(b"x");
    let object = Object::from_hash(digest);
    assert_ne!(object.to_hash(), digest.to_hash());
    let mut tagged = b"Object(".to_vec();
    tagged.extend_from_slice(&digest);
    tagged.push(b')');
    assert_eq!(object.to_hash(), sha256_of(&tagged));
}

#[test]
fn list_of_two_differs_from_list_of_their_concatenation() {
    let two = vec![String::from("a"), String::from("b")];
    let one = vec![String::from("ab")];
    assert_ne!(two.to_hash(), one.to_hash());
    assert_eq!(two.to_hash(), sha256_of(b"Vec[String(a)String(b)]"));
}
