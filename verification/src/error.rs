//! The error value that producers embed in their outputs.

use vstd::prelude::*;
use vstd::string::*;
use crate::to_hash::{tag, Hasher, ToHash};

verus! {

/// An error reduced to its message, so that it can be cloned, hashed and cached
/// like any other output.
#[derive(Debug, PartialEq, Eq)]
pub struct Error(String);

impl View for Error {
    type V = Seq<char>;

    closed spec fn view(&self) -> Seq<char> {
        self.0@
    }
}

impl Clone for Error {
    fn clone(&self) -> (copy: Self)
        ensures
            copy@ == self@,
    {
        Error(self.0.clone())
    }
}

impl Error {
    /// An error with the message `s`.
    pub fn new(s: &str) -> (error: Self)
        ensures
            error@ == s@,
    {
        Error(s.to_owned())
    }

    /// An error that takes over the message `s`.
    pub fn from_string(s: String) -> (error: Self)
        ensures
            error@ == s@,
    {
        Error(s)
    }

    /// The message.
    pub fn message(&self) -> (s: &str)
        ensures
            s@ == self@,
    {
        self.0.as_str()
    }

    /// The message, as the text that stands for this error wherever it is shown.
    pub fn to_string(&self) -> (s: String)
        ensures
            s@ == self@,
    {
        self.0.clone()
    }
}

impl ToHash for Error {
    open spec fn encoding(&self) -> Seq<u8> {
        tag("Error(") + vstd::utf8::encode_utf8(self@) + tag(")")
    }

    fn run_hash(&self, hasher: &mut Hasher) {
        hasher.update_tag("Error(");
        hasher.update(self.0.as_str().as_bytes());
        hasher.update_tag(")");
    }
}

} // verus!
