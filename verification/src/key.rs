//! The kinds of query, and the key that names one query of any kind.

use vstd::prelude::*;
use vstd::std_specs::convert::FromSpecImpl;
use crate::object::Object;
use crate::value::{RustValue, ValueSpec};

verus! {

/// Asks for the file at a path, as the bytes it holds.
#[derive(Hash, PartialEq, Eq, Debug)]
pub struct ReadFile(pub String);

impl View for ReadFile {
    type V = Seq<char>;

    open spec fn view(&self) -> Seq<char> {
        self.0@
    }
}

impl Clone for ReadFile {
    fn clone(&self) -> (copy: Self)
        ensures
            copy@ == self@,
    {
        ReadFile(self.0.clone())
    }
}

/// Asks for the entries directly under a directory.
#[derive(Hash, PartialEq, Eq, Debug)]
pub struct ListDirectory(pub String);

impl View for ListDirectory {
    type V = Seq<char>;

    open spec fn view(&self) -> Seq<char> {
        self.0@
    }
}

impl Clone for ListDirectory {
    fn clone(&self) -> (copy: Self)
        ensures
            copy@ == self@,
    {
        ListDirectory(self.0.clone())
    }
}

/// Asks for the stored HTML, minified.
#[derive(Hash, PartialEq, Eq, Debug)]
pub struct MinifyHtml(pub Object);

impl View for MinifyHtml {
    type V = Seq<u8>;

    open spec fn view(&self) -> Seq<u8> {
        self.0@
    }
}

impl Clone for MinifyHtml {
    fn clone(&self) -> (copy: Self)
        ensures
            copy@ == self@,
    {
        MinifyHtml(self.0.clone())
    }
}

/// Asks for the stored Markdown, rendered as HTML.
#[derive(Hash, PartialEq, Eq, Debug)]
pub struct MarkdownToHtml(pub Object);

impl View for MarkdownToHtml {
    type V = Seq<u8>;

    open spec fn view(&self) -> Seq<u8> {
        self.0@
    }
}

impl Clone for MarkdownToHtml {
    fn clone(&self) -> (copy: Self)
        ensures
            copy@ == self@,
    {
        MarkdownToHtml(self.0.clone())
    }
}

/// Asks for what a script yields when it is run on its arguments.
#[derive(Hash, PartialEq, Eq, Debug)]
pub struct RunFile {
    pub file: String,
    pub args: Option<RustValue>,
}

/// The view of an optional value.
pub open spec fn args_view(args: Option<RustValue>) -> Option<ValueSpec> {
    match args {
        Some(value) => Some(value@),
        None => None,
    }
}

impl View for RunFile {
    type V = (Seq<char>, Option<ValueSpec>);

    open spec fn view(&self) -> (Seq<char>, Option<ValueSpec>) {
        (self.file@, args_view(self.args))
    }
}

impl Clone for RunFile {
    fn clone(&self) -> (copy: Self)
        ensures
            copy@ == self@,
    {
        let args = match &self.args {
            Some(value) => Some(value.clone()),
            None => None,
        };
        RunFile { file: self.file.clone(), args }
    }
}

/// What a key is, as a mathematical value: its kind and its parameters.
pub enum KeySpec {
    ReadFile(Seq<char>),
    ListDirectory(Seq<char>),
    RunFile(Seq<char>, Option<ValueSpec>),
    MinifyHtml(Seq<u8>),
    MarkdownToHtml(Seq<u8>),
}

impl KeySpec {
    /// Whether the key observes the world outside: the file system. Such a
    /// query is run again in every new revision.
    pub open spec fn is_input(self) -> bool {
        self is ReadFile || self is ListDirectory
    }
}

/// The key of a query: one variant for each kind.
#[derive(Hash, PartialEq, Eq, Debug)]
pub enum QueryKey {
    ReadFile(ReadFile),
    ListDirectory(ListDirectory),
    RunFile(RunFile),
    MinifyHtml(MinifyHtml),
    MarkdownToHtml(MarkdownToHtml),
}

impl View for QueryKey {
    type V = KeySpec;

    open spec fn view(&self) -> KeySpec {
        match self {
            QueryKey::ReadFile(k) => KeySpec::ReadFile(k@),
            QueryKey::ListDirectory(k) => KeySpec::ListDirectory(k@),
            QueryKey::RunFile(k) => KeySpec::RunFile(k@.0, k@.1),
            QueryKey::MinifyHtml(k) => KeySpec::MinifyHtml(k@),
            QueryKey::MarkdownToHtml(k) => KeySpec::MarkdownToHtml(k@),
        }
    }
}

impl Clone for QueryKey {
    fn clone(&self) -> (copy: Self)
        ensures
            copy@ == self@,
    {
        match self {
            QueryKey::ReadFile(k) => QueryKey::ReadFile(k.clone()),
            QueryKey::ListDirectory(k) => QueryKey::ListDirectory(k.clone()),
            QueryKey::RunFile(k) => QueryKey::RunFile(k.clone()),
            QueryKey::MinifyHtml(k) => QueryKey::MinifyHtml(k.clone()),
            QueryKey::MarkdownToHtml(k) => QueryKey::MarkdownToHtml(k.clone()),
        }
    }
}

impl QueryKey {
    /// Whether a new revision makes this query run again at once: true of the
    /// kinds that observe the file system, false of all that is derived.
    pub fn is_input(&self) -> (input: bool)
        ensures
            input == self@.is_input(),
            input == (*self is ReadFile || *self is ListDirectory),
    {
        match self {
            QueryKey::ReadFile(_) => true,
            QueryKey::ListDirectory(_) => true,
            QueryKey::RunFile(_) => false,
            QueryKey::MinifyHtml(_) => false,
            QueryKey::MarkdownToHtml(_) => false,
        }
    }
}

impl From<ReadFile> for QueryKey {
    fn from(v: ReadFile) -> (key: Self) {
        QueryKey::ReadFile(v)
    }
}

impl FromSpecImpl<ReadFile> for QueryKey {
    open spec fn obeys_from_spec() -> bool {
        true
    }

    open spec fn from_spec(v: ReadFile) -> Self {
        QueryKey::ReadFile(v)
    }
}

impl From<ListDirectory> for QueryKey {
    fn from(v: ListDirectory) -> (key: Self) {
        QueryKey::ListDirectory(v)
    }
}

impl FromSpecImpl<ListDirectory> for QueryKey {
    open spec fn obeys_from_spec() -> bool {
        true
    }

    open spec fn from_spec(v: ListDirectory) -> Self {
        QueryKey::ListDirectory(v)
    }
}

impl From<RunFile> for QueryKey {
    fn from(v: RunFile) -> (key: Self) {
        QueryKey::RunFile(v)
    }
}

impl FromSpecImpl<RunFile> for QueryKey {
    open spec fn obeys_from_spec() -> bool {
        true
    }

    open spec fn from_spec(v: RunFile) -> Self {
        QueryKey::RunFile(v)
    }
}

impl From<MinifyHtml> for QueryKey {
    fn from(v: MinifyHtml) -> (key: Self) {
        QueryKey::MinifyHtml(v)
    }
}

impl FromSpecImpl<MinifyHtml> for QueryKey {
    open spec fn obeys_from_spec() -> bool {
        true
    }

    open spec fn from_spec(v: MinifyHtml) -> Self {
        QueryKey::MinifyHtml(v)
    }
}

impl From<MarkdownToHtml> for QueryKey {
    fn from(v: MarkdownToHtml) -> (key: Self) {
        QueryKey::MarkdownToHtml(v)
    }
}

impl FromSpecImpl<MarkdownToHtml> for QueryKey {
    open spec fn obeys_from_spec() -> bool {
        true
    }

    open spec fn from_spec(v: MarkdownToHtml) -> Self {
        QueryKey::MarkdownToHtml(v)
    }
}

} // verus!
