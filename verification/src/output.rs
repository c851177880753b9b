//! What queries return: one output type for each kind of key, and the union
//! of them that the cache holds.

use vstd::prelude::*;
use vstd::string::*;
use crate::error::Error;
use crate::key::KeySpec;
use crate::object::Object;
use crate::to_hash::{tag, Hasher, ToHash};
use crate::value::{join, lemma_join_step, value_encoding, RustValue, ValueSpec};

verus! {

/// A file that a script wants written: its path under the output directory and
/// the stored content.
#[derive(Debug)]
pub struct WriteOutput {
    pub path: String,
    pub object: Object,
}

impl View for WriteOutput {
    type V = (Seq<char>, Seq<u8>);

    open spec fn view(&self) -> (Seq<char>, Seq<u8>) {
        (self.path@, self.object@)
    }
}

impl Clone for WriteOutput {
    fn clone(&self) -> (copy: Self)
        ensures
            copy@ == self@,
    {
        WriteOutput { path: self.path.clone(), object: self.object.clone() }
    }
}

/// The encoding of a path.
pub open spec fn path_encoding(path: Seq<char>) -> Seq<u8> {
    tag("PathBuf(") + vstd::utf8::encode_utf8(path) + tag(")")
}

/// The encoding of an object.
pub open spec fn object_encoding(object: Seq<u8>) -> Seq<u8> {
    tag("Object(") + object + tag(")")
}

/// The encoding of an error.
pub open spec fn error_encoding(message: Seq<char>) -> Seq<u8> {
    tag("Error(") + vstd::utf8::encode_utf8(message) + tag(")")
}

/// The encoding of a queued write.
pub open spec fn write_encoding(write: (Seq<char>, Seq<u8>)) -> Seq<u8> {
    tag("WriteOutput(") + path_encoding(write.0) + tag("b)") + object_encoding(write.1)
}

/// Feeds the encoding of a path to `hasher`.
pub fn hash_path(path: &str, hasher: &mut Hasher)
    ensures
        final(hasher)@ == old(hasher)@ + path_encoding(path@),
{
    hasher.update_tag("PathBuf(");
    hasher.update(path.as_bytes());
    hasher.update_tag(")");
}

impl ToHash for WriteOutput {
    open spec fn encoding(&self) -> Seq<u8> {
        write_encoding(self@)
    }

    fn run_hash(&self, hasher: &mut Hasher) {
        hasher.update_tag("WriteOutput(");
        hash_path(self.path.as_str(), hasher);
        hasher.update_tag("b)");
        self.object.run_hash(hasher);
    }
}

/// The views of queued writes, each in its place.
pub open spec fn write_views(writes: Seq<WriteOutput>) -> Seq<(Seq<char>, Seq<u8>)> {
    Seq::new(writes.len(), |i: int| writes[i]@)
}

/// The encodings of queued writes, each in its place.
pub open spec fn write_encodings(writes: Seq<(Seq<char>, Seq<u8>)>) -> Seq<Seq<u8>> {
    Seq::new(writes.len(), |i: int| write_encoding(writes[i]))
}

/// The encodings of paths, each in its place.
pub open spec fn path_encodings(paths: Seq<Seq<char>>) -> Seq<Seq<u8>> {
    Seq::new(paths.len(), |i: int| path_encoding(paths[i]))
}

/// The views of paths, each in its place.
pub open spec fn path_views(paths: Seq<String>) -> Seq<Seq<char>> {
    Seq::new(paths.len(), |i: int| paths[i]@)
}

/// The encoding of a list of already encoded items.
pub open spec fn list_encoding(items: Seq<Seq<u8>>) -> Seq<u8> {
    tag("Vec[") + join(items) + tag("]")
}

/// What a script yields: the value it exports and the writes it queued, in
/// the order in which it queued them.
#[derive(Debug)]
pub struct FileOutput {
    pub value: RustValue,
    pub outputs: Vec<WriteOutput>,
}

impl View for FileOutput {
    type V = (ValueSpec, Seq<(Seq<char>, Seq<u8>)>);

    open spec fn view(&self) -> (ValueSpec, Seq<(Seq<char>, Seq<u8>)>) {
        (self.value@, write_views(self.outputs@))
    }
}

/// A copy of `writes`.
pub fn clone_writes(writes: &Vec<WriteOutput>) -> (copy: Vec<WriteOutput>)
    ensures
        write_views(copy@) == write_views(writes@),
{
    let mut copy: Vec<WriteOutput> = Vec::new();
    let mut i: usize = 0;
    while i < writes.len()
        invariant
            i <= writes.len(),
            copy@.len() == i,
            forall|j: int| 0 <= j < i ==> copy@[j]@ == writes@[j]@,
        decreases writes.len() - i,
    {
        copy.push(writes[i].clone());
        i += 1;
    }
    assert(write_views(copy@) =~= write_views(writes@));
    copy
}

/// A copy of `paths`.
pub fn clone_paths(paths: &Vec<String>) -> (copy: Vec<String>)
    ensures
        path_views(copy@) == path_views(paths@),
{
    let mut copy: Vec<String> = Vec::new();
    let mut i: usize = 0;
    while i < paths.len()
        invariant
            i <= paths.len(),
            copy@.len() == i,
            forall|j: int| 0 <= j < i ==> copy@[j]@ == paths@[j]@,
        decreases paths.len() - i,
    {
        copy.push(paths[i].clone());
        i += 1;
    }
    assert(path_views(copy@) =~= path_views(paths@));
    copy
}

impl Clone for FileOutput {
    fn clone(&self) -> (copy: Self)
        ensures
            copy@ == self@,
    {
        FileOutput { value: self.value.clone(), outputs: clone_writes(&self.outputs) }
    }
}

/// The encoding of what a script yields.
pub open spec fn file_encoding(file: (ValueSpec, Seq<(Seq<char>, Seq<u8>)>)) -> Seq<u8> {
    tag("FileOutput(") + value_encoding(file.0) + tag(")(") + list_encoding(
        write_encodings(file.1),
    ) + tag(")")
}

impl ToHash for FileOutput {
    open spec fn encoding(&self) -> Seq<u8> {
        file_encoding(self@)
    }

    fn run_hash(&self, hasher: &mut Hasher) {
        hasher.update_tag("FileOutput(");
        self.value.run_hash(hasher);
        hasher.update_tag(")(");
        hasher.update_tag("Vec[");
        let ghost start = hasher@;
        let ghost parts = write_encodings(write_views(self.outputs@));
        let mut i: usize = 0;
        while i < self.outputs.len()
            invariant
                i <= self.outputs.len(),
                parts == write_encodings(write_views(self.outputs@)),
                hasher@ == start + join(parts.subrange(0, i as int)),
            decreases self.outputs.len() - i,
        {
            let ghost before = hasher@;
            self.outputs[i].run_hash(hasher);
            proof {
                lemma_join_step(parts, i as int);
                assert(parts[i as int] == write_encoding(self.outputs@[i as int]@));
                assert(hasher@ =~= start + join(parts.subrange(0, i + 1)));
            }
            i += 1;
        }
        assert(parts.subrange(0, self.outputs.len() as int) =~= parts);
        hasher.update_tag("]");
        hasher.update_tag(")");
        assert(hasher@ =~= old(hasher)@ + file_encoding(self@));
    }
}

/// What an output is, as a mathematical value.
pub enum OutputSpec {
    Object(Result<Seq<u8>, Seq<char>>),
    Paths(Result<Seq<Seq<char>>, Seq<char>>),
    File(Result<(ValueSpec, Seq<(Seq<char>, Seq<u8>)>), Seq<char>>),
}

/// The encoding of a result, given the encoding of what it holds.
pub open spec fn result_encoding(ok: bool, inner: Seq<u8>) -> Seq<u8> {
    if ok {
        tag("Result::Ok(") + inner + tag(")")
    } else {
        tag("Result::Err(") + inner + tag(")")
    }
}

/// The canonical encoding of an output. The union adds no tag of its own: an
/// output hashes as the value that it holds.
pub open spec fn output_encoding(output: OutputSpec) -> Seq<u8> {
    match output {
        OutputSpec::Object(Ok(object)) => result_encoding(true, object_encoding(object)),
        OutputSpec::Object(Err(e)) => result_encoding(false, error_encoding(e)),
        OutputSpec::Paths(Ok(paths)) => result_encoding(
            true,
            list_encoding(path_encodings(paths)),
        ),
        OutputSpec::Paths(Err(e)) => result_encoding(false, error_encoding(e)),
        OutputSpec::File(Ok(file)) => result_encoding(true, file_encoding(file)),
        OutputSpec::File(Err(e)) => result_encoding(false, error_encoding(e)),
    }
}

/// Whether an output is of the type that queries of `key`'s kind return.
pub open spec fn output_fits(key: KeySpec, output: OutputSpec) -> bool {
    match key {
        KeySpec::ReadFile(_) => output is Object,
        KeySpec::ListDirectory(_) => output is Paths,
        KeySpec::RunFile(_, _) => output is File,
        KeySpec::MinifyHtml(_) => output is Object,
        KeySpec::MarkdownToHtml(_) => output is Object,
    }
}

/// The output of a query of any kind.
#[derive(Debug)]
pub enum AnyOutput {
    /// Stored content, or why there is none.
    Object(Result<Object, Error>),
    /// The entries of a directory, or why there are none.
    Paths(Result<Vec<String>, Error>),
    /// What a script yielded, or why it failed.
    File(Result<FileOutput, Error>),
}

impl View for AnyOutput {
    type V = OutputSpec;

    open spec fn view(&self) -> OutputSpec {
        match self {
            AnyOutput::Object(Ok(object)) => OutputSpec::Object(Ok(object@)),
            AnyOutput::Object(Err(e)) => OutputSpec::Object(Err(e@)),
            AnyOutput::Paths(Ok(paths)) => OutputSpec::Paths(Ok(path_views(paths@))),
            AnyOutput::Paths(Err(e)) => OutputSpec::Paths(Err(e@)),
            AnyOutput::File(Ok(file)) => OutputSpec::File(Ok(file@)),
            AnyOutput::File(Err(e)) => OutputSpec::File(Err(e@)),
        }
    }
}

impl Clone for AnyOutput {
    fn clone(&self) -> (copy: Self)
        ensures
            copy@ == self@,
    {
        match self {
            AnyOutput::Object(Ok(object)) => AnyOutput::Object(Ok(object.clone())),
            AnyOutput::Object(Err(e)) => AnyOutput::Object(Err(e.clone())),
            AnyOutput::Paths(Ok(paths)) => AnyOutput::Paths(Ok(clone_paths(paths))),
            AnyOutput::Paths(Err(e)) => AnyOutput::Paths(Err(e.clone())),
            AnyOutput::File(Ok(file)) => AnyOutput::File(Ok(file.clone())),
            AnyOutput::File(Err(e)) => AnyOutput::File(Err(e.clone())),
        }
    }
}

/// Feeds the encoding of a list of paths to `hasher`.
pub fn hash_paths(paths: &Vec<String>, hasher: &mut Hasher)
    ensures
        final(hasher)@ == old(hasher)@ + list_encoding(path_encodings(path_views(paths@))),
{
    hasher.update_tag("Vec[");
    let ghost start = hasher@;
    let ghost parts = path_encodings(path_views(paths@));
    let mut i: usize = 0;
    while i < paths.len()
        invariant
            i <= paths.len(),
            parts == path_encodings(path_views(paths@)),
            hasher@ == start + join(parts.subrange(0, i as int)),
        decreases paths.len() - i,
    {
        let ghost before = hasher@;
        hash_path(paths[i].as_str(), hasher);
        proof {
            lemma_join_step(parts, i as int);
            assert(parts[i as int] == path_encoding(paths@[i as int]@));
            assert(hasher@ =~= start + join(parts.subrange(0, i + 1)));
        }
        i += 1;
    }
    assert(parts.subrange(0, paths.len() as int) =~= parts);
    hasher.update_tag("]");
    assert(hasher@ =~= old(hasher)@ + list_encoding(parts));
}

impl ToHash for AnyOutput {
    open spec fn encoding(&self) -> Seq<u8> {
        output_encoding(self@)
    }

    fn run_hash(&self, hasher: &mut Hasher) {
        match self {
            AnyOutput::Object(Ok(object)) => {
                hasher.update_tag("Result::Ok(");
                object.run_hash(hasher);
                hasher.update_tag(")");
            },
            AnyOutput::Paths(Ok(paths)) => {
                hasher.update_tag("Result::Ok(");
                hash_paths(paths, hasher);
                hasher.update_tag(")");
            },
            AnyOutput::File(Ok(file)) => {
                hasher.update_tag("Result::Ok(");
                file.run_hash(hasher);
                hasher.update_tag(")");
            },
            AnyOutput::Object(Err(e)) | AnyOutput::Paths(Err(e)) | AnyOutput::File(Err(e)) => {
                hasher.update_tag("Result::Err(");
                e.run_hash(hasher);
                hasher.update_tag(")");
            },
        }
        assert(hasher@ =~= old(hasher)@ + output_encoding(self@));
    }
}

impl AnyOutput {
    /// Whether this output is of the type that queries of `key`'s kind return.
    pub fn fits(&self, key: &crate::key::QueryKey) -> (fits: bool)
        ensures
            fits == output_fits(key@, self@),
    {
        match key {
            crate::key::QueryKey::ReadFile(_) => matches!(self, AnyOutput::Object(_)),
            crate::key::QueryKey::ListDirectory(_) => matches!(self, AnyOutput::Paths(_)),
            crate::key::QueryKey::RunFile(_) => matches!(self, AnyOutput::File(_)),
            crate::key::QueryKey::MinifyHtml(_) => matches!(self, AnyOutput::Object(_)),
            crate::key::QueryKey::MarkdownToHtml(_) => matches!(self, AnyOutput::Object(_)),
        }
    }
}

/// How a producer ends: with an output, which the cache takes, or refused,
/// with the error that reaches the caller without being kept.
#[derive(Debug)]
pub enum Outcome {
    /// The producer returned this output.
    Output(AnyOutput),
    /// The producer broke a rule; this is the error.
    Refused(Error),
}

/// A type that queries of some kind return.
pub trait Output: ToHash + Sized {
    /// This output as a member of the union.
    spec fn erased(self) -> AnyOutput;

    /// The output of this type that a member of the union holds, if it holds one.
    spec fn recovered(any: AnyOutput) -> Option<Self>;

    /// Makes this output a member of the union.
    fn erase(self) -> (any: AnyOutput)
        ensures
            any == self.erased(),
    ;

    /// Takes the output of this type out of a member of the union.
    fn recover(any: AnyOutput) -> (output: Option<Self>)
        ensures
            output == Self::recovered(any),
    ;
}

impl Output for Result<Object, Error> {
    open spec fn erased(self) -> AnyOutput {
        AnyOutput::Object(self)
    }

    open spec fn recovered(any: AnyOutput) -> Option<Self> {
        match any {
            AnyOutput::Object(inner) => Some(inner),
            _ => None,
        }
    }

    fn erase(self) -> (any: AnyOutput) {
        AnyOutput::Object(self)
    }

    fn recover(any: AnyOutput) -> (output: Option<Self>) {
        match any {
            AnyOutput::Object(inner) => Some(inner),
            _ => None,
        }
    }
}

impl Output for Result<Vec<String>, Error> {
    open spec fn erased(self) -> AnyOutput {
        AnyOutput::Paths(self)
    }

    open spec fn recovered(any: AnyOutput) -> Option<Self> {
        match any {
            AnyOutput::Paths(inner) => Some(inner),
            _ => None,
        }
    }

    fn erase(self) -> (any: AnyOutput) {
        AnyOutput::Paths(self)
    }

    fn recover(any: AnyOutput) -> (output: Option<Self>) {
        match any {
            AnyOutput::Paths(inner) => Some(inner),
            _ => None,
        }
    }
}

impl Output for Result<FileOutput, Error> {
    open spec fn erased(self) -> AnyOutput {
        AnyOutput::File(self)
    }

    open spec fn recovered(any: AnyOutput) -> Option<Self> {
        match any {
            AnyOutput::File(inner) => Some(inner),
            _ => None,
        }
    }

    fn erase(self) -> (any: AnyOutput) {
        AnyOutput::File(self)
    }

    fn recover(any: AnyOutput) -> (output: Option<Self>) {
        match any {
            AnyOutput::File(inner) => Some(inner),
            _ => None,
        }
    }
}

impl AnyOutput {
    /// The member of the union that holds `output`.
    pub fn new<T: Output>(output: T) -> (any: Self)
        ensures
            any == output.erased(),
    {
        output.erase()
    }

    /// The output of type `T` that this member holds, or nothing where it
    /// holds one of another type.
    pub fn downcast<T: Output>(self) -> (output: Option<T>)
        ensures
            output == T::recovered(self),
    {
        T::recover(self)
    }
}

} // verus!
