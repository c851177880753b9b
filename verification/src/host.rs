//! What the script host's primitives decide, apart from the scripting runtime
//! itself: which writes are accepted, how writes travel from a task to the
//! script that ran it, and what a script's run amounts to.

use vstd::prelude::*;
use vstd::string::*;
use crate::context::QueryContext;
use crate::error::Error;
use crate::key::RunFile;
use crate::output::{write_views, AnyOutput, FileOutput, Outcome, OutputSpec, WriteOutput};
use crate::text::{args_text, args_to_string};
use crate::to_hash::sha256;
use crate::value::{RustValue, StoreObject};

verus! {

/// What a component of a path is.
#[derive(Copy, Clone, PartialEq, Eq, Debug, Structural)]
pub enum PathPart {
    /// A drive or share, where paths have such.
    Prefix,
    /// The root.
    RootDir,
    /// The directory itself: `.`.
    CurDir,
    /// The directory above: `..`.
    ParentDir,
    /// A name.
    Normal,
}

/// Calls `Path::components`. Trusted for nothing: what the components of a
/// path are is for the platform to say. Each comes back as its kind.
#[verifier::external_body]
fn path_parts(path: &str) -> (parts: Vec<PathPart>) {
    std::path::Path::new(path).components().map(|part| match part {
        std::path::Component::Prefix(_) => PathPart::Prefix,
        std::path::Component::RootDir => PathPart::RootDir,
        std::path::Component::CurDir => PathPart::CurDir,
        std::path::Component::ParentDir => PathPart::ParentDir,
        std::path::Component::Normal(_) => PathPart::Normal,
    }).collect()
}

/// Whether a path of these components stays under the directory that it is
/// taken from: every component is a name or `.`.
pub open spec fn stays_inside(parts: Seq<PathPart>) -> bool {
    forall|i: int|
        0 <= i < parts.len() ==> (#[trigger] parts[i]) == PathPart::CurDir || parts[i]
            == PathPart::Normal
}

/// Whether every component is a name or `.`.
pub fn parts_allowed(parts: &Vec<PathPart>) -> (allowed: bool)
    ensures
        allowed == stays_inside(parts@),
{
    let mut i: usize = 0;
    while i < parts.len()
        invariant
            i <= parts.len(),
            forall|j: int|
                0 <= j < i ==> (#[trigger] parts@[j]) == PathPart::CurDir || parts@[j]
                    == PathPart::Normal,
        decreases parts.len() - i,
    {
        match parts[i] {
            PathPart::CurDir => {},
            PathPart::Normal => {},
            _ => {
                return false;
            },
        }
        i += 1;
    }
    true
}

/// The message for a write that would leave the output directory.
pub open spec fn traversal(name: Seq<char>) -> Seq<char> {
    "directory traversal "@ + name
}

/// Queues the write of `contents` to `name`, whose components are `parts`,
/// where the path stays under the output directory. Otherwise nothing is
/// queued and the error names the path.
pub fn queue_output(
    queue: &mut Vec<WriteOutput>,
    parts: &Vec<PathPart>,
    name: String,
    contents: StoreObject,
) -> (queued: Result<(), Error>)
    ensures
        queued is Ok == stays_inside(parts@),
        queued is Ok ==> write_views(final(queue)@) == write_views(old(queue)@).push(
            (name@, contents@),
        ),
        queued matches Err(e) ==> final(queue)@ == old(queue)@ && e@ == traversal(name@),
{
    if parts_allowed(parts) {
        queue.push(WriteOutput { path: name, object: contents.object });
        assert(write_views(queue@) =~= write_views(old(queue)@).push((name@, contents@)));
        Ok(())
    } else {
        let mut message = "directory traversal ".to_owned();
        message.append(name.as_str());
        Err(Error::from_string(message))
    }
}

/// Queues the write of `contents` to the path `name` under the output
/// directory. A path with a component that is neither a name nor `.` is
/// refused: nothing is queued and the error names the path.
pub fn write_output(queue: &mut Vec<WriteOutput>, name: String, contents: StoreObject) -> (queued:
    Result<(), Error>)
    ensures
        queued is Ok ==> write_views(final(queue)@) == write_views(old(queue)@).push(
            (name@, contents@),
        ),
        queued matches Err(e) ==> final(queue)@ == old(queue)@ && e@ == traversal(name@),
{
    let parts = path_parts(name.as_str());
    queue_output(queue, &parts, name, contents)
}

/// Puts the writes that a task queued behind those of the script that ran it.
pub fn push_outputs(queue: &mut Vec<WriteOutput>, outputs: Vec<WriteOutput>)
    ensures
        write_views(final(queue)@) == write_views(old(queue)@) + write_views(outputs@),
{
    let mut i: usize = 0;
    assert(write_views(queue@) =~= write_views(old(queue)@) + write_views(outputs@.subrange(0, 0)));
    while i < outputs.len()
        invariant
            i <= outputs.len(),
            write_views(queue@) == write_views(old(queue)@) + write_views(outputs@.subrange(0, i as int)),
        decreases outputs.len() - i,
    {
        let ghost before = queue@;
        let copy = outputs[i].clone();
        queue.push(copy);
        proof {
            assert(write_views(queue@) =~= write_views(before).push(copy@));
            assert(write_views(outputs@.subrange(0, i + 1)) =~= write_views(
                outputs@.subrange(0, i as int),
            ).push(outputs@[i as int]@));
            assert(write_views(queue@) =~= write_views(old(queue)@) + write_views(
                outputs@.subrange(0, i + 1),
            ));
        }
        i += 1;
    }
    assert(outputs@.subrange(0, outputs.len() as int) =~= outputs@);
}

/// What a script gets from a task that it ran: the value that the task
/// exported, while the task's writes join the script's own; or the task's
/// error, while the queue stays as it was.
pub fn run_task(queue: &mut Vec<WriteOutput>, output: Result<FileOutput, Error>) -> (value: Result<
    RustValue,
    Error,
>)
    ensures
        match output {
            Ok(file) => value matches Ok(v) && v@ == file@.0 && write_views(final(queue)@)
                == write_views(old(queue)@) + file@.1,
            Err(e) => value matches Err(f) && f@ == e@ && final(queue)@ == old(queue)@,
        },
{
    match output {
        Ok(file) => {
            let FileOutput { value, outputs } = file;
            push_outputs(queue, outputs);
            Ok(value)
        },
        Err(e) => Err(e),
    }
}

/// What kind of entry the file system reports: a file, a directory, a
/// symbolic link, or none of these.
pub open spec fn file_kind(is_file: bool, is_dir: bool, is_symlink: bool) -> Seq<char> {
    if is_file {
        "file"@
    } else if is_dir {
        "dir"@
    } else if is_symlink {
        "symlink"@
    } else {
        "unknown"@
    }
}

/// The name of the kind of an entry, from what its metadata say.
pub fn file_type(is_file: bool, is_dir: bool, is_symlink: bool) -> (kind: &'static str)
    ensures
        kind@ == file_kind(is_file, is_dir, is_symlink),
{
    if is_file {
        "file"
    } else if is_dir {
        "dir"
    } else if is_symlink {
        "symlink"
    } else {
        "unknown"
    }
}

/// What the `relative_path` crate makes of a path joined to a base and
/// normalised: `.` dropped, and `..` taken against the name before it.
pub uninterp spec fn normalized(base: Seq<char>, path: Seq<char>) -> Seq<char>;

/// Calls `RelativePath::join_normalized`. Trusted: the result depends on the
/// two texts alone; the contract names it `normalized(base@, path@)`.
#[verifier::external_body]
fn join_normalized(base: &str, path: &str) -> (joined: String)
    ensures
        joined@ == normalized(base@, path@),
{
    relative_path::RelativePath::new(base).join_normalized(relative_path::RelativePath::new(path)).into_string()
}

/// The path that a script names, taken relative to the directory that the
/// script lies in: joined to it and normalised.
pub fn to_relative_path(directory: &str, path: &str) -> (resolved: String)
    ensures
        resolved@ == normalized(directory@, path@),
{
    join_normalized(directory, path)
}

/// Stores `contents` for a script and hands back the handle on them.
pub fn store(ctx: &mut QueryContext, contents: Vec<u8>) -> (handle: StoreObject)
    requires
        old(ctx).wf(),
    ensures
        final(ctx).wf(),
        final(ctx)@ == old(ctx)@,
        handle@ == sha256(contents@),
        final(ctx).objects() == (if old(ctx).objects().contains_key(handle@) {
            old(ctx).objects()
        } else {
            old(ctx).objects().insert(handle@, contents@)
        }),
{
    StoreObject { object: ctx.store(contents) }
}

/// The message of a script's failure: which script, on which arguments, and why.
pub open spec fn run_error(key: (Seq<char>, Option<crate::value::ValueSpec>), reason: Seq<char>) -> Seq<
    char,
> {
    "error running "@ + key.0 + "("@ + args_text(key.1) + "):\n\t"@ + reason
}

impl RunFile {
    /// The text of the script, from what reading its file gave: the error of
    /// a failed read, the stored content as text, or an error where the
    /// content is missing or is no text.
    pub fn source(&self, ctx: &QueryContext, read: &AnyOutput) -> (text: Result<String, Error>)
        requires
            ctx.wf(),
            read@ is Object,
        ensures
            read@ matches OutputSpec::Object(Err(e)) ==> text matches Err(f) && f@ == e,
            read@ matches OutputSpec::Object(Ok(o)) ==> text is Ok == (ctx.objects().contains_key(o)
                && vstd::utf8::valid_utf8(ctx.objects()[o])),
            read@ matches OutputSpec::Object(Ok(o)) ==> (text matches Err(f) ==> (
            !ctx.objects().contains_key(o) ==> f@ == crate::producers::not_found(o))),
            text matches Ok(s) ==> read@ matches OutputSpec::Object(Ok(o)) && s@
                == vstd::utf8::decode_utf8(ctx.objects()[o]),
    {
        match read {
            AnyOutput::Object(Ok(object)) => StoreObject { object: object.clone() }.contents_as_string(
                ctx,
            ),
            AnyOutput::Object(Err(e)) => Err(e.clone()),
            _ => vstd::pervasive::unreached(),
        }
    }

    /// The output of running the script: the value that it exported with the
    /// writes that it queued, or an error that names the script, its
    /// arguments and the reason.
    pub fn produce(&self, outcome: Result<RustValue, Error>, outputs: Vec<WriteOutput>) -> (output:
        AnyOutput)
        ensures
            match outcome {
                Ok(value) => output@ == OutputSpec::File(Ok((value@, write_views(outputs@)))),
                Err(e) => output@ == OutputSpec::File(Err(run_error(self@, e@))),
            },
    {
        match outcome {
            Ok(value) => AnyOutput::File(Ok(FileOutput { value, outputs })),
            Err(e) => {
                let mut message = "error running ".to_owned();
                message.append(self.file.as_str());
                message.append("(");
                message.append(args_to_string(&self.args).as_str());
                message.append("):\n\t");
                message.append(e.message());
                AnyOutput::File(Err(Error::from_string(message)))
            },
        }
    }
}

/// The message of a refusal, if there is one.
pub open spec fn refusal_view(refusal: Option<Error>) -> Option<Seq<char>> {
    match refusal {
        Some(e) => Some(e@),
        None => None,
    }
}

/// The refusal that counts after one more: the first.
pub open spec fn noted(refusal: Option<Seq<char>>, reason: Seq<char>) -> Option<Seq<char>> {
    match refusal {
        Some(first) => Some(first),
        None => Some(reason),
    }
}

/// What a running script has gathered: the writes that it queued, and the
/// refusal that ends it, if one has come.
pub struct ScriptRun {
    /// The queued writes, in the order in which they were queued.
    pub outputs: Vec<WriteOutput>,
    /// The first refusal: of a write of the script's own, or of a task that it ran.
    pub refusal: Option<Error>,
}

impl ScriptRun {
    /// The run of a script that has done nothing yet.
    pub fn new() -> (run: Self)
        ensures
            run.outputs@ == Seq::<WriteOutput>::empty(),
            run.refusal is None,
    {
        ScriptRun { outputs: Vec::new(), refusal: None }
    }

    /// Notes a refusal, unless one is noted already.
    pub fn note(&mut self, reason: &Error)
        ensures
            final(self).outputs == old(self).outputs,
            refusal_view(final(self).refusal) == noted(refusal_view(old(self).refusal), reason@),
    {
        if self.refusal.is_none() {
            self.refusal = Some(reason.clone());
        }
    }

    /// Queues the write of `contents` to `name`, whose components are
    /// `parts`, where the path stays under the output directory. Otherwise
    /// the write is refused: nothing is queued, the refusal is noted, and the
    /// error names the path.
    pub fn queue(&mut self, parts: &Vec<PathPart>, name: String, contents: StoreObject) -> (queued:
        Result<(), Error>)
        ensures
            queued is Ok == stays_inside(parts@),
            queued is Ok ==> write_views(final(self).outputs@) == write_views(old(self).outputs@).push(
                (name@, contents@),
            ) && refusal_view(final(self).refusal) == refusal_view(old(self).refusal),
            queued matches Err(e) ==> final(self).outputs@ == old(self).outputs@ && e@ == traversal(
                name@,
            ) && refusal_view(final(self).refusal) == noted(
                refusal_view(old(self).refusal),
                traversal(name@),
            ),
    {
        match queue_output(&mut self.outputs, parts, name, contents) {
            Ok(done) => Ok(done),
            Err(e) => {
                self.note(&e);
                Err(e)
            },
        }
    }

    /// Queues the write of `contents` to the path `name` under the output
    /// directory. A path with a component that is neither a name nor `.` is
    /// refused: nothing is queued, the refusal is noted, and the error names
    /// the path.
    pub fn write_output(&mut self, name: String, contents: StoreObject) -> (queued: Result<(), Error>)
        ensures
            queued is Ok ==> write_views(final(self).outputs@) == write_views(old(self).outputs@).push(
                (name@, contents@),
            ) && refusal_view(final(self).refusal) == refusal_view(old(self).refusal),
            queued matches Err(e) ==> final(self).outputs@ == old(self).outputs@ && e@ == traversal(
                name@,
            ) && refusal_view(final(self).refusal) == noted(
                refusal_view(old(self).refusal),
                traversal(name@),
            ),
    {
        let parts = path_parts(name.as_str());
        self.queue(&parts, name, contents)
    }

    /// What the script gets from a task that it ran. An output is handed on
    /// as by `run_task`. A refused task refuses the script too: the refusal
    /// is noted, the queue stays, and the script gets the error.
    pub fn run_task(&mut self, answer: Outcome) -> (value: Result<RustValue, Error>)
        requires
            answer matches Outcome::Output(output) ==> output@ is File,
        ensures
            match answer {
                Outcome::Output(AnyOutput::File(Ok(file))) => value matches Ok(v) && v@ == file@.0
                    && write_views(final(self).outputs@) == write_views(old(self).outputs@) + file@.1
                    && refusal_view(final(self).refusal) == refusal_view(old(self).refusal),
                Outcome::Output(AnyOutput::File(Err(e))) => value matches Err(f) && f@ == e@ && final(self).outputs@ == old(self).outputs@ && refusal_view(final(self).refusal)
                    == refusal_view(old(self).refusal),
                Outcome::Output(_) => true,
                Outcome::Refused(e) => value matches Err(f) && f@ == e@ && final(self).outputs@ == old(self).outputs@ && refusal_view(final(self).refusal) == noted(
                    refusal_view(old(self).refusal),
                    e@,
                ),
            },
    {
        match answer {
            Outcome::Output(AnyOutput::File(output)) => run_task(&mut self.outputs, output),
            Outcome::Output(_) => vstd::pervasive::unreached(),
            Outcome::Refused(e) => {
                self.note(&e);
                Err(e)
            },
        }
    }

    /// How the producer of the script `key` ends, from how its evaluation
    /// ended. After a refusal it is refused, whatever the script made of the
    /// error: nothing that the script queued or exported is kept. Otherwise
    /// it returns the output of `RunFile::produce`.
    pub fn conclude(self, key: &RunFile, outcome: Result<RustValue, Error>) -> (end: Outcome)
        ensures
            match refusal_view(self.refusal) {
                Some(reason) => end matches Outcome::Refused(e) && e@ == reason,
                None => end matches Outcome::Output(output) && (match outcome {
                    Ok(value) => output@ == OutputSpec::File(
                        Ok((value@, write_views(self.outputs@))),
                    ),
                    Err(e) => output@ == OutputSpec::File(Err(run_error(key@, e@))),
                }),
            },
    {
        let ScriptRun { outputs, refusal } = self;
        match refusal {
            Some(reason) => Outcome::Refused(reason),
            None => Outcome::Output(key.produce(outcome, outputs)),
        }
    }
}

} // verus!
