//! What the producers of each kind compute, apart from the work that is done
//! outside: reading the file system, rendering, running a script.

use vstd::prelude::*;
use vstd::string::*;
use crate::context::QueryContext;
use crate::error::Error;
use crate::key::{ListDirectory, MarkdownToHtml, MinifyHtml, ReadFile};
use crate::object::{hex_text, Object};
use crate::output::{path_views, AnyOutput, OutputSpec};
use crate::to_hash::sha256;
use crate::value::StoreObject;

verus! {

/// Calls `String::from_utf8`. Trusted: the result is `Ok` exactly where
/// `bytes` are valid UTF-8, and then holds the text that they encode. Of the
/// message that stands for the error nothing is claimed.
#[verifier::external_body]
fn text_from_utf8(bytes: Vec<u8>) -> (text: Result<String, String>)
    ensures
        text is Ok == vstd::utf8::valid_utf8(bytes@),
        text matches Ok(s) ==> s@ == vstd::utf8::decode_utf8(bytes@),
{
    String::from_utf8(bytes).map_err(|e| e.to_string())
}

/// A copy of `bytes`.
pub fn clone_bytes(bytes: &Vec<u8>) -> (copy: Vec<u8>)
    ensures
        copy@ == bytes@,
{
    let mut copy: Vec<u8> = Vec::new();
    let mut i: usize = 0;
    while i < bytes.len()
        invariant
            i <= bytes.len(),
            copy@ == bytes@.subrange(0, i as int),
        decreases bytes.len() - i,
    {
        copy.push(bytes[i]);
        assert(bytes@.subrange(0, i as int).push(bytes@[i as int]) =~= bytes@.subrange(0, i + 1));
        i += 1;
    }
    assert(bytes@.subrange(0, bytes.len() as int) =~= bytes@);
    copy
}

/// The message for an object that the store does not hold.
pub open spec fn not_found(object: Seq<u8>) -> Seq<char> {
    "object "@ + hex_text(object) + " not found"@
}

impl StoreObject {
    /// A copy of the bytes that the handle stands for. A handle on content
    /// that the store does not hold gives an error that names the object.
    pub fn contents_as_bytes(&self, ctx: &QueryContext) -> (bytes: Result<Vec<u8>, Error>)
        requires
            ctx.wf(),
        ensures
            match bytes {
                Ok(found) => ctx.objects().contains_key(self@) && found@ == ctx.objects()[self@],
                Err(e) => !ctx.objects().contains_key(self@) && e@ == not_found(self@),
            },
    {
        match ctx.contents(&self.object) {
            Some(found) => Ok(clone_bytes(found)),
            None => {
                let mut message = "object ".to_owned();
                message.append(self.object.to_string().as_str());
                message.append(" not found");
                Err(Error::from_string(message))
            },
        }
    }

    /// The content that the handle stands for, as text. Content that is
    /// missing or is not valid UTF-8 gives an error.
    pub fn contents_as_string(&self, ctx: &QueryContext) -> (text: Result<String, Error>)
        requires
            ctx.wf(),
        ensures
            text is Ok == (ctx.objects().contains_key(self@) && vstd::utf8::valid_utf8(
                ctx.objects()[self@],
            )),
            text matches Ok(s) ==> s@ == vstd::utf8::decode_utf8(ctx.objects()[self@]),
            text matches Err(e) ==> (!ctx.objects().contains_key(self@) ==> e@ == not_found(self@)),
    {
        match self.contents_as_bytes(ctx) {
            Ok(bytes) => match text_from_utf8(bytes) {
                Ok(s) => Ok(s),
                Err(message) => Err(Error::from_string(message)),
            },
            Err(e) => Err(e),
        }
    }
}

impl ReadFile {
    /// The output of reading the file: the object that names `content`, which
    /// is stored, or the error that reading gave.
    pub fn produce(&self, ctx: &mut QueryContext, content: Result<Vec<u8>, Error>) -> (output: AnyOutput)
        requires
            old(ctx).wf(),
        ensures
            final(ctx).wf(),
            final(ctx)@ == old(ctx)@,
            match content {
                Ok(bytes) => {
                    &&& output@ == OutputSpec::Object(Ok(sha256(bytes@)))
                    &&& final(ctx).objects() == (if old(ctx).objects().contains_key(sha256(bytes@)) {
                        old(ctx).objects()
                    } else {
                        old(ctx).objects().insert(sha256(bytes@), bytes@)
                    })
                },
                Err(e) => output@ == OutputSpec::Object(Err(e@)) && final(ctx).objects() == old(
                    ctx,
                ).objects(),
            },
    {
        match content {
            Ok(bytes) => AnyOutput::Object(Ok(ctx.store(bytes))),
            Err(e) => AnyOutput::Object(Err(e)),
        }
    }
}

/// The place of the first error among `entries`, or their number where none
/// is an error.
pub open spec fn first_error(entries: Seq<Result<String, Error>>) -> int
    decreases entries.len(),
{
    if entries.len() == 0 {
        0
    } else if entries[0] is Err {
        0
    } else {
        1 + first_error(entries.subrange(1, entries.len() as int))
    }
}

/// The entries that a listing of `dir` keeps: all but `dir` itself, in their order.
pub open spec fn children(entries: Seq<Result<String, Error>>, dir: Seq<char>) -> Seq<Seq<char>>
    decreases entries.len(),
{
    if entries.len() == 0 {
        Seq::empty()
    } else {
        let rest = children(entries.drop_last(), dir);
        match entries.last() {
            Ok(path) => if path@ == dir {
                rest
            } else {
                rest.push(path@)
            },
            Err(_) => rest,
        }
    }
}

impl ListDirectory {
    /// The output of listing the directory, from what walking it gave, entry
    /// by entry and in the walk's order: the first error if there is one,
    /// otherwise every entry but the directory itself.
    pub fn produce(&self, entries: Vec<Result<String, Error>>) -> (output: AnyOutput)
        ensures
            first_error(entries@) < entries@.len() ==> output@ == OutputSpec::Paths(
                Err(entries@[first_error(entries@)]->Err_0@),
            ),
            first_error(entries@) >= entries@.len() ==> output@ == OutputSpec::Paths(
                Ok(children(entries@, self@)),
            ),
    {
        let mut kept: Vec<String> = Vec::new();
        let mut i: usize = 0;
        while i < entries.len()
            invariant
                i <= entries.len(),
                first_error(entries@.subrange(0, i as int)) == i,
                path_views(kept@) == children(entries@.subrange(0, i as int), self@),
            decreases entries.len() - i,
        {
            let ghost head = entries@.subrange(0, i + 1);
            proof {
                assert(head.drop_last() =~= entries@.subrange(0, i as int));
                assert(head.last() == entries@[i as int]);
                lemma_first_error_push(entries@.subrange(0, i as int), entries@[i as int]);
                assert(entries@.subrange(0, i as int).push(entries@[i as int]) =~= head);
            }
            match &entries[i] {
                Err(e) => {
                    proof {
                        lemma_first_error_prefix(entries@, i + 1);
                    }
                    return AnyOutput::Paths(Err(e.clone()));
                },
                Ok(path) => {
                    if !path.eq(&self.0) {
                        kept.push(path.clone());
                        assert(path_views(kept@) =~= children(head, self@));
                    } else {
                        assert(path_views(kept@) =~= children(head, self@));
                    }
                },
            }
            i += 1;
        }
        assert(entries@.subrange(0, entries@.len() as int) =~= entries@);
        AnyOutput::Paths(Ok(kept))
    }
}

/// Where the first error stands after one entry more.
pub proof fn lemma_first_error_push(entries: Seq<Result<String, Error>>, entry: Result<String, Error>)
    ensures
        first_error(entries) < entries.len() ==> first_error(entries.push(entry)) == first_error(
            entries,
        ),
        first_error(entries) >= entries.len() ==> first_error(entries) == entries.len()
            && first_error(entries.push(entry)) == (if entry is Err {
            entries.len() as int
        } else {
            entries.len() as int + 1
        }),
    decreases entries.len(),
{
    let pushed = entries.push(entry);
    if entries.len() == 0 {
        assert(pushed.subrange(1, 1) =~= Seq::<Result<String, Error>>::empty());
        assert(first_error(pushed.subrange(1, 1)) == 0);
    } else {
        let tail = entries.subrange(1, entries.len() as int);
        assert(pushed.subrange(1, pushed.len() as int) =~= tail.push(entry));
        lemma_first_error_push(tail, entry);
    }
}

/// An error within a prefix is the first error of the whole.
pub proof fn lemma_first_error_prefix(entries: Seq<Result<String, Error>>, n: int)
    requires
        0 <= n <= entries.len(),
        first_error(entries.subrange(0, n)) < n,
    ensures
        first_error(entries) == first_error(entries.subrange(0, n)),
    decreases entries.len() - n,
{
    if n == entries.len() {
        assert(entries.subrange(0, n) =~= entries);
    } else {
        lemma_first_error_push(entries.subrange(0, n), entries[n]);
        assert(entries.subrange(0, n).push(entries[n]) =~= entries.subrange(0, n + 1));
        lemma_first_error_prefix(entries, n + 1);
    }
}

/// The output of a transformation: the object that names `bytes`, which are
/// stored, or the error that the transformation or its input gave.
pub fn store_result(ctx: &mut QueryContext, bytes: Result<Vec<u8>, Error>) -> (output: AnyOutput)
    requires
        old(ctx).wf(),
    ensures
        final(ctx).wf(),
        final(ctx)@ == old(ctx)@,
        match bytes {
            Ok(stored) => {
                &&& output@ == OutputSpec::Object(Ok(sha256(stored@)))
                &&& final(ctx).objects() == (if old(ctx).objects().contains_key(sha256(stored@)) {
                    old(ctx).objects()
                } else {
                    old(ctx).objects().insert(sha256(stored@), stored@)
                })
            },
            Err(e) => output@ == OutputSpec::Object(Err(e@)) && final(ctx).objects() == old(
                ctx,
            ).objects(),
        },
{
    match bytes {
        Ok(stored) => AnyOutput::Object(Ok(ctx.store(stored))),
        Err(e) => AnyOutput::Object(Err(e)),
    }
}

/// Which extensions of Markdown the renderer reads and how it writes HTML.
/// What is not named here is switched off.
#[derive(Copy, Clone, PartialEq, Eq, Debug, Structural)]
pub struct MarkdownFlags {
    /// Text between tildes is struck through.
    pub strikethrough: bool,
    /// Tables.
    pub table: bool,
    /// Lists of tasks with check boxes.
    pub tasklist: bool,
    /// Footnotes.
    pub footnotes: bool,
    /// Mathematics between dollar signs.
    pub math_dollars: bool,
    /// Spoilers between double bars.
    pub spoiler: bool,
    /// Subtext.
    pub subtext: bool,
    /// Highlighted text between double equals signs.
    pub highlight: bool,
    /// Task lists inside table cells.
    pub tasklist_in_table: bool,
    /// Underlined headings are not read as headings.
    pub ignore_setext: bool,
    /// HTML in the source goes to the output as it is.
    pub raw_html: bool,
    /// Task lists get classes.
    pub tasklist_classes: bool,
}

/// The flags that pages are rendered with: every extension and option that
/// the flags name is on.
pub open spec fn rendering_flags() -> MarkdownFlags {
    MarkdownFlags {
        strikethrough: true,
        table: true,
        tasklist: true,
        footnotes: true,
        math_dollars: true,
        spoiler: true,
        subtext: true,
        highlight: true,
        tasklist_in_table: true,
        ignore_setext: true,
        raw_html: true,
        tasklist_classes: true,
    }
}

/// The flags that pages are rendered with.
pub fn markdown_flags() -> (flags: MarkdownFlags)
    ensures
        flags == rendering_flags(),
{
    MarkdownFlags {
        strikethrough: true,
        table: true,
        tasklist: true,
        footnotes: true,
        math_dollars: true,
        spoiler: true,
        subtext: true,
        highlight: true,
        tasklist_in_table: true,
        ignore_setext: true,
        raw_html: true,
        tasklist_classes: true,
    }
}

impl MarkdownToHtml {
    /// The Markdown to render: the stored content as text.
    pub fn source(&self, ctx: &QueryContext) -> (text: Result<String, Error>)
        requires
            ctx.wf(),
        ensures
            text is Ok == (ctx.objects().contains_key(self@) && vstd::utf8::valid_utf8(
                ctx.objects()[self@],
            )),
            text matches Ok(s) ==> s@ == vstd::utf8::decode_utf8(ctx.objects()[self@]),
            text matches Err(e) ==> (!ctx.objects().contains_key(self@) ==> e@ == not_found(self@)),
    {
        StoreObject { object: self.0.clone() }.contents_as_string(ctx)
    }

    /// The output of rendering: the object that names the HTML, which is
    /// stored as its UTF-8 bytes, or the error.
    pub fn produce(&self, ctx: &mut QueryContext, html: Result<String, Error>) -> (output: AnyOutput)
        requires
            old(ctx).wf(),
        ensures
            final(ctx).wf(),
            final(ctx)@ == old(ctx)@,
            match html {
                Ok(text) => {
                    let bytes = vstd::utf8::encode_utf8(text@);
                    &&& output@ == OutputSpec::Object(Ok(sha256(bytes)))
                    &&& final(ctx).objects() == (if old(ctx).objects().contains_key(sha256(bytes)) {
                        old(ctx).objects()
                    } else {
                        old(ctx).objects().insert(sha256(bytes), bytes)
                    })
                },
                Err(e) => output@ == OutputSpec::Object(Err(e@)) && final(ctx).objects() == old(
                    ctx,
                ).objects(),
            },
    {
        match html {
            Ok(text) => store_result(ctx, Ok(text.as_str().as_bytes_vec())),
            Err(e) => store_result(ctx, Err(e)),
        }
    }
}

/// What the minifier leaves alone and what it minifies along with the HTML.
#[derive(Copy, Clone, PartialEq, Eq, Debug, Structural)]
pub struct MinifyFlags {
    /// Closing tags stay, also where HTML lets them go.
    pub keep_closing_tags: bool,
    /// Comments stay.
    pub keep_comments: bool,
    /// The opening tags of `html` and `head` stay.
    pub keep_html_and_head_opening_tags: bool,
    /// Style sheets in the page are minified too.
    pub minify_css: bool,
    /// Scripts in the page are minified too.
    pub minify_js: bool,
}

/// The flags that pages are minified with: tags and comments stay, style
/// sheets and scripts are minified.
pub open spec fn page_flags() -> MinifyFlags {
    MinifyFlags {
        keep_closing_tags: true,
        keep_comments: true,
        keep_html_and_head_opening_tags: true,
        minify_css: true,
        minify_js: true,
    }
}

/// The flags that pages are minified with.
pub fn minify_flags() -> (flags: MinifyFlags)
    ensures
        flags == page_flags(),
{
    MinifyFlags {
        keep_closing_tags: true,
        keep_comments: true,
        keep_html_and_head_opening_tags: true,
        minify_css: true,
        minify_js: true,
    }
}

/// What the `minify_html` crate makes of a page under the given flags.
pub uninterp spec fn minified(html: Seq<u8>, flags: MinifyFlags) -> Seq<u8>;

/// Calls `minify_html::minify` on the bytes of a text, with a configuration
/// that holds `flags` and is otherwise the default. Trusted: the result
/// depends on the page and the flags alone; the contract names it `minified`
/// of the text's UTF-8 bytes and the flags. The page comes as text, because
/// the crate unwinds on style sheets that are no UTF-8.
#[verifier::external_body]
fn minify(html: &str, flags: MinifyFlags) -> (small: Vec<u8>)
    ensures
        small@ == minified(vstd::utf8::encode_utf8(html@), flags),
{
    let mut cfg = minify_html::Cfg::new();
    cfg.keep_closing_tags = flags.keep_closing_tags;
    cfg.keep_comments = flags.keep_comments;
    cfg.keep_html_and_head_opening_tags = flags.keep_html_and_head_opening_tags;
    cfg.minify_css = flags.minify_css;
    cfg.minify_js = flags.minify_js;
    minify_html::minify(html.as_bytes(), &cfg)
}

impl MinifyHtml {
    /// The HTML to minify: the stored content as text.
    pub fn source(&self, ctx: &QueryContext) -> (text: Result<String, Error>)
        requires
            ctx.wf(),
        ensures
            text is Ok == (ctx.objects().contains_key(self@) && vstd::utf8::valid_utf8(
                ctx.objects()[self@],
            )),
            text matches Ok(s) ==> s@ == vstd::utf8::decode_utf8(ctx.objects()[self@]),
            text matches Err(e) ==> (!ctx.objects().contains_key(self@) ==> e@ == not_found(self@)),
    {
        StoreObject { object: self.0.clone() }.contents_as_string(ctx)
    }

    /// The output of minifying, from the minified bytes or the error: the
    /// object that names the bytes, which are stored, or the error.
    pub fn output(&self, ctx: &mut QueryContext, small: Result<Vec<u8>, Error>) -> (output: AnyOutput)
        requires
            old(ctx).wf(),
        ensures
            final(ctx).wf(),
            final(ctx)@ == old(ctx)@,
            match small {
                Ok(bytes) => {
                    &&& output@ == OutputSpec::Object(Ok(sha256(bytes@)))
                    &&& final(ctx).objects() == (if old(ctx).objects().contains_key(sha256(bytes@)) {
                        old(ctx).objects()
                    } else {
                        old(ctx).objects().insert(sha256(bytes@), bytes@)
                    })
                },
                Err(e) => output@ == OutputSpec::Object(Err(e@)) && final(ctx).objects() == old(
                    ctx,
                ).objects(),
            },
    {
        store_result(ctx, small)
    }

    /// Minifies the stored HTML and stores the result. Content that is
    /// missing or is no text gives an error as output, and the store stays.
    pub fn produce(&self, ctx: &mut QueryContext) -> (output: AnyOutput)
        requires
            old(ctx).wf(),
        ensures
            final(ctx).wf(),
            final(ctx)@ == old(ctx)@,
            old(ctx).objects().contains_key(self@) && vstd::utf8::valid_utf8(old(ctx).objects()[self@])
                ==> {
                let small = minified(old(ctx).objects()[self@], page_flags());
                &&& output@ == OutputSpec::Object(Ok(sha256(small)))
                &&& final(ctx).objects() == (if old(ctx).objects().contains_key(sha256(small)) {
                    old(ctx).objects()
                } else {
                    old(ctx).objects().insert(sha256(small), small)
                })
            },
            !(old(ctx).objects().contains_key(self@) && vstd::utf8::valid_utf8(
                old(ctx).objects()[self@],
            )) ==> output@ is Object && output@->Object_0 is Err && final(ctx).objects() == old(
                ctx,
            ).objects(),
            !old(ctx).objects().contains_key(self@) ==> output@ == OutputSpec::Object(
                Err(not_found(self@)),
            ),
    {
        match self.source(ctx) {
            Ok(text) => {
                proof {
                    vstd::utf8::decode_utf8_encode_utf8(ctx.objects()[self@]);
                }
                let small = minify(text.as_str(), minify_flags());
                self.output(ctx, Ok(small))
            },
            Err(e) => self.output(ctx, Err(e)),
        }
    }
}

} // verus!
