//! How keys and values are written out for people to read.

use vstd::prelude::*;
use vstd::string::*;
use crate::key::{KeySpec, QueryKey};
use crate::object::{hex_digit, hex_digit_text, hex_text};
use crate::value::{RustValue, ValueSpec};

verus! {

/// `n` in decimal, with a minus sign where it is negative.
pub open spec fn decimal(n: int) -> Seq<char>
    decreases
            (if n < 0 {
                -n + 1
            } else {
                n
            }),
{
    if n < 0 {
        seq!['-'] + decimal(-n)
    } else if n < 10 {
        seq![hex_digit(n)]
    } else {
        decimal(n / 10) + seq![hex_digit(n % 10)]
    }
}

/// `n` in decimal.
pub fn natural_text(n: u64) -> (text: String)
    ensures
        text@ == decimal(n as int),
    decreases n,
{
    if n < 10 {
        hex_digit_text(n as u8).to_owned()
    } else {
        let mut text = natural_text(n / 10);
        text.append(hex_digit_text((n % 10) as u8));
        text
    }
}

/// `n` in decimal, with a minus sign where it is negative.
pub fn decimal_text(n: i32) -> (text: String)
    ensures
        text@ == decimal(n as int),
{
    if n < 0 {
        proof {
            reveal_strlit("-");
        }
        let mut text = "-".to_owned();
        assert("-"@ =~= seq!['-']);
        let magnitude: u64 = (-(n as i64)) as u64;
        text.append(natural_text(magnitude).as_str());
        text
    } else {
        natural_text(n as u64)
    }
}

/// The parts with a comma between each two.
pub open spec fn comma_joined(parts: Seq<Seq<char>>) -> Seq<char>
    decreases parts.len(),
{
    if parts.len() == 0 {
        Seq::empty()
    } else if parts.len() == 1 {
        parts[0]
    } else {
        comma_joined(parts.drop_last()) + seq![','] + parts.last()
    }
}

/// How a value is written out: `undefined`, `null`, `true` or `false`, an
/// integer in decimal, a string between double quotes, an array between
/// square brackets with commas, and an object as `objects/` and its name.
pub open spec fn value_text(v: ValueSpec) -> Seq<char>
    decreases v,
{
    match v {
        ValueSpec::Undefined => "undefined"@,
        ValueSpec::Null => "null"@,
        ValueSpec::Bool(b) => if b {
            "true"@
        } else {
            "false"@
        },
        ValueSpec::Int(i) => decimal(i),
        ValueSpec::String(s) => seq!['"'] + s + seq!['"'],
        ValueSpec::Array(vs) => seq!['['] + comma_joined(value_texts(vs)) + seq![']'],
        ValueSpec::Store(o) => "objects/"@ + hex_text(o),
    }
}

/// How each of the values is written out.
pub open spec fn value_texts(vs: Seq<ValueSpec>) -> Seq<Seq<char>>
    decreases vs,
{
    Seq::new(
        vs.len(),
        |i: int|
            if 0 <= i < vs.len() {
                value_text(vs[i])
            } else {
                Seq::<char>::empty()
            },
    )
}

impl RustValue {
    /// The value written out, as `value_text` says.
    #[verifier::loop_isolation(false)]
    pub fn to_string(&self) -> (text: String)
        ensures
            text@ == value_text(self@),
        decreases self,
    {
        match self {
            RustValue::Undefined => "undefined".to_owned(),
            RustValue::Null => "null".to_owned(),
            RustValue::Bool(b) => if *b {
                "true".to_owned()
            } else {
                "false".to_owned()
            },
            RustValue::Int(i) => decimal_text(*i),
            RustValue::String(s) => {
                proof {
                    reveal_strlit("\"");
                }
                assert("\""@ =~= seq!['"']);
                let mut text = "\"".to_owned();
                text.append(s.as_str());
                text.append("\"");
                text
            },
            RustValue::Array(vs) => {
                proof {
                    reveal_strlit("[");
                    reveal_strlit("]");
                    reveal_strlit(",");
                }
                assert("["@ =~= seq!['[']);
                assert("]"@ =~= seq![']']);
                assert(","@ =~= seq![',']);
                let ghost parts = value_texts(crate::value::views(vs@));
                let mut text = "[".to_owned();
                let mut i: usize = 0;
                assert(parts.subrange(0, 0) =~= Seq::<Seq<char>>::empty());
                while i < vs.len()
                    invariant
                        i <= vs.len(),
                        text@ == seq!['['] + comma_joined(parts.subrange(0, i as int)),
                    decreases vs.len() - i,
                {
                    if i > 0 {
                        text.append(",");
                    }
                    let item = vs[i].to_string();
                    text.append(item.as_str());
                    proof {
                        let sub = parts.subrange(0, i + 1);
                        assert(sub.drop_last() =~= parts.subrange(0, i as int));
                        assert(sub.last() == parts[i as int]);
                        assert(parts[i as int] == value_text(vs@[i as int]@));
                        if i == 0 {
                            assert(comma_joined(sub) == sub[0]);
                            assert(comma_joined(parts.subrange(0, 0)) =~= Seq::<char>::empty());
                        }
                        assert(text@ =~= seq!['['] + comma_joined(sub));
                    }
                    i += 1;
                }
                assert(parts.subrange(0, vs.len() as int) =~= parts);
                assert(crate::value::views(vs@) =~= self@->Array_0);
                text.append("]");
                text
            },
            RustValue::Store(o) => {
                let mut text = "objects/".to_owned();
                text.append(o.object.to_string().as_str());
                text
            },
        }
    }
}

/// How `format!` writes a text with `{:?}`: between double quotes, with what
/// cannot stand there escaped.
pub uninterp spec fn quoted(text: Seq<char>) -> Seq<char>;

/// Formats `text` with `{:?}`. Trusted: the result is the debug form of the
/// text, which the contract names `quoted(text@)`.
#[verifier::external_body]
fn debug_quoted(text: &str) -> (shown: String)
    ensures
        shown@ == quoted(text@),
{
    format!("{:?}", text)
}

/// How optional arguments are written out: as the value, or as nothing.
pub open spec fn args_text(args: Option<ValueSpec>) -> Seq<char> {
    match args {
        Some(value) => value_text(value),
        None => Seq::empty(),
    }
}

/// How a key is written out: the kind and, in brackets, the parameter; for a
/// script, its path and, in brackets, its arguments.
pub open spec fn key_text(key: KeySpec) -> Seq<char> {
    match key {
        KeySpec::ReadFile(path) => "read_file("@ + quoted(path) + ")"@,
        KeySpec::ListDirectory(path) => "list_directory("@ + quoted(path) + ")"@,
        KeySpec::RunFile(file, args) => file + "("@ + args_text(args) + ")"@,
        KeySpec::MinifyHtml(object) => "minify_html("@ + hex_text(object) + ")"@,
        KeySpec::MarkdownToHtml(object) => "markdown_to_html("@ + hex_text(object) + ")"@,
    }
}

/// The arguments written out, or nothing where there are none.
pub fn args_to_string(args: &Option<RustValue>) -> (text: String)
    ensures
        text@ == args_text(crate::key::args_view(*args)),
{
    match args {
        Some(value) => value.to_string(),
        None => String::new(),
    }
}

impl QueryKey {
    /// The key written out, as `key_text` says.
    pub fn to_string(&self) -> (text: String)
        ensures
            text@ == key_text(self@),
    {
        match self {
            QueryKey::ReadFile(k) => {
                let mut text = "read_file(".to_owned();
                text.append(debug_quoted(k.0.as_str()).as_str());
                text.append(")");
                text
            },
            QueryKey::ListDirectory(k) => {
                let mut text = "list_directory(".to_owned();
                text.append(debug_quoted(k.0.as_str()).as_str());
                text.append(")");
                text
            },
            QueryKey::RunFile(k) => {
                let mut text = k.file.clone();
                text.append("(");
                text.append(args_to_string(&k.args).as_str());
                text.append(")");
                text
            },
            QueryKey::MinifyHtml(k) => {
                let mut text = "minify_html(".to_owned();
                text.append(k.0.to_string().as_str());
                text.append(")");
                text
            },
            QueryKey::MarkdownToHtml(k) => {
                let mut text = "markdown_to_html(".to_owned();
                text.append(k.0.to_string().as_str());
                text.append(")");
                text
            },
        }
    }
}

/// The lines for the dependencies `deps`: each indented, on a line of its own.
pub open spec fn deps_text(deps: Seq<KeySpec>) -> Seq<char>
    decreases deps.len(),
{
    if deps.len() == 0 {
        Seq::empty()
    } else {
        deps_text(deps.drop_last()) + "    "@ + key_text(deps.last()) + "\n"@
    }
}

/// The lines for a graph: each node on a line of its own, followed by the
/// lines for its dependencies.
pub open spec fn graph_text(entries: Seq<(KeySpec, Seq<KeySpec>)>) -> Seq<char>
    decreases entries.len(),
{
    if entries.len() == 0 {
        Seq::empty()
    } else {
        graph_text(entries.drop_last()) + key_text(entries.last().0) + "\n"@ + deps_text(
            entries.last().1,
        )
    }
}

/// The graph written out, as `graph_text` says.
pub fn graph_to_string(entries: &Vec<(QueryKey, Vec<QueryKey>)>) -> (text: String)
    ensures
        text@ == graph_text(crate::persist::graph_entries(entries@)),
{
    let ghost views = crate::persist::graph_entries(entries@);
    let mut text = String::new();
    let mut i: usize = 0;
    assert(views.subrange(0, 0) =~= Seq::<(KeySpec, Seq<KeySpec>)>::empty());
    while i < entries.len()
        invariant
            i <= entries.len(),
            views == crate::persist::graph_entries(entries@),
            text@ == graph_text(views.subrange(0, i as int)),
        decreases entries.len() - i,
    {
        let ghost before = text@;
        let ghost deps = views[i as int].1;
        text.append(entries[i].0.to_string().as_str());
        text.append("\n");
        let list = &entries[i].1;
        let mut j: usize = 0;
        assert(deps.subrange(0, 0) =~= Seq::<KeySpec>::empty());
        while j < list.len()
            invariant
                j <= list.len(),
                deps == crate::context::keys_view(list@),
                text@ == before + key_text(views[i as int].0) + "\n"@ + deps_text(
                    deps.subrange(0, j as int),
                ),
            decreases list.len() - j,
        {
            text.append("    ");
            text.append(list[j].to_string().as_str());
            text.append("\n");
            proof {
                let sub = deps.subrange(0, j + 1);
                assert(sub.drop_last() =~= deps.subrange(0, j as int));
                assert(sub.last() == list@[j as int]@);
                assert(text@ =~= before + key_text(views[i as int].0) + "\n"@ + deps_text(sub));
            }
            j += 1;
        }
        proof {
            assert(deps.subrange(0, list.len() as int) =~= deps);
            let sub = views.subrange(0, i + 1);
            assert(sub.drop_last() =~= views.subrange(0, i as int));
            assert(sub.last() == views[i as int]);
        }
        i += 1;
    }
    assert(views.subrange(0, entries.len() as int) =~= views);
    text
}

} // verus!
