use query::error::Error;
use query::key::{ListDirectory, MarkdownToHtml, MinifyHtml, QueryKey, ReadFile, RunFile};
use query::object::Object;
use query::output::{AnyOutput, FileOutput, WriteOutput};
use query::text::{decimal_text, natural_text};
use query::to_hash::{hash_eq, Hasher, ToHash};
use query::value::{i32_le_bytes, RustValue, StoreObject};

fn sha256_of(bytes: &[u8]) -> [u8; 32] {
    let mut hasher = Hasher::new();
    hasher.update(bytes);
    hasher.finalize()
}

fn tagged(parts: &[&[u8]]) -> [u8; 32] {
    sha256_of(&parts.concat())
}

#[test]
fn values_are_written_as_scripts_write_them() {
    assert_eq!(RustValue::Undefined.to_string(), "undefined");
    assert_eq!(RustValue::Null.to_string(), "null");
    assert_eq!(RustValue::Bool(true).to_string(), "true");
    assert_eq!(RustValue::Bool(false).to_string(), "false");
    assert_eq!(RustValue::Int(0).to_string(), "0");
    assert_eq!(RustValue::Int(-17).to_string(), "-17");
    assert_eq!(RustValue::String("s".to_string()).to_string(), "\"s\"");
    assert_eq!(RustValue::Array(vec![]).to_string(), "[]");
    let nested = RustValue::Array(vec![
        RustValue::Int(1),
        RustValue::String("a".to_string()),
        RustValue::Array(vec![RustValue::Null]),
    ]);
    assert_eq!(nested.to_string(), "[1,\"a\",[null]]");
    let stored = RustValue::Store(StoreObject { object: Object::from_hash([0x1f; 32]) });
    assert_eq!(stored.to_string(), format!("objects/{}", "1f".repeat(32)));
}

#[test]
fn integers_are_written_in_decimal() {
    assert_eq!(decimal_text(i32::MAX), "2147483647");
    assert_eq!(decimal_text(i32::MIN), "-2147483648");
    assert_eq!(decimal_text(10), "10");
    assert_eq!(decimal_text(-9), "-9");
    assert_eq!(natural_text(0), "0");
    assert_eq!(natural_text(u64::MAX), "18446744073709551615");
}

#[test]
fn keys_are_written_with_kind_and_parameter() {
    assert_eq!(QueryKey::ReadFile(ReadFile("src/a.md".to_string())).to_string(), "read_file(\"src/a.md\")");
    assert_eq!(QueryKey::ListDirectory(ListDirectory("src".to_string())).to_string(), "list_directory(\"src\")");
    assert_eq!(
        QueryKey::MinifyHtml(MinifyHtml(Object::from_hash([0u8; 32]))).to_string(),
        format!("minify_html({})", "00".repeat(32))
    );
    assert_eq!(
        QueryKey::MarkdownToHtml(MarkdownToHtml(Object::from_hash([0xff; 32]))).to_string(),
        format!("markdown_to_html({})", "ff".repeat(32))
    );
    assert_eq!(QueryKey::RunFile(RunFile { file: "build.js".to_string(), args: None }).to_string(), "build.js()");
    assert_eq!(
        QueryKey::RunFile(RunFile { file: "build.js".to_string(), args: Some(RustValue::Int(3)) }).to_string(),
        "build.js(3)"
    );
}

#[test]
fn paths_in_keys_are_quoted_and_escaped() {
    assert_eq!(QueryKey::ReadFile(ReadFile("a\"b\n".to_string())).to_string(), "read_file(\"a\\\"b\\n\")");
}

#[test]
fn integer_bytes_are_little_endian_twos_complement() {
    assert_eq!(i32_le_bytes(1), [1, 0, 0, 0]);
    assert_eq!(i32_le_bytes(0x01020304), [4, 3, 2, 1]);
    assert_eq!(i32_le_bytes(-1), [255, 255, 255, 255]);
    assert_eq!(i32_le_bytes(i32::MIN), [0, 0, 0, 128]);
    assert_eq!(i32_le_bytes(-2), (-2i32).to_le_bytes());
}

#[test]
fn values_hash_as_their_tagged_encoding() {
    assert_eq!(RustValue::Undefined.to_hash(), sha256_of(b"RustValue::Undefined"));
    assert_eq!(RustValue::Null.to_hash(), sha256_of(b"RustValue::Null"));
    assert_eq!(RustValue::Bool(true).to_hash(), tagged(&[b"RustValue::Bool(", &[255], b")"]));
    assert_eq!(RustValue::Bool(false).to_hash(), tagged(&[b"RustValue::Bool(", &[0], b")"]));
    assert_eq!(RustValue::Int(-2).to_hash(), tagged(&[b"RustValue::Int(", &(-2i32).to_le_bytes(), b")"]));
    assert_eq!(RustValue::String("é".to_string()).to_hash(), tagged(&[b"RustValue::String(", "é".as_bytes(), b")"]));
    let array = RustValue::Array(vec![RustValue::Null, RustValue::Int(1)]);
    assert_eq!(
        array.to_hash(),
        tagged(&[b"RustValue::Array(", b"RustValue::Null", b"RustValue::Int(", &1i32.to_le_bytes(), b")", b")"])
    );
    let stored = RustValue::Store(StoreObject { object: Object::from_hash([3u8; 32]) });
    assert_eq!(stored.to_hash(), tagged(&[b"RustValue::Store(", b"Object(", &[3u8; 32], b")", b")"]));
}

#[test]
fn values_of_different_kinds_hash_differently() {
    assert_ne!(RustValue::Undefined.to_hash(), RustValue::Null.to_hash());
    assert_ne!(RustValue::String("1".to_string()).to_hash(), RustValue::Int(1).to_hash());
    assert_ne!(RustValue::String("a".to_string()).to_hash(), String::from("a").to_hash());
    assert_ne!(Error::new("a").to_hash(), String::from("a").to_hash());
}

#[test]
fn standard_values_hash_as_their_tagged_encoding() {
    assert_eq!(().to_hash(), sha256_of(b"()"));
    assert_eq!(true.to_hash(), tagged(&[b"bool", &[1]]));
    assert_eq!(false.to_hash(), tagged(&[b"bool", &[0]]));
    assert_eq!([5u8; 32].to_hash(), tagged(&[b"Hash(", &[5u8; 32], b")"]));
    assert_eq!(Box::new(String::from("x")).to_hash(), sha256_of(b"BoxString(x)"));
    assert_eq!(Some(String::from("x")).to_hash(), sha256_of(b"Option::Some(String(x))"));
    assert_eq!(None::<String>.to_hash(), sha256_of(b"Option::None"));
    let ok: Result<String, Error> = Ok(String::from("v"));
    let err: Result<String, Error> = Err(Error::new("e"));
    assert_eq!(ok.to_hash(), sha256_of(b"Result::Ok(String(v))"));
    assert_eq!(err.to_hash(), sha256_of(b"Result::Err(Error(e))"));
    assert_eq!(Vec::<String>::new().to_hash(), sha256_of(b"Vec[]"));
}

#[test]
fn shared_values_hash_with_the_tag_of_their_pointer() {
    assert_eq!(std::rc::Rc::new(String::from("x")).to_hash(), sha256_of(b"RcString(x)"));
    assert_eq!(std::sync::Arc::new(String::from("x")).to_hash(), sha256_of(b"ArcString(x)"));
    assert_ne!(std::rc::Rc::new(String::from("x")).to_hash(), Box::new(String::from("x")).to_hash());
}

#[test]
fn tuples_hash_between_brackets_with_commas() {
    assert_eq!((String::from("a"), true).to_hash(), tagged(&[b"(String(a),bool", &[1], b")"]));
    assert_eq!(((), String::from("b"), ()).to_hash(), sha256_of(b"((),String(b),())"));
    assert_ne!((String::from("a"), String::from("b")).to_hash(), vec![String::from("a"), String::from("b")].to_hash());
}

#[test]
fn hasher_takes_in_piece_by_piece() {
    let mut pieces = Hasher::new();
    pieces.update(b"ab");
    pieces.update_tag("c");
    pieces.update(b"");
    assert_eq!(pieces.finalize(), sha256_of(b"abc"));
    let mut fed = Hasher::new();
    String::from("a").run_hash(&mut fed);
    String::from("b").run_hash(&mut fed);
    assert_eq!(fed.finalize(), sha256_of(b"String(a)String(b)"));
    assert!(hash_eq(&sha256_of(b"a"), &sha256_of(b"a")));
    assert!(!hash_eq(&sha256_of(b"a"), &sha256_of(b"b")));
}

#[test]
fn queued_write_hashes_as_path_and_object() {
    let write = WriteOutput { path: "a".to_string(), object: Object::from_hash([1u8; 32]) };
    assert_eq!(write.to_hash(), tagged(&[b"WriteOutput(", b"PathBuf(a)", b"b)", b"Object(", &[1u8; 32], b")"]));
}

#[test]
fn script_output_hashes_as_value_and_writes() {
    let file = FileOutput {
        value: RustValue::Null,
        outputs: vec![WriteOutput { path: "a".to_string(), object: Object::from_hash([1u8; 32]) }],
    };
    let expected = tagged(&[
        b"FileOutput(",
        b"RustValue::Null",
        b")(",
        b"Vec[",
        b"WriteOutput(PathBuf(a)b)Object(",
        &[1u8; 32],
        b")",
        b"]",
        b")",
    ]);
    assert_eq!(file.to_hash(), expected);
    assert_eq!(AnyOutput::File(Ok(file)).to_hash(), tagged(&[b"Result::Ok(", &{
        let mut inner = Vec::new();
        inner.extend_from_slice(b"FileOutput(RustValue::Null)(Vec[WriteOutput(PathBuf(a)b)Object(");
        inner.extend_from_slice(&[1u8; 32]);
        inner.extend_from_slice(b")])");
        inner
    }, b")"]));
}

#[test]
fn output_hashes_as_the_value_that_it_holds() {
    let object: Result<Object, Error> = Ok(Object::from_hash([4u8; 32]));
    assert_eq!(AnyOutput::Object(Ok(Object::from_hash([4u8; 32]))).to_hash(), object.to_hash());
    assert_eq!(AnyOutput::Object(Err(Error::new("e"))).to_hash(), sha256_of(b"Result::Err(Error(e))"));
    assert_eq!(AnyOutput::Paths(Err(Error::new("e"))).to_hash(), sha256_of(b"Result::Err(Error(e))"));
    assert_eq!(
        AnyOutput::Paths(Ok(vec!["a".to_string(), "b".to_string()])).to_hash(),
        sha256_of(b"Result::Ok(Vec[PathBuf(a)PathBuf(b)])")
    );
}

#[test]
fn union_hands_back_what_was_put_in() {
    let object: Result<Object, Error> = Ok(Object::from_hash([4u8; 32]));
    let any = AnyOutput::new(object.clone());
    assert!(matches!(&any, AnyOutput::Object(Ok(held)) if *held == Object::from_hash([4u8; 32])));
    assert_eq!(any.clone().downcast::<Result<Object, Error>>(), Some(object));
    assert_eq!(any.downcast::<Result<Vec<String>, Error>>(), None);
    let paths: Result<Vec<String>, Error> = Ok(vec!["a".to_string()]);
    assert_eq!(AnyOutput::new(paths.clone()).downcast::<Result<Vec<String>, Error>>(), Some(paths));
    let file: Result<FileOutput, Error> = Err(Error::new("x"));
    assert!(matches!(AnyOutput::new(file), AnyOutput::File(Err(e)) if e.message() == "x"));
}

#[test]
fn output_fits_the_kind_of_its_key() {
    let object = AnyOutput::Object(Err(Error::new("x")));
    let paths = AnyOutput::Paths(Ok(vec![]));
    let file = AnyOutput::File(Err(Error::new("x")));
    let read = QueryKey::ReadFile(ReadFile("a".to_string()));
    let list = QueryKey::ListDirectory(ListDirectory("a".to_string()));
    let run = QueryKey::RunFile(RunFile { file: "a".to_string(), args: None });
    let minify = QueryKey::MinifyHtml(MinifyHtml(Object::from_hash([0u8; 32])));
    let render = QueryKey::MarkdownToHtml(MarkdownToHtml(Object::from_hash([0u8; 32])));
    assert!(object.fits(&read) && object.fits(&minify) && object.fits(&render));
    assert!(!object.fits(&list) && !object.fits(&run));
    assert!(paths.fits(&list) && !paths.fits(&read) && !paths.fits(&run));
    assert!(file.fits(&run) && !file.fits(&read) && !file.fits(&list));
}

#[test]
fn copies_are_equal_to_what_was_copied() {
    let value = RustValue::Array(vec![RustValue::String("a".to_string()), RustValue::Array(vec![RustValue::Int(2)])]);
    assert_eq!(value.clone(), value);
    let key = QueryKey::RunFile(RunFile { file: "f".to_string(), args: Some(value) });
    assert_eq!(key.clone(), key);
    let error = Error::new("e");
    assert_eq!(error.clone(), error);
    assert_eq!(error.to_string(), "e");
    assert_eq!(Error::from_string("m".to_string()).message(), "m");
}
