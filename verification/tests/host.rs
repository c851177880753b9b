use query::context::QueryContext;
use query::error::Error;
use query::host::{
    file_type, parts_allowed, push_outputs, queue_output, run_task, store, to_relative_path, write_output, PathPart,
    ScriptRun,
};
use query::key::{ListDirectory, MarkdownToHtml, MinifyHtml, ReadFile, RunFile};
use query::object::Object;
use query::output::{AnyOutput, FileOutput, Outcome, WriteOutput};
use query::to_hash::Hasher;
use query::value::{RustValue, StoreObject};

fn sha256_of(bytes: &[u8]) -> [u8; 32] {
    let mut hasher = Hasher::new();
    hasher.update(bytes);
    hasher.finalize()
}

fn handle(byte: u8) -> StoreObject {
    StoreObject { object: Object::from_hash([byte; 32]) }
}

fn paths(queue: &[WriteOutput]) -> Vec<String> {
    queue.iter().map(|write| write.path.clone()).collect()
}

#[test]
fn write_outside_the_output_directory_is_refused() {
    let mut queue = Vec::new();
    let refused = write_output(&mut queue, "../evil".to_string(), handle(1));
    assert_eq!(refused, Err(Error::new("directory traversal ../evil")));
    assert!(queue.is_empty());
}

#[test]
fn write_to_an_absolute_path_is_refused() {
    let mut queue = Vec::new();
    assert!(write_output(&mut queue, "/etc/passwd".to_string(), handle(1)).is_err());
    assert!(write_output(&mut queue, "a/../../b".to_string(), handle(1)).is_err());
    assert!(queue.is_empty());
}

#[test]
fn write_under_the_output_directory_is_queued() {
    let mut queue = Vec::new();
    assert_eq!(write_output(&mut queue, "a.html".to_string(), handle(1)), Ok(()));
    assert_eq!(write_output(&mut queue, "./sub/b.html".to_string(), handle(2)), Ok(()));
    assert_eq!(paths(&queue), vec!["a.html", "./sub/b.html"]);
    assert_eq!(queue[1].object, Object::from_hash([2u8; 32]));
}

#[test]
fn only_names_and_the_current_directory_are_allowed() {
    assert!(parts_allowed(&vec![]));
    assert!(parts_allowed(&vec![PathPart::CurDir, PathPart::Normal, PathPart::Normal]));
    assert!(!parts_allowed(&vec![PathPart::Normal, PathPart::ParentDir]));
    assert!(!parts_allowed(&vec![PathPart::RootDir, PathPart::Normal]));
    assert!(!parts_allowed(&vec![PathPart::Prefix]));
    let mut queue = Vec::new();
    let refused = queue_output(&mut queue, &vec![PathPart::ParentDir], "x".to_string(), handle(1));
    assert_eq!(refused, Err(Error::new("directory traversal x")));
    assert!(queue.is_empty());
    assert_eq!(queue_output(&mut queue, &vec![PathPart::Normal], "x".to_string(), handle(1)), Ok(()));
    assert_eq!(paths(&queue), vec!["x"]);
}

#[test]
fn script_that_was_refused_a_write_ends_refused() {
    let key = RunFile { file: "build.js".to_string(), args: None };
    let mut run = ScriptRun::new();
    assert_eq!(run.write_output("ok.html".to_string(), handle(1)), Ok(()));
    assert_eq!(run.write_output("../evil".to_string(), handle(2)), Err(Error::new("directory traversal ../evil")));
    // the script may go on, and queue more, and end well: it is refused all the same
    assert_eq!(run.write_output("later.html".to_string(), handle(3)), Ok(()));
    assert_eq!(run.write_output("/etc/x".to_string(), handle(4)), Err(Error::new("directory traversal /etc/x")));
    assert_eq!(paths(&run.outputs), vec!["ok.html", "later.html"]);
    match run.conclude(&key, Ok(RustValue::Null)) {
        Outcome::Refused(e) => assert_eq!(e.message(), "directory traversal ../evil"),
        other => panic!("not refused: {:?}", other),
    }
}

#[test]
fn script_without_refusal_ends_with_its_output() {
    let key = RunFile { file: "build.js".to_string(), args: None };
    let mut run = ScriptRun::new();
    assert_eq!(run.queue(&vec![PathPart::Normal], "a".to_string(), handle(1)), Ok(()));
    assert!(run.refusal.is_none());
    match run.conclude(&key, Ok(RustValue::Int(1))) {
        Outcome::Output(AnyOutput::File(Ok(file))) => {
            assert_eq!(file.value, RustValue::Int(1));
            assert_eq!(paths(&file.outputs), vec!["a"]);
        }
        other => panic!("no output: {:?}", other),
    }
    match ScriptRun::new().conclude(&key, Err(Error::new("boom"))) {
        Outcome::Output(AnyOutput::File(Err(e))) => assert_eq!(e.message(), "error running build.js():\n\tboom"),
        other => panic!("no failed output: {:?}", other),
    }
    let mut refused = ScriptRun::new();
    assert!(refused.queue(&vec![PathPart::ParentDir], "x".to_string(), handle(1)).is_err());
    assert_eq!(refused.refusal, Some(Error::new("directory traversal x")));
}

#[test]
fn refused_task_refuses_the_script_that_ran_it() {
    let key = RunFile { file: "build.js".to_string(), args: None };
    let mut run = ScriptRun::new();
    let file = FileOutput {
        value: RustValue::Int(7),
        outputs: vec![WriteOutput { path: "one".to_string(), object: Object::from_hash([1u8; 32]) }],
    };
    assert_eq!(run.run_task(Outcome::Output(AnyOutput::File(Ok(file)))), Ok(RustValue::Int(7)));
    assert_eq!(run.run_task(Outcome::Output(AnyOutput::File(Err(Error::new("failed"))))), Err(Error::new("failed")));
    assert!(run.refusal.is_none());
    assert_eq!(run.run_task(Outcome::Refused(Error::new("inner"))), Err(Error::new("inner")));
    run.note(&Error::new("second"));
    assert_eq!(run.refusal, Some(Error::new("inner")));
    assert_eq!(paths(&run.outputs), vec!["one"]);
    assert!(matches!(run.conclude(&key, Ok(RustValue::Null)), Outcome::Refused(e) if e.message() == "inner"));
}

#[test]
fn paths_of_a_script_are_joined_to_its_directory_and_normalised() {
    assert_eq!(to_relative_path("site/pages", "../src/a.md"), "site/src/a.md");
    assert_eq!(to_relative_path("", "./a.md"), "a.md");
    assert_eq!(to_relative_path("site", "b/./c/../d"), "site/b/d");
    assert_eq!(to_relative_path("site", "../../x"), "../x");
}

#[test]
fn script_text_comes_from_what_reading_its_file_gave() {
    let mut ctx = QueryContext::new();
    let key = RunFile { file: "build.js".to_string(), args: None };
    let stored = ctx.store(b"export default 1".to_vec());
    assert_eq!(key.source(&ctx, &AnyOutput::Object(Ok(stored))), Ok("export default 1".to_string()));
    assert_eq!(key.source(&ctx, &AnyOutput::Object(Err(Error::new("no such file")))), Err(Error::new("no such file")));
    let binary = ctx.store(vec![0xff]);
    assert!(key.source(&ctx, &AnyOutput::Object(Ok(binary))).is_err());
    let missing = Object::from_hash([3u8; 32]);
    assert_eq!(
        key.source(&ctx, &AnyOutput::Object(Ok(missing))),
        Err(Error::new(&format!("object {} not found", "03".repeat(32))))
    );
}

#[test]
fn file_type_names_the_kind_of_entry() {
    assert_eq!(file_type(true, false, false), "file");
    assert_eq!(file_type(false, true, false), "dir");
    assert_eq!(file_type(false, false, true), "symlink");
    assert_eq!(file_type(false, false, false), "unknown");
    // a file wins over a directory, a directory over a link
    assert_eq!(file_type(true, true, true), "file");
    assert_eq!(file_type(false, true, true), "dir");
}

#[test]
fn writes_of_a_task_join_those_of_its_caller() {
    let mut queue = vec![WriteOutput { path: "own".to_string(), object: Object::from_hash([0u8; 32]) }];
    let file = FileOutput {
        value: RustValue::Int(7),
        outputs: vec![
            WriteOutput { path: "one".to_string(), object: Object::from_hash([1u8; 32]) },
            WriteOutput { path: "two".to_string(), object: Object::from_hash([2u8; 32]) },
        ],
    };
    assert_eq!(run_task(&mut queue, Ok(file)), Ok(RustValue::Int(7)));
    assert_eq!(paths(&queue), vec!["own", "one", "two"]);
}

#[test]
fn failed_task_leaves_the_queue_alone() {
    let mut queue = vec![WriteOutput { path: "own".to_string(), object: Object::from_hash([0u8; 32]) }];
    assert_eq!(run_task(&mut queue, Err(Error::new("failed"))), Err(Error::new("failed")));
    assert_eq!(paths(&queue), vec!["own"]);
    push_outputs(&mut queue, vec![]);
    assert_eq!(paths(&queue), vec!["own"]);
}

#[test]
fn store_hands_back_a_handle_on_the_content() {
    let mut ctx = QueryContext::new();
    let stored = store(&mut ctx, b"text".to_vec());
    assert_eq!(*stored.object.hash(), sha256_of(b"text"));
    assert_eq!(stored.contents_as_bytes(&ctx), Ok(b"text".to_vec()));
    assert_eq!(stored.contents_as_string(&ctx), Ok("text".to_string()));
    assert!(ctx.is_idle());
}

#[test]
fn handle_on_missing_content_gives_an_error_that_names_it() {
    let ctx = QueryContext::new();
    let missing = handle(0xab);
    let expected = format!("object {} not found", "ab".repeat(32));
    assert_eq!(missing.contents_as_bytes(&ctx), Err(Error::new(&expected)));
    assert_eq!(missing.contents_as_string(&ctx), Err(Error::new(&expected)));
}

#[test]
fn content_that_is_no_text_gives_an_error() {
    let mut ctx = QueryContext::new();
    let stored = store(&mut ctx, vec![0xff, 0xfe]);
    assert_eq!(stored.contents_as_bytes(&ctx), Ok(vec![0xff, 0xfe]));
    assert!(stored.contents_as_string(&ctx).is_err());
}

#[test]
fn script_output_holds_value_and_writes() {
    let key = RunFile { file: "build.js".to_string(), args: None };
    let queue = vec![WriteOutput { path: "a".to_string(), object: Object::from_hash([1u8; 32]) }];
    match key.produce(Ok(RustValue::Bool(true)), queue) {
        AnyOutput::File(Ok(file)) => {
            assert_eq!(file.value, RustValue::Bool(true));
            assert_eq!(paths(&file.outputs), vec!["a"]);
        }
        other => panic!("no file output: {:?}", other),
    }
}

#[test]
fn script_failure_names_script_arguments_and_reason() {
    let key = RunFile { file: "build.js".to_string(), args: Some(RustValue::Array(vec![RustValue::Int(1), RustValue::Null])) };
    match key.produce(Err(Error::new("boom")), vec![]) {
        AnyOutput::File(Err(e)) => assert_eq!(e.message(), "error running build.js([1,null]):\n\tboom"),
        other => panic!("no error: {:?}", other),
    }
    let bare = RunFile { file: "s.js".to_string(), args: None };
    match bare.produce(Err(Error::new("why")), vec![]) {
        AnyOutput::File(Err(e)) => assert_eq!(e.message(), "error running s.js():\n\twhy"),
        other => panic!("no error: {:?}", other),
    }
}

#[test]
fn read_file_stores_what_was_read() {
    let mut ctx = QueryContext::new();
    let key = ReadFile("a".to_string());
    match key.produce(&mut ctx, Ok(b"abc".to_vec())) {
        AnyOutput::Object(Ok(object)) => {
            assert_eq!(*object.hash(), sha256_of(b"abc"));
            assert_eq!(ctx.contents(&object), Some(&b"abc".to_vec()));
        }
        other => panic!("no object: {:?}", other),
    }
    assert!(matches!(key.produce(&mut ctx, Err(Error::new("denied"))), AnyOutput::Object(Err(e)) if e.message() == "denied"));
    assert_eq!(ctx.stored_objects().len(), 1);
}

#[test]
fn listing_leaves_out_the_directory_itself() {
    let key = ListDirectory("src".to_string());
    let entries = vec![Ok("src".to_string()), Ok("src/a".to_string()), Ok("src/b".to_string())];
    assert!(matches!(key.produce(entries), AnyOutput::Paths(Ok(list)) if list == vec!["src/a".to_string(), "src/b".to_string()]));
    assert!(matches!(key.produce(vec![]), AnyOutput::Paths(Ok(list)) if list.is_empty()));
}

#[test]
fn listing_fails_with_the_first_error() {
    let key = ListDirectory("src".to_string());
    let entries = vec![Ok("src/a".to_string()), Err(Error::new("first")), Ok("src/b".to_string()), Err(Error::new("second"))];
    assert!(matches!(key.produce(entries), AnyOutput::Paths(Err(e)) if e.message() == "first"));
}

#[test]
fn rendering_reads_text_and_stores_the_result() {
    let mut ctx = QueryContext::new();
    let source = ctx.store(b"# H".to_vec());
    let key = MarkdownToHtml(source);
    assert_eq!(key.source(&ctx), Ok("# H".to_string()));
    match key.produce(&mut ctx, Ok("<h1>H</h1>".to_string())) {
        AnyOutput::Object(Ok(object)) => assert_eq!(ctx.contents(&object), Some(&b"<h1>H</h1>".to_vec())),
        other => panic!("no object: {:?}", other),
    }
    let missing = MarkdownToHtml(Object::from_hash([9u8; 32]));
    let failed = missing.source(&ctx);
    assert_eq!(failed, Err(Error::new(&format!("object {} not found", "09".repeat(32)))));
    assert!(matches!(missing.produce(&mut ctx, failed), AnyOutput::Object(Err(_))));
}

#[test]
fn pages_are_rendered_with_every_named_extension() {
    let flags = query::producers::markdown_flags();
    assert!(flags.strikethrough && flags.table && flags.tasklist && flags.footnotes);
    assert!(flags.math_dollars && flags.spoiler && flags.subtext && flags.highlight);
    assert!(flags.tasklist_in_table && flags.ignore_setext && flags.raw_html && flags.tasklist_classes);
}

#[test]
fn minified_bytes_are_stored_under_their_hash() {
    let mut ctx = QueryContext::new();
    let source = ctx.store(b"<p> a </p>".to_vec());
    let key = MinifyHtml(source);
    assert_eq!(key.source(&ctx), Ok("<p> a </p>".to_string()));
    match key.output(&mut ctx, Ok(b"<p>a</p>".to_vec())) {
        AnyOutput::Object(Ok(object)) => {
            assert_eq!(*object.hash(), sha256_of(b"<p>a</p>"));
            assert_eq!(ctx.contents(&object), Some(&b"<p>a</p>".to_vec()));
        }
        other => panic!("no object: {:?}", other),
    }
    assert!(matches!(key.output(&mut ctx, Err(Error::new("bad"))), AnyOutput::Object(Err(e)) if e.message() == "bad"));
}

#[test]
fn minifying_keeps_tags_and_comments_and_drops_space() {
    let page = "<html><head><style>p  {  color : red ; }</style></head><body><!-- c --><p>  a  b  </p></body></html>";
    let mut cfg = minify_html::Cfg::new();
    cfg.keep_closing_tags = true;
    cfg.keep_comments = true;
    cfg.keep_html_and_head_opening_tags = true;
    cfg.minify_css = true;
    cfg.minify_js = true;
    let expected = minify_html::minify(page.as_bytes(), &cfg);
    assert_ne!(expected, page.as_bytes().to_vec());

    let mut ctx = QueryContext::new();
    let source = ctx.store(page.as_bytes().to_vec());
    match MinifyHtml(source).produce(&mut ctx) {
        AnyOutput::Object(Ok(object)) => {
            let small = ctx.contents(&object).expect("stored").clone();
            assert_eq!(small, expected);
            let text = String::from_utf8(small).expect("text");
            assert!(text.contains("<!-- c -->"));
            assert!(text.contains("</p>"));
            assert!(text.starts_with("<html><head>"));
            assert!(text.contains("p{color:red}"));
            assert_eq!(*object.hash(), sha256_of(text.as_bytes()));
        }
        other => panic!("no object: {:?}", other),
    }
    assert_eq!(query::producers::minify_flags().keep_comments, true);
}

#[test]
fn minifying_missing_content_gives_an_error() {
    let mut ctx = QueryContext::new();
    let missing = MinifyHtml(Object::from_hash([9u8; 32]));
    assert!(matches!(missing.produce(&mut ctx), AnyOutput::Object(Err(e)) if e.message() == format!("object {} not found", "09".repeat(32))));
    let binary = ctx.store(vec![0xff]);
    assert!(matches!(MinifyHtml(binary).produce(&mut ctx), AnyOutput::Object(Err(_))));
    assert_eq!(ctx.stored_objects().len(), 1);
}
