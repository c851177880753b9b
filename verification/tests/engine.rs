use std::collections::HashMap;

use query::color::Color;
use query::context::{Action, QueryContext};
use query::error::Error;
use query::host::write_output;
use query::key::{ListDirectory, MarkdownToHtml, MinifyHtml, QueryKey, ReadFile, RunFile};
use query::object::Object;
use query::output::{AnyOutput, Outcome, WriteOutput};
use query::value::{RustValue, StoreObject};

/// The outside: files, and a record of the producers that ran.
struct World {
    files: HashMap<String, Vec<u8>>,
    ran: Vec<String>,
}

impl World {
    fn new() -> Self {
        let mut files = HashMap::new();
        files.insert("src/a.md".to_string(), b"# H".to_vec());
        files.insert("src/b.md".to_string(), b"# B".to_vec());
        World { files, ran: Vec::new() }
    }

    fn ran(&self, prefix: &str) -> usize {
        self.ran.iter().filter(|name| name.starts_with(prefix)).count()
    }
}

fn render(markdown: &str) -> String {
    format!("<h1> {} </h1>", markdown.trim_start_matches("# "))
}

fn minify(html: &str) -> Vec<u8> {
    html.replace(' ', "").into_bytes()
}

fn object_of(output: AnyOutput) -> Object {
    match output {
        AnyOutput::Object(Ok(object)) => object,
        other => panic!("no object: {:?}", other),
    }
}

/// The script `build.js`: for each of its arguments, a page from the
/// Markdown file of that name.
fn script(ctx: &mut QueryContext, key: &RunFile, world: &mut World) -> AnyOutput {
    let mut queue: Vec<WriteOutput> = Vec::new();
    let names: Vec<String> = match &key.args {
        Some(RustValue::Array(items)) => items
            .iter()
            .map(|item| match item {
                RustValue::String(name) => name.clone(),
                other => panic!("no name: {:?}", other),
            })
            .collect(),
        _ => vec!["a".to_string()],
    };
    for name in names {
        let source = object_of(run(ctx, QueryKey::ReadFile(ReadFile(format!("src/{}.md", name))), world));
        let html = object_of(run(ctx, QueryKey::MarkdownToHtml(MarkdownToHtml(source)), world));
        let small = object_of(run(ctx, QueryKey::MinifyHtml(MinifyHtml(html)), world));
        let queued = write_output(&mut queue, format!("{}.html", name), StoreObject { object: small });
        assert!(queued.is_ok());
    }
    key.produce(Ok(RustValue::Null), queue)
}

fn produce(ctx: &mut QueryContext, key: &QueryKey, world: &mut World) -> AnyOutput {
    world.ran.push(key.to_string());
    match key {
        QueryKey::ReadFile(k) => {
            let content = world.files.get(&k.0).cloned().ok_or_else(|| Error::new("no such file"));
            k.produce(ctx, content)
        }
        QueryKey::ListDirectory(k) => {
            let mut names: Vec<String> = world.files.keys().filter(|name| name.starts_with(&k.0)).cloned().collect();
            names.sort();
            k.produce(names.into_iter().map(Ok).collect())
        }
        QueryKey::MarkdownToHtml(k) => {
            let html = k.source(ctx).map(|text| render(&text));
            k.produce(ctx, html)
        }
        QueryKey::MinifyHtml(k) => {
            let small = k.source(ctx).map(|text| minify(&text));
            k.output(ctx, small)
        }
        QueryKey::RunFile(k) => script(ctx, k, world),
    }
}

fn run(ctx: &mut QueryContext, key: QueryKey, world: &mut World) -> AnyOutput {
    assert!(ctx.is_accepting());
    let mut action = ctx.query(key);
    loop {
        action = match action {
            Action::Produce(key) => {
                let output = produce(ctx, &key, world);
                assert!(ctx.is_producing());
                assert!(output.fits(&key));
                ctx.produced(output)
            }
            Action::Continue => ctx.run(1000),
            Action::Done(output) => return output,
            Action::Missing(key) => panic!("Green query {} missing value in cache", key.to_string()),
            Action::Refused(error) => panic!("refused: {}", error.to_string()),
        }
    }
}

fn build(args: Option<RustValue>) -> QueryKey {
    QueryKey::RunFile(RunFile { file: "build.js".to_string(), args })
}

fn pages(names: &[&str]) -> Option<RustValue> {
    Some(RustValue::Array(names.iter().map(|name| RustValue::String(name.to_string())).collect()))
}

fn writes(output: AnyOutput) -> Vec<(String, Object)> {
    match output {
        AnyOutput::File(Ok(file)) => file.outputs.into_iter().map(|write| (write.path, write.object)).collect(),
        other => panic!("no file output: {:?}", other),
    }
}

fn contents(ctx: &QueryContext, object: &Object) -> Vec<u8> {
    ctx.contents(object).expect("missing object").clone()
}

#[test]
fn fresh_run_materialises_outputs() {
    let mut ctx = QueryContext::new();
    let mut world = World::new();
    let written = writes(run(&mut ctx, build(None), &mut world));
    assert_eq!(written.len(), 1);
    assert_eq!(written[0].0, "a.html");
    assert_eq!(contents(&ctx, &written[0].1), minify(&render("# H")));
    assert_eq!(world.ran("read_file"), 1);
    assert_eq!(world.ran("markdown_to_html"), 1);
    assert_eq!(world.ran("minify_html"), 1);
    assert_eq!(world.ran("build.js"), 1);
    // the intermediate objects are in the store: source, rendered, minified
    assert_eq!(ctx.stored_objects().len(), 3);
    assert!(ctx.is_idle());
}

#[test]
fn rerun_in_the_same_revision_runs_nothing() {
    let mut ctx = QueryContext::new();
    let mut world = World::new();
    let first = writes(run(&mut ctx, build(None), &mut world));
    world.ran.clear();
    let second = writes(run(&mut ctx, build(None), &mut world));
    assert_eq!(first, second);
    assert!(world.ran.is_empty());
}

#[test]
fn rerun_in_a_new_revision_runs_only_inputs() {
    let mut ctx = QueryContext::new();
    let mut world = World::new();
    let first = writes(run(&mut ctx, build(None), &mut world));
    ctx.new_revision();
    world.ran.clear();
    let second = writes(run(&mut ctx, build(None), &mut world));
    assert_eq!(first, second);
    assert_eq!(world.ran, vec!["read_file(\"src/a.md\")".to_string()]);
}

#[test]
fn unchanged_content_leaves_derived_outputs_untouched() {
    let mut ctx = QueryContext::new();
    let mut world = World::new();
    run(&mut ctx, build(None), &mut world);
    ctx.new_revision();
    // the file is written again with the same bytes
    world.files.insert("src/a.md".to_string(), b"# H".to_vec());
    world.ran.clear();
    run(&mut ctx, build(None), &mut world);
    assert_eq!(world.ran("read_file"), 1);
    assert_eq!(world.ran("markdown_to_html"), 0);
    assert_eq!(world.ran("minify_html"), 0);
    assert_eq!(world.ran("build.js"), 0);
}

#[test]
fn changed_content_recomputes_its_chain_and_no_other() {
    let mut ctx = QueryContext::new();
    let mut world = World::new();
    let before = writes(run(&mut ctx, build(pages(&["a", "b"])), &mut world));
    assert_eq!(before.len(), 2);
    ctx.new_revision();
    world.files.insert("src/a.md".to_string(), b"# H2".to_vec());
    world.ran.clear();
    let after = writes(run(&mut ctx, build(pages(&["a", "b"])), &mut world));
    assert_eq!(contents(&ctx, &after[0].1), minify(&render("# H2")));
    assert_eq!(after[1], before[1]);
    assert_ne!(after[0], before[0]);
    // a's chain ran again, b's file was read again and nothing else of b's
    assert_eq!(world.ran("read_file(\"src/a.md\")"), 1);
    assert_eq!(world.ran("read_file(\"src/b.md\")"), 1);
    assert_eq!(world.ran("markdown_to_html"), 1);
    assert_eq!(world.ran("minify_html"), 1);
    assert_eq!(world.ran("build.js"), 1);
}

#[test]
fn restore_from_saved_state_runs_only_inputs() {
    let mut ctx = QueryContext::new();
    let mut world = World::new();
    let first = writes(run(&mut ctx, build(None), &mut world));
    let snapshot = ctx.save();
    let objects = ctx.stored_objects();
    drop(ctx);
    let mut restored = QueryContext::restore(&snapshot, &objects).expect("restorable");
    assert_eq!(restored.revision(), 1);
    world.ran.clear();
    let second = writes(run(&mut restored, build(None), &mut world));
    assert_eq!(first, second);
    assert_eq!(world.ran, vec!["read_file(\"src/a.md\")".to_string()]);
}

#[test]
fn failed_producer_is_cached_like_a_value() {
    let mut ctx = QueryContext::new();
    let mut world = World::new();
    let key = QueryKey::ReadFile(ReadFile("src/none.md".to_string()));
    let first = run(&mut ctx, key.clone(), &mut world);
    assert!(matches!(&first, AnyOutput::Object(Err(e)) if e.message() == "no such file"));
    world.ran.clear();
    let second = run(&mut ctx, key, &mut world);
    assert!(matches!(&second, AnyOutput::Object(Err(e)) if e.message() == "no such file"));
    assert!(world.ran.is_empty());
}

#[test]
fn first_output_is_green_and_changed_output_is_red() {
    let mut ctx = QueryContext::new();
    let mut world = World::new();
    let key = QueryKey::ReadFile(ReadFile("src/a.md".to_string()));
    assert_eq!(ctx.color(&key), None);
    assert!(ctx.cached(&key).is_none());
    run(&mut ctx, key.clone(), &mut world);
    // no output before: nothing changed
    assert_eq!(ctx.color(&key), Some((Color::Green, 0)));
    ctx.new_revision();
    run(&mut ctx, key.clone(), &mut world);
    // the same output again: nothing changed
    assert_eq!(ctx.color(&key), Some((Color::Green, 1)));
    ctx.new_revision();
    world.files.insert("src/a.md".to_string(), b"other".to_vec());
    let changed = object_of(run(&mut ctx, key.clone(), &mut world));
    assert_eq!(contents(&ctx, &changed), b"other".to_vec());
    assert_eq!(ctx.color(&key), Some((Color::Red, 2)));
    assert!(matches!(ctx.cached(&key), Some(AnyOutput::Object(Ok(object))) if object == changed));
}

#[test]
fn colors_after_a_change_tell_what_was_recomputed() {
    let mut ctx = QueryContext::new();
    let mut world = World::new();
    run(&mut ctx, build(pages(&["a", "b"])), &mut world);
    let read_a = QueryKey::ReadFile(ReadFile("src/a.md".to_string()));
    let read_b = QueryKey::ReadFile(ReadFile("src/b.md".to_string()));
    let source_b = object_of(ctx.cached(&read_b).expect("cached"));
    let render_b = QueryKey::MarkdownToHtml(MarkdownToHtml(source_b));
    assert_eq!(ctx.color(&render_b), Some((Color::Green, 0)));
    ctx.new_revision();
    world.files.insert("src/a.md".to_string(), b"# H2".to_vec());
    run(&mut ctx, build(pages(&["a", "b"])), &mut world);
    // the script ran again and returned something else: red
    assert_eq!(ctx.color(&build(pages(&["a", "b"]))), Some((Color::Red, 1)));
    // the changed file turned red when it was read again, and green when the
    // script, running again, asked for it once more and it was validated
    assert_eq!(ctx.color(&read_a), Some((Color::Green, 1)));
    // the other chain was validated, not run
    assert_eq!(ctx.color(&read_b), Some((Color::Green, 1)));
    assert_eq!(ctx.color(&render_b), Some((Color::Green, 1)));
    // the rendering of the new content is a new query, green on its first output
    let source_a = object_of(ctx.cached(&read_a).expect("cached"));
    assert_eq!(ctx.color(&QueryKey::MarkdownToHtml(MarkdownToHtml(source_a))), Some((Color::Green, 1)));
}

#[test]
fn after_a_change_the_next_revision_runs_only_inputs() {
    let mut ctx = QueryContext::new();
    let mut world = World::new();
    run(&mut ctx, build(None), &mut world);
    ctx.new_revision();
    world.files.insert("src/a.md".to_string(), b"# H2".to_vec());
    run(&mut ctx, build(None), &mut world);
    assert_eq!(ctx.color(&build(None)), Some((Color::Red, 1)));
    // nothing changes any more: the script is validated through its dependencies
    ctx.new_revision();
    world.ran.clear();
    run(&mut ctx, build(None), &mut world);
    assert_eq!(world.ran, vec!["read_file(\"src/a.md\")".to_string()]);
    assert_eq!(ctx.color(&build(None)), Some((Color::Green, 2)));
}

#[test]
fn changed_input_is_red_until_it_is_asked_for_again() {
    let mut ctx = QueryContext::new();
    let mut world = World::new();
    let key = QueryKey::ReadFile(ReadFile("src/a.md".to_string()));
    run(&mut ctx, key.clone(), &mut world);
    ctx.new_revision();
    world.files.insert("src/a.md".to_string(), b"other".to_vec());
    world.ran.clear();
    run(&mut ctx, key.clone(), &mut world);
    assert_eq!(ctx.color(&key), Some((Color::Red, 1)));
    // asked again in the same revision, the key is validated: it has no
    // dependencies, so it turns green, and its producer does not run
    let again = object_of(run(&mut ctx, key.clone(), &mut world));
    assert_eq!(contents(&ctx, &again), b"other".to_vec());
    assert_eq!(ctx.color(&key), Some((Color::Green, 1)));
    assert_eq!(world.ran.len(), 1);
}

#[test]
fn second_consumer_of_a_changed_input_is_validated_against_its_new_color() {
    let mut ctx = QueryContext::new();
    let mut world = World::new();
    let one = build(pages(&["a"]));
    let two = build(pages(&["a", "b"]));
    run(&mut ctx, one.clone(), &mut world);
    let before = writes(run(&mut ctx, two.clone(), &mut world));
    ctx.new_revision();
    world.files.insert("src/a.md".to_string(), b"# H2".to_vec());
    // the first consumer finds the file red and runs again; running, it asks
    // for the file once more, which is validated and turns green
    let fresh = writes(run(&mut ctx, one, &mut world));
    assert_eq!(contents(&ctx, &fresh[0].1), minify(&render("# H2")));
    assert_eq!(ctx.color(&QueryKey::ReadFile(ReadFile("src/a.md".to_string()))), Some((Color::Green, 1)));
    // the second consumer now sees a green file and is answered from the cache
    world.ran.clear();
    let after = writes(run(&mut ctx, two.clone(), &mut world));
    assert_eq!(after, before);
    assert_eq!(world.ran("build.js"), 0);
    assert_eq!(ctx.color(&two), Some((Color::Green, 1)));
}

#[test]
fn refused_producer_leaves_cache_and_colors_alone() {
    let mut ctx = QueryContext::new();
    let key = build(None);
    assert!(matches!(ctx.query(key.clone()), Action::Produce(_)));
    let refused = ctx.refuse(Error::new("directory traversal ../evil"));
    assert!(matches!(refused, Action::Refused(e) if e.message() == "directory traversal ../evil"));
    assert!(ctx.is_idle());
    assert_eq!(ctx.color(&key), None);
    assert!(ctx.cached(&key).is_none());
    // nothing was kept: asked again, the producer is asked for again
    assert!(matches!(ctx.query(key.clone()), Action::Produce(_)));
    assert!(matches!(ctx.concluded(Outcome::Refused(Error::new("again"))), Action::Refused(e) if e.message() == "again"));
    assert!(ctx.save().cache.is_empty());
}

#[test]
fn refusal_keeps_the_output_of_an_earlier_run() {
    let mut ctx = QueryContext::new();
    let mut world = World::new();
    let key = build(None);
    let before = writes(run(&mut ctx, key.clone(), &mut world));
    ctx.new_revision();
    world.files.insert("src/a.md".to_string(), b"# H2".to_vec());
    // the script runs again because its file changed, and is refused this time
    let mut action = ctx.query(key.clone());
    loop {
        action = match action {
            Action::Produce(asked) if asked == key => break,
            Action::Produce(asked) => {
                let output = produce(&mut ctx, &asked, &mut world);
                ctx.produced(output)
            }
            Action::Continue => ctx.run(1000),
            other => panic!("unexpected: {:?}", matches!(other, Action::Done(_))),
        }
    }
    assert!(matches!(ctx.refuse(Error::new("no")), Action::Refused(_)));
    assert!(ctx.is_idle());
    assert_eq!(ctx.color(&key), Some((Color::Green, 0)));
    assert_eq!(writes(ctx.cached(&key).expect("cached")), before);
    // the old output is not an answer: asked again, the producer runs again
    world.ran.clear();
    let after = writes(run(&mut ctx, key.clone(), &mut world));
    assert_eq!(world.ran("build.js"), 1);
    assert_eq!(contents(&ctx, &after[0].1), minify(&render("# H2")));
    assert_eq!(ctx.color(&key), Some((Color::Red, 1)));
    // and once it has produced, it is validated like any other
    world.ran.clear();
    run(&mut ctx, key, &mut world);
    assert!(world.ran.is_empty());
}

#[test]
fn refusal_of_a_task_reaches_the_script_that_ran_it() {
    let mut ctx = QueryContext::new();
    let outer = build(pages(&["a"]));
    let inner = build(pages(&["b"]));
    assert!(matches!(ctx.query(outer.clone()), Action::Produce(_)));
    // the outer script runs a task
    assert!(matches!(ctx.query(inner.clone()), Action::Produce(_)));
    // the task is refused: the outer script's producer is the one that waits now
    assert!(matches!(ctx.refuse(Error::new("inner")), Action::Refused(e) if e.message() == "inner"));
    assert!(ctx.is_producing());
    // the outer script ends normally all the same; its edge to the task is recorded
    let output = AnyOutput::File(Err(Error::new("task failed")));
    assert!(matches!(ctx.produced(output), Action::Done(_)));
    assert!(ctx.is_idle());
    assert_eq!(ctx.dependencies(&outer).expect("seen"), vec![inner.clone()]);
    assert_eq!(ctx.color(&inner), None);
    assert!(ctx.cached(&inner).is_none());
}

#[test]
fn refusal_during_a_forced_query_gives_up_the_validation() {
    let mut ctx = QueryContext::new();
    let mut world = World::new();
    run(&mut ctx, build(None), &mut world);
    ctx.new_revision();
    // validation of the script forces the read of its file
    let mut action = ctx.query(build(None));
    while matches!(action, Action::Continue) {
        action = ctx.resume();
    }
    assert!(matches!(&action, Action::Produce(key) if key.is_input()));
    assert!(matches!(ctx.refuse(Error::new("stop")), Action::Refused(_)));
    // the whole query is given up
    assert!(ctx.is_idle());
    assert_eq!(ctx.color(&build(None)), Some((Color::Green, 0)));
    // and can be asked again
    world.ran.clear();
    run(&mut ctx, build(None), &mut world);
    assert_eq!(world.ran, vec!["read_file(\"src/a.md\")".to_string()]);
}

#[test]
fn run_steps_until_there_is_something_to_tell() {
    let mut ctx = QueryContext::new();
    let key = QueryKey::ReadFile(ReadFile("f".to_string()));
    assert!(matches!(ctx.query(key.clone()), Action::Produce(_)));
    // nothing to do while the producer runs
    assert!(matches!(ctx.run(10), Action::Continue));
    assert!(matches!(ctx.produced(AnyOutput::Object(Err(Error::new("none")))), Action::Done(_)));
    assert!(matches!(ctx.query(key.clone()), Action::Continue));
    // no step allowed: nothing happens
    assert!(matches!(ctx.run(0), Action::Continue));
    assert!(!ctx.is_accepting());
    // one step is not enough, one more is
    assert!(matches!(ctx.run(1), Action::Continue));
    assert!(matches!(ctx.run(1), Action::Done(_)));
    assert!(ctx.is_idle());
    assert!(matches!(ctx.query(key), Action::Continue));
    assert!(matches!(ctx.run(usize::MAX), Action::Done(_)));
}

#[test]
fn evaluator_tells_what_a_key_depends_on() {
    let mut ctx = QueryContext::new();
    let mut world = World::new();
    assert!(ctx.dependencies(&build(None)).is_none());
    run(&mut ctx, build(None), &mut world);
    assert_eq!(ctx.dependencies(&build(None)).expect("seen").len(), 3);
    let read = QueryKey::ReadFile(ReadFile("src/a.md".to_string()));
    assert_eq!(ctx.dependencies(&read).expect("seen").len(), 0);
    assert_eq!(ctx.revision(), 0);
    assert!(!ctx.is_producing());
}

#[test]
fn steps_ask_for_producers_and_answers_in_turn() {
    let mut ctx = QueryContext::new();
    let key = QueryKey::ReadFile(ReadFile("f".to_string()));
    let output = AnyOutput::Object(Err(Error::new("none")));
    // a key without color: its producer is asked for at once
    assert!(matches!(ctx.query(key.clone()), Action::Produce(asked) if asked == key));
    assert!(ctx.is_producing() && !ctx.is_idle());
    // stepping while the producer runs does nothing
    assert!(matches!(ctx.resume(), Action::Continue));
    assert!(ctx.is_producing());
    assert!(matches!(ctx.produced(output.clone()), Action::Done(AnyOutput::Object(Err(e))) if e.message() == "none"));
    assert!(ctx.is_idle());
    // in the same revision the key is validated: its dependencies are scanned, it turns
    // green, the verdict is delivered, and the answer comes from the cache
    assert!(matches!(ctx.query(key.clone()), Action::Continue));
    assert!(!ctx.is_accepting());
    assert!(matches!(ctx.resume(), Action::Continue));
    assert!(matches!(ctx.resume(), Action::Done(AnyOutput::Object(Err(e))) if e.message() == "none"));
    assert!(ctx.is_idle());
}

#[test]
fn dependencies_are_recorded_for_the_running_producer() {
    let mut ctx = QueryContext::new();
    let mut world = World::new();
    run(&mut ctx, build(None), &mut world);
    let graph = ctx.graph_list();
    let of_script = graph.iter().find(|(key, _)| matches!(key, QueryKey::RunFile(_))).expect("script node");
    let names: Vec<String> = of_script.1.iter().map(|key| key.to_string()).collect();
    // the one recorded last comes first
    assert_eq!(names.len(), 3);
    assert!(names[0].starts_with("minify_html("));
    assert!(names[1].starts_with("markdown_to_html("));
    assert_eq!(names[2], "read_file(\"src/a.md\")");
    // the read of the file has no dependencies of its own
    let of_read = graph.iter().find(|(key, _)| matches!(key, QueryKey::ReadFile(_))).expect("file node");
    assert!(of_read.1.is_empty());
}

#[test]
fn listing_is_an_input_and_runs_again_in_a_new_revision() {
    let mut ctx = QueryContext::new();
    let mut world = World::new();
    let key = QueryKey::ListDirectory(ListDirectory("src".to_string()));
    let first = run(&mut ctx, key.clone(), &mut world);
    assert!(matches!(&first, AnyOutput::Paths(Ok(paths)) if paths == &vec!["src/a.md".to_string(), "src/b.md".to_string()]));
    world.ran.clear();
    run(&mut ctx, key.clone(), &mut world);
    assert!(world.ran.is_empty());
    ctx.new_revision();
    run(&mut ctx, key, &mut world);
    assert_eq!(world.ran, vec!["list_directory(\"src\")".to_string()]);
}
