use query::cache::QueryCache;
use query::color::Color;
use query::db::{ColorMap, Database};
use query::error::Error;
use query::graph::DepGraph;
use query::key::{ListDirectory, MarkdownToHtml, QueryKey, ReadFile};
use query::object::{to_hex, Object, Objects};
use query::output::AnyOutput;
use query::to_hash::Hasher;

fn sha256_of(bytes: &[u8]) -> [u8; 32] {
    let mut hasher = Hasher::new();
    hasher.update(bytes);
    hasher.finalize()
}

fn read(path: &str) -> QueryKey {
    QueryKey::ReadFile(ReadFile(path.to_string()))
}

fn names(keys: &[QueryKey]) -> Vec<String> {
    keys.iter().map(|key| key.to_string()).collect()
}

#[test]
fn store_names_content_by_its_sha256() {
    let mut store = Objects::new();
    let object = store.store(b"abc".to_vec());
    assert_eq!(object.to_string(), "ba7816bf8f01cfea414140de5dae2223b00361a396177a9cb410ff61f20015ad");
    assert_eq!(store.get(&object), Some(&b"abc".to_vec()));
    assert_eq!(sha256_of(store.get(&object).expect("stored")), *object.hash());
}

#[test]
fn store_is_idempotent() {
    let mut store = Objects::new();
    let first = store.store(b"same".to_vec());
    let second = store.store(b"same".to_vec());
    assert_eq!(first, second);
    assert_eq!(store.len(), 1);
    store.store(b"other".to_vec());
    assert_eq!(store.len(), 2);
}

#[test]
fn get_of_unknown_object_is_none() {
    let store = Objects::new();
    assert_eq!(store.get(&Object::from_hash([7u8; 32])), None);
}

#[test]
fn store_checked_refuses_a_wrong_digest() {
    let mut store = Objects::new();
    let wrong = Object::from_hash([0u8; 32]);
    assert!(!store.store_checked(wrong.clone(), b"abc".to_vec()));
    assert_eq!(store.len(), 0);
    assert_eq!(store.get(&wrong), None);
    let right = Object::from_hash(sha256_of(b"abc"));
    assert!(store.store_checked(right.clone(), b"abc".to_vec()));
    assert_eq!(store.get(&right), Some(&b"abc".to_vec()));
}

#[test]
fn store_raw_inserts_without_hashing() {
    let mut store = Objects::new();
    let object = Object::from_hash(sha256_of(b"raw"));
    store.store_raw(object.clone(), b"raw".to_vec());
    assert_eq!(store.get(&object), Some(&b"raw".to_vec()));
    assert_eq!(store.len(), 1);
}

#[test]
fn every_stored_blob_hashes_to_its_name() {
    let mut store = Objects::new();
    for content in [&b""[..], b"a", b"abc", b"\xff\x00"] {
        store.store(content.to_vec());
    }
    assert_eq!(store.len(), 4);
    for i in 0..store.len() {
        let (object, bytes) = store.entry(i);
        assert_eq!(sha256_of(bytes), *object.hash());
    }
}

#[test]
fn for_each_walks_in_order_of_arrival() {
    let mut store = Objects::new();
    let a = store.store(b"a".to_vec());
    let b = store.store(b"b".to_vec());
    let seen = std::cell::RefCell::new(Vec::new());
    let walked: Result<(), Error> = store.for_each(|object, bytes| {
        seen.borrow_mut().push((object.clone(), bytes.clone()));
        Ok(())
    });
    assert!(walked.is_ok());
    assert_eq!(seen.into_inner(), vec![(a, b"a".to_vec()), (b, b"b".to_vec())]);
}

#[test]
fn for_each_stops_at_the_first_error() {
    let mut store = Objects::new();
    store.store(b"a".to_vec());
    store.store(b"b".to_vec());
    store.store(b"c".to_vec());
    let count = std::cell::Cell::new(0);
    let walked = store.for_each(|_, bytes| {
        count.set(count.get() + 1);
        if bytes == b"b" {
            Err(Error::new("stop"))
        } else {
            Ok(())
        }
    });
    assert_eq!(walked, Err(Error::new("stop")));
    assert_eq!(count.get(), 2);
}

#[test]
fn to_hex_writes_two_lower_case_digits_for_each_byte() {
    assert_eq!(to_hex(&[0x00, 0x0f, 0xa0, 0xff]), "000fa0ff");
    assert_eq!(to_hex(&[]), "");
}

#[test]
fn color_map_keeps_the_last_verdict() {
    let mut colors = ColorMap::new();
    let key = read("a");
    assert_eq!(colors.get(&key), None);
    colors.mark_green(&key, 3);
    assert_eq!(colors.get(&key), Some((Color::Green, 3)));
    colors.mark_red(&key, 4);
    assert_eq!(colors.get(&key), Some((Color::Red, 4)));
    colors.mark_green(&read("b"), 1);
    assert_eq!(colors.get(&key), Some((Color::Red, 4)));
    assert_eq!(colors.get(&read("b")), Some((Color::Green, 1)));
    assert!(Color::Green.is_green());
    assert!(!Color::Red.is_green());
}

#[test]
fn keys_of_different_kinds_with_one_parameter_are_different() {
    let mut colors = ColorMap::new();
    colors.mark_green(&QueryKey::ReadFile(ReadFile("p".to_string())), 1);
    assert_eq!(colors.get(&QueryKey::ListDirectory(ListDirectory("p".to_string()))), None);
}

#[test]
fn cache_insert_reports_a_changed_output() {
    let mut cache = QueryCache::new();
    let key = read("a");
    let one = AnyOutput::Object(Ok(Object::from_hash([1u8; 32])));
    let two = AnyOutput::Object(Ok(Object::from_hash([2u8; 32])));
    // no previous output: not changed
    assert!(!cache.insert(key.clone(), one.clone()));
    // the same output again: not changed
    assert!(!cache.insert(key.clone(), one.clone()));
    // another output: changed
    assert!(cache.insert(key.clone(), two.clone()));
    assert!(matches!(cache.get(&key), Some(AnyOutput::Object(Ok(object))) if object == Object::from_hash([2u8; 32])));
    // an error in place of a value: changed
    assert!(cache.insert(key.clone(), AnyOutput::Object(Err(Error::new("gone")))));
    assert!(!cache.insert(key, AnyOutput::Object(Err(Error::new("gone")))));
}

#[test]
fn cache_lists_its_keys_in_order_of_arrival() {
    let mut cache = QueryCache::new();
    assert!(cache.iter_keys().is_empty());
    assert!(!cache.contains(&read("b")));
    cache.insert(read("b"), AnyOutput::Object(Err(Error::new("x"))));
    cache.insert(read("a"), AnyOutput::Object(Err(Error::new("x"))));
    cache.insert(read("b"), AnyOutput::Object(Err(Error::new("y"))));
    assert_eq!(names(&cache.iter_keys()), vec!["read_file(\"b\")", "read_file(\"a\")"]);
    assert!(cache.contains(&read("b")));
    assert!(cache.get(&read("c")).is_none());
}

#[test]
fn graph_lists_dependencies_newest_first() {
    let mut graph = DepGraph::new();
    assert!(graph.dependencies(&read("a")).is_none());
    graph.add_dependency(read("a"), read("b"));
    graph.add_dependency(read("a"), read("c"));
    assert_eq!(names(&graph.dependencies(&read("a")).expect("seen")), vec!["read_file(\"c\")", "read_file(\"b\")"]);
    // the targets are nodes without dependencies
    assert_eq!(graph.dependencies(&read("b")).expect("seen").len(), 0);
    assert_eq!(graph.node_count(), 3);
    assert_eq!(graph.node_key(0).to_string(), "read_file(\"a\")");
    assert!(graph.contains(&read("c")));
    assert!(!graph.contains(&read("d")));
}

#[test]
fn adding_a_dependency_twice_changes_nothing() {
    let mut graph = DepGraph::new();
    graph.add_dependency(read("a"), read("b"));
    graph.add_dependency(read("a"), read("c"));
    graph.add_dependency(read("a"), read("b"));
    assert_eq!(names(&graph.dependencies(&read("a")).expect("seen")), vec!["read_file(\"c\")", "read_file(\"b\")"]);
    assert_eq!(graph.node_count(), 3);
}

#[test]
fn removing_dependencies_clears_one_node_only() {
    let mut graph = DepGraph::new();
    graph.add_dependency(read("a"), read("b"));
    graph.add_dependency(read("a"), read("c"));
    graph.add_dependency(read("b"), read("c"));
    graph.add_dependency(read("c"), read("a"));
    graph.remove_all_dependencies(read("a"));
    assert_eq!(graph.dependencies(&read("a")).expect("seen").len(), 0);
    assert_eq!(names(&graph.dependencies(&read("b")).expect("seen")), vec!["read_file(\"c\")"]);
    assert_eq!(names(&graph.dependencies(&read("c")).expect("seen")), vec!["read_file(\"a\")"]);
    // a node that was never seen becomes one
    graph.remove_all_dependencies(read("z"));
    assert_eq!(graph.dependencies(&read("z")).expect("seen").len(), 0);
    // edges can be recorded again after a removal
    graph.add_dependency(read("a"), read("c"));
    assert_eq!(names(&graph.dependencies(&read("a")).expect("seen")), vec!["read_file(\"c\")"]);
}

#[test]
fn a_key_may_depend_on_itself() {
    let mut graph = DepGraph::new();
    graph.add_dependency(read("a"), read("a"));
    assert_eq!(names(&graph.dependencies(&read("a")).expect("seen")), vec!["read_file(\"a\")"]);
    assert_eq!(graph.node_count(), 1);
}

#[test]
fn add_node_makes_a_node_without_edges() {
    let mut graph = DepGraph::new();
    graph.add_node(&read("a"));
    graph.add_node(&read("a"));
    assert_eq!(graph.node_count(), 1);
    assert_eq!(graph.dependencies(&read("a")).expect("seen").len(), 0);
}

#[test]
fn inputs_are_the_kinds_that_observe_the_file_system() {
    assert!(QueryKey::ReadFile(ReadFile("a".to_string())).is_input());
    assert!(QueryKey::ListDirectory(ListDirectory("a".to_string())).is_input());
    assert!(!QueryKey::MarkdownToHtml(MarkdownToHtml(Object::from_hash([0u8; 32]))).is_input());
    assert!(!QueryKey::from(query::key::MinifyHtml(Object::from_hash([0u8; 32]))).is_input());
    assert!(!QueryKey::from(query::key::RunFile { file: "s".to_string(), args: None }).is_input());
    assert!(QueryKey::from(ReadFile("a".to_string())).is_input());
}

#[test]
fn new_database_is_empty_at_revision_zero() {
    let db = Database::new();
    assert_eq!(db.revision, 0);
    assert_eq!(db.objects.len(), 0);
    assert!(db.cache.iter_keys().is_empty());
    assert_eq!(db.colors.get(&read("a")), None);
}
