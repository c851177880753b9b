use query::context::{Action, QueryContext};
use query::error::Error;
use query::key::{QueryKey, ReadFile};
use query::naming::{get_filenames, join, object_from_name, object_location};
use query::object::Object;
use query::options::Options;
use query::output::AnyOutput;
use query::persist::Snapshot;
use query::to_hash::Hasher;

fn sha256_of(bytes: &[u8]) -> [u8; 32] {
    let mut hasher = Hasher::new();
    hasher.update(bytes);
    hasher.finalize()
}

fn read(path: &str) -> QueryKey {
    QueryKey::ReadFile(ReadFile(path.to_string()))
}

fn value(byte: u8) -> AnyOutput {
    AnyOutput::Object(Ok(Object::from_hash([byte; 32])))
}

fn message(restored: Result<QueryContext, Error>) -> String {
    match restored {
        Ok(_) => panic!("restored"),
        Err(e) => e.to_string(),
    }
}

#[test]
fn object_lies_under_its_first_two_digits() {
    let mut hash = [0u8; 32];
    hash[0] = 0xab;
    hash[1] = 0x01;
    hash[31] = 0xff;
    let (prefix, rest) = object_location(&Object::from_hash(hash));
    assert_eq!(prefix, "ab");
    assert_eq!(rest.len(), 62);
    assert!(rest.starts_with("01"));
    assert!(rest.ends_with("ff"));
    assert_eq!(format!("{}{}", prefix, rest), Object::from_hash(hash).to_string());
}

#[test]
fn object_name_round_trips() {
    let object = Object::from_hash(sha256_of(b"abc"));
    let (prefix, rest) = object_location(&object);
    assert_eq!(object_from_name(&prefix, &rest), Ok(object));
}

#[test]
fn object_name_may_be_upper_case() {
    let lower = "ab".to_string() + &"0".repeat(62);
    let upper = "AB".to_string() + &"0".repeat(62);
    assert_eq!(object_from_name(&upper[..2], &upper[2..]), object_from_name(&lower[..2], &lower[2..]));
    let mut hash = [0u8; 32];
    hash[0] = 0xab;
    assert_eq!(object_from_name(&upper[..2], &upper[2..]), Ok(Object::from_hash(hash)));
}

#[test]
fn object_name_of_wrong_length_is_refused() {
    let refused = object_from_name("ab", "cd");
    assert_eq!(refused, Err(Error::new("couldn't convert object filename to hash")));
    let long = "0".repeat(64);
    assert_eq!(object_from_name("ab", &long).unwrap_err().message(), "couldn't convert object filename to hash");
}

#[test]
fn object_name_that_is_no_hex_is_refused() {
    assert!(object_from_name("zz", &"0".repeat(62)).is_err());
    assert!(object_from_name("a", &"0".repeat(62)).is_err());
    assert!(object_from_name("ab", &"é".repeat(31)).is_err());
}

#[test]
fn filenames_lie_under_the_cache_directory() {
    let names = get_filenames("./.driver_cache");
    assert_eq!(names.cache_filename, "./.driver_cache/cache.v1.pc");
    assert_eq!(names.depgraph_filename, "./.driver_cache/depgraph.v1.pc");
    assert_eq!(names.objects_dirname, "./.driver_cache/objects");
}

#[test]
fn join_adds_a_separator_where_one_is_needed() {
    assert_eq!(join("dir", "name"), "dir/name");
    assert_eq!(join("dir/", "name"), "dir/name");
    assert_eq!(join("", "name"), "name");
    assert_eq!(join("/", "name"), "/name");
}

#[test]
fn default_options_name_the_usual_directories() {
    let options = Options::new();
    assert_eq!(options.output_dir, "./dist");
    assert_eq!(options.cache_dir, "./.driver_cache");
}

#[test]
fn restore_of_nothing_is_an_empty_evaluator_at_revision_one() {
    let restored = QueryContext::restore(&Snapshot { cache: vec![], graph: vec![] }, &vec![]).expect("restorable");
    assert_eq!(restored.revision(), 1);
    assert!(restored.is_idle());
    assert!(restored.save().cache.is_empty());
    assert!(restored.graph_list().is_empty());
}

#[test]
fn restore_marks_every_cached_key_green_at_revision_zero() {
    let snapshot = Snapshot { cache: vec![(read("a"), value(1))], graph: vec![(read("a"), vec![])] };
    let mut restored = QueryContext::restore(&snapshot, &vec![]).expect("restorable");
    // an input that is green as of revision 0 is stale at revision 1: it is produced again
    assert!(matches!(restored.query(read("a")), Action::Produce(key) if key == read("a")));
    // the same output again: answered, and a second query needs no producer
    assert!(matches!(restored.produced(value(1)), Action::Done(_)));
    let mut action = restored.query(read("a"));
    while matches!(action, Action::Continue) {
        action = restored.resume();
    }
    assert!(matches!(action, Action::Done(AnyOutput::Object(Ok(object))) if object == Object::from_hash([1u8; 32])));
}

#[test]
fn restore_refuses_an_output_of_the_wrong_type() {
    let snapshot = Snapshot { cache: vec![(read("a"), AnyOutput::Paths(Ok(vec![])))], graph: vec![(read("a"), vec![])] };
    assert_eq!(message(QueryContext::restore(&snapshot, &vec![])), "cached output does not fit its key");
}

#[test]
fn restore_refuses_an_object_under_a_wrong_hash() {
    let snapshot = Snapshot { cache: vec![], graph: vec![] };
    let objects = vec![(Object::from_hash([0u8; 32]), b"abc".to_vec())];
    assert_eq!(message(QueryContext::restore(&snapshot, &objects)), "stored object does not match its hash");
}

#[test]
fn restore_takes_a_node_without_output_as_never_produced() {
    let snapshot = Snapshot { cache: vec![(read("a"), value(1))], graph: vec![(read("a"), vec![read("b")])] };
    let mut restored = QueryContext::restore(&snapshot, &vec![]).expect("restorable");
    assert_eq!(restored.color(&read("b")), None);
    assert!(restored.cached(&read("b")).is_none());
    assert_eq!(restored.dependencies(&read("b")).expect("seen").len(), 0);
    // asked for, it is produced
    assert!(matches!(restored.query(read("b")), Action::Produce(key) if key == read("b")));
}

#[test]
fn restore_refuses_an_output_whose_key_is_no_node() {
    let snapshot = Snapshot { cache: vec![(read("a"), value(1))], graph: vec![] };
    assert_eq!(
        message(QueryContext::restore(&snapshot, &vec![])),
        "cached output belongs to no node of the dependency graph"
    );
}

#[test]
fn restore_keeps_objects_and_the_order_of_dependencies() {
    let objects = vec![(Object::from_hash(sha256_of(b"abc")), b"abc".to_vec())];
    let snapshot = Snapshot {
        cache: vec![(read("a"), value(1)), (read("b"), value(2)), (read("c"), value(3))],
        graph: vec![(read("a"), vec![read("c"), read("b")]), (read("b"), vec![]), (read("c"), vec![read("b")])],
    };
    let restored = QueryContext::restore(&snapshot, &objects).expect("restorable");
    assert_eq!(restored.contents(&objects[0].0), Some(&b"abc".to_vec()));
    // nodes come in the order in which the graph first saw them: `b` before
    // `c`, because the dependencies of `a` are recorded from the last on
    let graph = restored.graph_list();
    let text: Vec<(String, Vec<String>)> = graph
        .iter()
        .map(|(key, deps)| (key.to_string(), deps.iter().map(|dep| dep.to_string()).collect()))
        .collect();
    assert_eq!(
        text,
        vec![
            ("read_file(\"a\")".to_string(), vec!["read_file(\"c\")".to_string(), "read_file(\"b\")".to_string()]),
            ("read_file(\"b\")".to_string(), vec![]),
            ("read_file(\"c\")".to_string(), vec!["read_file(\"b\")".to_string()]),
        ]
    );
}

#[test]
fn save_after_restore_gives_the_same_entries() {
    let snapshot = Snapshot {
        cache: vec![(read("a"), value(1)), (read("b"), AnyOutput::Object(Err(Error::new("bad"))))],
        graph: vec![(read("a"), vec![read("b")]), (read("b"), vec![])],
    };
    let objects = vec![(Object::from_hash(sha256_of(b"x")), b"x".to_vec())];
    let restored = QueryContext::restore(&snapshot, &objects).expect("restorable");
    let again = restored.save();
    assert_eq!(format!("{:?}", again.cache), format!("{:?}", snapshot.cache));
    assert_eq!(format!("{:?}", again.graph), format!("{:?}", snapshot.graph));
    assert_eq!(restored.stored_objects(), objects);
    let twice = QueryContext::restore(&again, &restored.stored_objects()).expect("restorable");
    assert_eq!(format!("{:?}", twice.save().cache), format!("{:?}", snapshot.cache));
    assert_eq!(format!("{:?}", twice.save().graph), format!("{:?}", snapshot.graph));
}

#[test]
fn written_graph_lists_nodes_and_their_dependencies() {
    let snapshot = Snapshot {
        cache: vec![(read("a"), value(1)), (read("b"), value(2))],
        graph: vec![(read("a"), vec![read("b")]), (read("b"), vec![])],
    };
    let restored = QueryContext::restore(&snapshot, &vec![]).expect("restorable");
    assert_eq!(restored.display_dep_graph(), "read_file(\"a\")\n    read_file(\"b\")\nread_file(\"b\")\n");
    assert_eq!(QueryContext::new().display_dep_graph(), "");
}
