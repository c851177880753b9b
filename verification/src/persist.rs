//! What is kept between runs, as plain values: the cache and the graph as
//! lists of entries, and what a list of entries restores to.

use vstd::prelude::*;
use crate::cache::QueryCache;
use crate::color::Color;
use crate::db::ColorMap;
use crate::graph::DepGraph;
use crate::object::Objects;
use crate::graph::{with_edge, with_node};
use crate::key::{KeySpec, QueryKey};
use crate::machine::{Control, MachineSpec};
use crate::object::Object;
use crate::output::{output_fits, AnyOutput, OutputSpec};
use crate::to_hash::sha256;

verus! {

/// The cache and the graph of an evaluator, entry by entry.
pub struct Snapshot {
    /// Each key that has an output, with that output.
    pub cache: Vec<(QueryKey, AnyOutput)>,
    /// Each node of the graph, with its dependencies, the one recorded last first.
    pub graph: Vec<(QueryKey, Vec<QueryKey>)>,
}

/// The views of cache entries, each in its place.
pub open spec fn cache_entries(entries: Seq<(QueryKey, AnyOutput)>) -> Seq<(KeySpec, OutputSpec)> {
    Seq::new(entries.len(), |i: int| (entries[i].0@, entries[i].1@))
}

/// The views of graph entries, each in its place.
pub open spec fn graph_entries(entries: Seq<(QueryKey, Vec<QueryKey>)>) -> Seq<
    (KeySpec, Seq<KeySpec>),
> {
    Seq::new(entries.len(), |i: int| (entries[i].0@, crate::context::keys_view(entries[i].1@)))
}

/// The views of stored objects, each in its place.
pub open spec fn object_entries(entries: Seq<(Object, Vec<u8>)>) -> Seq<(Seq<u8>, Seq<u8>)> {
    Seq::new(entries.len(), |i: int| (entries[i].0@, entries[i].1@))
}

/// The map that holds each entry's value under its key; of two entries with
/// one key the later counts.
pub open spec fn map_of<K, V>(entries: Seq<(K, V)>) -> Map<K, V>
    decreases entries.len(),
{
    if entries.len() == 0 {
        Map::empty()
    } else {
        map_of(entries.drop_last()).insert(entries.last().0, entries.last().1)
    }
}

/// The graph after `key` has become a node and its dependencies `deps` have
/// been recorded, the last of them first.
pub open spec fn add_list(graph: Map<KeySpec, Seq<KeySpec>>, key: KeySpec, deps: Seq<KeySpec>) -> Map<
    KeySpec,
    Seq<KeySpec>,
>
    decreases deps.len(),
{
    if deps.len() == 0 {
        with_node(graph, key)
    } else {
        with_edge(add_list(graph, key, deps.subrange(1, deps.len() as int)), key, deps[0])
    }
}

/// The graph that a list of entries restores to.
pub open spec fn graph_of(entries: Seq<(KeySpec, Seq<KeySpec>)>) -> Map<KeySpec, Seq<KeySpec>>
    decreases entries.len(),
{
    if entries.len() == 0 {
        Map::empty()
    } else {
        add_list(graph_of(entries.drop_last()), entries.last().0, entries.last().1)
    }
}

/// The colors after a restore: every key with an output is green, as of
/// revision 0.
pub open spec fn all_green(cache: Map<KeySpec, OutputSpec>) -> Map<KeySpec, (Color, usize)> {
    Map::new(|key: KeySpec| cache.contains_key(key), |key: KeySpec| (Color::Green, 0usize))
}

/// Whether every output is of the type that its key's kind returns.
pub open spec fn outputs_fit(cache: Seq<(KeySpec, OutputSpec)>) -> bool {
    forall|i: int| 0 <= i < cache.len() ==> output_fits((#[trigger] cache[i]).0, cache[i].1)
}

/// Whether every blob comes under its own SHA-256.
pub open spec fn hashes_match(objects: Seq<(Seq<u8>, Seq<u8>)>) -> bool {
    forall|i: int| 0 <= i < objects.len() ==> sha256((#[trigger] objects[i]).1) == objects[i].0
}

/// Whether the keys that the graph names are the keys that have an output.
pub open spec fn graph_covered(cache: Seq<(KeySpec, OutputSpec)>, graph: Seq<(KeySpec, Seq<KeySpec>)>) -> bool {
    forall|key: KeySpec| #[trigger]
        graph_of(graph).contains_key(key) <==> map_of(cache).contains_key(key)
}

/// Whether every key that has an output is named by the graph.
pub open spec fn cached_are_nodes(cache: Seq<(KeySpec, OutputSpec)>, graph: Seq<(KeySpec, Seq<KeySpec>)>) -> bool {
    forall|key: KeySpec| #[trigger]
        map_of(cache).contains_key(key) ==> graph_of(graph).contains_key(key)
}

/// Whether the entries can be restored from.
pub open spec fn restorable(
    cache: Seq<(KeySpec, OutputSpec)>,
    graph: Seq<(KeySpec, Seq<KeySpec>)>,
    objects: Seq<(Seq<u8>, Seq<u8>)>,
) -> bool {
    outputs_fit(cache) && hashes_match(objects) && cached_are_nodes(cache, graph)
}

/// The message of the error that a restore ends with.
pub open spec fn restore_error(
    cache: Seq<(KeySpec, OutputSpec)>,
    graph: Seq<(KeySpec, Seq<KeySpec>)>,
    objects: Seq<(Seq<u8>, Seq<u8>)>,
) -> Seq<char> {
    if !outputs_fit(cache) {
        "cached output does not fit its key"@
    } else if !hashes_match(objects) {
        "stored object does not match its hash"@
    } else {
        "cached output belongs to no node of the dependency graph"@
    }
}

/// The state after a restore: cache and graph as the entries give them, every
/// key with an output green as of revision 0, and the revision 1, so that the
/// next run observes the outside anew. A node without an output counts as one
/// whose producer was refused.
pub open spec fn restored_state(
    cache: Seq<(KeySpec, OutputSpec)>,
    graph: Seq<(KeySpec, Seq<KeySpec>)>,
) -> MachineSpec {
    MachineSpec {
        colors: all_green(map_of(cache)),
        cache: map_of(cache),
        graph: graph_of(graph),
        revision: 1,
        stack: Seq::empty(),
        control: Control::Idle,
        refusals: Set::new(
            |key: KeySpec| graph_of(graph).contains_key(key) && !map_of(cache).contains_key(key),
        ),
    }
}

/// The entries of a map, in the order of `keys`.
pub open spec fn entries_of<K, V>(map: Map<K, V>, keys: Seq<K>) -> Seq<(K, V)> {
    Seq::new(keys.len(), |i: int| (keys[i], map[keys[i]]))
}

/// Whether `keys` names the keys of `map`.
pub open spec fn lists_keys<K, V>(map: Map<K, V>, keys: Seq<K>) -> bool {
    &&& forall|i: int| 0 <= i < keys.len() ==> map.contains_key(#[trigger] keys[i])
    &&& forall|key: K| #[trigger] map.contains_key(key) ==> keys.contains(key)
}

/// The map of the first `n` entries of a map holds what the map holds, under
/// the first `n` keys.
pub proof fn lemma_map_of_prefix<K, V>(map: Map<K, V>, keys: Seq<K>, n: int)
    requires
        0 <= n <= keys.len(),
        forall|i: int| 0 <= i < keys.len() ==> map.contains_key(#[trigger] keys[i]),
    ensures
        forall|key: K| #[trigger]
            map_of(entries_of(map, keys).subrange(0, n)).contains_key(key) <==> keys.subrange(
                0,
                n,
            ).contains(key),
        forall|key: K| #[trigger]
            map_of(entries_of(map, keys).subrange(0, n)).contains_key(key) ==> map_of(
                entries_of(map, keys).subrange(0, n),
            )[key] == map[key],
    decreases n,
{
    let entries = entries_of(map, keys);
    let cur = entries.subrange(0, n);
    if n > 0 {
        let prev = entries.subrange(0, n - 1);
        lemma_map_of_prefix(map, keys, n - 1);
        assert(cur.drop_last() =~= prev);
        assert(cur.last() == (keys[n - 1], map[keys[n - 1]]));
        assert(map_of(cur) == map_of(prev).insert(keys[n - 1], map[keys[n - 1]]));
        assert forall|key: K| #[trigger] map_of(cur).contains_key(key) <==> keys.subrange(
            0,
            n,
        ).contains(key) by {
            let held = map_of(prev).contains_key(key);
            assert(held <==> keys.subrange(0, n - 1).contains(key));
            if keys.subrange(0, n).contains(key) {
                let i = choose|i: int| 0 <= i < n && #[trigger] keys.subrange(0, n)[i] == key;
                if i < n - 1 {
                    assert(keys.subrange(0, n - 1)[i] == key);
                }
            }
            if keys.subrange(0, n - 1).contains(key) {
                let i = choose|i: int|
                    0 <= i < n - 1 && #[trigger] keys.subrange(0, n - 1)[i] == key;
                assert(keys.subrange(0, n)[i] == key);
            }
            assert(keys.subrange(0, n)[n - 1] == keys[n - 1]);
        }
        assert forall|key: K| #[trigger] map_of(cur).contains_key(key) implies map_of(cur)[key]
            == map[key] by {
            if key != keys[n - 1] {
                assert(map_of(prev).contains_key(key));
            }
        }
    } else {
        assert(cur =~= Seq::<(K, V)>::empty());
        assert(keys.subrange(0, 0) =~= Seq::<K>::empty());
        assert(map_of(cur) =~= Map::<K, V>::empty());
    }
}

/// Restoring the entries of a map gives the map.
pub proof fn lemma_map_round_trip<K, V>(map: Map<K, V>, keys: Seq<K>)
    requires
        lists_keys(map, keys),
    ensures
        map_of(entries_of(map, keys)) == map,
{
    lemma_map_of_prefix(map, keys, keys.len() as int);
    assert(entries_of(map, keys).subrange(0, keys.len() as int) =~= entries_of(map, keys));
    assert(keys.subrange(0, keys.len() as int) =~= keys);
    assert(map_of(entries_of(map, keys)) =~= map);
}

/// What recording a list of dependencies for a key does to a graph in which
/// the key has none yet: the key gets the list, the keys of the list become
/// nodes, and every other list stays.
pub proof fn lemma_add_list(graph: Map<KeySpec, Seq<KeySpec>>, key: KeySpec, deps: Seq<KeySpec>)
    requires
        deps.no_duplicates(),
        graph.contains_key(key) ==> graph[key] == Seq::<KeySpec>::empty(),
    ensures
        add_list(graph, key, deps).contains_key(key),
        add_list(graph, key, deps)[key] == deps,
        forall|x: KeySpec| #[trigger]
            add_list(graph, key, deps).contains_key(x) <==> graph.contains_key(x) || x == key
                || deps.contains(x),
        forall|x: KeySpec|
            x != key && graph.contains_key(x) ==> #[trigger] add_list(graph, key, deps)[x] == graph[x],
        forall|x: KeySpec|
            x != key && !graph.contains_key(x) && deps.contains(x) ==> #[trigger] add_list(
                graph,
                key,
                deps,
            )[x] == Seq::<KeySpec>::empty(),
    decreases deps.len(),
{
    if deps.len() == 0 {
        assert(add_list(graph, key, deps)[key] =~= deps);
    } else {
        let tail = deps.subrange(1, deps.len() as int);
        let first = deps[0];
        let inner = add_list(graph, key, tail);
        assert(tail.no_duplicates());
        lemma_add_list(graph, key, tail);
        assert(!tail.contains(first)) by {
            if tail.contains(first) {
                let j = choose|j: int| 0 <= j < tail.len() && tail[j] == first;
                assert(deps[j + 1] == deps[0]);
            }
        }
        let nodes = with_node(with_node(inner, key), first);
        assert(nodes[key] == tail);
        let result = add_list(graph, key, deps);
        assert(result == nodes.insert(key, seq![first] + tail));
        assert(seq![first] + tail =~= deps);
        assert forall|x: KeySpec| #[trigger] result.contains_key(x) <==> graph.contains_key(x) || x
            == key || deps.contains(x) by {
            let held = inner.contains_key(x);
            assert(held <==> graph.contains_key(x) || x == key || tail.contains(x));
            if tail.contains(x) {
                let j = choose|j: int| 0 <= j < tail.len() && tail[j] == x;
                assert(deps[j + 1] == x);
            }
            if deps.contains(x) && x != first {
                let j = choose|j: int| 0 <= j < deps.len() && deps[j] == x;
                assert(tail[j - 1] == x);
            }
            assert(deps[0] == first);
        }
        assert forall|x: KeySpec| x != key && graph.contains_key(x) implies #[trigger] result[x]
            == graph[x] by {
            assert(inner[x] == graph[x]);
            assert(inner.contains_key(x));
        }
        assert forall|x: KeySpec|
            x != key && !graph.contains_key(x) && deps.contains(x) implies #[trigger] result[x]
            == Seq::<KeySpec>::empty() by {
            if tail.contains(x) {
                assert(inner[x] == Seq::<KeySpec>::empty());
                assert(inner.contains_key(x));
            } else {
                let j = choose|j: int| 0 <= j < deps.len() && deps[j] == x;
                if j > 0 {
                    assert(tail[j - 1] == x);
                }
                assert(x == first);
                assert(!inner.contains_key(x));
            }
        }
    }
}

/// Whether every dependency in `graph` is a node of it, and no list names a
/// key twice.
pub open spec fn closed_graph(graph: Map<KeySpec, Seq<KeySpec>>) -> bool {
    &&& forall|key: KeySpec, j: int|
        graph.contains_key(key) && 0 <= j < graph[key].len() ==> graph.contains_key(
            #[trigger] graph[key][j],
        )
    &&& forall|key: KeySpec| #[trigger] graph.contains_key(key) ==> graph[key].no_duplicates()
}

/// The graph of the first `n` entries of a closed graph: its nodes are nodes
/// of the graph, the first `n` nodes have their lists, and every other node
/// has none yet.
pub proof fn lemma_graph_of_prefix(graph: Map<KeySpec, Seq<KeySpec>>, nodes: Seq<KeySpec>, n: int)
    requires
        0 <= n <= nodes.len(),
        nodes.no_duplicates(),
        forall|i: int| 0 <= i < nodes.len() ==> graph.contains_key(#[trigger] nodes[i]),
        closed_graph(graph),
    ensures
        forall|x: KeySpec| #[trigger]
            graph_of(entries_of(graph, nodes).subrange(0, n)).contains_key(x) ==> graph.contains_key(
                x,
            ),
        forall|i: int|
            0 <= i < n ==> graph_of(entries_of(graph, nodes).subrange(0, n)).contains_key(
                #[trigger] nodes[i],
            ) && graph_of(entries_of(graph, nodes).subrange(0, n))[nodes[i]] == graph[nodes[i]],
        forall|x: KeySpec| #[trigger]
            graph_of(entries_of(graph, nodes).subrange(0, n)).contains_key(x) && !nodes.subrange(
                0,
                n,
            ).contains(x) ==> graph_of(entries_of(graph, nodes).subrange(0, n))[x] == Seq::<
                KeySpec,
            >::empty(),
    decreases n,
{
    let entries = entries_of(graph, nodes);
    let cur = entries.subrange(0, n);
    if n == 0 {
        assert(cur =~= Seq::<(KeySpec, Seq<KeySpec>)>::empty());
    } else {
        let prev = entries.subrange(0, n - 1);
        let key = nodes[n - 1];
        let deps = graph[key];
        lemma_graph_of_prefix(graph, nodes, n - 1);
        assert(cur.drop_last() =~= prev);
        assert(cur.last() == (key, deps));
        let before = graph_of(prev);
        let after = graph_of(cur);
        assert(after == add_list(before, key, deps));
        assert(!nodes.subrange(0, n - 1).contains(key)) by {
            if nodes.subrange(0, n - 1).contains(key) {
                let i = choose|i: int|
                    0 <= i < n - 1 && #[trigger] nodes.subrange(0, n - 1)[i] == key;
                assert(nodes[i] == nodes[n - 1]);
            }
        }
        if before.contains_key(key) {
            assert(before[key] == Seq::<KeySpec>::empty());
        }
        assert(graph.contains_key(key));
        lemma_add_list(before, key, deps);
        assert forall|x: KeySpec| #[trigger] after.contains_key(x) implies graph.contains_key(x) by {
            if before.contains_key(x) {
            } else if x == key {
            } else {
                assert(deps.contains(x));
                let j = choose|j: int| 0 <= j < deps.len() && deps[j] == x;
                assert(graph.contains_key(graph[key][j]));
            }
        }
        assert forall|i: int| 0 <= i < n implies after.contains_key(#[trigger] nodes[i]) && after[nodes[i]]
            == graph[nodes[i]] by {
            if i < n - 1 {
                assert(before.contains_key(nodes[i]));
                assert(nodes[i] != key);
                assert(after[nodes[i]] == before[nodes[i]]);
            }
        }
        assert forall|x: KeySpec| #[trigger]
            after.contains_key(x) && !nodes.subrange(0, n).contains(x) implies after[x] == Seq::<
            KeySpec,
        >::empty() by {
            assert(nodes.subrange(0, n)[n - 1] == key);
            assert(x != key);
            assert(!nodes.subrange(0, n - 1).contains(x)) by {
                if nodes.subrange(0, n - 1).contains(x) {
                    let i = choose|i: int|
                        0 <= i < n - 1 && #[trigger] nodes.subrange(0, n - 1)[i] == x;
                    assert(nodes.subrange(0, n)[i] == x);
                }
            }
            if before.contains_key(x) {
                assert(after[x] == before[x]);
            } else {
                assert(deps.contains(x));
            }
        }
    }
}

/// Restoring the entries of a closed graph gives the graph.
pub proof fn lemma_graph_round_trip(graph: Map<KeySpec, Seq<KeySpec>>, nodes: Seq<KeySpec>)
    requires
        lists_keys(graph, nodes),
        nodes.no_duplicates(),
        closed_graph(graph),
    ensures
        graph_of(entries_of(graph, nodes)) == graph,
{
    let n = nodes.len() as int;
    lemma_graph_of_prefix(graph, nodes, n);
    assert(entries_of(graph, nodes).subrange(0, n) =~= entries_of(graph, nodes));
    let restored = graph_of(entries_of(graph, nodes));
    assert forall|x: KeySpec| graph.contains_key(x) implies restored.contains_key(x) && restored[x]
        == graph[x] by {
        assert(nodes.contains(x));
        let i = choose|i: int| 0 <= i < nodes.len() && nodes[i] == x;
        assert(restored.contains_key(nodes[i]));
    }
    assert(restored =~= graph);
}

/// The cache that holds the entries, or nothing where an output is not of the
/// type that its key's kind returns.
pub fn restore_cache(entries: &Vec<(QueryKey, AnyOutput)>) -> (restored: Option<QueryCache>)
    ensures
        restored is Some == outputs_fit(cache_entries(entries@)),
        restored matches Some(cache) ==> cache.wf() && cache@ == map_of(cache_entries(entries@)),
{
    let ghost views = cache_entries(entries@);
    let mut cache = QueryCache::new();
    let mut i: usize = 0;
    while i < entries.len()
        invariant
            i <= entries.len(),
            views == cache_entries(entries@),
            cache.wf(),
            cache@ == map_of(views.subrange(0, i as int)),
            outputs_fit(views.subrange(0, i as int)),
        decreases entries.len() - i,
    {
        assert(views.subrange(0, i + 1).drop_last() =~= views.subrange(0, i as int));
        assert(views.subrange(0, i + 1).last() == views[i as int]);
        if !entries[i].1.fits(&entries[i].0) {
            assert(!output_fits(views[i as int].0, views[i as int].1));
            return None;
        }
        cache.insert(entries[i].0.clone(), entries[i].1.clone());
        assert forall|j: int| 0 <= j < i + 1 implies output_fits(
            (#[trigger] views.subrange(0, i + 1)[j]).0,
            views.subrange(0, i + 1)[j].1,
        ) by {
            if j < i {
                assert(views.subrange(0, i as int)[j] == views.subrange(0, i + 1)[j]);
            }
        }
        i += 1;
    }
    assert(views.subrange(0, entries.len() as int) =~= views);
    Some(cache)
}

/// The store that holds the entries, or nothing where a blob does not come
/// under its own SHA-256.
pub fn restore_objects(entries: &Vec<(Object, Vec<u8>)>) -> (restored: Option<Objects>)
    ensures
        restored is Some == hashes_match(object_entries(entries@)),
        restored matches Some(store) ==> store.wf() && store@ == map_of(object_entries(entries@)),
{
    let ghost views = object_entries(entries@);
    let mut store = Objects::new();
    let mut i: usize = 0;
    while i < entries.len()
        invariant
            i <= entries.len(),
            views == object_entries(entries@),
            store.wf(),
            store@ == map_of(views.subrange(0, i as int)),
            hashes_match(views.subrange(0, i as int)),
        decreases entries.len() - i,
    {
        assert(views.subrange(0, i + 1).drop_last() =~= views.subrange(0, i as int));
        assert(views.subrange(0, i + 1).last() == views[i as int]);
        let stored = store.store_checked(
            entries[i].0.clone(),
            crate::producers::clone_bytes(&entries[i].1),
        );
        if !stored {
            assert(sha256(views[i as int].1) != views[i as int].0);
            return None;
        }
        assert forall|j: int| 0 <= j < i + 1 implies sha256(
            (#[trigger] views.subrange(0, i + 1)[j]).1,
        ) == views.subrange(0, i + 1)[j].0 by {
            if j < i {
                assert(views.subrange(0, i as int)[j] == views.subrange(0, i + 1)[j]);
            }
        }
        i += 1;
    }
    assert(views.subrange(0, entries.len() as int) =~= views);
    Some(store)
}

/// The graph that the entries restore to.
pub fn restore_graph(entries: &Vec<(QueryKey, Vec<QueryKey>)>) -> (graph: DepGraph)
    ensures
        graph.wf(),
        graph@ == graph_of(graph_entries(entries@)),
{
    let ghost views = graph_entries(entries@);
    let mut graph = DepGraph::new();
    let mut i: usize = 0;
    while i < entries.len()
        invariant
            i <= entries.len(),
            views == graph_entries(entries@),
            graph.wf(),
            graph@ == graph_of(views.subrange(0, i as int)),
        decreases entries.len() - i,
    {
        let ghost before = graph@;
        let ghost deps = views[i as int].1;
        let key = &entries[i].0;
        let list = &entries[i].1;
        assert(deps == crate::context::keys_view(list@));
        graph.add_node(key);
        let mut j: usize = list.len();
        assert(deps.subrange(j as int, deps.len() as int) =~= Seq::<KeySpec>::empty());
        while j > 0
            invariant
                j <= list.len(),
                deps == crate::context::keys_view(list@),
                graph.wf(),
                graph@ == add_list(before, key@, deps.subrange(j as int, deps.len() as int)),
            decreases j,
        {
            let ghost rest = deps.subrange(j as int, deps.len() as int);
            let ghost more = deps.subrange(j - 1, deps.len() as int);
            assert(more.subrange(1, more.len() as int) =~= rest);
            assert(more[0] == list@[j - 1]@);
            graph.add_dependency(key.clone(), list[j - 1].clone());
            j -= 1;
        }
        assert(deps.subrange(0, deps.len() as int) =~= deps);
        assert(views.subrange(0, i + 1).drop_last() =~= views.subrange(0, i as int));
        assert(views.subrange(0, i + 1).last() == views[i as int]);
        i += 1;
    }
    assert(views.subrange(0, entries.len() as int) =~= views);
    graph
}

/// Whether every key that has an output in `cache` is a node of `graph`.
pub fn cached_keys_are_nodes(graph: &DepGraph, cache: &QueryCache) -> (all: bool)
    requires
        graph.wf(),
        cache.wf(),
    ensures
        all == (forall|key: KeySpec| #[trigger] cache@.contains_key(key) ==> graph@.contains_key(key)),
{
    proof {
        cache.lemma_keys();
    }
    let keys = cache.iter_keys();
    let mut n: usize = 0;
    while n < keys.len()
        invariant
            graph.wf(),
            n <= keys@.len(),
            keys@.len() == cache.keys().len(),
            forall|j: int| 0 <= j < keys@.len() ==> (#[trigger] keys@[j])@ == cache.keys()[j],
            forall|j: int|
                0 <= j < cache.keys().len() ==> cache@.contains_key(#[trigger] cache.keys()[j]),
            forall|j: int| 0 <= j < n ==> graph@.contains_key(#[trigger] cache.keys()[j]),
        decreases keys@.len() - n,
    {
        if !graph.contains(&keys[n]) {
            assert(cache@.contains_key(cache.keys()[n as int]));
            return false;
        }
        n += 1;
    }
    assert forall|key: KeySpec| #[trigger] cache@.contains_key(key) implies graph@.contains_key(key) by {
        assert(cache.keys().contains(key));
        let j = choose|j: int| 0 <= j < cache.keys().len() && cache.keys()[j] == key;
        assert(graph@.contains_key(cache.keys()[j]));
    }
    true
}

/// The nodes of `graph` that have no output in `cache`, each marked.
pub fn nodes_without_output(graph: &DepGraph, cache: &QueryCache) -> (flags: crate::table::Table<bool>)
    requires
        graph.wf(),
        cache.wf(),
    ensures
        flags.wf(),
        forall|key: KeySpec|
            #[trigger] crate::context::marked(flags.map()).contains(key) <==> (graph@.contains_key(key)
                && !cache@.contains_key(key)),
{
    proof {
        graph.lemma_nodes();
    }
    let mut flags: crate::table::Table<bool> = crate::table::Table::new();
    let count = graph.node_count();
    let mut i: usize = 0;
    while i < count
        invariant
            graph.wf(),
            cache.wf(),
            flags.wf(),
            i <= count,
            count == graph.nodes().len(),
            forall|j: int|
                0 <= j < graph.nodes().len() ==> graph@.contains_key(#[trigger] graph.nodes()[j]),
            forall|key: KeySpec|
                #[trigger] crate::context::marked(flags.map()).contains(key) <==> (graph.nodes().subrange(
                    0,
                    i as int,
                ).contains(key) && !cache@.contains_key(key)),
        decreases count - i,
    {
        let key = graph.node_key(i);
        let ghost before = flags.map();
        let ghost seen = graph.nodes().subrange(0, i as int);
        let ghost more = graph.nodes().subrange(0, i + 1);
        proof {
            assert(more[i as int] == key@);
            assert forall|k: KeySpec| more.contains(k) <==> seen.contains(k) || k == key@ by {
                if more.contains(k) {
                    let j = choose|j: int| 0 <= j < more.len() && more[j] == k;
                    if j < i {
                        assert(seen[j] == k);
                    }
                }
                if seen.contains(k) {
                    let j = choose|j: int| 0 <= j < seen.len() && seen[j] == k;
                    assert(more[j] == k);
                }
            }
        }
        if !cache.contains(&key) {
            flags.insert(key, true);
        }
        assert forall|k: KeySpec|
            #[trigger] crate::context::marked(flags.map()).contains(k) <==> (more.contains(k)
                && !cache@.contains_key(k)) by {
            let was = crate::context::marked(before).contains(k);
            assert(was <==> (seen.contains(k) && !cache@.contains_key(k)));
        }
        i += 1;
    }
    assert(graph.nodes().subrange(0, count as int) =~= graph.nodes());
    assert forall|key: KeySpec|
        #[trigger] crate::context::marked(flags.map()).contains(key) <==> (graph@.contains_key(key)
            && !cache@.contains_key(key)) by {
        if graph@.contains_key(key) {
            assert(graph.nodes().contains(key));
        }
        if graph.nodes().contains(key) {
            let j = choose|j: int| 0 <= j < graph.nodes().len() && graph.nodes()[j] == key;
            assert(graph@.contains_key(graph.nodes()[j]));
        }
    }
    flags
}

/// The colors after a restore: every key of `cache` green, as of revision 0.
pub fn green_colors(cache: &QueryCache) -> (colors: ColorMap)
    requires
        cache.wf(),
    ensures
        colors.wf(),
        colors@ == all_green(cache@),
{
    proof {
        cache.lemma_keys();
    }
    let keys = cache.iter_keys();
    let mut colors = ColorMap::new();
    let mut i: usize = 0;
    while i < keys.len()
        invariant
            i <= keys@.len(),
            keys@.len() == cache.keys().len(),
            forall|j: int| 0 <= j < keys@.len() ==> (#[trigger] keys@[j])@ == cache.keys()[j],
            colors.wf(),
            forall|key: KeySpec| #[trigger]
                colors@.contains_key(key) <==> cache.keys().subrange(0, i as int).contains(key),
            forall|key: KeySpec| #[trigger]
                colors@.contains_key(key) ==> colors@[key] == (Color::Green, 0usize),
        decreases keys@.len() - i,
    {
        let ghost before = colors@;
        colors.mark_green(&keys[i], 0);
        assert forall|key: KeySpec| #[trigger] colors@.contains_key(key) <==> cache.keys().subrange(
            0,
            i + 1,
        ).contains(key) by {
            let held = before.contains_key(key);
            assert(held <==> cache.keys().subrange(0, i as int).contains(key));
            if cache.keys().subrange(0, i + 1).contains(key) {
                let j = choose|j: int|
                    0 <= j < i + 1 && #[trigger] cache.keys().subrange(0, i + 1)[j] == key;
                if j < i {
                    assert(cache.keys().subrange(0, i as int)[j] == key);
                }
            }
            if cache.keys().subrange(0, i as int).contains(key) {
                let j = choose|j: int|
                    0 <= j < i && #[trigger] cache.keys().subrange(0, i as int)[j] == key;
                assert(cache.keys().subrange(0, i + 1)[j] == key);
            }
            assert(cache.keys().subrange(0, i + 1)[i as int] == keys@[i as int]@);
        }
        i += 1;
    }
    assert(cache.keys().subrange(0, keys@.len() as int) =~= cache.keys());
    assert(colors@ =~= all_green(cache@));
    colors
}

} // verus!
