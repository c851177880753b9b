//! The dependency graph: which queries each query read when it last ran.
//!
//! An edge runs from a query to a query that it consumed. The graph is a
//! `petgraph` graph whose nodes carry the keys, beside an index from each key
//! to its node.

use vstd::prelude::*;
use dashmap::DashMap;
use petgraph::graph::Graph;
use petgraph::Directed;
use crate::key::{KeySpec, QueryKey};
use crate::table::{key_slots, slots_get, slots_insert, slots_new};

verus! {

/// The key that each node of a graph carries, node by node.
pub uninterp spec fn node_keys(graph: Graph<QueryKey, (), Directed, usize>) -> Seq<KeySpec>;

/// For each node of a graph, the nodes that its outgoing edges lead to, in the
/// order in which the graph lists them: the edge added last comes first.
pub uninterp spec fn successors(graph: Graph<QueryKey, (), Directed, usize>) -> Seq<Seq<usize>>;

/// Calls `Graph::default`. Trusted: the new graph has no node.
#[verifier::external_body]
fn graph_new() -> (fresh: Graph<QueryKey, (), Directed, usize>)
    ensures
        node_keys(fresh) == Seq::<KeySpec>::empty(),
        successors(fresh) == Seq::<Seq<usize>>::empty(),
{
    Graph::default()
}

/// Calls `Graph::add_node`. Trusted: the new node comes after all others,
/// carries `key` and has no edge; the rest of the graph stays.
#[verifier::external_body]
fn graph_add_node(graph: &mut Graph<QueryKey, (), Directed, usize>, key: QueryKey) -> (node: usize)
    ensures
        node == node_keys(*old(graph)).len(),
        node_keys(*final(graph)) == node_keys(*old(graph)).push(key@),
        successors(*final(graph)) == successors(*old(graph)).push(Seq::empty()),
{
    graph.add_node(key).index()
}

/// Calls `Graph::node_count`. Trusted: the result is the number of nodes.
#[verifier::external_body]
fn graph_node_count(graph: &Graph<QueryKey, (), Directed, usize>) -> (n: usize)
    ensures
        n == node_keys(*graph).len(),
{
    graph.node_count()
}

/// Indexes the graph by a node. Trusted: the result is a copy of the key that
/// the node carries.
#[verifier::external_body]
fn graph_node_key(graph: &Graph<QueryKey, (), Directed, usize>, node: usize) -> (key: QueryKey)
    requires
        node < node_keys(*graph).len(),
    ensures
        key@ == node_keys(*graph)[node as int],
{
    graph[petgraph::graph::NodeIndex::new(node)].clone()
}

/// Calls `Graph::update_edge`. Trusted: where an edge from `from` to `to`
/// exists nothing changes; otherwise the new edge is listed first among those
/// that leave `from`.
#[verifier::external_body]
fn graph_update_edge(graph: &mut Graph<QueryKey, (), Directed, usize>, from: usize, to: usize)
    requires
        from < node_keys(*old(graph)).len(),
        to < node_keys(*old(graph)).len(),
    ensures
        node_keys(*final(graph)) == node_keys(*old(graph)),
        successors(*final(graph)) == (if successors(*old(graph))[from as int].contains(to) {
            successors(*old(graph))
        } else {
            successors(*old(graph)).update(from as int, seq![to] + successors(*old(graph))[from as int])
        }),
{
    graph.update_edge(petgraph::graph::NodeIndex::new(from), petgraph::graph::NodeIndex::new(to), ());
}

/// Whether an edge that leaves `source` stays when the edges that leave `from` go.
fn keeps_edge(source: usize, from: usize) -> (keeps: bool)
    ensures
        keeps == (source != from),
{
    source != from
}

/// Calls `Graph::retain_edges`, keeping the edges that `keeps_edge` keeps.
/// Trusted: the edges that leave `from` are gone; every other list of
/// outgoing edges stays as it was, in its order.
#[verifier::external_body]
fn graph_remove_outgoing(graph: &mut Graph<QueryKey, (), Directed, usize>, from: usize)
    requires
        from < node_keys(*old(graph)).len(),
    ensures
        node_keys(*final(graph)) == node_keys(*old(graph)),
        successors(*final(graph)) == successors(*old(graph)).update(from as int, Seq::empty()),
{
    graph.retain_edges(|frozen, edge| keeps_edge(frozen.edge_endpoints(edge).unwrap().0.index(), from));
}

/// Calls `Graph::neighbors_directed` with `Outgoing`. Trusted: the result
/// lists the nodes that the edges leaving `node` lead to, the edge added last
/// first.
#[verifier::external_body]
fn graph_neighbors(graph: &Graph<QueryKey, (), Directed, usize>, node: usize) -> (targets: Vec<usize>)
    requires
        node < node_keys(*graph).len(),
    ensures
        targets@ == successors(*graph)[node as int],
{
    graph.neighbors_directed(petgraph::graph::NodeIndex::new(node), petgraph::Outgoing).map(|n| n.index()).collect()
}

/// The keys that the nodes `targets` carry.
pub open spec fn keys_of(nodes: Seq<KeySpec>, targets: Seq<usize>) -> Seq<KeySpec> {
    Seq::new(targets.len(), |j: int| nodes[targets[j] as int])
}

/// The graph after `key` has become a node, if it was none.
pub open spec fn with_node(graph: Map<KeySpec, Seq<KeySpec>>, key: KeySpec) -> Map<
    KeySpec,
    Seq<KeySpec>,
> {
    if graph.contains_key(key) {
        graph
    } else {
        graph.insert(key, Seq::empty())
    }
}

/// The graph after the edge from `from` to `to` has been recorded: both are
/// nodes, and `to` is listed among the dependencies of `from` once, first if
/// it is new.
pub open spec fn with_edge(graph: Map<KeySpec, Seq<KeySpec>>, from: KeySpec, to: KeySpec) -> Map<
    KeySpec,
    Seq<KeySpec>,
> {
    let nodes = with_node(with_node(graph, from), to);
    if nodes[from].contains(to) {
        nodes
    } else {
        nodes.insert(from, seq![to] + nodes[from])
    }
}

/// Recording an edge twice is recording it once.
pub proof fn lemma_with_edge_idempotent(graph: Map<KeySpec, Seq<KeySpec>>, from: KeySpec, to: KeySpec)
    ensures
        with_edge(with_edge(graph, from, to), from, to) == with_edge(graph, from, to),
{
    let once = with_edge(graph, from, to);
    let nodes = with_node(with_node(graph, from), to);
    assert(once.contains_key(from) && once.contains_key(to));
    assert(once[from].contains(to)) by {
        if !nodes[from].contains(to) {
            assert((seq![to] + nodes[from])[0] == to);
        }
    }
    assert(with_node(with_node(once, from), to) == once);
}

/// The graph after `from` has lost its outgoing edges: `from` is a node
/// without dependencies.
pub open spec fn without_edges(graph: Map<KeySpec, Seq<KeySpec>>, from: KeySpec) -> Map<
    KeySpec,
    Seq<KeySpec>,
> {
    graph.insert(from, Seq::empty())
}

/// The dependency graph.
pub struct DepGraph {
    graph: Graph<QueryKey, (), Directed, usize>,
    indices: DashMap<QueryKey, usize>,
}

impl View for DepGraph {
    type V = Map<KeySpec, Seq<KeySpec>>;

    /// For each key that the graph has seen, the keys that it depends on, the
    /// one recorded last first.
    closed spec fn view(&self) -> Map<KeySpec, Seq<KeySpec>> {
        Map::new(
            |key: KeySpec| key_slots(self.indices).contains_key(key),
            |key: KeySpec|
                keys_of(
                    node_keys(self.graph),
                    successors(self.graph)[key_slots(self.indices)[key] as int],
                ),
        )
    }
}

impl DepGraph {
    /// The index and the nodes agree, and every edge ends in a node.
    pub closed spec fn wf(&self) -> bool {
        &&& successors(self.graph).len() == node_keys(self.graph).len()
        &&& forall|key: KeySpec| #[trigger]
            key_slots(self.indices).contains_key(key) ==> {
                &&& key_slots(self.indices)[key] < node_keys(self.graph).len()
                &&& node_keys(self.graph)[key_slots(self.indices)[key] as int] == key
            }
        &&& forall|i: int|
            0 <= i < node_keys(self.graph).len() ==> {
                &&& key_slots(self.indices).contains_key(#[trigger] node_keys(self.graph)[i])
                &&& key_slots(self.indices)[node_keys(self.graph)[i]] == i
            }
        &&& forall|i: int, j: int|
            0 <= i < successors(self.graph).len() && 0 <= j < successors(self.graph)[i].len()
                ==> #[trigger] successors(self.graph)[i][j] < node_keys(self.graph).len()
        &&& forall|i: int|
            0 <= i < successors(self.graph).len() ==> (#[trigger] successors(
                self.graph,
            )[i]).no_duplicates()
    }

    /// The keys of the nodes, in the order in which the graph first saw them.
    pub closed spec fn nodes(&self) -> Seq<KeySpec> {
        node_keys(self.graph)
    }

    /// How many nodes the graph has.
    pub fn node_count(&self) -> (n: usize)
        requires
            self.wf(),
        ensures
            n == self.nodes().len(),
    {
        graph_node_count(&self.graph)
    }

    /// A copy of the key of node `i`.
    pub fn node_key(&self, i: usize) -> (key: QueryKey)
        requires
            self.wf(),
            i < self.nodes().len(),
        ensures
            key@ == self.nodes()[i as int],
    {
        graph_node_key(&self.graph, i)
    }

    /// Whether the graph has seen `key`.
    pub fn contains(&self, key: &QueryKey) -> (seen: bool)
        requires
            self.wf(),
        ensures
            seen == self@.contains_key(key@),
    {
        slots_get(&self.indices, key).is_some()
    }

    /// Makes `key` a node, if it is none.
    pub fn add_node(&mut self, key: &QueryKey)
        requires
            old(self).wf(),
        ensures
            final(self).wf(),
            final(self)@ == with_node(old(self)@, key@),
    {
        self.node_for(key);
    }

    /// The nodes are the keys that the graph has seen, each once; every
    /// dependency is a node; and no list of dependencies names a key twice.
    pub proof fn lemma_nodes(&self)
        requires
            self.wf(),
        ensures
            forall|i: int| 0 <= i < self.nodes().len() ==> self@.contains_key(#[trigger] self.nodes()[i]),
            forall|key: KeySpec| #[trigger] self@.contains_key(key) ==> self.nodes().contains(key),
            self.nodes().no_duplicates(),
            forall|key: KeySpec, j: int|
                self@.contains_key(key) && 0 <= j < self@[key].len() ==> self@.contains_key(
                    #[trigger] self@[key][j],
                ),
            forall|key: KeySpec| #[trigger] self@.contains_key(key) ==> self@[key].no_duplicates(),
    {
        assert forall|key: KeySpec| #[trigger] self@.contains_key(key) implies self.nodes().contains(
            key,
        ) by {
            let i = key_slots(self.indices)[key] as int;
            assert(self.nodes()[i] == key);
        }
        assert forall|i: int, j: int|
            0 <= i < self.nodes().len() && 0 <= j < self.nodes().len() && i != j implies self.nodes()[i]
            != self.nodes()[j] by {
            assert(key_slots(self.indices)[node_keys(self.graph)[i]] == i);
            assert(key_slots(self.indices)[node_keys(self.graph)[j]] == j);
        }
        assert forall|key: KeySpec, j: int|
            self@.contains_key(key) && 0 <= j < self@[key].len() implies self@.contains_key(
            #[trigger] self@[key][j],
        ) by {
            let n = key_slots(self.indices)[key] as int;
            let t = successors(self.graph)[n][j];
            assert(t < node_keys(self.graph).len());
            assert(key_slots(self.indices).contains_key(node_keys(self.graph)[t as int]));
        }
        assert forall|key: KeySpec| #[trigger] self@.contains_key(key) implies self@[key].no_duplicates() by {
            let n = key_slots(self.indices)[key] as int;
            let list = successors(self.graph)[n];
            assert(list.no_duplicates());
            assert forall|a: int, b: int|
                0 <= a < list.len() && 0 <= b < list.len() && a != b implies self@[key][a]
                != self@[key][b] by {
                assert(successors(self.graph)[n][a] < node_keys(self.graph).len());
                assert(successors(self.graph)[n][b] < node_keys(self.graph).len());
                assert(key_slots(self.indices)[node_keys(self.graph)[list[a] as int]] == list[a]);
                assert(key_slots(self.indices)[node_keys(self.graph)[list[b] as int]] == list[b]);
            }
        }
    }

    /// A graph without nodes.
    pub fn new() -> (graph: Self)
        ensures
            graph.wf(),
            graph@ == Map::<KeySpec, Seq<KeySpec>>::empty(),
    {
        let graph = DepGraph { graph: graph_new(), indices: slots_new() };
        assert(graph@ =~= Map::<KeySpec, Seq<KeySpec>>::empty());
        graph
    }

    /// The node of `key`, made if there was none.
    fn node_for(&mut self, key: &QueryKey) -> (node: usize)
        requires
            old(self).wf(),
        ensures
            final(self).wf(),
            final(self)@ == with_node(old(self)@, key@),
            key_slots(final(self).indices).contains_key(key@),
            key_slots(final(self).indices)[key@] == node,
            node < node_keys(final(self).graph).len(),
            forall|other: KeySpec| #[trigger]
                key_slots(old(self).indices).contains_key(other) ==> key_slots(
                    final(self).indices,
                ).contains_key(other) && key_slots(final(self).indices)[other] == key_slots(
                    old(self).indices,
                )[other],
    {
        match slots_get(&self.indices, key) {
            Some(node) => node,
            None => {
                let node = graph_add_node(&mut self.graph, key.clone());
                slots_insert(&mut self.indices, key.clone(), node);
                assert(self@ =~= with_node(old(self)@, key@)) by {
                    assert forall|other: KeySpec| #[trigger]
                        old(self)@.contains_key(other) implies self@[other] =~= old(self)@[other] by {
                        let n = key_slots(old(self).indices)[other] as int;
                        assert(successors(self.graph)[n] == successors(old(self).graph)[n]);
                    }
                    assert(self@[key@] =~= Seq::<KeySpec>::empty());
                }
                node
            },
        }
    }

    /// Records that `from` read `to`. Recording an edge that is there changes
    /// nothing.
    pub fn add_dependency(&mut self, from: QueryKey, to: QueryKey)
        requires
            old(self).wf(),
        ensures
            final(self).wf(),
            final(self)@ == with_edge(old(self)@, from@, to@),
    {
        let from_node = self.node_for(&from);
        let to_node = self.node_for(&to);
        let ghost before = *self;
        graph_update_edge(&mut self.graph, from_node, to_node);
        proof {
            let nodes = node_keys(self.graph);
            let old_list = successors(before.graph)[from_node as int];
            assert(forall|j: int| 0 <= j < old_list.len() ==> #[trigger] old_list[j] < nodes.len()) by {
                assert forall|j: int| 0 <= j < old_list.len() implies #[trigger] old_list[j]
                    < nodes.len() by {
                    assert(successors(before.graph)[from_node as int][j] < nodes.len());
                }
            }
            assert(keys_of(nodes, old_list).contains(to@) <==> old_list.contains(to_node)) by {
                if old_list.contains(to_node) {
                    let j = choose|j: int| 0 <= j < old_list.len() && old_list[j] == to_node;
                    assert(keys_of(nodes, old_list)[j] == to@);
                }
                if keys_of(nodes, old_list).contains(to@) {
                    let j = choose|j: int|
                        0 <= j < keys_of(nodes, old_list).len() && keys_of(nodes, old_list)[j] == to@;
                    assert(old_list[j] < nodes.len());
                    assert(old_list[j] == to_node);
                }
            }
            assert(before@[from@] == keys_of(nodes, old_list));
            if !old_list.contains(to_node) {
                assert(keys_of(nodes, seq![to_node] + old_list) =~= seq![to@] + keys_of(
                    nodes,
                    old_list,
                ));
            }
            assert forall|other: KeySpec| #[trigger] before@.contains_key(other) && other
                != from@ implies self@[other] =~= before@[other] by {
                let n = key_slots(before.indices)[other] as int;
                assert(successors(self.graph)[n] == successors(before.graph)[n]);
            }
            assert(self@ =~= with_edge(old(self)@, from@, to@));
        }
    }

    /// Removes every edge that leaves `from`, which becomes a node if it was none.
    pub fn remove_all_dependencies(&mut self, from: QueryKey)
        requires
            old(self).wf(),
        ensures
            final(self).wf(),
            final(self)@ == without_edges(old(self)@, from@),
    {
        let from_node = self.node_for(&from);
        let ghost before = *self;
        graph_remove_outgoing(&mut self.graph, from_node);
        proof {
            assert forall|other: KeySpec| #[trigger] before@.contains_key(other) && other
                != from@ implies self@[other] =~= before@[other] by {
                let n = key_slots(before.indices)[other] as int;
                assert(successors(self.graph)[n] == successors(before.graph)[n]);
            }
            assert(self@[from@] =~= Seq::<KeySpec>::empty());
            assert(self@ =~= without_edges(old(self)@, from@));
        }
    }

    /// The queries that `key` depends on, the one recorded last first; `None`
    /// where the graph has never seen `key`.
    pub fn dependencies(&self, key: &QueryKey) -> (deps: Option<Vec<QueryKey>>)
        requires
            self.wf(),
        ensures
            deps.is_some() == self@.contains_key(key@),
            deps matches Some(list) ==> list@.len() == self@[key@].len() && forall|j: int|
                0 <= j < list@.len() ==> (#[trigger] list@[j])@ == self@[key@][j],
    {
        match slots_get(&self.indices, key) {
            None => None,
            Some(node) => {
                let targets = graph_neighbors(&self.graph, node);
                let mut list: Vec<QueryKey> = Vec::new();
                let mut j: usize = 0;
                while j < targets.len()
                    invariant
                        self.wf(),
                        node < node_keys(self.graph).len(),
                        targets@ == successors(self.graph)[node as int],
                        j <= targets.len(),
                        list@.len() == j,
                        forall|i: int|
                            0 <= i < j ==> (#[trigger] list@[i])@ == node_keys(
                                self.graph,
                            )[targets@[i] as int],
                    decreases targets.len() - j,
                {
                    assert(successors(self.graph)[node as int][j as int] < node_keys(
                        self.graph,
                    ).len());
                    list.push(graph_node_key(&self.graph, targets[j]));
                    j += 1;
                }
                Some(list)
            },
        }
    }
}

} // verus!
