//! The system graph: resources and domains as nodes, relationships as
//! edges, held in a `petgraph` graph.
use vstd::prelude::*;

use petgraph::graph::{Graph, NodeIndex};
use petgraph::visit::EdgeRef;
use petgraph::Direction;

use crate::model::relationship::{Relationship, RelationshipType};
use crate::model::resource::{label_of, Resource, ResourceType};
use crate::model::store::Store;
use crate::text::str_eq;

verus! {

/// What a node of the system graph stands for.
#[derive(Debug, Clone, Copy, PartialEq, Eq, Structural)]
pub enum NodeType {
    Resource(ResourceType),
    Domain,
}

/// A node of the system graph: its id, label and kind.
#[derive(Debug, Clone)]
pub struct NodeLabel {
    pub id: String,
    pub label: String,
    pub node_type: NodeType,
}

impl NodeLabel {
    /// The node of a resource, labelled by its display name or native id.
    pub fn resource(r: &Resource) -> (n: Self)
        ensures
            n.id@ == r.id@,
            n.label@ == label_of(r.display_name, r.native_id),
            n.node_type == NodeType::Resource(r.resource_type),
    {
        NodeLabel {
            id: r.id.clone(),
            label: String::from_str(r.label()),
            node_type: NodeType::Resource(r.resource_type),
        }
    }

    /// The node of a domain, labelled by its name.
    pub fn domain(id: &str, name: &str) -> (n: Self)
        ensures
            n.id@ == id@,
            n.label@ == name@,
            n.node_type == NodeType::Domain,
    {
        NodeLabel { id: String::from_str(id), label: String::from_str(name), node_type: NodeType::Domain }
    }
}

/// The view of a node: its id, label and kind.
pub open spec fn node_view(n: NodeLabel) -> (Seq<char>, Seq<char>, NodeType) {
    (n.id@, n.label@, n.node_type)
}

#[verifier::external_type_specification]
#[verifier::external_body]
#[verifier::reject_recursive_types(N)]
#[verifier::reject_recursive_types(E)]
#[verifier::reject_recursive_types(Ty)]
#[verifier::reject_recursive_types(Ix)]
pub struct ExGraph<N, E, Ty, Ix>(Graph<N, E, Ty, Ix>);

#[verifier::external_type_specification]
#[verifier::external_body]
pub struct ExDirected(petgraph::Directed);

/// The nodes of a graph, by their views, in the order they were added.
pub uninterp spec fn graph_nodes(g: Graph<NodeLabel, RelationshipType>) -> Seq<
    (Seq<char>, Seq<char>, NodeType),
>;

/// The edges of a graph, (source, target, weight), in the order they were
/// added.
pub uninterp spec fn graph_edges(g: Graph<NodeLabel, RelationshipType>) -> Seq<
    (int, int, RelationshipType),
>;

/// The edges that leave `a`, (target, weight), the most recently added
/// first.
pub open spec fn out_edges(edges: Seq<(int, int, RelationshipType)>, a: int) -> Seq<
    (int, RelationshipType),
>
    decreases edges.len(),
{
    if edges.len() == 0 {
        Seq::<(int, RelationshipType)>::empty()
    } else {
        let rest = out_edges(edges.drop_last(), a);
        let e = edges.last();
        if e.0 == a {
            seq![(e.1, e.2)] + rest
        } else {
            rest
        }
    }
}

/// The edges that reach `a`, (source, weight), the most recently added
/// first.
pub open spec fn in_edges(edges: Seq<(int, int, RelationshipType)>, a: int) -> Seq<
    (int, RelationshipType),
>
    decreases edges.len(),
{
    if edges.len() == 0 {
        Seq::<(int, RelationshipType)>::empty()
    } else {
        let rest = in_edges(edges.drop_last(), a);
        let e = edges.last();
        if e.1 == a {
            seq![(e.0, e.2)] + rest
        } else {
            rest
        }
    }
}

/// Calls `Graph::new`: a directed graph without nodes or edges.
#[verifier::external_body]
fn graph_new() -> (g: Graph<NodeLabel, RelationshipType>)
    ensures
        graph_nodes(g) == Seq::<(Seq<char>, Seq<char>, NodeType)>::empty(),
        graph_edges(g) == Seq::<(int, int, RelationshipType)>::empty(),
{
    Graph::new()
}

/// Calls `Graph::add_node`, which appends the node and returns its index;
/// it panics only at the index type's limit, which `requires` rules out.
#[verifier::external_body]
fn graph_add_node(g: &mut Graph<NodeLabel, RelationshipType>, n: NodeLabel) -> (i: usize)
    requires
        graph_nodes(*old(g)).len() < u32::MAX,
    ensures
        graph_nodes(*final(g)) == graph_nodes(*old(g)).push(node_view(n)),
        graph_edges(*final(g)) == graph_edges(*old(g)),
        i == graph_nodes(*old(g)).len(),
{
    g.add_node(n).index()
}

/// Calls `Graph::add_edge`, which appends the edge; it panics when an end
/// is not a node or at the index type's limit, which `requires` rules out.
#[verifier::external_body]
fn graph_add_edge(g: &mut Graph<NodeLabel, RelationshipType>, a: usize, b: usize, w: RelationshipType)
    requires
        a < graph_nodes(*old(g)).len(),
        b < graph_nodes(*old(g)).len(),
        graph_edges(*old(g)).len() < u32::MAX,
    ensures
        graph_nodes(*final(g)) == graph_nodes(*old(g)),
        graph_edges(*final(g)) == graph_edges(*old(g)).push((a as int, b as int, w)),
{
    g.add_edge(NodeIndex::new(a), NodeIndex::new(b), w);
}

/// Calls `Graph::edges`: for a directed graph, the edges leaving `a`, the
/// most recently added first, as (target, weight).
#[verifier::external_body]
fn graph_outgoing(g: &Graph<NodeLabel, RelationshipType>, a: usize) -> (r: Vec<(usize, RelationshipType)>)
    requires
        a < graph_nodes(*g).len(),
    ensures
        r@.map_values(|e: (usize, RelationshipType)| (e.0 as int, e.1)) == out_edges(
            graph_edges(*g),
            a as int,
        ),
{
    g.edges(NodeIndex::new(a)).map(|e| (e.target().index(), *e.weight())).collect()
}

/// Calls `Graph::edges_directed` with `Incoming`: the edges reaching `a`,
/// the most recently added first, as (source, weight).
#[verifier::external_body]
fn graph_incoming(g: &Graph<NodeLabel, RelationshipType>, a: usize) -> (r: Vec<(usize, RelationshipType)>)
    requires
        a < graph_nodes(*g).len(),
    ensures
        r@.map_values(|e: (usize, RelationshipType)| (e.0 as int, e.1)) == in_edges(
            graph_edges(*g),
            a as int,
        ),
{
    g.edges_directed(NodeIndex::new(a), Direction::Incoming).map(|e| (e.source().index(), *e.weight())).collect()
}

/// Indexes the graph: the weight of node `i`.
#[verifier::external_body]
fn graph_node(g: &Graph<NodeLabel, RelationshipType>, i: usize) -> (n: &NodeLabel)
    requires
        i < graph_nodes(*g).len(),
    ensures
        node_view(*n) == graph_nodes(*g)[i as int],
{
    &g[NodeIndex::new(i)]
}

/// Calls `Graph::node_count`.
#[verifier::external_body]
fn graph_node_count(g: &Graph<NodeLabel, RelationshipType>) -> (n: usize)
    ensures
        n == graph_nodes(*g).len(),
{
    g.node_count()
}

/// The node ids of a store, in the order `from_db` adds them: its
/// resources, then its domains.
pub open spec fn store_node_views(store: Store) -> Seq<(Seq<char>, Seq<char>, NodeType)> {
    store.resources@.map_values(
        |r: Resource| (r.id@, label_of(r.display_name, r.native_id), NodeType::Resource(r.resource_type)),
    ) + store.domains@.map_values(
        |d: crate::model::domain::Domain| (d.id@, d.name@, NodeType::Domain),
    )
}

/// The index recorded for `id`: the last node with that id, as a later
/// insert into a map replaces an earlier one.
pub open spec fn last_index(ids: Seq<(Seq<char>, Seq<char>, NodeType)>, id: Seq<char>) -> Option<int>
    decreases ids.len(),
{
    if ids.len() == 0 {
        None
    } else if ids.last().0 == id {
        Some(ids.len() - 1)
    } else {
        last_index(ids.drop_last(), id)
    }
}

/// The edges of the relationships whose two ends are nodes, in order.
pub open spec fn relationship_edges(
    rels: Seq<Relationship>,
    nodes: Seq<(Seq<char>, Seq<char>, NodeType)>,
) -> Seq<(int, int, RelationshipType)>
    decreases rels.len(),
{
    if rels.len() == 0 {
        Seq::<(int, int, RelationshipType)>::empty()
    } else {
        let rest = relationship_edges(rels.drop_last(), nodes);
        let r = rels.last();
        match (last_index(nodes, r.source_id@), last_index(nodes, r.target_id@)) {
            (Some(a), Some(b)) => rest.push((a, b, r.relationship_type)),
            _ => rest,
        }
    }
}

/// The graph of all resources, domains and relationships.
pub struct SystemGraph {
    graph: Graph<NodeLabel, RelationshipType>,
    index_map: Vec<(String, usize)>,
}

/// A copy of a node.
fn copy_node(n: &NodeLabel) -> (c: NodeLabel)
    ensures
        node_view(c) == node_view(*n),
{
    NodeLabel { id: n.id.clone(), label: n.label.clone(), node_type: n.node_type }
}

pub(crate) proof fn lemma_last_index_bounds(ids: Seq<(Seq<char>, Seq<char>, NodeType)>, id: Seq<char>)
    ensures
        last_index(ids, id) matches Some(i) ==> 0 <= i < ids.len() && ids[i].0 == id,
    decreases ids.len(),
{
    if ids.len() > 0 && ids.last().0 != id {
        lemma_last_index_bounds(ids.drop_last(), id);
    }
}

impl SystemGraph {
    /// The nodes of the graph, by their views.
    pub closed spec fn nodes(&self) -> Seq<(Seq<char>, Seq<char>, NodeType)> {
        graph_nodes(self.graph)
    }

    /// The edges of the graph.
    pub closed spec fn edges(&self) -> Seq<(int, int, RelationshipType)> {
        graph_edges(self.graph)
    }

    /// Every edge joins two nodes, and the index map holds each node's id at
    /// its index.
    pub closed spec fn wf(&self) -> bool {
        &&& forall|k: int|
            0 <= k < self.edges().len() ==> 0 <= (#[trigger] self.edges()[k]).0 < self.nodes().len()
                && 0 <= self.edges()[k].1 < self.nodes().len()
        &&& self.index_map@.len() == self.nodes().len()
        &&& forall|k: int|
            0 <= k < self.index_map@.len() ==> (#[trigger] self.index_map@[k]).1 == k
                && self.index_map@[k].0@ == self.nodes()[k].0
    }

    /// Build the graph of a store: every resource and every domain is a
    /// node, and every relationship whose two ends are nodes is an edge.
    pub fn from_db(store: &Store) -> (g: Self)
        requires
            store.resources@.len() + store.domains@.len() < u32::MAX,
            store.relationships@.len() < u32::MAX,
        ensures
            g.wf(),
            g.nodes() == store_node_views(*store),
            g.edges() == relationship_edges(store.relationships@, store_node_views(*store)),
    {
        let ghost views = store_node_views(*store);
        let mut graph = graph_new();
        let mut index_map: Vec<(String, usize)> = Vec::new();
        let mut i: usize = 0;
        while i < store.resources.len()
            invariant
                i <= store.resources.len(),
                store.resources@.len() + store.domains@.len() < u32::MAX,
                views == store_node_views(*store),
                graph_nodes(graph) == views.take(i as int),
                graph_edges(graph) == Seq::<(int, int, RelationshipType)>::empty(),
                index_map@.len() == i,
                forall|k: int|
                    0 <= k < index_map@.len() ==> (#[trigger] index_map@[k]).1 == k
                        && index_map@[k].0@ == views[k].0,
            decreases store.resources.len() - i,
        {
            let r = &store.resources[i];
            let idx = graph_add_node(&mut graph, NodeLabel::resource(r));
            index_map.push((r.id.clone(), idx));
            assert(views[i as int] == (r.id@, label_of(r.display_name, r.native_id), NodeType::Resource(r.resource_type)));
            assert(views.take(i + 1) =~= views.take(i as int).push(views[i as int]));
            i = i + 1;
        }
        let base = store.resources.len();
        let mut j: usize = 0;
        while j < store.domains.len()
            invariant
                j <= store.domains.len(),
                base == store.resources@.len(),
                store.resources@.len() + store.domains@.len() < u32::MAX,
                views == store_node_views(*store),
                graph_nodes(graph) == views.take(base + j),
                graph_edges(graph) == Seq::<(int, int, RelationshipType)>::empty(),
                index_map@.len() == base + j,
                forall|k: int|
                    0 <= k < index_map@.len() ==> (#[trigger] index_map@[k]).1 == k
                        && index_map@[k].0@ == views[k].0,
            decreases store.domains.len() - j,
        {
            let d = &store.domains[j];
            let idx = graph_add_node(&mut graph, NodeLabel::domain(d.id.as_str(), d.name.as_str()));
            index_map.push((d.id.clone(), idx));
            assert(views[base + j] == (d.id@, d.name@, NodeType::Domain));
            assert(views.take(base + j + 1) =~= views.take(base + j).push(views[base + j]));
            j = j + 1;
        }
        assert(views.take(base + store.domains.len()) =~= views);
        let mut g = SystemGraph { graph, index_map };
        let mut k: usize = 0;
        while k < store.relationships.len()
            invariant
                k <= store.relationships.len(),
                store.relationships@.len() < u32::MAX,
                views == store_node_views(*store),
                g.nodes() == views,
                g.edges() == relationship_edges(store.relationships@.take(k as int), views),
                g.wf(),
            decreases store.relationships.len() - k,
        {
            let rel = &store.relationships[k];
            let ghost t = store.relationships@.take(k + 1);
            assert(t.drop_last() =~= store.relationships@.take(k as int));
            proof {
                lemma_relationship_edges_len(store.relationships@.take(k as int), views);
                lemma_last_index_bounds(views, rel.source_id@);
                lemma_last_index_bounds(views, rel.target_id@);
            }
            match (g.node_index(rel.source_id.as_str()), g.node_index(rel.target_id.as_str())) {
                (Some(src), Some(tgt)) => {
                    graph_add_edge(&mut g.graph, src, tgt, rel.relationship_type);
                },
                _ => {},
            }
            k = k + 1;
        }
        assert(store.relationships@.take(store.relationships.len() as int) =~= store.relationships@);
        g
    }

    /// The index of the node with the given id (the last one added with it).
    pub fn node_index(&self, id: &str) -> (r: Option<usize>)
        requires
            self.wf(),
        ensures
            match r {
                Some(i) => last_index(self.nodes(), id@) == Some(i as int),
                None => last_index(self.nodes(), id@) is None,
            },
    {
        let mut k: usize = self.index_map.len();
        assert(self.nodes().take(k as int) =~= self.nodes());
        while k > 0
            invariant
                k <= self.index_map.len(),
                self.wf(),
                last_index(self.nodes(), id@) == last_index(self.nodes().take(k as int), id@),
            decreases k,
        {
            let ghost t = self.nodes().take(k as int);
            assert(t.drop_last() =~= self.nodes().take(k - 1));
            assert(self.index_map@[k - 1].0@ == t.last().0);
            if str_eq(self.index_map[k - 1].0.as_str(), id) {
                return Some(self.index_map[k - 1].1);
            }
            k = k - 1;
        }
        None
    }

    /// The node at an index.
    pub fn node(&self, idx: usize) -> (n: &NodeLabel)
        requires
            idx < self.nodes().len(),
        ensures
            node_view(*n) == self.nodes()[idx as int],
    {
        graph_node(&self.graph, idx)
    }

    /// The first node whose label is `name`.
    pub fn find_node(&self, name: &str) -> (r: Option<usize>)
        requires
            self.wf(),
        ensures
            match r {
                Some(i) => i < self.nodes().len() && self.nodes()[i as int].1 == name@ && forall|j: int|
                    0 <= j < i ==> self.nodes()[j].1 != name@,
                None => forall|j: int| 0 <= j < self.nodes().len() ==> self.nodes()[j].1 != name@,
            },
    {
        let n = graph_node_count(&self.graph);
        let mut i: usize = 0;
        while i < n
            invariant
                i <= n,
                n == self.nodes().len(),
                forall|j: int| 0 <= j < i ==> self.nodes()[j].1 != name@,
            decreases n - i,
        {
            let node = graph_node(&self.graph, i);
            if str_eq(node.label.as_str(), name) {
                return Some(i);
            }
            i = i + 1;
        }
        None
    }

    /// The edges leaving a node: (target, relationship, target node), the
    /// most recently added first; none for an index that is not a node.
    pub fn outgoing(&self, idx: usize) -> (r: Vec<(usize, RelationshipType, NodeLabel)>)
        requires
            self.wf(),
        ensures
            r@.map_values(|e: (usize, RelationshipType, NodeLabel)| (e.0 as int, e.1)) == if idx
                < self.nodes().len() {
                out_edges(self.edges(), idx as int)
            } else {
                Seq::<(int, RelationshipType)>::empty()
            },
            forall|k: int|
                0 <= k < r@.len() ==> (#[trigger] r@[k]).0 < self.nodes().len() && node_view(r@[k].2)
                    == self.nodes()[r@[k].0 as int],
    {
        if idx >= graph_node_count(&self.graph) {
            let r: Vec<(usize, RelationshipType, NodeLabel)> = Vec::new();
            assert(r@.map_values(|e: (usize, RelationshipType, NodeLabel)| (e.0 as int, e.1)) =~= Seq::<(int, RelationshipType)>::empty());
            return r;
        }
        let edges = graph_outgoing(&self.graph, idx);
        proof {
            lemma_out_edges_in_range(self.edges(), idx as int, self.nodes().len() as int);
        }
        self.with_nodes(edges, Ghost(out_edges(self.edges(), idx as int)))
    }

    /// The edges reaching a node: (source, relationship, source node), the
    /// most recently added first; none for an index that is not a node.
    pub fn incoming(&self, idx: usize) -> (r: Vec<(usize, RelationshipType, NodeLabel)>)
        requires
            self.wf(),
        ensures
            r@.map_values(|e: (usize, RelationshipType, NodeLabel)| (e.0 as int, e.1)) == if idx
                < self.nodes().len() {
                in_edges(self.edges(), idx as int)
            } else {
                Seq::<(int, RelationshipType)>::empty()
            },
            forall|k: int|
                0 <= k < r@.len() ==> (#[trigger] r@[k]).0 < self.nodes().len() && node_view(r@[k].2)
                    == self.nodes()[r@[k].0 as int],
    {
        if idx >= graph_node_count(&self.graph) {
            let r: Vec<(usize, RelationshipType, NodeLabel)> = Vec::new();
            assert(r@.map_values(|e: (usize, RelationshipType, NodeLabel)| (e.0 as int, e.1)) =~= Seq::<(int, RelationshipType)>::empty());
            return r;
        }
        let edges = graph_incoming(&self.graph, idx);
        proof {
            lemma_in_edges_in_range(self.edges(), idx as int, self.nodes().len() as int);
        }
        self.with_nodes(edges, Ghost(in_edges(self.edges(), idx as int)))
    }

    /// All edges touching a node: the outgoing ones, then the incoming ones.
    pub fn neighbors(&self, idx: usize) -> (r: Vec<(usize, RelationshipType, NodeLabel)>)
        requires
            self.wf(),
        ensures
            r@.map_values(|e: (usize, RelationshipType, NodeLabel)| (e.0 as int, e.1)) == if idx
                < self.nodes().len() {
                out_edges(self.edges(), idx as int) + in_edges(self.edges(), idx as int)
            } else {
                Seq::<(int, RelationshipType)>::empty()
            },
    {
        let mut result = self.outgoing(idx);
        let mut incoming = self.incoming(idx);
        let ghost a = result@;
        let ghost b = incoming@;
        result.append(&mut incoming);
        assert(result@ =~= a + b);
        assert((a + b).map_values(|e: (usize, RelationshipType, NodeLabel)| (e.0 as int, e.1)) =~= a.map_values(
            |e: (usize, RelationshipType, NodeLabel)| (e.0 as int, e.1),
        ) + b.map_values(|e: (usize, RelationshipType, NodeLabel)| (e.0 as int, e.1)));
        result
    }

    /// Pair each (node index, relationship) with a copy of that node.
    fn with_nodes(
        &self,
        edges: Vec<(usize, RelationshipType)>,
        Ghost(expected): Ghost<Seq<(int, RelationshipType)>>,
    ) -> (r: Vec<(usize, RelationshipType, NodeLabel)>)
        requires
            self.wf(),
            edges@.map_values(|e: (usize, RelationshipType)| (e.0 as int, e.1)) == expected,
            forall|k: int| 0 <= k < expected.len() ==> 0 <= (#[trigger] expected[k]).0 < self.nodes().len(),
        ensures
            r@.map_values(|e: (usize, RelationshipType, NodeLabel)| (e.0 as int, e.1)) == expected,
            forall|k: int|
                0 <= k < r@.len() ==> (#[trigger] r@[k]).0 < self.nodes().len() && node_view(r@[k].2)
                    == self.nodes()[r@[k].0 as int],
    {
        let mut r: Vec<(usize, RelationshipType, NodeLabel)> = Vec::new();
        let mut k: usize = 0;
        while k < edges.len()
            invariant
                k <= edges.len(),
                self.wf(),
                edges@.map_values(|e: (usize, RelationshipType)| (e.0 as int, e.1)) == expected,
                forall|j: int| 0 <= j < expected.len() ==> 0 <= (#[trigger] expected[j]).0 < self.nodes().len(),
                r@.map_values(|e: (usize, RelationshipType, NodeLabel)| (e.0 as int, e.1)) == expected.take(k as int),
                forall|j: int|
                    0 <= j < r@.len() ==> (#[trigger] r@[j]).0 < self.nodes().len() && node_view(r@[j].2)
                        == self.nodes()[r@[j].0 as int],
            decreases edges.len() - k,
        {
            let (i, w) = edges[k];
            assert(expected[k as int] == (i as int, w));
            let node = copy_node(graph_node(&self.graph, i));
            let ghost before = r@;
            r.push((i, w, node));
            assert(r@.map_values(|e: (usize, RelationshipType, NodeLabel)| (e.0 as int, e.1)) =~= before.map_values(
                |e: (usize, RelationshipType, NodeLabel)| (e.0 as int, e.1),
            ).push((i as int, w)));
            assert(expected.take(k + 1) =~= expected.take(k as int).push(expected[k as int]));
            k = k + 1;
        }
        assert(expected.take(edges.len() as int) =~= expected);
        r
    }
}

/// The edges of relationships are at most as many as the relationships.
proof fn lemma_relationship_edges_len(
    rels: Seq<Relationship>,
    nodes: Seq<(Seq<char>, Seq<char>, NodeType)>,
)
    ensures
        relationship_edges(rels, nodes).len() <= rels.len(),
    decreases rels.len(),
{
    if rels.len() > 0 {
        lemma_relationship_edges_len(rels.drop_last(), nodes);
    }
}

/// The targets of edges within range are within range.
proof fn lemma_out_edges_in_range(edges: Seq<(int, int, RelationshipType)>, a: int, n: int)
    requires
        forall|k: int| 0 <= k < edges.len() ==> 0 <= (#[trigger] edges[k]).0 < n && 0 <= edges[k].1 < n,
    ensures
        forall|k: int| 0 <= k < out_edges(edges, a).len() ==> 0 <= (#[trigger] out_edges(edges, a)[k]).0 < n,
    decreases edges.len(),
{
    if edges.len() > 0 {
        let t = edges.drop_last();
        assert forall|k: int| 0 <= k < t.len() implies 0 <= (#[trigger] t[k]).0 < n && 0 <= t[k].1 < n by {
            assert(t[k] == edges[k]);
        }
        lemma_out_edges_in_range(t, a, n);
        let e = edges.last();
        assert(e == edges[edges.len() - 1]);
        if e.0 == a {
            assert forall|k: int| 0 <= k < out_edges(edges, a).len() implies 0 <= (#[trigger] out_edges(edges, a)[k]).0 < n by {
                if k > 0 {
                    assert(out_edges(edges, a)[k] == out_edges(t, a)[k - 1]);
                }
            }
        }
    }
}

/// The sources of edges within range are within range.
proof fn lemma_in_edges_in_range(edges: Seq<(int, int, RelationshipType)>, a: int, n: int)
    requires
        forall|k: int| 0 <= k < edges.len() ==> 0 <= (#[trigger] edges[k]).0 < n && 0 <= edges[k].1 < n,
    ensures
        forall|k: int| 0 <= k < in_edges(edges, a).len() ==> 0 <= (#[trigger] in_edges(edges, a)[k]).0 < n,
    decreases edges.len(),
{
    if edges.len() > 0 {
        let t = edges.drop_last();
        assert forall|k: int| 0 <= k < t.len() implies 0 <= (#[trigger] t[k]).0 < n && 0 <= t[k].1 < n by {
            assert(t[k] == edges[k]);
        }
        lemma_in_edges_in_range(t, a, n);
        let e = edges.last();
        assert(e == edges[edges.len() - 1]);
        if e.1 == a {
            assert forall|k: int| 0 <= k < in_edges(edges, a).len() implies 0 <= (#[trigger] in_edges(edges, a)[k]).0 < n by {
                if k > 0 {
                    assert(in_edges(edges, a)[k] == in_edges(t, a)[k - 1]);
                }
            }
        }
    }
}

} // verus!
