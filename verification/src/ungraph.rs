//! Undirected graphs held in `petgraph`'s adjacency-list `Graph`, with
//! unit node and edge data.
use vstd::prelude::*;
use petgraph::graph::{Graph, NodeIndex, UnGraph};
use petgraph::visit::EdgeRef;
use petgraph::Undirected;
use crate::topology::{endpoints_below, adjacent_in};

verus! {

/// `petgraph::graph::Graph`, an adjacency-list graph.
#[verifier::external_type_specification]
#[verifier::external_body]
#[verifier::reject_recursive_types(N)]
#[verifier::reject_recursive_types(E)]
#[verifier::reject_recursive_types(Ty)]
#[verifier::reject_recursive_types(Ix)]
pub struct ExGraph<N, E, Ty, Ix>(Graph<N, E, Ty, Ix>);

/// `petgraph::Undirected`, the marker of undirected edges.
#[verifier::external_type_specification]
#[verifier::external_body]
pub struct ExUndirected(Undirected);

/// The number of nodes of a graph.
pub uninterp spec fn graph_node_count(g: UnGraph<(), ()>) -> nat;

/// The edges of a graph as `(source, target)` node indices, in the order of
/// their edge indices.
pub uninterp spec fn graph_edges(g: UnGraph<(), ()>) -> Seq<(usize, usize)>;

/// `Graph::new_undirected`: no nodes and no edges.
#[verifier::external_body]
fn graph_new() -> (g: UnGraph<(), ()>)
    ensures
        graph_node_count(g) == 0,
        graph_edges(g) == Seq::<(usize, usize)>::empty(),
{
    UnGraph::new_undirected()
}

/// `Graph::add_node`: appends one node and leaves the edges; it panics when
/// the node count has reached `u32::MAX`, the end index of `u32` indices.
#[verifier::external_body]
fn graph_add_node(g: &mut UnGraph<(), ()>)
    requires
        graph_node_count(*old(g)) < u32::MAX,
    ensures
        graph_node_count(*final(g)) == graph_node_count(*old(g)) + 1,
        graph_edges(*final(g)) == graph_edges(*old(g)),
{
    g.add_node(());
}

/// `Graph::add_edge`: appends the edge `(u, v)` and leaves the nodes; it
/// panics when an endpoint is not a node or the edge count has reached
/// `u32::MAX`.
#[verifier::external_body]
fn graph_add_edge(g: &mut UnGraph<(), ()>, u: usize, v: usize)
    requires
        graph_node_count(*old(g)) <= u32::MAX,
        u < graph_node_count(*old(g)),
        v < graph_node_count(*old(g)),
        graph_edges(*old(g)).len() < u32::MAX,
    ensures
        graph_node_count(*final(g)) == graph_node_count(*old(g)),
        graph_edges(*final(g)) == graph_edges(*old(g)).push((u, v)),
{
    g.add_edge(NodeIndex::new(u), NodeIndex::new(v), ());
}

/// `Graph::node_count`.
#[verifier::external_body]
fn graph_node_count_of(g: &UnGraph<(), ()>) -> (r: usize)
    ensures
        r == graph_node_count(*g),
{
    g.node_count()
}

/// `Graph::edge_count`.
#[verifier::external_body]
fn graph_edge_count_of(g: &UnGraph<(), ()>) -> (r: usize)
    ensures
        r == graph_edges(*g).len(),
{
    g.edge_count()
}

/// `Graph::edge_references`, each edge taken as its `(source, target)`
/// indices: the edges in edge-index order.
#[verifier::external_body]
fn graph_edge_list(g: &UnGraph<(), ()>) -> (r: Vec<(usize, usize)>)
    ensures
        r@ == graph_edges(*g),
{
    g.edge_references().map(|e| (e.source().index(), e.target().index())).collect()
}

/// `Graph::find_edge` on an undirected graph: whether some edge joins `u`
/// and `v`, in either orientation. Indices above `u32::MAX` would be
/// truncated to `u32`, hence the bound.
#[verifier::external_body]
fn graph_find_edge(g: &UnGraph<(), ()>, u: usize, v: usize) -> (r: bool)
    requires
        u <= u32::MAX,
        v <= u32::MAX,
        endpoints_below(graph_edges(*g), graph_node_count(*g)),
    ensures
        r == adjacent_in(graph_edges(*g), u as int, v as int),
{
    g.find_edge(NodeIndex::new(u), NodeIndex::new(v)).is_some()
}

/// `Graph::neighbors` on an undirected graph: the other endpoint of every
/// edge at `v`, a self-loop once. Which order the adjacency lists give is
/// left unsaid; only the multiset of neighbours is stated.
#[verifier::external_body]
fn graph_neighbors(g: &UnGraph<(), ()>, v: usize) -> (r: Vec<usize>)
    requires
        v <= u32::MAX,
        endpoints_below(graph_edges(*g), graph_node_count(*g)),
    ensures
        r@.to_multiset() == incident_others(graph_edges(*g), v, graph_edges(*g).len() as int).to_multiset(),
{
    g.neighbors(NodeIndex::new(v)).map(|n| n.index()).collect()
}

/// For each of the first `k` edges that has `v` as an endpoint, in order,
/// its other endpoint (a self-loop counted once).
pub open spec fn incident_others(edges: Seq<(usize, usize)>, v: usize, k: int) -> Seq<usize>
    decreases k,
{
    if k <= 0 {
        Seq::empty()
    } else {
        let rest = incident_others(edges, v, k - 1);
        let (a, b) = edges[k - 1];
        if a == v {
            rest.push(b)
        } else if b == v {
            rest.push(a)
        } else {
            rest
        }
    }
}

/// `Graph::clone`: the same nodes and edges, with the same indices.
#[verifier::external_body]
fn graph_clone(g: &UnGraph<(), ()>) -> (r: UnGraph<(), ()>)
    ensures
        graph_node_count(r) == graph_node_count(*g),
        graph_edges(r) == graph_edges(*g),
{
    g.clone()
}

/// An undirected graph on the nodes `0..n`, held in a `petgraph` graph.
#[derive(Debug)]
pub struct UndirectedGraph {
    graph: UnGraph<(), ()>,
}

impl Clone for UndirectedGraph {
    fn clone(&self) -> (r: Self)
        ensures
            r.n() == self.n(),
            r.edge_seq() == self.edge_seq(),
    {
        UndirectedGraph { graph: graph_clone(&self.graph) }
    }
}

impl UndirectedGraph {
    /// Number of vertices.
    pub closed spec fn n(&self) -> nat {
        graph_node_count(self.graph)
    }

    /// The edge list, in insertion order.
    pub closed spec fn edge_seq(&self) -> Seq<(usize, usize)> {
        graph_edges(self.graph)
    }

    /// Every edge joins two vertices, and both counts fit `u32` indices.
    pub open spec fn wf(&self) -> bool {
        &&& endpoints_below(self.edge_seq(), self.n())
        &&& self.n() <= u32::MAX
        &&& self.edge_seq().len() <= u32::MAX
    }

    /// `u` and `v` are adjacent.
    pub open spec fn spec_has_edge(&self, u: int, v: int) -> bool {
        adjacent_in(self.edge_seq(), u, v)
    }

    /// The graph with `num_vertices` vertices and the given edges, added
    /// one by one.
    pub fn new(num_vertices: usize, edges: Vec<(usize, usize)>) -> (g: Self)
        requires
            endpoints_below(edges@, num_vertices as nat),
            num_vertices <= u32::MAX,
            edges@.len() <= u32::MAX,
        ensures
            g.wf(),
            g.n() == num_vertices,
            g.edge_seq() == edges@,
    {
        let mut graph = graph_new();
        let mut i: usize = 0;
        while i < num_vertices
            invariant
                i <= num_vertices,
                num_vertices <= u32::MAX,
                graph_node_count(graph) == i,
                graph_edges(graph) == Seq::<(usize, usize)>::empty(),
            decreases num_vertices - i,
        {
            graph_add_node(&mut graph);
            i += 1;
        }
        let mut k: usize = 0;
        while k < edges.len()
            invariant
                k <= edges@.len(),
                edges@.len() <= u32::MAX,
                num_vertices <= u32::MAX,
                endpoints_below(edges@, num_vertices as nat),
                graph_node_count(graph) == num_vertices,
                graph_edges(graph) == edges@.subrange(0, k as int),
            decreases edges.len() - k,
        {
            let (u, v) = edges[k];
            assert(edges@[k as int] == (u, v));
            graph_add_edge(&mut graph, u, v);
            k += 1;
            assert(graph_edges(graph) =~= edges@.subrange(0, k as int));
        }
        assert(edges@.subrange(0, edges@.len() as int) =~= edges@);
        UndirectedGraph { graph }
    }

    /// Number of vertices.
    pub fn num_vertices(&self) -> (r: usize)
        ensures
            r == self.n(),
    {
        graph_node_count_of(&self.graph)
    }

    /// Number of edges.
    pub fn num_edges(&self) -> (r: usize)
        ensures
            r == self.edge_seq().len(),
    {
        graph_edge_count_of(&self.graph)
    }

    /// The edges as `(u, v)` pairs, in insertion order.
    pub fn edges(&self) -> (r: Vec<(usize, usize)>)
        ensures
            r@ == self.edge_seq(),
    {
        graph_edge_list(&self.graph)
    }

    /// Whether `u` and `v` are adjacent (in either orientation); indices
    /// above `u32::MAX` are not vertices.
    pub fn has_edge(&self, u: usize, v: usize) -> (r: bool)
        requires
            self.wf(),
        ensures
            r == self.spec_has_edge(u as int, v as int),
    {
        if u > 4294967295usize || v > 4294967295usize {
            proof {
                if self.spec_has_edge(u as int, v as int) {
                    let i = choose|i: int| 0 <= i < self.edge_seq().len() && (((#[trigger] self.edge_seq()[i]).0 as int
                        == u as int && self.edge_seq()[i].1 as int == v as int) || (self.edge_seq()[i].0 as int
                        == v as int && self.edge_seq()[i].1 as int == u as int));
                }
            }
            return false;
        }
        graph_find_edge(&self.graph, u, v)
    }

    /// The other endpoint of every edge at `v`, each edge once; the order
    /// is that of the adjacency lists.
    pub fn neighbors(&self, v: usize) -> (r: Vec<usize>)
        requires
            self.wf(),
            v <= u32::MAX,
        ensures
            r@.to_multiset() == incident_others(self.edge_seq(), v, self.edge_seq().len() as int).to_multiset(),
    {
        graph_neighbors(&self.graph, v)
    }
}

} // verus!
