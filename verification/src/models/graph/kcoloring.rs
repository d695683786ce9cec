//! Graph colouring with `K` colours, as a satisfaction problem.
use vstd::prelude::*;
use crate::models::graph::coloring::proper_coloring;
use crate::models::graph::uniform_dims;
use crate::topology::{SimpleGraph, endpoints_below};

pub use crate::models::graph::coloring::is_valid_coloring;

verus! {

/// Whether the vertices can be coloured with `K` colours so that no edge
/// joins two vertices of one colour; `K = 0` stands for an unspecified
/// number of colours and cannot be evaluated.
#[derive(Debug, Clone)]
pub struct KColoring<const K: usize> {
    graph: SimpleGraph,
}

impl<const K: usize> KColoring<K> {
    /// The underlying graph.
    pub closed spec fn spec_graph(&self) -> SimpleGraph {
        self.graph
    }

    /// Instance on `num_vertices` vertices with the given edges.
    pub fn new(num_vertices: usize, edges: Vec<(usize, usize)>) -> (r: Self)
        requires
            endpoints_below(edges@, num_vertices as nat),
        ensures
            r.spec_graph().wf(),
            r.spec_graph().n() == num_vertices,
            r.spec_graph().edge_seq() == edges@,
    {
        KColoring { graph: SimpleGraph::new(num_vertices, edges) }
    }

    /// Instance on an existing graph.
    pub fn from_graph(graph: SimpleGraph) -> (r: Self)
        ensures
            r.spec_graph() == graph,
    {
        KColoring { graph }
    }

    /// The underlying graph.
    pub fn graph(&self) -> (r: &SimpleGraph)
        ensures
            *r == self.spec_graph(),
    {
        &self.graph
    }

    /// Number of vertices.
    pub fn num_vertices(&self) -> (r: usize)
        ensures
            r == self.spec_graph().n(),
    {
        self.graph.num_vertices()
    }

    /// Number of edges.
    pub fn num_edges(&self) -> (r: usize)
        ensures
            r == self.spec_graph().edge_seq().len(),
    {
        self.graph.num_edges()
    }

    /// Number of colours; panics for the unspecified `K = 0`.
    pub fn num_colors(&self) -> (r: usize)
        requires
            K != 0,
        ensures
            r == K,
    {
        K
    }

    /// The edges as `(u, v)` pairs.
    pub fn edges(&self) -> (r: Vec<(usize, usize)>)
        ensures
            r@ == self.spec_graph().edge_seq(),
    {
        self.graph.edges()
    }

    /// Whether no edge joins two vertices of one colour (missing entries count as colour 0).
    fn is_valid_coloring(&self, config: &[usize]) -> (r: bool)
        ensures
            r == proper_coloring(self.spec_graph().edge_seq(), config@),
    {
        let edges = self.graph.edge_list();
        let mut k: usize = 0;
        while k < edges.len()
            invariant
                edges@ == self.spec_graph().edge_seq(),
                k <= edges@.len(),
                forall|j: int| 0 <= j < k ==> !crate::models::graph::coloring::edge_conflicts(config@, #[trigger] edges@[j]),
            decreases edges.len() - k,
        {
            let (u, v) = edges[k];
            let cu = if u < config.len() { config[u] } else { 0 };
            let cv = if v < config.len() { config[v] } else { 0 };
            if cu == cv {
                assert(crate::models::graph::coloring::edge_conflicts(config@, edges@[k as int]));
                return false;
            }
            k += 1;
        }
        true
    }

    /// Each vertex takes one of the `K` colours; panics for `K = 0`.
    pub fn dims(&self) -> (r: Vec<usize>)
        requires
            K != 0,
        ensures
            r@.len() == self.spec_graph().n(),
            forall|i: int| 0 <= i < r@.len() ==> #[trigger] r@[i] == K,
    {
        uniform_dims(self.graph.num_vertices(), K)
    }

    /// Whether `config` is a proper colouring.
    pub fn evaluate(&self, config: &[usize]) -> (r: bool)
        ensures
            r == proper_coloring(self.spec_graph().edge_seq(), config@),
    {
        self.is_valid_coloring(config)
    }
}

} // verus!
