//! The Hamiltonian Path Between Two Vertices problem.
use vstd::prelude::*;
use crate::topology::{SimpleGraph, is_permutation, check_permutation};
use crate::types::Or;

verus! {

/// `perm` visits every vertex once, starts at `s`, ends at `t`, and
/// consecutive vertices are adjacent.
pub open spec fn is_hamiltonian_st_path(g: SimpleGraph, perm: Seq<usize>, s: int, t: int) -> bool {
    &&& is_permutation(perm, g.n())
    &&& perm[0] as int == s
    &&& perm[perm.len() - 1] as int == t
    &&& forall|i: int| 0 <= i < perm.len() - 1 ==> #[trigger] g.spec_has_edge(perm[i] as int, perm[i + 1] as int)
}

/// Given a graph and two distinct vertices, decide whether some Hamiltonian
/// path runs from one to the other.
#[derive(Debug, Clone)]
pub struct HamiltonianPathBetweenTwoVertices {
    graph: SimpleGraph,
    source_vertex: usize,
    target_vertex: usize,
}

/// Whether `config` is a Hamiltonian path of `graph` from `source` to `target`.
/// The `requires` leaves out a graph without vertices, on which reading the
/// last vertex of the path would fail.
pub fn is_valid_hamiltonian_st_path(graph: &SimpleGraph, config: &[usize], source: usize, target: usize) -> (r: bool)
    requires
        graph.n() > 0,
    ensures
        r == is_hamiltonian_st_path(*graph, config@, source as int, target as int),
{
    let n = graph.num_vertices();
    if !check_permutation(config, n) {
        return false;
    }
    if config[0] != source || config[n - 1] != target {
        return false;
    }
    let mut i: usize = 1;
    while i < n
        invariant
            n == graph.n(),
            config@.len() == n,
            1 <= i,
            forall|k: int| 0 <= k < i - 1 && k < config@.len() - 1 ==> #[trigger] graph.spec_has_edge(config@[k] as int, config@[k + 1] as int),
        decreases n - i,
    {
        if !graph.has_edge(config[i - 1], config[i]) {
            assert(!graph.spec_has_edge(config@[(i - 1) as int] as int, config@[(i - 1) as int + 1] as int));
            return false;
        }
        i += 1;
    }
    true
}

impl HamiltonianPathBetweenTwoVertices {
    /// The underlying graph.
    pub closed spec fn spec_graph(&self) -> SimpleGraph {
        self.graph
    }

    /// The start vertex.
    pub closed spec fn spec_source(&self) -> nat {
        self.source_vertex as nat
    }

    /// The end vertex.
    pub closed spec fn spec_target(&self) -> nat {
        self.target_vertex as nat
    }

    /// Both endpoints are distinct vertices of the graph.
    pub open spec fn wf(&self) -> bool {
        &&& self.spec_source() < self.spec_graph().n()
        &&& self.spec_target() < self.spec_graph().n()
        &&& self.spec_source() != self.spec_target()
    }

    /// Creates an instance; panics unless the endpoints are distinct vertices.
    pub fn new(graph: SimpleGraph, source_vertex: usize, target_vertex: usize) -> (r: Self)
        requires
            source_vertex < graph.n(),
            target_vertex < graph.n(),
            source_vertex != target_vertex,
        ensures
            r.wf(),
            r.spec_graph() == graph,
            r.spec_source() == source_vertex,
            r.spec_target() == target_vertex,
    {
        HamiltonianPathBetweenTwoVertices { graph, source_vertex, target_vertex }
    }

    /// The underlying graph.
    pub fn graph(&self) -> (r: &SimpleGraph)
        ensures
            *r == self.spec_graph(),
    {
        &self.graph
    }

    /// The start vertex.
    pub fn source_vertex(&self) -> (r: usize)
        ensures
            r == self.spec_source(),
    {
        self.source_vertex
    }

    /// The end vertex.
    pub fn target_vertex(&self) -> (r: usize)
        ensures
            r == self.spec_target(),
    {
        self.target_vertex
    }

    /// Number of vertices.
    pub fn num_vertices(&self) -> (r: usize)
        ensures
            r == self.spec_graph().n(),
    {
        self.graph.num_vertices()
    }

    /// Number of edges.
    pub fn num_edges(&self) -> (r: usize)
        ensures
            r == self.spec_graph().edge_seq().len(),
    {
        self.graph.num_edges()
    }

    /// Whether the vertex ordering is a Hamiltonian path between the two endpoints.
    pub fn is_valid_solution(&self, config: &[usize]) -> (r: bool)
        requires
            self.wf(),
        ensures
            r == is_hamiltonian_st_path(self.spec_graph(), config@, self.spec_source() as int, self.spec_target() as int),
    {
        is_valid_hamiltonian_st_path(&self.graph, config, self.source_vertex, self.target_vertex)
    }

    /// Whether the vertex ordering is a Hamiltonian path between the two endpoints.
    pub fn evaluate(&self, config: &[usize]) -> (r: Or)
        requires
            self.wf(),
        ensures
            r == Or(is_hamiltonian_st_path(self.spec_graph(), config@, self.spec_source() as int, self.spec_target() as int)),
    {
        Or(is_valid_hamiltonian_st_path(&self.graph, config, self.source_vertex, self.target_vertex))
    }
}

} // verus!
