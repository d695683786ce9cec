//! The Hamiltonian Circuit problem.
use vstd::prelude::*;
use crate::topology::{SimpleGraph, is_permutation, check_permutation};
use crate::types::{Or, EvaluationError};

verus! {

/// `perm` orders all vertices (at least three) so that consecutive ones,
/// and the last and the first, are adjacent.
pub open spec fn is_hamiltonian_circuit(g: SimpleGraph, perm: Seq<usize>) -> bool {
    &&& g.n() >= 3
    &&& is_permutation(perm, g.n())
    &&& forall|i: int| 0 <= i < perm.len() ==> #[trigger] g.spec_has_edge(perm[i] as int, perm[(i + 1) % (perm.len() as int)] as int)
}

/// Given a graph, decide whether it has a cycle through every vertex.
#[derive(Debug, Clone)]
pub struct HamiltonianCircuit {
    graph: SimpleGraph,
}

/// Whether `config` is a Hamiltonian circuit of `graph`.
pub fn is_valid_hamiltonian_circuit(graph: &SimpleGraph, config: &[usize]) -> (r: bool)
    ensures
        r == is_hamiltonian_circuit(*graph, config@),
{
    let n = graph.num_vertices();
    if n < 3 || !check_permutation(config, n) {
        return false;
    }
    let mut i: usize = 0;
    while i < n
        invariant
            n == graph.n(),
            n >= 3,
            config@.len() == n,
            i <= n,
            forall|k: int| 0 <= k < i ==> #[trigger] graph.spec_has_edge(config@[k] as int, config@[(k + 1) % (n as int)] as int),
        decreases n - i,
    {
        let u = config[i];
        let v = config[(i + 1) % n];
        if !graph.has_edge(u, v) {
            return false;
        }
        i += 1;
    }
    true
}

impl HamiltonianCircuit {
    /// The underlying graph.
    pub closed spec fn spec_graph(&self) -> SimpleGraph {
        self.graph
    }

    /// Creates an instance.
    pub fn new(graph: SimpleGraph) -> (r: Self)
        ensures
            r.spec_graph() == graph,
    {
        HamiltonianCircuit { graph }
    }

    /// The underlying graph.
    pub fn graph(&self) -> (r: &SimpleGraph)
        ensures
            *r == self.spec_graph(),
    {
        &self.graph
    }

    /// Number of vertices.
    pub fn num_vertices(&self) -> (r: usize)
        ensures
            r == self.spec_graph().n(),
    {
        self.graph.num_vertices()
    }

    /// Number of edges.
    pub fn num_edges(&self) -> (r: usize)
        ensures
            r == self.spec_graph().edge_seq().len(),
    {
        self.graph.num_edges()
    }

    /// Whether the vertex ordering is a Hamiltonian circuit.
    pub fn is_valid_solution(&self, config: &[usize]) -> (r: bool)
        ensures
            r == is_hamiltonian_circuit(self.spec_graph(), config@),
    {
        is_valid_hamiltonian_circuit(&self.graph, config)
    }

    /// Evaluates a vertex ordering: an error when its length is not the vertex
    /// count or it names a vertex out of range, else whether it is a
    /// Hamiltonian circuit.
    pub fn evaluate(&self, config: &Vec<usize>) -> (r: Result<Or, EvaluationError>)
        ensures
            (config@.len() != self.spec_graph().n() || exists|i: int| 0 <= i < config@.len() && #[trigger] config@[i] >= self.spec_graph().n())
                ==> r == Err::<Or, EvaluationError>(EvaluationError::InvalidConfiguration),
            (config@.len() == self.spec_graph().n() && forall|i: int| 0 <= i < config@.len() ==> #[trigger] config@[i] < self.spec_graph().n())
                ==> r == Ok::<Or, EvaluationError>(Or(is_hamiltonian_circuit(self.spec_graph(), config@))),
    {
        let n = self.graph.num_vertices();
        if config.len() != n {
            return Err(EvaluationError::InvalidConfiguration);
        }
        if !crate::models::graph::all_below(config, n) {
            return Err(EvaluationError::InvalidConfiguration);
        }
        Ok(Or(is_valid_hamiltonian_circuit(&self.graph, config)))
    }
}

} // verus!
