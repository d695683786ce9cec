//! The k-Clique decision problem.
use vstd::prelude::*;
use crate::topology::SimpleGraph;
use crate::types::{Or, EvaluationError};
use crate::models::graph::props::{count_true, count_selected, pairwise_adjacent, check_pairwise_adjacent};

use crate::types::ConstructionError;
use crate::models::graph::{simple_graph_from_create, listed_graph_ok, listed_graph_error, listed_vertex_count};
verus! {

/// The selection names one flag per vertex, at least `k` are set, and the
/// selected vertices are pairwise adjacent.
pub open spec fn is_kclique(g: SimpleGraph, sel: Seq<bool>, k: nat) -> bool {
    &&& sel.len() == g.n()
    &&& count_true(sel) >= k
    &&& pairwise_adjacent(g, sel)
}

/// Given a graph and `k`, decide whether it has a clique of at least `k` vertices.
#[derive(Debug, Clone)]
pub struct KClique {
    graph: SimpleGraph,
    k: usize,
}

fn is_kclique_config(graph: &SimpleGraph, config: &[bool], k: usize) -> (r: bool)
    ensures
        r == is_kclique(*graph, config@, k as nat),
{
    if config.len() != graph.num_vertices() {
        return false;
    }
    if count_selected(config) < k {
        return false;
    }
    check_pairwise_adjacent(graph, config)
}

impl KClique {
    /// The underlying graph.
    pub closed spec fn spec_graph(&self) -> SimpleGraph {
        self.graph
    }

    /// The clique size asked for.
    pub closed spec fn spec_k(&self) -> nat {
        self.k as nat
    }

    /// Builds an instance from listed parts: the graph as by
    /// `simple_graph_from_create`, then `k` at least 1 (`InvalidValue`) and
    /// at most the vertex count (`OutOfRange`).
    pub fn try_from_spec(edges: Vec<(usize, usize)>, num_vertices: Option<usize>, k: usize)
        -> (r: Result<KClique, ConstructionError>)
        ensures
            !listed_graph_ok(edges@, num_vertices) ==> r == Err::<KClique, ConstructionError>(listed_graph_error(edges@, num_vertices)),
            listed_graph_ok(edges@, num_vertices) && k == 0 ==> r == Err::<KClique, ConstructionError>(ConstructionError::InvalidValue),
            listed_graph_ok(edges@, num_vertices) && k > listed_vertex_count(edges@, num_vertices) ==> r == Err::<KClique, ConstructionError>(ConstructionError::OutOfRange),
            listed_graph_ok(edges@, num_vertices) && 0 < k <= listed_vertex_count(edges@, num_vertices) ==> (r matches Ok(p) && p.spec_graph().wf()
                && p.spec_graph().edge_seq() == edges@ && p.spec_graph().n() == listed_vertex_count(edges@, num_vertices) && p.spec_k() == k),
    {
        let graph = match simple_graph_from_create(edges, num_vertices) {
            Ok(g) => g,
            Err(e) => return Err(e),
        };
        if k == 0 {
            return Err(ConstructionError::InvalidValue);
        }
        if k > graph.num_vertices() {
            return Err(ConstructionError::OutOfRange);
        }
        Ok(KClique::new(graph, k))
    }

    /// Creates an instance; panics unless `1 <= k <= num_vertices`.
    pub fn new(graph: SimpleGraph, k: usize) -> (r: Self)
        requires
            0 < k <= graph.n(),
        ensures
            r.spec_graph() == graph,
            r.spec_k() == k,
    {
        KClique { graph, k }
    }

    /// The underlying graph.
    pub fn graph(&self) -> (r: &SimpleGraph)
        ensures
            *r == self.spec_graph(),
    {
        &self.graph
    }

    /// The clique size asked for.
    pub fn k(&self) -> (r: usize)
        ensures
            r == self.spec_k(),
    {
        self.k
    }

    /// Number of vertices.
    pub fn num_vertices(&self) -> (r: usize)
        ensures
            r == self.spec_graph().n(),
    {
        self.graph.num_vertices()
    }

    /// Number of edges.
    pub fn num_edges(&self) -> (r: usize)
        ensures
            r == self.spec_graph().edge_seq().len(),
    {
        self.graph.num_edges()
    }

    /// Whether the selection is a clique of at least `k` vertices.
    pub fn is_valid_solution(&self, config: &[bool]) -> (r: bool)
        ensures
            r == is_kclique(self.spec_graph(), config@, self.spec_k()),
    {
        is_kclique_config(&self.graph, config, self.k)
    }

    /// The flag vector of length `num_vertices` that selects exactly the listed
    /// vertices; panics on a vertex out of range.
    pub fn config_from_vertices(num_vertices: usize, selected_vertices: &[usize]) -> (r: Vec<bool>)
        requires
            forall|i: int| 0 <= i < selected_vertices@.len() ==> #[trigger] selected_vertices@[i] < num_vertices,
        ensures
            r@.len() == num_vertices,
            forall|v: int| 0 <= v < num_vertices ==> (#[trigger] r@[v] <==> selected_vertices@.contains(v as usize)),
    {
        let mut config: Vec<bool> = Vec::new();
        let mut i: usize = 0;
        while i < num_vertices
            invariant
                i <= num_vertices,
                config@.len() == i,
                forall|v: int| 0 <= v < i ==> !#[trigger] config@[v],
            decreases num_vertices - i,
        {
            config.push(false);
            i += 1;
        }
        let mut j: usize = 0;
        while j < selected_vertices.len()
            invariant
                j <= selected_vertices@.len(),
                config@.len() == num_vertices,
                forall|i: int| 0 <= i < selected_vertices@.len() ==> #[trigger] selected_vertices@[i] < num_vertices,
                forall|v: int| 0 <= v < num_vertices ==> (#[trigger] config@[v] <==> selected_vertices@.take(j as int).contains(v as usize)),
            decreases selected_vertices.len() - j,
        {
            let ghost before = config@;
            config.set(selected_vertices[j], true);
            assert forall|v: int| 0 <= v < num_vertices implies (#[trigger] config@[v] <==> selected_vertices@.take(j as int + 1).contains(v as usize)) by {
                let t1 = selected_vertices@.take(j as int + 1);
                let t0 = selected_vertices@.take(j as int);
                assert(t1 =~= t0.push(selected_vertices@[j as int]));
                if t0.contains(v as usize) {
                    let q = choose|q: int| 0 <= q < t0.len() && t0[q] == v as usize;
                    assert(t1[q] == v as usize);
                }
                if t1.contains(v as usize) && !t0.contains(v as usize) {
                    let q = choose|q: int| 0 <= q < t1.len() && t1[q] == v as usize;
                    if q < t0.len() {
                        assert(t0[q] == v as usize);
                    }
                }
                if v == selected_vertices@[j as int] as int {
                    assert(t1[j as int] == v as usize);
                }
            }
            j += 1;
        }
        assert(selected_vertices@.take(selected_vertices@.len() as int) =~= selected_vertices@);
        config
    }

    /// [`KClique::config_from_vertices`] for this instance's vertex count.
    pub fn config_from_selected_vertices(&self, selected_vertices: &[usize]) -> (r: Vec<bool>)
        requires
            forall|i: int| 0 <= i < selected_vertices@.len() ==> #[trigger] selected_vertices@[i] < self.spec_graph().n(),
        ensures
            r@.len() == self.spec_graph().n(),
            forall|v: int| 0 <= v < self.spec_graph().n() ==> (#[trigger] r@[v] <==> selected_vertices@.contains(v as usize)),
    {
        Self::config_from_vertices(self.graph.num_vertices(), selected_vertices)
    }

    /// Evaluates a selection: an error on a length mismatch, else whether it is
    /// a clique of at least `k` vertices.
    pub fn evaluate(&self, config: &Vec<bool>) -> (r: Result<Or, EvaluationError>)
        ensures
            config@.len() != self.spec_graph().n() ==> r == Err::<Or, EvaluationError>(EvaluationError::InvalidConfiguration),
            config@.len() == self.spec_graph().n() ==> r == Ok::<Or, EvaluationError>(Or(is_kclique(self.spec_graph(), config@, self.spec_k()))),
    {
        if config.len() != self.graph.num_vertices() {
            return Err(EvaluationError::InvalidConfiguration);
        }
        Ok(Or(is_kclique_config(&self.graph, config, self.k)))
    }
}

} // verus!
