//! The Maximum Edge-Weighted k-Clique problem.
use vstd::prelude::*;
use crate::topology::SimpleGraph;
use crate::types::{Max, EvaluationError, ConstructionError};
use crate::sums::{selected_sum64, max_value, max_of_selected};
use crate::models::graph::kernel::ones;
use crate::models::graph::props::{count_true, count_selected, pairwise_adjacent, check_pairwise_adjacent};

use crate::models::graph::weights_or_ones;
verus! {

/// The configuration has one entry per vertex, exactly `k` entries equal
/// to 1, and those vertices are pairwise adjacent.
pub open spec fn is_k_clique(g: SimpleGraph, config: Seq<usize>, k: nat) -> bool {
    &&& config.len() == g.n()
    &&& count_true(ones(config)) == k
    &&& pairwise_adjacent(g, ones(config))
}

/// Entry `i` of the configuration is 1 (positions beyond the end are not).
pub open spec fn one_at(config: Seq<usize>, i: int) -> bool {
    0 <= i < config.len() && config[i] == 1
}

/// For each edge, whether both its endpoints are selected.
pub open spec fn inner_edge_flags(g: SimpleGraph, config: Seq<usize>) -> Seq<bool> {
    Seq::new(g.edge_seq().len(), |k: int| one_at(config, g.edge_seq()[k].0 as int) && one_at(config, g.edge_seq()[k].1 as int))
}

/// Given a graph with edge weights and `k`, find a `k`-clique of maximum total
/// edge weight.
#[derive(Debug, Clone)]
pub struct MaximumEdgeWeightedKClique {
    graph: SimpleGraph,
    edge_weights: Vec<i64>,
    k: usize,
}

pub fn ones_vec(config: &[usize]) -> (r: Vec<bool>)
    ensures
        r@ == ones(config@),
{
    let mut r: Vec<bool> = Vec::new();
    let mut i: usize = 0;
    while i < config.len()
        invariant
            i <= config@.len(),
            r@.len() == i,
            forall|j: int| 0 <= j < i ==> #[trigger] r@[j] == (config@[j] == 1),
        decreases config.len() - i,
    {
        r.push(config[i] == 1);
        i += 1;
    }
    assert(r@ =~= ones(config@));
    r
}

fn is_k_clique_config(graph: &SimpleGraph, config: &[usize], k: usize) -> (r: bool)
    ensures
        r == is_k_clique(*graph, config@, k as nat),
{
    if config.len() != graph.num_vertices() {
        return false;
    }
    let sel = ones_vec(config);
    if count_selected(&sel) != k {
        return false;
    }
    check_pairwise_adjacent(graph, &sel)
}

fn inner_edge_flag_vec(graph: &SimpleGraph, config: &[usize]) -> (r: Vec<bool>)
    ensures
        r@ == inner_edge_flags(*graph, config@),
{
    let edges = graph.edge_list();
    let mut r: Vec<bool> = Vec::new();
    let mut k: usize = 0;
    while k < edges.len()
        invariant
            edges@ == graph.edge_seq(),
            k <= edges@.len(),
            r@.len() == k,
            forall|j: int| 0 <= j < k ==> #[trigger] r@[j] == (one_at(config@, edges@[j].0 as int) && one_at(config@, edges@[j].1 as int)),
        decreases edges.len() - k,
    {
        let (u, v) = edges[k];
        assert(edges@[k as int] == (u, v));
        r.push(u < config.len() && config[u] == 1 && v < config.len() && config[v] == 1);
        k += 1;
    }
    assert(r@ =~= inner_edge_flags(*graph, config@));
    r
}

impl MaximumEdgeWeightedKClique {
    /// The underlying graph.
    pub closed spec fn spec_graph(&self) -> SimpleGraph {
        self.graph
    }

    /// The edge weights.
    pub closed spec fn spec_weights(&self) -> Seq<i64> {
        self.edge_weights@
    }

    /// The clique size.
    pub closed spec fn spec_k(&self) -> nat {
        self.k as nat
    }

    /// One weight per edge and `k` at most the vertex count.
    pub open spec fn wf(&self) -> bool {
        &&& self.spec_weights().len() == self.spec_graph().edge_seq().len()
        &&& self.spec_k() <= self.spec_graph().n()
    }

    /// Builds an instance from a graph, optional edge weights (1 each by
    /// default) and `k`, with the errors of [`MaximumEdgeWeightedKClique::new`].
    pub fn try_from_spec(graph: SimpleGraph, edge_weights: Option<Vec<i64>>, k: usize)
        -> (r: Result<MaximumEdgeWeightedKClique, ConstructionError>)
        ensures
            (edge_weights matches Some(w) && w@.len() != graph.edge_seq().len())
                ==> r == Err::<MaximumEdgeWeightedKClique, ConstructionError>(ConstructionError::LengthMismatch),
            !(edge_weights matches Some(w) && w@.len() != graph.edge_seq().len()) && k > graph.n()
                ==> r == Err::<MaximumEdgeWeightedKClique, ConstructionError>(ConstructionError::OutOfRange),
            !(edge_weights matches Some(w) && w@.len() != graph.edge_seq().len()) && k <= graph.n()
                ==> (r matches Ok(p) && p.wf() && p.spec_graph() == graph && p.spec_k() == k
                && (edge_weights matches Some(w) ==> p.spec_weights() == w@)
                && (edge_weights is None ==> forall|i: int| 0 <= i < p.spec_weights().len() ==> #[trigger] p.spec_weights()[i] == 1)),
    {
        let n = graph.num_edges();
        MaximumEdgeWeightedKClique::new(graph, weights_or_ones(edge_weights, n), k)
    }

    /// Creates an instance: a length-mismatch error unless there is one weight
    /// per edge, an out-of-range error when `k` exceeds the vertex count.
    pub fn new(graph: SimpleGraph, edge_weights: Vec<i64>, k: usize) -> (r: Result<Self, ConstructionError>)
        ensures
            edge_weights@.len() != graph.edge_seq().len() ==> r == Err::<Self, ConstructionError>(ConstructionError::LengthMismatch),
            edge_weights@.len() == graph.edge_seq().len() && k > graph.n() ==> r == Err::<Self, ConstructionError>(ConstructionError::OutOfRange),
            edge_weights@.len() == graph.edge_seq().len() && k <= graph.n() ==> (r matches Ok(p) && p.wf()
                && p.spec_graph() == graph && p.spec_weights() == edge_weights@ && p.spec_k() == k),
    {
        if edge_weights.len() != graph.num_edges() {
            return Err(ConstructionError::LengthMismatch);
        }
        if k > graph.num_vertices() {
            return Err(ConstructionError::OutOfRange);
        }
        Ok(MaximumEdgeWeightedKClique { graph, edge_weights, k })
    }

    /// The underlying graph.
    pub fn graph(&self) -> (r: &SimpleGraph)
        ensures
            *r == self.spec_graph(),
    {
        &self.graph
    }

    /// The edge weights.
    pub fn edge_weights(&self) -> (r: &[i64])
        ensures
            r@ == self.spec_weights(),
    {
        self.edge_weights.as_slice()
    }

    /// The clique size.
    pub fn k(&self) -> (r: usize)
        ensures
            r == self.spec_k(),
    {
        self.k
    }

    /// Number of vertices.
    pub fn num_vertices(&self) -> (r: usize)
        ensures
            r == self.spec_graph().n(),
    {
        self.graph.num_vertices()
    }

    /// Number of edges.
    pub fn num_edges(&self) -> (r: usize)
        ensures
            r == self.spec_graph().edge_seq().len(),
    {
        self.graph.num_edges()
    }

    /// Whether the configuration selects a clique of exactly `k` vertices.
    pub fn is_valid_solution(&self, config: &[usize]) -> (r: bool)
        ensures
            r == is_k_clique(self.spec_graph(), config@, self.spec_k()),
    {
        is_k_clique_config(&self.graph, config, self.k)
    }

    /// Evaluates a configuration: no value unless it is a `k`-clique, else the
    /// total weight of the edges inside it (or an overflow error).
    pub fn evaluate(&self, config: &[usize]) -> (r: Result<Max<i64>, EvaluationError>)
        requires
            self.wf(),
        ensures
            r == max_value(
                is_k_clique(self.spec_graph(), config@, self.spec_k()),
                selected_sum64(inner_edge_flags(self.spec_graph(), config@), self.spec_weights()),
            ),
    {
        let ok = is_k_clique_config(&self.graph, config, self.k);
        let flags = inner_edge_flag_vec(&self.graph, config);
        max_of_selected(ok, &flags, &self.edge_weights)
    }
}

} // verus!
