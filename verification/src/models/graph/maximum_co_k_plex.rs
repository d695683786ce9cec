//! The Maximum Co-k-Plex problem.
use vstd::prelude::*;
use crate::topology::SimpleGraph;
use crate::types::{Max, EvaluationError};
use crate::sums::{selected_sum64, max_value, max_of_selected};
use crate::models::graph::props::sel_at;

use crate::types::ConstructionError;
verus! {

/// Number of endpoint incidences of `v` among the first `m` edges whose two
/// endpoints are both selected (a selected self-loop counts twice).
pub open spec fn induced_degree(edges: Seq<(usize, usize)>, sel: Seq<bool>, m: int, v: int) -> nat
    decreases m,
{
    if m <= 0 {
        0
    } else {
        let e = edges[m - 1];
        induced_degree(edges, sel, m - 1, v) + if sel_at(sel, e.0 as int) && sel_at(sel, e.1 as int) {
            (if e.0 as int == v { 1nat } else { 0nat }) + (if e.1 as int == v { 1nat } else { 0nat })
        } else {
            0nat
        }
    }
}

/// Every vertex has at most `k - 1` selected neighbours (counted by edge) in
/// the subgraph induced by the selection; `k` is at least 1.
pub open spec fn is_co_k_plex(g: SimpleGraph, sel: Seq<bool>, k: nat) -> bool {
    &&& k >= 1
    &&& forall|v: int| 0 <= v < g.n() ==> #[trigger] induced_degree(g.edge_seq(), sel, g.edge_seq().len() as int, v) <= k - 1
}

proof fn lemma_induced_degree_monotone(edges: Seq<(usize, usize)>, sel: Seq<bool>, a: int, b: int, v: int)
    requires
        0 <= a <= b,
    ensures
        induced_degree(edges, sel, a, v) <= induced_degree(edges, sel, b, v),
    decreases b - a,
{
    if a < b {
        lemma_induced_degree_monotone(edges, sel, a, b - 1, v);
    }
}

fn is_co_k_plex_config(graph: &SimpleGraph, config: &[bool], bound_k: usize) -> (r: bool)
    requires
        graph.wf(),
    ensures
        r == is_co_k_plex(*graph, config@, bound_k as nat),
{
    if bound_k == 0 {
        return false;
    }
    let n = graph.num_vertices();
    let edges = graph.edge_list();
    let ghost m = edges@.len() as int;
    let mut deg: Vec<usize> = Vec::new();
    let mut x: usize = 0;
    while x < n
        invariant
            x <= n,
            deg@.len() == x,
            forall|v: int| 0 <= v < x ==> #[trigger] deg@[v] == 0,
        decreases n - x,
    {
        deg.push(0);
        x += 1;
    }
    let mut k: usize = 0;
    while k < edges.len()
        invariant
            graph.wf(),
            edges@ == graph.edge_seq(),
            m == edges@.len(),
            n == graph.n(),
            bound_k >= 1,
            deg@.len() == n,
            k <= edges@.len(),
            forall|v: int| 0 <= v < n ==> #[trigger] deg@[v] == induced_degree(edges@, config@, k as int, v),
            forall|v: int| 0 <= v < n ==> #[trigger] deg@[v] <= bound_k - 1,
        decreases edges.len() - k,
    {
        let (u, v) = edges[k];
        assert(edges@[k as int] == (u, v));
        assert(u < n && v < n);
        let su = u < config.len() && config[u];
        let sv = v < config.len() && config[v];
        if su && sv {
            let du = deg[u];
            if u == v {
                if du + 1 >= bound_k - 1 {
                    proof {
                        lemma_induced_degree_monotone(edges@, config@, k as int + 1, m, u as int);
                    }
                    return false;
                }
                deg.set(u, du + 2);
            } else {
                let dv = deg[v];
                if du + 1 > bound_k - 1 {
                    proof {
                        lemma_induced_degree_monotone(edges@, config@, k as int + 1, m, u as int);
                    }
                    return false;
                }
                if dv + 1 > bound_k - 1 {
                    proof {
                        lemma_induced_degree_monotone(edges@, config@, k as int + 1, m, v as int);
                    }
                    return false;
                }
                deg.set(u, du + 1);
                deg.set(v, dv + 1);
            }
        }
        k += 1;
    }
    assert forall|v: int| 0 <= v < graph.n() implies #[trigger] induced_degree(graph.edge_seq(), config@, graph.edge_seq().len() as int, v) <= bound_k - 1 by {
        assert(deg@[v] == induced_degree(edges@, config@, k as int, v));
    }
    true
}

/// Given a graph with vertex weights and `k`, find a maximum-weight vertex set
/// inducing a subgraph of maximum degree below `k`.
#[derive(Debug, Clone)]
pub struct MaximumCoKPlex {
    graph: SimpleGraph,
    weights: Vec<i64>,
    bound_k: usize,
}

impl MaximumCoKPlex {
    /// The underlying graph.
    pub closed spec fn spec_graph(&self) -> SimpleGraph {
        self.graph
    }

    /// The vertex weights.
    pub closed spec fn spec_weights(&self) -> Seq<i64> {
        self.weights@
    }

    /// The parameter `k`.
    pub closed spec fn spec_k(&self) -> nat {
        self.bound_k as nat
    }

    /// A well-formed graph, one weight per vertex, and `k >= 1`.
    pub open spec fn wf(&self) -> bool {
        &&& self.spec_graph().wf()
        &&& self.spec_weights().len() == self.spec_graph().n()
        &&& self.spec_k() >= 1
    }

    /// Builds an instance from a graph, its vertex weights and `k`: one
    /// weight per vertex (`LengthMismatch`), and `k` at least 1
    /// (`InvalidValue`).
    pub fn try_from_spec(graph: SimpleGraph, weights: Vec<i64>, k: usize) -> (r: Result<MaximumCoKPlex, ConstructionError>)
        requires
            graph.wf(),
        ensures
            weights@.len() != graph.n() ==> r == Err::<MaximumCoKPlex, ConstructionError>(ConstructionError::LengthMismatch),
            weights@.len() == graph.n() && k == 0 ==> r == Err::<MaximumCoKPlex, ConstructionError>(ConstructionError::InvalidValue),
            weights@.len() == graph.n() && k >= 1 ==> (r matches Ok(p) && p.wf() && p.spec_graph() == graph
                && p.spec_weights() == weights@ && p.spec_k() == k),
    {
        if weights.len() != graph.num_vertices() {
            return Err(ConstructionError::LengthMismatch);
        }
        if k == 0 {
            return Err(ConstructionError::InvalidValue);
        }
        Ok(MaximumCoKPlex::with_k(graph, weights, k))
    }

    /// Creates an instance; panics unless there is one weight per vertex and `k >= 1`.
    pub fn with_k(graph: SimpleGraph, weights: Vec<i64>, bound_k: usize) -> (r: Self)
        requires
            graph.wf(),
            weights@.len() == graph.n(),
            bound_k >= 1,
        ensures
            r.wf(),
            r.spec_graph() == graph,
            r.spec_weights() == weights@,
            r.spec_k() == bound_k,
    {
        MaximumCoKPlex { graph, weights, bound_k }
    }

    /// Creates an instance for the parameter `K` fixed at compile time;
    /// panics unless there is one weight per vertex and `K >= 1`.
    pub fn new<const K: usize>(graph: SimpleGraph, weights: Vec<i64>) -> (r: Self)
        requires
            graph.wf(),
            weights@.len() == graph.n(),
            K >= 1,
        ensures
            r.wf(),
            r.spec_graph() == graph,
            r.spec_weights() == weights@,
            r.spec_k() == K,
    {
        MaximumCoKPlex::with_k(graph, weights, K)
    }

    /// The underlying graph.
    pub fn graph(&self) -> (r: &SimpleGraph)
        ensures
            *r == self.spec_graph(),
    {
        &self.graph
    }

    /// The vertex weights.
    pub fn weights(&self) -> (r: &[i64])
        ensures
            r@ == self.spec_weights(),
    {
        self.weights.as_slice()
    }

    /// The parameter `k`.
    pub fn bound_k(&self) -> (r: usize)
        ensures
            r == self.spec_k(),
    {
        self.bound_k
    }

    /// Integer weights are not unit weights.
    pub fn is_weighted(&self) -> (r: bool)
        ensures
            r,
    {
        true
    }

    /// Whether the selection is a co-k-plex.
    pub fn is_valid_solution(&self, config: &[bool]) -> (r: bool)
        requires
            self.wf(),
        ensures
            r == is_co_k_plex(self.spec_graph(), config@, self.spec_k()),
    {
        is_co_k_plex_config(&self.graph, config, self.bound_k)
    }

    /// Number of vertices.
    pub fn num_vertices(&self) -> (r: usize)
        ensures
            r == self.spec_graph().n(),
    {
        self.graph.num_vertices()
    }

    /// Number of edges.
    pub fn num_edges(&self) -> (r: usize)
        ensures
            r == self.spec_graph().edge_seq().len(),
    {
        self.graph.num_edges()
    }

    /// Evaluates a selection: an error on a length mismatch, no value when it
    /// is not a co-k-plex, else its total weight (or an overflow error).
    pub fn evaluate(&self, config: &Vec<bool>) -> (r: Result<Max<i64>, EvaluationError>)
        requires
            self.wf(),
        ensures
            config@.len() != self.spec_graph().n() ==> r == Err::<Max<i64>, EvaluationError>(EvaluationError::InvalidConfiguration),
            config@.len() == self.spec_graph().n() ==> r == max_value(
                is_co_k_plex(self.spec_graph(), config@, self.spec_k()),
                selected_sum64(config@, self.spec_weights()),
            ),
    {
        if config.len() != self.graph.num_vertices() {
            return Err(EvaluationError::InvalidConfiguration);
        }
        let ok = is_co_k_plex_config(&self.graph, config, self.bound_k);
        max_of_selected(ok, config, &self.weights)
    }
}

} // verus!
