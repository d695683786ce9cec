//! The Maximum Cut problem.
use vstd::prelude::*;
use crate::topology::{SimpleGraph, copy_vec};
use crate::types::{Max, EvaluationError};
use crate::sums::{selected_sum64, checked_selected_sum};

use crate::types::ConstructionError;
use crate::models::graph::{simple_graph_from_create, listed_graph_ok, listed_graph_error, listed_vertex_count, weights_or_ones};
verus! {

/// Edge `k` is cut: both endpoints are assigned and on different sides.
pub open spec fn edge_is_cut(g: SimpleGraph, partition: Seq<bool>, k: int) -> bool {
    let e = g.edge_seq()[k];
    e.0 < partition.len() && e.1 < partition.len() && partition[e.0 as int] != partition[e.1 as int]
}

/// The cut flag of every edge, in edge order.
pub open spec fn cut_flags(g: SimpleGraph, partition: Seq<bool>) -> Seq<bool> {
    Seq::new(g.edge_seq().len(), |k: int| edge_is_cut(g, partition, k))
}

/// Given a graph with edge weights, find a vertex bipartition maximizing the
/// total weight of the edges across it.
#[derive(Debug, Clone)]
pub struct MaxCut {
    graph: SimpleGraph,
    edge_weights: Vec<i64>,
}

fn cut_flag_vec(graph: &SimpleGraph, partition: &[bool]) -> (r: Vec<bool>)
    ensures
        r@ == cut_flags(*graph, partition@),
{
    let edges = graph.edge_list();
    let mut r: Vec<bool> = Vec::new();
    let mut k: usize = 0;
    while k < edges.len()
        invariant
            edges@ == graph.edge_seq(),
            k <= edges@.len(),
            r@.len() == k,
            forall|j: int| 0 <= j < k ==> #[trigger] r@[j] == edge_is_cut(*graph, partition@, j),
        decreases edges.len() - k,
    {
        let (u, v) = edges[k];
        assert(edges@[k as int] == (u, v));
        r.push(u < partition.len() && v < partition.len() && partition[u] != partition[v]);
        k += 1;
    }
    assert(r@ =~= cut_flags(*graph, partition@));
    r
}

/// Total weight of the cut edges, or an overflow error.
pub fn cut_size(graph: &SimpleGraph, edge_weights: &[i64], partition: &[bool]) -> (r: Result<i64, EvaluationError>)
    requires
        edge_weights@.len() == graph.edge_seq().len(),
    ensures
        r == (match selected_sum64(cut_flags(*graph, partition@), edge_weights@) {
            Some(t) => Ok::<i64, EvaluationError>(t as i64),
            None => Err(EvaluationError::IntegerOverflow),
        }),
{
    let flags = cut_flag_vec(graph, partition);
    checked_selected_sum(&flags, edge_weights)
}

/// `n` unit weights.
pub fn unit_weights64(n: usize) -> (r: Vec<i64>)
    ensures
        r@.len() == n,
        forall|i: int| 0 <= i < n ==> #[trigger] r@[i] == 1,
{
    let mut r: Vec<i64> = Vec::new();
    let mut i: usize = 0;
    while i < n
        invariant
            i <= n,
            r@.len() == i,
            forall|k: int| 0 <= k < i ==> #[trigger] r@[k] == 1,
        decreases n - i,
    {
        r.push(1);
        i += 1;
    }
    r
}

impl MaxCut {
    /// The underlying graph.
    pub closed spec fn spec_graph(&self) -> SimpleGraph {
        self.graph
    }

    /// The edge weights.
    pub closed spec fn spec_weights(&self) -> Seq<i64> {
        self.edge_weights@
    }

    /// One weight per edge.
    pub open spec fn wf(&self) -> bool {
        self.spec_weights().len() == self.spec_graph().edge_seq().len()
    }

    /// Builds an instance from listed parts: the graph as by
    /// `simple_graph_from_create`, edge weights defaulting to 1 and otherwise
    /// one per edge (`LengthMismatch`).
    pub fn try_from_spec(edges: Vec<(usize, usize)>, num_vertices: Option<usize>, edge_weights: Option<Vec<i64>>)
        -> (r: Result<MaxCut, ConstructionError>)
        ensures
            !listed_graph_ok(edges@, num_vertices) ==> r == Err::<MaxCut, ConstructionError>(listed_graph_error(edges@, num_vertices)),
            listed_graph_ok(edges@, num_vertices) && (edge_weights matches Some(w) && w@.len() != edges@.len())
                ==> r == Err::<MaxCut, ConstructionError>(ConstructionError::LengthMismatch),
            listed_graph_ok(edges@, num_vertices) && !(edge_weights matches Some(w) && w@.len() != edges@.len()) ==> (r matches Ok(p) && p.wf()
                && p.spec_graph().wf() && p.spec_graph().edge_seq() == edges@ && p.spec_graph().n() == listed_vertex_count(edges@, num_vertices)
                && (edge_weights matches Some(w) ==> p.spec_weights() == w@)
                && (edge_weights is None ==> forall|i: int| 0 <= i < p.spec_weights().len() ==> #[trigger] p.spec_weights()[i] == 1)),
    {
        let graph = match simple_graph_from_create(edges, num_vertices) {
            Ok(g) => g,
            Err(e) => return Err(e),
        };
        let weights = weights_or_ones(edge_weights, graph.num_edges());
        if weights.len() != graph.num_edges() {
            return Err(ConstructionError::LengthMismatch);
        }
        Ok(MaxCut::new(graph, weights))
    }

    /// Creates an instance; panics unless there is one weight per edge.
    pub fn new(graph: SimpleGraph, edge_weights: Vec<i64>) -> (r: Self)
        requires
            edge_weights@.len() == graph.edge_seq().len(),
        ensures
            r.wf(),
            r.spec_graph() == graph,
            r.spec_weights() == edge_weights@,
    {
        MaxCut { graph, edge_weights }
    }

    /// Instance with every edge weighing 1.
    pub fn unweighted(graph: SimpleGraph) -> (r: Self)
        ensures
            r.wf(),
            r.spec_graph() == graph,
            forall|i: int| 0 <= i < r.spec_weights().len() ==> #[trigger] r.spec_weights()[i] == 1,
    {
        let edge_weights = unit_weights64(graph.num_edges());
        MaxCut { graph, edge_weights }
    }

    /// The underlying graph.
    pub fn graph(&self) -> (r: &SimpleGraph)
        ensures
            *r == self.spec_graph(),
    {
        &self.graph
    }

    /// The edges with their weights.
    pub fn edges(&self) -> (r: Vec<(usize, usize, i64)>)
        requires
            self.wf(),
        ensures
            r@.len() == self.spec_graph().edge_seq().len(),
            forall|k: int| 0 <= k < r@.len() ==> #[trigger] r@[k] == (
                self.spec_graph().edge_seq()[k].0,
                self.spec_graph().edge_seq()[k].1,
                self.spec_weights()[k],
            ),
    {
        let edges = self.graph.edge_list();
        let mut r: Vec<(usize, usize, i64)> = Vec::new();
        let mut k: usize = 0;
        while k < edges.len()
            invariant
                edges@ == self.spec_graph().edge_seq(),
                self.wf(),
                k <= edges@.len(),
                r@.len() == k,
                forall|j: int| 0 <= j < k ==> #[trigger] r@[j] == (edges@[j].0, edges@[j].1, self.edge_weights@[j]),
            decreases edges.len() - k,
        {
            r.push((edges[k].0, edges[k].1, self.edge_weights[k]));
            k += 1;
        }
        r
    }

    /// The weight of edge `idx`, if it exists.
    pub fn edge_weight_by_index(&self, idx: usize) -> (r: Option<&i64>)
        ensures
            idx < self.spec_weights().len() ==> r == Some(&self.spec_weights()[idx as int]),
            idx >= self.spec_weights().len() ==> r is None,
    {
        if idx < self.edge_weights.len() {
            Some(&self.edge_weights[idx])
        } else {
            None
        }
    }

    /// The weight of the first edge joining `u` and `v`, if any.
    pub fn edge_weight(&self, u: usize, v: usize) -> (r: Option<&i64>)
        requires
            self.wf(),
        ensures
            r matches Some(w) ==> exists|k: int| 0 <= k < self.spec_graph().edge_seq().len()
                && (self.spec_graph().edge_seq()[k] == (u, v) || self.spec_graph().edge_seq()[k] == (v, u))
                && *w == self.spec_weights()[k]
                && forall|j: int| 0 <= j < k ==> #[trigger] self.spec_graph().edge_seq()[j] != (u, v) && self.spec_graph().edge_seq()[j] != (v, u),
            r is None ==> !self.spec_graph().spec_has_edge(u as int, v as int),
    {
        let edges = self.graph.edge_list();
        let mut k: usize = 0;
        while k < edges.len()
            invariant
                edges@ == self.spec_graph().edge_seq(),
                self.wf(),
                k <= edges@.len(),
                forall|j: int| 0 <= j < k ==> #[trigger] edges@[j] != (u, v) && edges@[j] != (v, u),
            decreases edges.len() - k,
        {
            let (a, b) = edges[k];
            if (a == u && b == v) || (a == v && b == u) {
                assert(edges@[k as int] == (u, v) || edges@[k as int] == (v, u));
                return Some(&self.edge_weights[k]);
            }
            k += 1;
        }
        assert(!self.spec_graph().spec_has_edge(u as int, v as int)) by {
            if self.spec_graph().spec_has_edge(u as int, v as int) {
                let j = choose|j: int| 0 <= j < edges@.len() && (((#[trigger] edges@[j]).0 as int == u as int && edges@[j].1 as int == v as int)
                    || (edges@[j].0 as int == v as int && edges@[j].1 as int == u as int));
                assert(edges@[j] == (u, v) || edges@[j] == (v, u));
            }
        }
        None
    }

    /// The edge weights, copied.
    pub fn edge_weights(&self) -> (r: Vec<i64>)
        ensures
            r@ == self.spec_weights(),
    {
        copy_vec(&self.edge_weights)
    }

    /// Total weight of the edges cut by the bipartition, or an overflow error.
    pub fn cut_size(&self, config: &[bool]) -> (r: Result<i64, EvaluationError>)
        requires
            self.wf(),
        ensures
            r == (match selected_sum64(cut_flags(self.spec_graph(), config@), self.spec_weights()) {
                Some(t) => Ok::<i64, EvaluationError>(t as i64),
                None => Err(EvaluationError::IntegerOverflow),
            }),
    {
        cut_size(&self.graph, &self.edge_weights, config)
    }

    /// Number of vertices.
    pub fn num_vertices(&self) -> (r: usize)
        ensures
            r == self.spec_graph().n(),
    {
        self.graph.num_vertices()
    }

    /// Number of edges.
    pub fn num_edges(&self) -> (r: usize)
        ensures
            r == self.spec_graph().edge_seq().len(),
    {
        self.graph.num_edges()
    }

    /// Evaluates a bipartition: an error on a length mismatch or overflow,
    /// else the cut weight (every bipartition is feasible).
    pub fn evaluate(&self, config: &Vec<bool>) -> (r: Result<Max<i64>, EvaluationError>)
        requires
            self.wf(),
        ensures
            config@.len() != self.spec_graph().n() ==> r == Err::<Max<i64>, EvaluationError>(EvaluationError::InvalidConfiguration),
            config@.len() == self.spec_graph().n() ==> r == (match selected_sum64(cut_flags(self.spec_graph(), config@), self.spec_weights()) {
                Some(t) => Ok::<Max<i64>, EvaluationError>(Max(Some(t as i64))),
                None => Err(EvaluationError::IntegerOverflow),
            }),
    {
        if config.len() != self.graph.num_vertices() {
            return Err(EvaluationError::InvalidConfiguration);
        }
        match cut_size(&self.graph, &self.edge_weights, config) {
            Ok(t) => Ok(Max(Some(t))),
            Err(e) => Err(e),
        }
    }
}

} // verus!
