//! The Maximum (weight) Matching problem.
use vstd::prelude::*;
use crate::topology::{SimpleGraph, copy_vec};
use crate::types::{Max, EvaluationError};
use crate::sums::{selected_sum64, max_value, max_of_selected};
use crate::models::graph::max_cut::unit_weights64;

use crate::types::ConstructionError;
use crate::models::graph::{simple_graph_from_create, listed_graph_ok, listed_graph_error, listed_vertex_count, weights_or_ones};
verus! {

/// Indices among the first `k` edges at which `v` is an end, in edge order,
/// an edge listed once per end at `v`.
pub open spec fn incident_edges(edges: Seq<(usize, usize)>, v: int, k: int) -> Seq<usize>
    decreases k,
{
    if k <= 0 {
        Seq::empty()
    } else {
        let prev = incident_edges(edges, v, k - 1);
        let e = edges[k - 1];
        let once = if e.0 as int == v { prev.push((k - 1) as usize) } else { prev };
        if e.1 as int == v { once.push((k - 1) as usize) } else { once }
    }
}

/// Two edges share an endpoint.
pub open spec fn share_endpoint(a: (usize, usize), b: (usize, usize)) -> bool {
    a.0 == b.0 || a.0 == b.1 || a.1 == b.0 || a.1 == b.1
}

/// No two distinct selected edges (among the existing ones) share an endpoint.
pub open spec fn is_matching_selection(g: SimpleGraph, sel: Seq<bool>) -> bool {
    forall|i: int, j: int|
        0 <= i < j < sel.len() && j < g.edge_seq().len() && sel[i] && sel[j]
            ==> !share_endpoint(#[trigger] g.edge_seq()[i], #[trigger] g.edge_seq()[j])
}

/// Given a graph with edge weights, find a maximum-weight set of edges no two
/// of which share an endpoint.
#[derive(Debug, Clone)]
pub struct MaximumMatching {
    graph: SimpleGraph,
    edge_weights: Vec<i64>,
}

/// Whether the selected edges form a matching.
pub fn check_matching(graph: &SimpleGraph, config: &[bool]) -> (r: bool)
    requires
        graph.wf(),
    ensures
        r == is_matching_selection(*graph, config@),
{
    let edges = graph.edge_list();
    let n = graph.num_vertices();
    let mut used: Vec<bool> = Vec::new();
    let mut x: usize = 0;
    while x < n
        invariant
            x <= n,
            used@.len() == x,
            forall|v: int| 0 <= v < x ==> !#[trigger] used@[v],
        decreases n - x,
    {
        used.push(false);
        x += 1;
    }
    let mut i: usize = 0;
    while i < config.len()
        invariant
            edges@ == graph.edge_seq(),
            graph.wf(),
            n == graph.n(),
            used@.len() == n,
            i <= config@.len(),
            forall|a: int, b: int|
                0 <= a < b < i && b < edges@.len() && config@[a] && config@[b]
                    ==> !share_endpoint(#[trigger] edges@[a], #[trigger] edges@[b]),
            forall|v: int| 0 <= v < n ==> (#[trigger] used@[v] <==> exists|a: int|
                0 <= a < i && a < edges@.len() && config@[a] && (edges@[a].0 == v || edges@[a].1 == v)),
        decreases config.len() - i,
    {
        if config[i] && i < edges.len() {
            let (u, v) = edges[i];
            assert(edges@[i as int] == (u, v));
            assert(u < n && v < n);
            if used[u] || used[v] {
                proof {
                    let w = if used@[u as int] { u as int } else { v as int };
                    let a = choose|a: int| 0 <= a < i && a < edges@.len() && config@[a] && (edges@[a].0 == w || edges@[a].1 == w);
                    assert(share_endpoint(edges@[a], edges@[i as int]));
                }
                return false;
            }
            used.set(u, true);
            used.set(v, true);
            assert forall|a: int, b: int|
                0 <= a < b < i + 1 && b < edges@.len() && config@[a] && config@[b]
                    implies !share_endpoint(#[trigger] edges@[a], #[trigger] edges@[b]) by {
                if b == i {
                    if share_endpoint(edges@[a], edges@[b]) {
                        if edges@[a].0 == u || edges@[a].1 == u {
                            assert(old_used_has(edges@, config@, a, u as int));
                        }
                    }
                }
            }
        }
        i += 1;
    }
    true
}

/// Helper trigger: edge `a` is selected and touches `v`.
spec fn old_used_has(edges: Seq<(usize, usize)>, sel: Seq<bool>, a: int, v: int) -> bool {
    sel[a] && (edges[a].0 == v || edges[a].1 == v)
}

impl MaximumMatching {
    /// The underlying graph.
    pub closed spec fn spec_graph(&self) -> SimpleGraph {
        self.graph
    }

    /// The edge weights.
    pub closed spec fn spec_weights(&self) -> Seq<i64> {
        self.edge_weights@
    }

    /// A well-formed graph with one weight per edge.
    pub open spec fn wf(&self) -> bool {
        &&& self.spec_graph().wf()
        &&& self.spec_weights().len() == self.spec_graph().edge_seq().len()
    }

    /// Builds an instance from listed parts: the graph as by
    /// `simple_graph_from_create`, edge weights defaulting to 1 and otherwise
    /// one per edge (`LengthMismatch`).
    pub fn try_from_spec(edges: Vec<(usize, usize)>, num_vertices: Option<usize>, edge_weights: Option<Vec<i64>>)
        -> (r: Result<MaximumMatching, ConstructionError>)
        ensures
            !listed_graph_ok(edges@, num_vertices) ==> r == Err::<MaximumMatching, ConstructionError>(listed_graph_error(edges@, num_vertices)),
            listed_graph_ok(edges@, num_vertices) && (edge_weights matches Some(w) && w@.len() != edges@.len())
                ==> r == Err::<MaximumMatching, ConstructionError>(ConstructionError::LengthMismatch),
            listed_graph_ok(edges@, num_vertices) && !(edge_weights matches Some(w) && w@.len() != edges@.len()) ==> (r matches Ok(p) && p.wf()
                && p.spec_graph().edge_seq() == edges@ && p.spec_graph().n() == listed_vertex_count(edges@, num_vertices)
                && (edge_weights matches Some(w) ==> p.spec_weights() == w@)
                && (edge_weights is None ==> forall|i: int| 0 <= i < p.spec_weights().len() ==> #[trigger] p.spec_weights()[i] == 1)),
    {
        let graph = match simple_graph_from_create(edges, num_vertices) {
            Ok(g) => g,
            Err(e) => return Err(e),
        };
        let weights = weights_or_ones(edge_weights, graph.num_edges());
        if weights.len() != graph.num_edges() {
            return Err(ConstructionError::LengthMismatch);
        }
        Ok(MaximumMatching::new(graph, weights))
    }

    /// Creates an instance; panics unless there is one weight per edge.
    pub fn new(graph: SimpleGraph, edge_weights: Vec<i64>) -> (r: Self)
        requires
            graph.wf(),
            edge_weights@.len() == graph.edge_seq().len(),
        ensures
            r.wf(),
            r.spec_graph() == graph,
            r.spec_weights() == edge_weights@,
    {
        MaximumMatching { graph, edge_weights }
    }

    /// Instance with every edge weighing 1.
    pub fn unit_weights(graph: SimpleGraph) -> (r: Self)
        requires
            graph.wf(),
        ensures
            r.wf(),
            r.spec_graph() == graph,
            forall|i: int| 0 <= i < r.spec_weights().len() ==> #[trigger] r.spec_weights()[i] == 1,
    {
        let edge_weights = unit_weights64(graph.num_edges());
        MaximumMatching { graph, edge_weights }
    }

    /// The underlying graph.
    pub fn graph(&self) -> (r: &SimpleGraph)
        ensures
            *r == self.spec_graph(),
    {
        &self.graph
    }

    /// The endpoints of edge `edge_idx`, if it exists.
    pub fn edge_endpoints(&self, edge_idx: usize) -> (r: Option<(usize, usize)>)
        ensures
            edge_idx < self.spec_graph().edge_seq().len() ==> r == Some(self.spec_graph().edge_seq()[edge_idx as int]),
            edge_idx >= self.spec_graph().edge_seq().len() ==> r is None,
    {
        let edges = self.graph.edge_list();
        if edge_idx < edges.len() {
            Some(edges[edge_idx])
        } else {
            None
        }
    }

    /// The edges with their weights.
    pub fn edges(&self) -> (r: Vec<(usize, usize, i64)>)
        requires
            self.wf(),
        ensures
            r@.len() == self.spec_graph().edge_seq().len(),
            forall|k: int| 0 <= k < r@.len() ==> #[trigger] r@[k] == (
                self.spec_graph().edge_seq()[k].0,
                self.spec_graph().edge_seq()[k].1,
                self.spec_weights()[k],
            ),
    {
        let edges = self.graph.edge_list();
        let mut r: Vec<(usize, usize, i64)> = Vec::new();
        let mut k: usize = 0;
        while k < edges.len()
            invariant
                edges@ == self.spec_graph().edge_seq(),
                self.wf(),
                k <= edges@.len(),
                r@.len() == k,
                forall|j: int| 0 <= j < k ==> #[trigger] r@[j] == (edges@[j].0, edges@[j].1, self.edge_weights@[j]),
            decreases edges.len() - k,
        {
            r.push((edges[k].0, edges[k].1, self.edge_weights[k]));
            k += 1;
        }
        r
    }

    /// For each vertex, the indices of its incident edges in edge order (an
    /// edge at both ends of a loop listed twice).
    pub fn vertex_to_edges(&self) -> (r: Vec<Vec<usize>>)
        requires
            self.wf(),
        ensures
            r@.len() == self.spec_graph().n(),
            forall|v: int| 0 <= v < r@.len() ==> (#[trigger] r@[v])@
                == incident_edges(self.spec_graph().edge_seq(), v, self.spec_graph().edge_seq().len() as int),
    {
        let n = self.graph.num_vertices();
        let edges = self.graph.edge_list();
        let ghost es = self.spec_graph().edge_seq();
        let mut r: Vec<Vec<usize>> = Vec::new();
        let mut v: usize = 0;
        while v < n
            invariant
                v <= n,
                n == self.spec_graph().n(),
                edges@ == es,
                r@.len() == v,
                forall|w: int| 0 <= w < v ==> (#[trigger] r@[w])@ == incident_edges(es, w, es.len() as int),
            decreases n - v,
        {
            let mut list: Vec<usize> = Vec::new();
            let mut k: usize = 0;
            while k < edges.len()
                invariant
                    k <= es.len(),
                    edges@ == es,
                    list@ == incident_edges(es, v as int, k as int),
                decreases edges.len() - k,
            {
                let (a, b) = edges[k];
                if a == v {
                    list.push(k);
                }
                if b == v {
                    list.push(k);
                }
                k += 1;
            }
            r.push(list);
            v += 1;
        }
        r
    }

    /// Whether the selected edges form a matching.
    pub fn is_valid_solution(&self, config: &[bool]) -> (r: bool)
        requires
            self.wf(),
        ensures
            r == is_matching_selection(self.spec_graph(), config@),
    {
        check_matching(&self.graph, config)
    }

    /// Replaces the weights; panics unless there is one weight per edge.
    pub fn set_weights(&mut self, weights: Vec<i64>)
        requires
            old(self).wf(),
            weights@.len() == old(self).spec_graph().edge_seq().len(),
        ensures
            final(self).wf(),
            final(self).spec_graph() == old(self).spec_graph(),
            final(self).spec_weights() == weights@,
    {
        self.edge_weights = weights;
    }

    /// The edge weights, copied.
    pub fn weights(&self) -> (r: Vec<i64>)
        ensures
            r@ == self.spec_weights(),
    {
        copy_vec(&self.edge_weights)
    }

    /// Integer weights are not unit weights.
    pub fn is_weighted(&self) -> (r: bool)
        ensures
            r,
    {
        true
    }

    /// Number of vertices.
    pub fn num_vertices(&self) -> (r: usize)
        ensures
            r == self.spec_graph().n(),
    {
        self.graph.num_vertices()
    }

    /// Number of edges.
    pub fn num_edges(&self) -> (r: usize)
        ensures
            r == self.spec_graph().edge_seq().len(),
    {
        self.graph.num_edges()
    }

    /// Evaluates an edge selection: an error on a length mismatch, no value
    /// when it is not a matching, else its total weight (or an overflow error).
    pub fn evaluate(&self, config: &Vec<bool>) -> (r: Result<Max<i64>, EvaluationError>)
        requires
            self.wf(),
        ensures
            config@.len() != self.spec_graph().edge_seq().len() ==> r == Err::<Max<i64>, EvaluationError>(EvaluationError::InvalidConfiguration),
            config@.len() == self.spec_graph().edge_seq().len() ==> r == max_value(
                is_matching_selection(self.spec_graph(), config@),
                selected_sum64(config@, self.spec_weights()),
            ),
    {
        if config.len() != self.graph.num_edges() {
            return Err(EvaluationError::InvalidConfiguration);
        }
        let ok = check_matching(&self.graph, config);
        max_of_selected(ok, config, &self.edge_weights)
    }
}

} // verus!
