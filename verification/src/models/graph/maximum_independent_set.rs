//! The Maximum (weight) Independent Set problem.
use vstd::prelude::*;
use crate::topology::SimpleGraph;
use crate::types::{Max, EvaluationError};
use crate::sums::{selected_sum64, max_value, max_of_selected};
use crate::models::graph::props::{is_independent, check_independent};

use crate::types::ConstructionError;
use crate::models::decision::Decision;
use crate::models::graph::{simple_graph_from_create, listed_graph_ok, listed_graph_error, listed_vertex_count, weights_or_ones};
verus! {

/// Given a graph with vertex weights, find a maximum-weight set of pairwise
/// non-adjacent vertices.
#[derive(Debug, Clone)]
pub struct MaximumIndependentSet {
    graph: SimpleGraph,
    weights: Vec<i64>,
}

impl MaximumIndependentSet {
    /// The underlying graph.
    pub closed spec fn spec_graph(&self) -> SimpleGraph {
        self.graph
    }

    /// The vertex weights.
    pub closed spec fn spec_weights(&self) -> Seq<i64> {
        self.weights@
    }

    /// One weight per vertex.
    pub open spec fn wf(&self) -> bool {
        self.spec_weights().len() == self.spec_graph().n()
    }

    /// Builds an instance from listed parts: the graph as by
    /// `simple_graph_from_create`, weights defaulting to 1 and otherwise one
    /// per vertex (`LengthMismatch`).
    pub fn try_from_spec(edges: Vec<(usize, usize)>, num_vertices: Option<usize>, weights: Option<Vec<i64>>)
        -> (r: Result<MaximumIndependentSet, ConstructionError>)
        ensures
            !listed_graph_ok(edges@, num_vertices) ==> r == Err::<MaximumIndependentSet, ConstructionError>(listed_graph_error(edges@, num_vertices)),
            listed_graph_ok(edges@, num_vertices) && (weights matches Some(w) && w@.len() != listed_vertex_count(edges@, num_vertices))
                ==> r == Err::<MaximumIndependentSet, ConstructionError>(ConstructionError::LengthMismatch),
            listed_graph_ok(edges@, num_vertices) && !(weights matches Some(w) && w@.len() != listed_vertex_count(edges@, num_vertices)) ==> (r matches Ok(p) && p.wf()
                && p.spec_graph().wf() && p.spec_graph().edge_seq() == edges@ && p.spec_graph().n() == listed_vertex_count(edges@, num_vertices)
                && (weights matches Some(w) ==> p.spec_weights() == w@)
                && (weights is None ==> forall|i: int| 0 <= i < p.spec_weights().len() ==> #[trigger] p.spec_weights()[i] == 1)),
    {
        let graph = match simple_graph_from_create(edges, num_vertices) {
            Ok(g) => g,
            Err(e) => return Err(e),
        };
        let weights = weights_or_ones(weights, graph.num_vertices());
        if weights.len() != graph.num_vertices() {
            return Err(ConstructionError::LengthMismatch);
        }
        Ok(MaximumIndependentSet::new(graph, weights))
    }

    /// Creates an instance; panics unless there is one weight per vertex.
    pub fn new(graph: SimpleGraph, weights: Vec<i64>) -> (r: Self)
        requires
            weights@.len() == graph.n(),
        ensures
            r.wf(),
            r.spec_graph() == graph,
            r.spec_weights() == weights@,
    {
        MaximumIndependentSet { graph, weights }
    }

    /// The underlying graph.
    pub fn graph(&self) -> (r: &SimpleGraph)
        ensures
            *r == self.spec_graph(),
    {
        &self.graph
    }

    /// The vertex weights.
    pub fn weights(&self) -> (r: &[i64])
        ensures
            r@ == self.spec_weights(),
    {
        self.weights.as_slice()
    }

    /// Integer weights are not unit weights.
    pub fn is_weighted(&self) -> (r: bool)
        ensures
            r,
    {
        true
    }

    /// Whether the selected vertices are pairwise non-adjacent.
    pub fn is_valid_solution(&self, config: &[bool]) -> (r: bool)
        ensures
            r == is_independent(self.spec_graph(), config@),
    {
        check_independent(&self.graph, config)
    }

    /// Number of vertices.
    pub fn num_vertices(&self) -> (r: usize)
        ensures
            r == self.spec_graph().n(),
    {
        self.graph.num_vertices()
    }

    /// Number of edges.
    pub fn num_edges(&self) -> (r: usize)
        ensures
            r == self.spec_graph().edge_seq().len(),
    {
        self.graph.num_edges()
    }

    /// Evaluates a selection: an error on a length mismatch, no value when the
    /// set is not independent, else the total weight (or an overflow error).
    pub fn evaluate(&self, config: &Vec<bool>) -> (r: Result<Max<i64>, EvaluationError>)
        requires
            self.wf(),
        ensures
            config@.len() != self.spec_graph().n() ==> r == Err::<Max<i64>, EvaluationError>(EvaluationError::InvalidConfiguration),
            config@.len() == self.spec_graph().n() ==> r == max_value(
                is_independent(self.spec_graph(), config@),
                selected_sum64(config@, self.spec_weights()),
            ),
    {
        if config.len() != self.graph.num_vertices() {
            return Err(EvaluationError::InvalidConfiguration);
        }
        let ok = check_independent(&self.graph, config);
        max_of_selected(ok, config, &self.weights)
    }
}

impl Decision<MaximumIndependentSet> {
    /// Number of vertices of the graph.
    pub fn num_vertices(&self) -> (r: usize)
        ensures
            r == self.spec_inner().spec_graph().n(),
    {
        self.inner().num_vertices()
    }

    /// Number of edges of the graph.
    pub fn num_edges(&self) -> (r: usize)
        ensures
            r == self.spec_inner().spec_graph().edge_seq().len(),
    {
        self.inner().num_edges()
    }
}

} // verus!
