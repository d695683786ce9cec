//! The Maximal Independent Set problem.
use vstd::prelude::*;
use crate::topology::SimpleGraph;
use crate::types::{Max, EvaluationError};
use crate::sums::{selected_sum64, max_value, max_of_selected};
use crate::models::graph::props::{is_independent, check_independent, sel_at, has_selected_neighbor, check_selected_neighbor};

use crate::types::ConstructionError;
verus! {

/// An independent set to which no further vertex can be added.
pub open spec fn is_maximal_independent(g: SimpleGraph, sel: Seq<bool>) -> bool {
    &&& is_independent(g, sel)
    &&& forall|v: int| 0 <= v < g.n() && !sel_at(sel, v) ==> #[trigger] has_selected_neighbor(g, sel, v)
}

/// Given a graph with vertex weights, find a maximum-weight maximal independent set.
#[derive(Debug, Clone)]
pub struct MaximalIS {
    graph: SimpleGraph,
    weights: Vec<i64>,
}

/// Whether the selection is a maximal independent set of `graph`.
fn check_maximal(graph: &SimpleGraph, config: &[bool]) -> (r: bool)
    ensures
        r == is_maximal_independent(*graph, config@),
{
    if !check_independent(graph, config) {
        return false;
    }
    let n = graph.num_vertices();
    let mut v: usize = 0;
    while v < n
        invariant
            n == graph.n(),
            v <= n,
            is_independent(*graph, config@),
            forall|x: int| 0 <= x < v && !sel_at(config@, x) ==> #[trigger] has_selected_neighbor(*graph, config@, x),
        decreases n - v,
    {
        let selected = v < config.len() && config[v];
        if !selected {
            if !check_selected_neighbor(graph, config, v) {
                return false;
            }
        }
        v += 1;
    }
    true
}

impl MaximalIS {
    /// The underlying graph.
    pub closed spec fn spec_graph(&self) -> SimpleGraph {
        self.graph
    }

    /// The vertex weights.
    pub closed spec fn spec_weights(&self) -> Seq<i64> {
        self.weights@
    }

    /// One weight per vertex.
    pub open spec fn wf(&self) -> bool {
        self.spec_weights().len() == self.spec_graph().n()
    }

    /// Builds an instance from a graph and its vertex weights: one weight
    /// per vertex (`LengthMismatch`).
    pub fn try_from_spec(graph: SimpleGraph, weights: Vec<i64>) -> (r: Result<MaximalIS, ConstructionError>)
        ensures
            weights@.len() != graph.n() ==> r == Err::<MaximalIS, ConstructionError>(ConstructionError::LengthMismatch),
            weights@.len() == graph.n() ==> (r matches Ok(p) && p.wf() && p.spec_graph() == graph && p.spec_weights() == weights@),
    {
        if weights.len() != graph.num_vertices() {
            return Err(ConstructionError::LengthMismatch);
        }
        Ok(MaximalIS::new(graph, weights))
    }

    /// Creates an instance; panics unless there is one weight per vertex.
    pub fn new(graph: SimpleGraph, weights: Vec<i64>) -> (r: Self)
        requires
            weights@.len() == graph.n(),
        ensures
            r.wf(),
            r.spec_graph() == graph,
            r.spec_weights() == weights@,
    {
        MaximalIS { graph, weights }
    }

    /// The underlying graph.
    pub fn graph(&self) -> (r: &SimpleGraph)
        ensures
            *r == self.spec_graph(),
    {
        &self.graph
    }

    /// The vertex weights.
    pub fn weights(&self) -> (r: &[i64])
        ensures
            r@ == self.spec_weights(),
    {
        self.weights.as_slice()
    }

    /// Integer weights are not unit weights.
    pub fn is_weighted(&self) -> (r: bool)
        ensures
            r,
    {
        true
    }

    /// Whether the selection is a maximal independent set.
    pub fn is_valid_solution(&self, config: &[bool]) -> (r: bool)
        ensures
            r == is_maximal_independent(self.spec_graph(), config@),
    {
        check_maximal(&self.graph, config)
    }

    /// Number of vertices.
    pub fn num_vertices(&self) -> (r: usize)
        ensures
            r == self.spec_graph().n(),
    {
        self.graph.num_vertices()
    }

    /// Number of edges.
    pub fn num_edges(&self) -> (r: usize)
        ensures
            r == self.spec_graph().edge_seq().len(),
    {
        self.graph.num_edges()
    }

    /// Evaluates a selection: an error on a length mismatch, no value when it
    /// is not a maximal independent set, else its total weight (or an overflow error).
    pub fn evaluate(&self, config: &Vec<bool>) -> (r: Result<Max<i64>, EvaluationError>)
        requires
            self.wf(),
        ensures
            config@.len() != self.spec_graph().n() ==> r == Err::<Max<i64>, EvaluationError>(EvaluationError::InvalidConfiguration),
            config@.len() == self.spec_graph().n() ==> r == max_value(
                is_maximal_independent(self.spec_graph(), config@),
                selected_sum64(config@, self.spec_weights()),
            ),
    {
        if config.len() != self.graph.num_vertices() {
            return Err(EvaluationError::InvalidConfiguration);
        }
        let ok = check_maximal(&self.graph, config);
        max_of_selected(ok, config, &self.weights)
    }
}

} // verus!
