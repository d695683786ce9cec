//! The Eulerian Path problem on directed graphs.
use vstd::prelude::*;
use crate::topology::{DirectedGraph, is_permutation, check_permutation};
use crate::types::{Or, EvaluationError};

verus! {

/// `order` lists every arc once, and each arc starts where the previous one ends.
pub open spec fn is_eulerian_trail(g: DirectedGraph, order: Seq<usize>) -> bool {
    let arcs = g.arc_seq();
    &&& order.len() == arcs.len()
    &&& (arcs.len() == 0 || {
        &&& is_permutation(order, arcs.len())
        &&& forall|t: int| 0 <= t < order.len() - 1 ==> #[trigger] arcs[order[t] as int].1 == arcs[order[t + 1] as int].0
    })
}

/// Given a directed graph, decide whether some walk uses every arc exactly once.
#[derive(Debug, Clone)]
pub struct EulerianPath {
    graph: DirectedGraph,
}

fn is_valid_eulerian_trail(graph: &DirectedGraph, config: &[usize]) -> (r: bool)
    ensures
        r == is_eulerian_trail(*graph, config@),
{
    let m = graph.num_arcs();
    if config.len() != m {
        return false;
    }
    if m == 0 {
        return true;
    }
    if !check_permutation(config, m) {
        return false;
    }
    let arcs = graph.arc_list();
    let mut t: usize = 1;
    while t < m
        invariant
            m == arcs@.len(),
            arcs@ == graph.arc_seq(),
            is_permutation(config@, m as nat),
            1 <= t,
            forall|k: int| 0 <= k < t - 1 && k < config@.len() - 1 ==> #[trigger] arcs@[config@[k] as int].1 == arcs@[config@[k + 1] as int].0,
        decreases m - t,
    {
        if arcs[config[t - 1]].1 != arcs[config[t]].0 {
            return false;
        }
        t += 1;
    }
    true
}

impl EulerianPath {
    /// The underlying graph.
    pub closed spec fn spec_graph(&self) -> DirectedGraph {
        self.graph
    }

    /// Creates an instance.
    pub fn new(graph: DirectedGraph) -> (r: Self)
        ensures
            r.spec_graph() == graph,
    {
        EulerianPath { graph }
    }

    /// The underlying graph.
    pub fn graph(&self) -> (r: &DirectedGraph)
        ensures
            *r == self.spec_graph(),
    {
        &self.graph
    }

    /// Number of vertices.
    pub fn num_vertices(&self) -> (r: usize)
        ensures
            r == self.spec_graph().n(),
    {
        self.graph.num_vertices()
    }

    /// Number of arcs.
    pub fn num_arcs(&self) -> (r: usize)
        ensures
            r == self.spec_graph().arc_seq().len(),
    {
        self.graph.num_arcs()
    }

    /// Whether the arc ordering is an Eulerian trail.
    pub fn is_valid_solution(&self, config: &[usize]) -> (r: bool)
        ensures
            r == is_eulerian_trail(self.spec_graph(), config@),
    {
        is_valid_eulerian_trail(&self.graph, config)
    }

    /// Evaluates an arc ordering: an error when its length is not the arc
    /// count or it names an arc out of range, else whether it is an Eulerian trail.
    pub fn evaluate(&self, config: &Vec<usize>) -> (r: Result<Or, EvaluationError>)
        ensures
            (config@.len() != self.spec_graph().arc_seq().len() || exists|i: int| 0 <= i < config@.len() && #[trigger] config@[i] >= self.spec_graph().arc_seq().len())
                ==> r == Err::<Or, EvaluationError>(EvaluationError::InvalidConfiguration),
            (config@.len() == self.spec_graph().arc_seq().len() && forall|i: int| 0 <= i < config@.len() ==> #[trigger] config@[i] < self.spec_graph().arc_seq().len())
                ==> r == Ok::<Or, EvaluationError>(Or(is_eulerian_trail(self.spec_graph(), config@))),
    {
        let m = self.graph.num_arcs();
        if config.len() != m {
            return Err(EvaluationError::InvalidConfiguration);
        }
        if !crate::models::graph::all_below(config, m) {
            return Err(EvaluationError::InvalidConfiguration);
        }
        Ok(Or(is_valid_eulerian_trail(&self.graph, config)))
    }
}

} // verus!
