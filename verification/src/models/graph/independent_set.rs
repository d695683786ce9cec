//! The maximum-weight Independent Set problem on a `petgraph` graph.
use vstd::prelude::*;
use crate::models::graph::props::edges_independent;
use crate::models::graph::vertex_weights::{
    ones, selected_weight, all_ones, unit_weights, selection_weight, weights_vary, weights_differ,
    vertex_objectives, vertex_terms,
};
use crate::topology::{endpoints_below, copy_vec};
use crate::ungraph::UndirectedGraph;
use crate::types::{EnergyMode, LocalConstraint, LocalSolutionSize, ProblemSize, SolutionSize};

verus! {

/// Given a graph and vertex weights, find a maximum-weight set of vertices
/// no two of which are adjacent.
#[derive(Debug, Clone)]
pub struct IndependentSet {
    graph: UndirectedGraph,
    weights: Vec<i32>,
}

/// Whether no edge has both endpoints selected (value 1; missing entries are unselected).
fn independent_config(graph: &UndirectedGraph, config: &[usize]) -> (r: bool)
    ensures
        r == edges_independent(graph.edge_seq(), ones(config@)),
{
    let edges = graph.edges();
    let mut k: usize = 0;
    while k < edges.len()
        invariant
            edges@ == graph.edge_seq(),
            k <= edges@.len(),
            forall|j: int| 0 <= j < k ==>
                !(crate::models::graph::props::sel_at(ones(config@), (#[trigger] edges@[j]).0 as int)
                    && crate::models::graph::props::sel_at(ones(config@), edges@[j].1 as int)),
        decreases edges.len() - k,
    {
        let (u, v) = edges[k];
        let su = u < config.len() && config[u] == 1;
        let sv = v < config.len() && config[v] == 1;
        if su && sv {
            assert(edges@[k as int] == (u, v));
            return false;
        }
        k += 1;
    }
    true
}

impl IndependentSet {
    /// The underlying graph.
    pub closed spec fn spec_graph(&self) -> UndirectedGraph {
        self.graph
    }

    /// The vertex weights.
    pub closed spec fn spec_weights(&self) -> Seq<i32> {
        self.weights@
    }

    /// One weight per vertex, on a well-formed graph.
    pub open spec fn wf(&self) -> bool {
        &&& self.spec_graph().wf()
        &&& self.spec_weights().len() == self.spec_graph().n()
    }

    /// Unit-weight instance on `num_vertices` vertices with the given edges.
    pub fn new(num_vertices: usize, edges: Vec<(usize, usize)>) -> (r: Self)
        requires
            endpoints_below(edges@, num_vertices as nat),
            num_vertices <= u32::MAX,
            edges@.len() <= u32::MAX,
        ensures
            r.wf(),
            r.spec_graph().n() == num_vertices,
            r.spec_graph().edge_seq() == edges@,
            all_ones(r.spec_weights()),
    {
        IndependentSet { graph: UndirectedGraph::new(num_vertices, edges), weights: unit_weights(num_vertices) }
    }

    /// Instance with the given vertex weights; panics unless there is one weight per vertex.
    pub fn with_weights(num_vertices: usize, edges: Vec<(usize, usize)>, weights: Vec<i32>) -> (r: Self)
        requires
            endpoints_below(edges@, num_vertices as nat),
            num_vertices <= u32::MAX,
            edges@.len() <= u32::MAX,
            weights@.len() == num_vertices,
        ensures
            r.wf(),
            r.spec_graph().n() == num_vertices,
            r.spec_graph().edge_seq() == edges@,
            r.spec_weights() == weights@,
    {
        IndependentSet { graph: UndirectedGraph::new(num_vertices, edges), weights }
    }

    /// Number of vertices.
    pub fn num_vertices(&self) -> (r: usize)
        ensures
            r == self.spec_graph().n(),
    {
        self.graph.num_vertices()
    }

    /// Number of edges.
    pub fn num_edges(&self) -> (r: usize)
        ensures
            r == self.spec_graph().edge_seq().len(),
    {
        self.graph.num_edges()
    }

    /// The edges as `(u, v)` pairs.
    pub fn edges(&self) -> (r: Vec<(usize, usize)>)
        ensures
            r@ == self.spec_graph().edge_seq(),
    {
        self.graph.edges()
    }

    /// Whether `u` and `v` are adjacent.
    pub fn has_edge(&self, u: usize, v: usize) -> (r: bool)
        requires
            self.wf(),
        ensures
            r == self.spec_graph().spec_has_edge(u as int, v as int),
    {
        self.graph.has_edge(u, v)
    }

    /// One variable per vertex.
    pub fn num_variables(&self) -> (r: usize)
        ensures
            r == self.spec_graph().n(),
    {
        self.graph.num_vertices()
    }

    /// Each variable is binary.
    pub fn num_flavors(&self) -> (r: usize)
        ensures
            r == 2,
    {
        2
    }

    /// Size parameters: vertex and edge counts.
    pub fn problem_size(&self) -> (r: ProblemSize)
        ensures
            r.components@.len() == 2,
            r.components@[0].0@ == "num_vertices"@,
            r.components@[0].1 == self.spec_graph().n(),
            r.components@[1].0@ == "num_edges"@,
            r.components@[1].1 == self.spec_graph().edge_seq().len(),
    {
        ProblemSize::new(vec![("num_vertices", self.graph.num_vertices()), ("num_edges", self.graph.num_edges())])
    }

    /// The problem is a maximization.
    pub fn energy_mode(&self) -> (r: EnergyMode)
        ensures
            r is LargerSizeIsBetter,
    {
        EnergyMode::LargerSizeIsBetter
    }

    /// Whether the selected vertices (value 1) are pairwise non-adjacent.
    pub fn is_satisfied(&self, config: &[usize]) -> (r: bool)
        ensures
            r == edges_independent(self.spec_graph().edge_seq(), ones(config@)),
    {
        independent_config(&self.graph, config)
    }

    /// Total weight of the selected vertices and whether they are independent.
    /// Panics (overflow, or a selected position without a weight) outside the `requires`.
    pub fn solution_size(&self, config: &[usize]) -> (r: SolutionSize<i32>)
        requires
            forall|i: int| self.spec_weights().len() <= i < config@.len() ==> config@[i] != 1,
            selected_weight(config@, self.spec_weights()) is Some,
        ensures
            r.is_valid == edges_independent(self.spec_graph().edge_seq(), ones(config@)),
            Some(r.size as int) == selected_weight(config@, self.spec_weights()),
    {
        let is_valid = independent_config(&self.graph, config);
        let total = selection_weight(config, &self.weights);
        SolutionSize::new(total, is_valid)
    }

    /// One constraint per edge, in edge order: its endpoints are not both selected.
    pub fn constraints(&self) -> (r: Vec<LocalConstraint>)
        ensures
            r@.len() == self.spec_graph().edge_seq().len(),
            forall|k: int| 0 <= k < r@.len() ==> {
                let c = #[trigger] r@[k];
                &&& c.num_flavors == 2
                &&& c.variables@ == seq![self.spec_graph().edge_seq()[k].0, self.spec_graph().edge_seq()[k].1]
                &&& c.spec@ == seq![true, true, true, false]
            },
    {
        let edges = self.graph.edges();
        let mut out: Vec<LocalConstraint> = Vec::new();
        let mut e: usize = 0;
        while e < edges.len()
            invariant
                edges@ == self.spec_graph().edge_seq(),
                e <= edges@.len(),
                out@.len() == e,
                forall|k: int| 0 <= k < out@.len() ==> {
                    let c = #[trigger] out@[k];
                    &&& c.num_flavors == 2
                    &&& c.variables@ == seq![edges@[k].0, edges@[k].1]
                    &&& c.spec@ == seq![true, true, true, false]
                },
            decreases edges.len() - e,
        {
            let (u, v) = edges[e];
            let c = LocalConstraint::new(2, vec![u, v], vec![true, true, true, false]);
            assert(c.variables@ =~= seq![u, v]);
            assert(c.spec@ =~= seq![true, true, true, false]);
            out.push(c);
            e += 1;
        }
        out
    }

    /// One objective term per vertex: 0 when unselected, its weight when selected.
    pub fn objectives(&self) -> (r: Vec<LocalSolutionSize<i32>>)
        ensures
            vertex_terms(r@, self.spec_weights()),
    {
        vertex_objectives(&self.weights)
    }

    /// The weights, copied.
    pub fn weights(&self) -> (r: Vec<i32>)
        ensures
            r@ == self.spec_weights(),
    {
        copy_vec(&self.weights)
    }

    /// Replaces the weights; panics unless there is one weight per vertex.
    pub fn set_weights(&mut self, weights: Vec<i32>)
        requires
            old(self).wf(),
            weights@.len() == old(self).spec_graph().n(),
        ensures
            final(self).wf(),
            final(self).spec_graph() == old(self).spec_graph(),
            final(self).spec_weights() == weights@,
    {
        self.weights = weights;
    }

    /// Whether the weights are not all equal (`false` when there are none).
    pub fn is_weighted(&self) -> (r: bool)
        ensures
            r == weights_differ(self.spec_weights()),
    {
        weights_vary(&self.weights)
    }
}

/// Whether `selected` (one flag per vertex) picks no two endpoints of a
/// listed edge; edges with an endpoint out of range are ignored, and a
/// length mismatch gives `false`.
pub fn is_independent_set(num_vertices: usize, edges: &[(usize, usize)], selected: &[bool]) -> (r: bool)
    ensures
        r == (selected@.len() == num_vertices && forall|k: int| 0 <= k < edges@.len() ==> {
            let e = #[trigger] edges@[k];
            e.0 < selected@.len() && e.1 < selected@.len() ==> !(selected@[e.0 as int] && selected@[e.1 as int])
        }),
{
    if selected.len() != num_vertices {
        return false;
    }
    let mut k: usize = 0;
    while k < edges.len()
        invariant
            k <= edges@.len(),
            forall|j: int| 0 <= j < k ==> {
                let e = #[trigger] edges@[j];
                e.0 < selected@.len() && e.1 < selected@.len() ==> !(selected@[e.0 as int] && selected@[e.1 as int])
            },
        decreases edges.len() - k,
    {
        let (u, v) = edges[k];
        if u < selected.len() && v < selected.len() && selected[u] && selected[v] {
            assert(edges@[k as int] == (u, v));
            return false;
        }
        k += 1;
    }
    true
}

} // verus!
