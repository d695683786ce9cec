//! The maximum-weight Clique problem.
use vstd::prelude::*;
use crate::models::graph::vertex_weights::{selected_weight, all_ones, unit_weights, selection_weight, weights_vary, weights_differ, vertex_objectives, vertex_terms};
use crate::topology::{SimpleGraph, endpoints_below, adjacent_in, copy_vec};
use crate::types::{EnergyMode, LocalConstraint, LocalSolutionSize, ProblemSize, SolutionSize};

verus! {


/// Every two selected vertices of `config` are adjacent in `g`.
pub open spec fn is_clique_spec(g: SimpleGraph, config: Seq<usize>) -> bool {
    forall|i: int, j: int|
        0 <= i < j < config.len() && config[i] == 1 && config[j] == 1 ==> #[trigger] g.spec_has_edge(i, j)
}

/// The checked `i32` sum of the weights of the selected vertices.
pub open spec fn clique_weight(config: Seq<usize>, w: Seq<i32>) -> Option<int> {
    selected_weight(config, w)
}

/// Given a graph and vertex weights, find a maximum-weight set of pairwise
/// adjacent vertices.
#[derive(Debug, Clone)]
pub struct Clique {
    graph: SimpleGraph,
    weights: Vec<i32>,
}

impl Clique {
    /// The underlying graph.
    pub closed spec fn spec_graph(&self) -> SimpleGraph {
        self.graph
    }

    /// The vertex weights.
    pub closed spec fn spec_weights(&self) -> Seq<i32> {
        self.weights@
    }

    /// One weight per vertex, on a well-formed graph.
    pub open spec fn wf(&self) -> bool {
        &&& self.spec_graph().wf()
        &&& self.spec_weights().len() == self.spec_graph().n()
    }

    /// Unit-weight instance on `num_vertices` vertices with the given edges.
    pub fn new(num_vertices: usize, edges: Vec<(usize, usize)>) -> (r: Self)
        requires
            endpoints_below(edges@, num_vertices as nat),
        ensures
            r.wf(),
            r.spec_graph().n() == num_vertices,
            r.spec_graph().edge_seq() == edges@,
            all_ones(r.spec_weights()),
    {
        let graph = SimpleGraph::new(num_vertices, edges);
        let weights = unit_weights(num_vertices);
        Clique { graph, weights }
    }

    /// Instance with the given vertex weights; panics unless there is one weight per vertex.
    pub fn with_weights(num_vertices: usize, edges: Vec<(usize, usize)>, weights: Vec<i32>) -> (r: Self)
        requires
            endpoints_below(edges@, num_vertices as nat),
            weights@.len() == num_vertices,
        ensures
            r.wf(),
            r.spec_graph().n() == num_vertices,
            r.spec_graph().edge_seq() == edges@,
            r.spec_weights() == weights@,
    {
        let graph = SimpleGraph::new(num_vertices, edges);
        Clique { graph, weights }
    }

    /// Instance on an existing graph with the given weights.
    pub fn from_graph(graph: SimpleGraph, weights: Vec<i32>) -> (r: Self)
        requires
            graph.wf(),
            weights@.len() == graph.n(),
        ensures
            r.wf(),
            r.spec_graph() == graph,
            r.spec_weights() == weights@,
    {
        Clique { graph, weights }
    }

    /// Unit-weight instance on an existing graph.
    pub fn from_graph_unit_weights(graph: SimpleGraph) -> (r: Self)
        requires
            graph.wf(),
        ensures
            r.wf(),
            r.spec_graph() == graph,
            r.spec_weights().len() == graph.n(),
            all_ones(r.spec_weights()),
    {
        let weights = unit_weights(graph.num_vertices());
        Clique { graph, weights }
    }

    /// The underlying graph.
    pub fn graph(&self) -> (r: &SimpleGraph)
        ensures
            *r == self.spec_graph(),
    {
        &self.graph
    }

    /// Number of vertices.
    pub fn num_vertices(&self) -> (r: usize)
        ensures
            r == self.spec_graph().n(),
    {
        self.graph.num_vertices()
    }

    /// Number of edges.
    pub fn num_edges(&self) -> (r: usize)
        ensures
            r == self.spec_graph().edge_seq().len(),
    {
        self.graph.num_edges()
    }

    /// The edges as `(u, v)` pairs.
    pub fn edges(&self) -> (r: Vec<(usize, usize)>)
        ensures
            r@ == self.spec_graph().edge_seq(),
    {
        self.graph.edges()
    }

    /// Whether `u` and `v` are adjacent.
    pub fn has_edge(&self, u: usize, v: usize) -> (r: bool)
        ensures
            r == self.spec_graph().spec_has_edge(u as int, v as int),
    {
        self.graph.has_edge(u, v)
    }

    /// The weights, borrowed.
    pub fn weights_ref(&self) -> (r: &Vec<i32>)
        ensures
            r@ == self.spec_weights(),
    {
        &self.weights
    }

    /// The weights, copied.
    pub fn weights(&self) -> (r: Vec<i32>)
        ensures
            r@ == self.spec_weights(),
    {
        copy_vec(&self.weights)
    }

    /// Replaces the weights; panics unless there is one weight per vertex.
    pub fn set_weights(&mut self, weights: Vec<i32>)
        requires
            old(self).wf(),
            weights@.len() == old(self).spec_graph().n(),
        ensures
            final(self).wf(),
            final(self).spec_graph() == old(self).spec_graph(),
            final(self).spec_weights() == weights@,
    {
        self.weights = weights;
    }

    /// Whether the weights are not all equal (`false` when there are none).
    pub fn is_weighted(&self) -> (r: bool)
        ensures
            r == weights_differ(self.spec_weights()),
    {
        weights_vary(&self.weights)
    }

    /// One variable per vertex.
    pub fn num_variables(&self) -> (r: usize)
        ensures
            r == self.spec_graph().n(),
    {
        self.graph.num_vertices()
    }

    /// Each variable is binary.
    pub fn num_flavors(&self) -> (r: usize)
        ensures
            r == 2,
    {
        2
    }

    /// The problem is a maximization.
    pub fn energy_mode(&self) -> (r: EnergyMode)
        ensures
            r is LargerSizeIsBetter,
    {
        EnergyMode::LargerSizeIsBetter
    }

    /// Size parameters: vertex and edge counts.
    pub fn problem_size(&self) -> (r: ProblemSize)
        ensures
            r.components@.len() == 2,
            r.components@[0].0@ == "num_vertices"@,
            r.components@[0].1 == self.spec_graph().n(),
            r.components@[1].0@ == "num_edges"@,
            r.components@[1].1 == self.spec_graph().edge_seq().len(),
    {
        ProblemSize::new(vec![("num_vertices", self.graph.num_vertices()), ("num_edges", self.graph.num_edges())])
    }

    /// The type parameters of this model: graph kind and weight type.
    pub fn variant() -> (r: Vec<(&'static str, &'static str)>)
        ensures
            r@.len() == 2,
            r@[0].0@ == "graph"@,
            r@[0].1@ == "SimpleGraph"@,
            r@[1].0@ == "weight"@,
            r@[1].1@ == "i32"@,
    {
        vec![("graph", "SimpleGraph"), ("weight", "i32")]
    }

    /// Whether the selected vertices (value 1) form a clique.
    pub fn is_satisfied(&self, config: &[usize]) -> (r: bool)
        ensures
            r == is_clique_spec(self.spec_graph(), config@),
    {
        is_clique_config(&self.graph, config)
    }

    /// Total weight of the selected vertices and whether they form a clique.
    /// Panics (overflow, or a selected position without a weight) outside the `requires`.
    pub fn solution_size(&self, config: &[usize]) -> (r: SolutionSize<i32>)
        requires
            forall|i: int| self.spec_weights().len() <= i < config@.len() ==> config@[i] != 1,
            clique_weight(config@, self.spec_weights()) is Some,
        ensures
            r.is_valid == is_clique_spec(self.spec_graph(), config@),
            Some(r.size as int) == clique_weight(config@, self.spec_weights()),
    {
        let is_valid = is_clique_config(&self.graph, config);
        let total = selection_weight(config, &self.weights);
        SolutionSize::new(total, is_valid)
    }

    /// For every pair of non-adjacent vertices `u < v`, the constraint that
    /// they are not both selected; in increasing order of `(u, v)`.
    pub fn constraints(&self) -> (r: Vec<LocalConstraint>)
        ensures
            forall|k: int| 0 <= k < r@.len() ==> {
                let c = #[trigger] r@[k];
                &&& c.num_flavors == 2
                &&& c.variables@.len() == 2
                &&& 0 <= c.variables@[0] < c.variables@[1] < self.spec_graph().n()
                &&& !self.spec_graph().spec_has_edge(c.variables@[0] as int, c.variables@[1] as int)
                &&& c.spec@ == seq![true, true, true, false]
            },
            forall|k: int, l: int| 0 <= k < l < r@.len() ==>
                pair_less(#[trigger] r@[k].variables@, #[trigger] r@[l].variables@),
            forall|u: int, v: int| 0 <= u < v < self.spec_graph().n() && !self.spec_graph().spec_has_edge(u, v)
                ==> exists|k: int| 0 <= k < r@.len() && #[trigger] r@[k].variables@ == seq![u as usize, v as usize],
    {
        let n = self.graph.num_vertices();
        let mut out: Vec<LocalConstraint> = Vec::new();
        let mut u: usize = 0;
        while u < n
            invariant
                n == self.spec_graph().n(),
                u <= n,
                forall|k: int| 0 <= k < out@.len() ==> {
                    let c = #[trigger] out@[k];
                    &&& c.num_flavors == 2
                    &&& c.variables@.len() == 2
                    &&& 0 <= c.variables@[0] < c.variables@[1] < n
                    &&& c.variables@[0] < u
                    &&& !self.spec_graph().spec_has_edge(c.variables@[0] as int, c.variables@[1] as int)
                    &&& c.spec@ == seq![true, true, true, false]
                },
                forall|k: int, l: int| 0 <= k < l < out@.len() ==>
                    pair_less(#[trigger] out@[k].variables@, #[trigger] out@[l].variables@),
                forall|a: int, b: int| 0 <= a < u && a < b < n && !self.spec_graph().spec_has_edge(a, b)
                    ==> exists|k: int| 0 <= k < out@.len() && #[trigger] out@[k].variables@ == seq![a as usize, b as usize],
            decreases n - u,
        {
            let mut v: usize = u + 1;
            while v < n
                invariant
                    n == self.spec_graph().n(),
                    u < n,
                    u + 1 <= v <= n,
                    forall|k: int| 0 <= k < out@.len() ==> {
                        let c = #[trigger] out@[k];
                        &&& c.num_flavors == 2
                        &&& c.variables@.len() == 2
                        &&& 0 <= c.variables@[0] < c.variables@[1] < n
                        &&& (c.variables@[0] < u || (c.variables@[0] == u && c.variables@[1] < v))
                        &&& !self.spec_graph().spec_has_edge(c.variables@[0] as int, c.variables@[1] as int)
                        &&& c.spec@ == seq![true, true, true, false]
                    },
                    forall|k: int, l: int| 0 <= k < l < out@.len() ==>
                        pair_less(#[trigger] out@[k].variables@, #[trigger] out@[l].variables@),
                    forall|a: int, b: int| ((0 <= a < u && a < b < n) || (a == u && u < b < v)) && !self.spec_graph().spec_has_edge(a, b)
                        ==> exists|k: int| 0 <= k < out@.len() && #[trigger] out@[k].variables@ == seq![a as usize, b as usize],
                decreases n - v,
            {
                if !self.graph.has_edge(u, v) {
                    let ghost before = out@;
                    out.push(LocalConstraint::new(2, vec![u, v], vec![true, true, true, false]));
                    assert(out@[out@.len() - 1].variables@ =~= seq![u, v]);
                    assert forall|a: int, b: int| ((0 <= a < u && a < b < n) || (a == u && u < b < v + 1)) && !self.spec_graph().spec_has_edge(a, b)
                        implies exists|k: int| 0 <= k < out@.len() && #[trigger] out@[k].variables@ == seq![a as usize, b as usize] by {
                        if a == u && b == v {
                            assert(out@[out@.len() - 1].variables@ == seq![a as usize, b as usize]);
                        } else {
                            let k = choose|k: int| 0 <= k < before.len() && #[trigger] before[k].variables@ == seq![a as usize, b as usize];
                            assert(out@[k] == before[k]);
                        }
                    }
                }
                v += 1;
            }
            u += 1;
        }
        out
    }

    /// One objective term per vertex: 0 when unselected, its weight when selected.
    pub fn objectives(&self) -> (r: Vec<LocalSolutionSize<i32>>)
        ensures
            vertex_terms(r@, self.spec_weights()),
    {
        vertex_objectives(&self.weights)
    }
}

/// Lexicographic order on two-element index lists.
pub open spec fn pair_less(a: Seq<usize>, b: Seq<usize>) -> bool {
    a[0] < b[0] || (a[0] == b[0] && a[1] < b[1])
}

/// Whether every two selected positions (value 1) of `config` are adjacent.
fn is_clique_config(graph: &SimpleGraph, config: &[usize]) -> (r: bool)
    ensures
        r == is_clique_spec(*graph, config@),
{
    let mut i: usize = 0;
    while i < config.len()
        invariant
            i <= config@.len(),
            forall|a: int, b: int|
                0 <= a < i && a < b < config@.len() && config@[a] == 1 && config@[b] == 1 ==> #[trigger] graph.spec_has_edge(a, b),
        decreases config.len() - i,
    {
        if config[i] == 1 {
            let mut j: usize = i + 1;
            while j < config.len()
                invariant
                    i < config@.len(),
                    config@[i as int] == 1,
                    i + 1 <= j <= config@.len(),
                    forall|a: int, b: int|
                        0 <= a < i && a < b < config@.len() && config@[a] == 1 && config@[b] == 1 ==> #[trigger] graph.spec_has_edge(a, b),
                    forall|b: int| i < b < j && config@[b] == 1 ==> #[trigger] graph.spec_has_edge(i as int, b),
                decreases config.len() - j,
            {
                if config[j] == 1 && !graph.has_edge(i, j) {
                    return false;
                }
                j += 1;
            }
        }
        i += 1;
    }
    true
}

/// Whether `selected` (one flag per vertex) picks pairwise adjacent vertices of
/// the graph with `num_vertices` vertices and the given edges; `false` on a
/// length mismatch.
pub fn is_clique(num_vertices: usize, edges: &[(usize, usize)], selected: &[bool]) -> (r: bool)
    ensures
        r == (selected@.len() == num_vertices && forall|i: int, j: int|
            0 <= i < j < selected@.len() && selected@[i] && selected@[j] ==> #[trigger] adjacent_in(edges@, i, j)),
{
    if selected.len() != num_vertices {
        return false;
    }
    let mut i: usize = 0;
    while i < selected.len()
        invariant
            i <= selected@.len(),
            forall|a: int, b: int|
                0 <= a < i && a < b < selected@.len() && selected@[a] && selected@[b] ==> #[trigger] adjacent_in(edges@, a, b),
        decreases selected.len() - i,
    {
        if selected[i] {
            let mut j: usize = i + 1;
            while j < selected.len()
                invariant
                    i < selected@.len(),
                    selected@[i as int],
                    i + 1 <= j <= selected@.len(),
                    forall|a: int, b: int|
                        0 <= a < i && a < b < selected@.len() && selected@[a] && selected@[b] ==> #[trigger] adjacent_in(edges@, a, b),
                    forall|b: int| i < b < j && selected@[b] ==> #[trigger] adjacent_in(edges@, i as int, b),
                decreases selected.len() - j,
            {
                if selected[j] && !edge_list_contains(edges, i, j) {
                    return false;
                }
                j += 1;
            }
        }
        i += 1;
    }
    true
}

/// Whether the edge list joins `u` and `v` in either orientation.
pub fn edge_list_contains(edges: &[(usize, usize)], u: usize, v: usize) -> (r: bool)
    ensures
        r == adjacent_in(edges@, u as int, v as int),
{
    let mut k: usize = 0;
    while k < edges.len()
        invariant
            k <= edges@.len(),
            forall|j: int| 0 <= j < k ==> #[trigger] edges@[j] != (u, v) && edges@[j] != (v, u),
        decreases edges.len() - k,
    {
        let (a, b) = edges[k];
        if (a == u && b == v) || (a == v && b == u) {
            assert(edges@[k as int] == (u, v) || edges@[k as int] == (v, u));
            return true;
        }
        k += 1;
    }
    false
}

} // verus!
