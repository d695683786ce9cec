//! Degree Constrained Spanning Tree: a spanning tree in which no vertex has
//! more than a given number of tree edges.
use vstd::prelude::*;
use crate::models::graph::bottleneck_traveling_salesman::{degree, lemma_degree_grows};
use crate::models::graph::bounded_diameter_spanning_tree::chosen_edges;
use crate::models::graph::props::{count_true, count_selected};
use crate::models::graph::reach::{reachable, reach_all};
use crate::topology::{SimpleGraph, endpoints_below};
use crate::types::{EvaluationError, Or};

verus! {

/// Whether some vertex has more than `cap` edge ends among `edges`.
#[verifier::loop_isolation(false)]
fn degree_exceeds(n: usize, edges: &[(usize, usize)], cap: usize) -> (r: bool)
    ensures
        r == exists|v: int| 0 <= v < n && #[trigger] degree(edges@, v, edges@.len() as int) > cap,
{
    let mut v: usize = 0;
    while v < n
        invariant
            v <= n,
            forall|x: int| 0 <= x < v ==> #[trigger] degree(edges@, x, edges@.len() as int) <= cap,
        decreases n - v,
    {
        let mut d: usize = 0;
        let mut k: usize = 0;
        while k < edges.len()
            invariant
                k <= edges@.len(),
                d == degree(edges@, v as int, k as int),
                d <= cap,
            decreases edges.len() - k,
        {
            let add: usize = (if edges[k].0 == v { 1 } else { 0 }) + (if edges[k].1 == v { 1 } else { 0 });
            if add > cap - d {
                proof { lemma_degree_grows(edges@, v as int, k as int + 1, edges@.len() as int); }
                assert(degree(edges@, v as int, edges@.len() as int) > cap);
                return true;
            }
            d = d + add;
            k += 1;
        }
        v += 1;
    }
    false
}

/// The value of a selection of edges: an error for the wrong number of
/// flags; otherwise whether the chosen edges are as many as the vertices
/// less one, give no vertex more than `d` edge ends, and connect every
/// vertex to vertex 0 (no edges when there are no vertices).
pub open spec fn dcst_result(g: SimpleGraph, d: nat, sel: Seq<bool>) -> Result<Or, EvaluationError> {
    let n = g.n();
    let m = g.edge_seq().len();
    let chosen = chosen_edges(g.edge_seq(), sel, m as int);
    if sel.len() != m {
        Err(EvaluationError::InvalidConfiguration)
    } else if n == 0 {
        Ok(Or(count_true(sel) == 0))
    } else {
        Ok(Or(count_true(sel) == n - 1
            && (forall|v: int| 0 <= v < n ==> #[trigger] degree(chosen, v, chosen.len() as int) <= d)
            && (forall|v: int| 0 <= v < n ==> #[trigger] reachable(chosen, 0, v))))
    }
}

/// Given a graph and a bound, decide whether some spanning tree gives no
/// vertex more than the bound's number of tree edges.
#[derive(Debug, Clone)]
pub struct DegreeConstrainedSpanningTree {
    graph: SimpleGraph,
    max_degree: usize,
    edge_list: Vec<(usize, usize)>,
}

impl DegreeConstrainedSpanningTree {
    /// The graph.
    pub closed spec fn spec_graph(&self) -> SimpleGraph {
        self.graph
    }

    /// The bound on a vertex's tree edges.
    pub closed spec fn spec_max_degree(&self) -> usize {
        self.max_degree
    }

    /// The stored edge list.
    pub closed spec fn spec_edge_list(&self) -> Seq<(usize, usize)> {
        self.edge_list@
    }

    /// A positive bound and the graph's edge list.
    pub open spec fn wf(&self) -> bool {
        self.spec_graph().wf() && self.spec_max_degree() >= 1 && self.spec_edge_list() == self.spec_graph().edge_seq()
    }

    /// An instance; panics on a zero bound.
    pub fn new(graph: SimpleGraph, max_degree: usize) -> (r: Self)
        requires
            graph.wf(),
            max_degree >= 1,
        ensures
            r.wf(),
            r.spec_graph() == graph,
            r.spec_max_degree() == max_degree,
    {
        let edge_list = graph.edges();
        DegreeConstrainedSpanningTree { graph, max_degree, edge_list }
    }

    /// The graph.
    pub fn graph(&self) -> (r: &SimpleGraph)
        ensures
            *r == self.spec_graph(),
    {
        &self.graph
    }

    /// The bound on a vertex's tree edges.
    pub fn max_degree(&self) -> (r: usize)
        ensures
            r == self.spec_max_degree(),
    {
        self.max_degree
    }

    /// Number of vertices.
    pub fn num_vertices(&self) -> (r: usize)
        ensures
            r == self.spec_graph().n(),
    {
        self.graph.num_vertices()
    }

    /// Number of edges.
    pub fn num_edges(&self) -> (r: usize)
        ensures
            r == self.spec_graph().edge_seq().len(),
    {
        self.graph.num_edges()
    }

    /// The edges, in order.
    pub fn edge_list(&self) -> (r: &[(usize, usize)])
        ensures
            r@ == self.spec_edge_list(),
    {
        self.edge_list.as_slice()
    }

    /// Whether the selected edges form a spanning tree within the degree
    /// bound; an error for the wrong number of flags.
    #[verifier::loop_isolation(false)]
    pub fn evaluate(&self, config: &Vec<bool>) -> (r: Result<Or, EvaluationError>)
        requires
            self.wf(),
        ensures
            r == dcst_result(self.spec_graph(), self.spec_max_degree() as nat, config@),
    {
        let n = self.graph.num_vertices();
        let ghost es = self.spec_graph().edge_seq();
        if config.len() != self.edge_list.len() {
            return Err(EvaluationError::InvalidConfiguration);
        }
        let count = count_selected(config.as_slice());
        if n == 0 {
            return Ok(Or(count == 0));
        }
        if count != n - 1 {
            return Ok(Or(false));
        }
        let mut chosen: Vec<(usize, usize)> = Vec::new();
        let mut k: usize = 0;
        while k < self.edge_list.len()
            invariant
                k <= es.len(),
                chosen@ == chosen_edges(es, config@, k as int),
                endpoints_below(chosen@, n as nat),
            decreases self.edge_list.len() - k,
        {
            if config[k] {
                chosen.push(self.edge_list[k]);
            }
            k += 1;
        }
        if degree_exceeds(n, chosen.as_slice(), self.max_degree) {
            return Ok(Or(false));
        }
        let from_zero = reach_all(n, chosen.as_slice(), 0);
        let mut v: usize = 0;
        while v < n
            invariant
                v <= n,
                from_zero@.len() == n,
                forall|x: int| 0 <= x < n ==> #[trigger] from_zero@[x] == reachable(chosen@, 0, x),
                forall|x: int| 0 <= x < v ==> #[trigger] reachable(chosen@, 0, x),
            decreases n - v,
        {
            if !from_zero[v] {
                assert(!reachable(chosen@, 0, v as int));
                return Ok(Or(false));
            }
            v += 1;
        }
        Ok(Or(true))
    }

    /// One binary variable per edge.
    pub fn dimensions(&self) -> (r: Vec<usize>)
        ensures
            r@.len() == self.spec_edge_list().len(),
            forall|i: int| 0 <= i < r@.len() ==> #[trigger] r@[i] == 2,
    {
        crate::models::graph::uniform_dims(self.edge_list.len(), 2)
    }
}

} // verus!
