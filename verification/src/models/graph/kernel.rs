//! The Kernel problem on directed graphs.
use vstd::prelude::*;
use crate::topology::DirectedGraph;
use crate::types::Or;

verus! {

/// Positions of a configuration equal to 1.
pub open spec fn ones(config: Seq<usize>) -> Seq<bool> {
    config.map_values(|c: usize| c == 1)
}

/// `sel` is a kernel of `g`: no arc joins two selected vertices, and every
/// unselected vertex has an arc into the selected set.
pub open spec fn is_kernel(g: DirectedGraph, sel: Seq<bool>) -> bool {
    &&& forall|k: int| 0 <= k < g.arc_seq().len() ==>
        !(sel[(#[trigger] g.arc_seq()[k]).0 as int] && sel[g.arc_seq()[k].1 as int])
    &&& forall|u: int| 0 <= u < g.n() && !#[trigger] sel[u] ==>
        exists|v: int| g.spec_has_arc(u, v) && sel[v]
}

/// Given a directed graph, decide whether it has a kernel: an independent
/// vertex set that every other vertex has an arc into.
#[derive(Debug, Clone)]
pub struct Kernel {
    graph: DirectedGraph,
}

impl Kernel {
    /// The underlying graph.
    pub closed spec fn spec_graph(&self) -> DirectedGraph {
        self.graph
    }

    /// Creates an instance.
    pub fn new(graph: DirectedGraph) -> (r: Self)
        ensures
            r.spec_graph() == graph,
    {
        Kernel { graph }
    }

    /// The underlying graph.
    pub fn graph(&self) -> (r: &DirectedGraph)
        ensures
            *r == self.spec_graph(),
    {
        &self.graph
    }

    /// Number of vertices.
    pub fn num_vertices(&self) -> (r: usize)
        ensures
            r == self.spec_graph().n(),
    {
        self.graph.num_vertices()
    }

    /// Number of arcs.
    pub fn num_arcs(&self) -> (r: usize)
        ensures
            r == self.spec_graph().arc_seq().len(),
    {
        self.graph.num_arcs()
    }

    /// One binary variable per vertex.
    pub fn dims(&self) -> (r: Vec<usize>)
        ensures
            r@.len() == self.spec_graph().n(),
            forall|i: int| 0 <= i < r@.len() ==> #[trigger] r@[i] == 2,
    {
        crate::models::graph::uniform_dims(self.graph.num_vertices(), 2)
    }

    /// Whether the vertices with value 1 form a kernel.
    /// Panics (out-of-range index) on a configuration shorter than the vertex count.
    pub fn evaluate(&self, config: &[usize]) -> (r: Or)
        requires
            self.spec_graph().wf(),
            config@.len() >= self.spec_graph().n(),
        ensures
            r == Or(is_kernel(self.spec_graph(), ones(config@))),
    {
        let ghost g = self.graph;
        let ghost sel = ones(config@);
        let arcs = self.graph.arc_list();
        let n = self.graph.num_vertices();
        let mut k: usize = 0;
        while k < arcs.len()
            invariant
                arcs@ == g.arc_seq(),
                g.wf(),
                g == self.graph,
                sel == ones(config@),
                config@.len() >= g.n(),
                k <= arcs@.len(),
                forall|j: int| 0 <= j < k ==> !(sel[(#[trigger] arcs@[j]).0 as int] && sel[arcs@[j].1 as int]),
            decreases arcs.len() - k,
        {
            let (a, b) = arcs[k];
            assert(a < g.n() && b < g.n()) by {
                assert(arcs@[k as int] == (a, b));
            }
            if config[a] == 1 && config[b] == 1 {
                assert(!is_kernel(g, sel)) by {
                    assert(arcs@[k as int] == (a, b));
                }
                return Or(false);
            }
            k += 1;
        }
        let mut u: usize = 0;
        while u < n
            invariant
                arcs@ == g.arc_seq(),
                g.wf(),
                g == self.graph,
                n == g.n(),
                sel == ones(config@),
                config@.len() >= g.n(),
                u <= n,
                forall|j: int| 0 <= j < arcs@.len() ==> !(sel[(#[trigger] arcs@[j]).0 as int] && sel[arcs@[j].1 as int]),
                forall|x: int| 0 <= x < u && !#[trigger] sel[x] ==> exists|v: int| g.spec_has_arc(x, v) && sel[v],
            decreases n - u,
        {
            if config[u] != 1 {
                let mut found = false;
                let mut j: usize = 0;
                while j < arcs.len()
                    invariant
                        arcs@ == g.arc_seq(),
                        g.wf(),
                        sel == ones(config@),
                        config@.len() >= g.n(),
                        j <= arcs@.len(),
                        u < n,
                        n == g.n(),
                        found ==> exists|v: int| g.spec_has_arc(u as int, v) && sel[v],
                        !found ==> forall|i: int| 0 <= i < j && (#[trigger] arcs@[i]).0 == u ==> !sel[arcs@[i].1 as int],
                    decreases arcs.len() - j,
                {
                    let (a, b) = arcs[j];
                    assert(arcs@[j as int] == (a, b));
                    assert(b < g.n());
                    if a == u && config[b] == 1 {
                        assert(g.spec_has_arc(u as int, b as int));
                        assert(sel[b as int]);
                        found = true;
                    }
                    j += 1;
                }
                if !found {
                    assert(!is_kernel(g, sel)) by {
                        assert(!sel[u as int]);
                        if exists|v: int| g.spec_has_arc(u as int, v) && sel[v] {
                            let v = choose|v: int| g.spec_has_arc(u as int, v) && sel[v];
                            let i = choose|i: int| 0 <= i < arcs@.len() && (#[trigger] arcs@[i]).0 as int == u as int && arcs@[i].1 as int == v;
                            assert(arcs@[i].0 == u);
                        }
                    }
                    return Or(false);
                }
            }
            u += 1;
        }
        Or(true)
    }
}

} // verus!
