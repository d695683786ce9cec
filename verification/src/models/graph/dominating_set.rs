//! The minimum-weight Dominating Set problem on a `petgraph` graph.
use vstd::prelude::*;
use vstd::arithmetic::power2::{pow2, lemma_pow2_unfold, lemma2_to64};
use crate::models::graph::vertex_weights::{
    ones, selected_weight, all_ones, unit_weights, selection_weight, weights_vary, weights_differ,
    vertex_objectives, vertex_terms,
};
use crate::topology::{endpoints_below, copy_vec};
use crate::ungraph::{UndirectedGraph, incident_others};
use crate::types::{EnergyMode, LocalConstraint, LocalSolutionSize, ProblemSize, SolutionSize};

verus! {

/// `s` with `x` appended unless it is already there.
pub open spec fn push_new(s: Seq<usize>, x: usize) -> Seq<usize> {
    if s.contains(x) { s } else { s.push(x) }
}

/// `v` followed by its distinct neighbours from the first `k` edges, in order of first appearance.
pub open spec fn closed_list(edges: Seq<(usize, usize)>, v: usize, k: int) -> Seq<usize>
    decreases k,
{
    if k <= 0 {
        seq![v]
    } else {
        let prev = closed_list(edges, v, k - 1);
        let e = edges[k - 1];
        if e.0 == v { push_new(prev, e.1) } else if e.1 == v { push_new(prev, e.0) } else { prev }
    }
}

/// Vertex `u` is selected (value 1) or has a selected neighbour.
pub open spec fn dominated(g: UndirectedGraph, config: Seq<usize>, u: int) -> bool {
    (0 <= u < config.len() && config[u] == 1)
        || exists|w: int| 0 <= w < config.len() && config[w] == 1 && #[trigger] g.spec_has_edge(u, w)
}

/// Every vertex is selected or has a selected neighbour.
pub open spec fn dominates(g: UndirectedGraph, config: Seq<usize>) -> bool {
    forall|u: int| 0 <= u < g.n() ==> #[trigger] dominated(g, config, u)
}

proof fn lemma_incident_others(edges: Seq<(usize, usize)>, v: usize, k: int)
    requires
        0 <= k <= edges.len(),
    ensures
        forall|u: usize| #[trigger] incident_others(edges, v, k).contains(u) <==>
            exists|j: int| 0 <= j < k && ((edges[j].0 == v && edges[j].1 == u) || (edges[j].0 != v && edges[j].1 == v && edges[j].0 == u)),
    decreases k,
{
    if k > 0 {
        lemma_incident_others(edges, v, k - 1);
        let prev = incident_others(edges, v, k - 1);
        let e = edges[k - 1];
        assert forall|u: usize| #[trigger] incident_others(edges, v, k).contains(u) <==>
            exists|j: int| 0 <= j < k && ((edges[j].0 == v && edges[j].1 == u) || (edges[j].0 != v && edges[j].1 == v && edges[j].0 == u)) by {
            if e.0 == v {
                vstd::seq_lib::lemma_seq_contains_after_push(prev, e.1, u);
            } else if e.1 == v {
                vstd::seq_lib::lemma_seq_contains_after_push(prev, e.0, u);
            }
            if exists|j: int| 0 <= j < k && ((edges[j].0 == v && edges[j].1 == u) || (edges[j].0 != v && edges[j].1 == v && edges[j].0 == u)) {
                let j = choose|j: int| 0 <= j < k && ((edges[j].0 == v && edges[j].1 == u) || (edges[j].0 != v && edges[j].1 == v && edges[j].0 == u));
                if j < k - 1 {
                    assert(prev.contains(u));
                }
            }
        }
    }
}

proof fn lemma_closed_list(edges: Seq<(usize, usize)>, v: usize, k: int)
    requires
        0 <= k <= edges.len(),
    ensures
        closed_list(edges, v, k).no_duplicates(),
        closed_list(edges, v, k).len() >= 1,
        closed_list(edges, v, k)[0] == v,
        forall|u: usize| #[trigger] closed_list(edges, v, k).contains(u) <==>
            (u == v || incident_others(edges, v, k).contains(u)),
    decreases k,
{
    if k > 0 {
        lemma_closed_list(edges, v, k - 1);
        let prev = closed_list(edges, v, k - 1);
        let nprev = incident_others(edges, v, k - 1);
        let e = edges[k - 1];
        assert forall|u: usize| #[trigger] closed_list(edges, v, k).contains(u) <==>
            (u == v || incident_others(edges, v, k).contains(u)) by {
            if e.0 == v {
                vstd::seq_lib::lemma_seq_contains_after_push(prev, e.1, u);
                vstd::seq_lib::lemma_seq_contains_after_push(nprev, e.1, u);
            } else if e.1 == v {
                vstd::seq_lib::lemma_seq_contains_after_push(prev, e.0, u);
                vstd::seq_lib::lemma_seq_contains_after_push(nprev, e.0, u);
            }
        }
        let x = if e.0 == v { e.1 } else { e.0 };
        if (e.0 == v || e.1 == v) && !prev.contains(x) {
            assert(prev.push(x)[0] == v);
            assert forall|i: int, j: int| 0 <= i < prev.push(x).len() && 0 <= j < prev.push(x).len() && i != j
                implies prev.push(x)[i] != prev.push(x)[j] by {
                if i == prev.len() as int {
                    assert(prev.contains(prev[j]));
                } else if j == prev.len() as int {
                    assert(prev.contains(prev[i]));
                }
            }
        }
    } else {
        assert(seq![v][0] == v);
        assert forall|u: usize| #[trigger] closed_list(edges, v, k).contains(u) <==>
            (u == v || incident_others(edges, v, k).contains(u)) by {
            if closed_list(edges, v, k).contains(u) {
                let i = choose|i: int| 0 <= i < seq![v].len() && seq![v][i] == u;
                assert(i == 0);
            }
        }
    }
}

/// Given a graph and vertex weights, find a minimum-weight set of vertices
/// such that every vertex is in it or adjacent to a vertex in it.
#[derive(Debug, Clone)]
pub struct DominatingSet {
    graph: UndirectedGraph,
    weights: Vec<i32>,
}

impl DominatingSet {
    /// The underlying graph.
    pub closed spec fn spec_graph(&self) -> UndirectedGraph {
        self.graph
    }

    /// The vertex weights.
    pub closed spec fn spec_weights(&self) -> Seq<i32> {
        self.weights@
    }

    /// One weight per vertex, on a well-formed graph.
    pub open spec fn wf(&self) -> bool {
        &&& self.spec_graph().wf()
        &&& self.spec_weights().len() == self.spec_graph().n()
    }

    /// Unit-weight instance on `num_vertices` vertices with the given edges.
    pub fn new(num_vertices: usize, edges: Vec<(usize, usize)>) -> (r: Self)
        requires
            endpoints_below(edges@, num_vertices as nat),
            num_vertices <= u32::MAX,
            edges@.len() <= u32::MAX,
        ensures
            r.wf(),
            r.spec_graph().n() == num_vertices,
            r.spec_graph().edge_seq() == edges@,
            all_ones(r.spec_weights()),
    {
        DominatingSet { graph: UndirectedGraph::new(num_vertices, edges), weights: unit_weights(num_vertices) }
    }

    /// Instance with the given vertex weights; panics unless there is one weight per vertex.
    pub fn with_weights(num_vertices: usize, edges: Vec<(usize, usize)>, weights: Vec<i32>) -> (r: Self)
        requires
            endpoints_below(edges@, num_vertices as nat),
            num_vertices <= u32::MAX,
            edges@.len() <= u32::MAX,
            weights@.len() == num_vertices,
        ensures
            r.wf(),
            r.spec_graph().n() == num_vertices,
            r.spec_graph().edge_seq() == edges@,
            r.spec_weights() == weights@,
    {
        DominatingSet { graph: UndirectedGraph::new(num_vertices, edges), weights }
    }

    /// Number of vertices.
    pub fn num_vertices(&self) -> (r: usize)
        ensures
            r == self.spec_graph().n(),
    {
        self.graph.num_vertices()
    }

    /// Number of edges.
    pub fn num_edges(&self) -> (r: usize)
        ensures
            r == self.spec_graph().edge_seq().len(),
    {
        self.graph.num_edges()
    }

    /// The other endpoint of every edge at `v` (a self-loop once), in the
    /// order of the graph's adjacency lists.
    pub fn neighbors(&self, v: usize) -> (r: Vec<usize>)
        requires
            self.wf(),
            v <= u32::MAX,
        ensures
            r@.to_multiset() == incident_others(self.spec_graph().edge_seq(), v, self.spec_graph().edge_seq().len() as int).to_multiset(),
    {
        self.graph.neighbors(v)
    }

    /// `v` and its neighbours, each once, in order of first appearance.
    pub fn closed_neighborhood(&self, v: usize) -> (r: Vec<usize>)
        ensures
            r@ == closed_list(self.spec_graph().edge_seq(), v, self.spec_graph().edge_seq().len() as int),
            r@.no_duplicates(),
            forall|u: usize| #[trigger] r@.contains(u) <==> (u == v || self.spec_graph().spec_has_edge(v as int, u as int)),
    {
        let edges = self.graph.edges();
        let mut out: Vec<usize> = vec![v];
        let mut k: usize = 0;
        while k < edges.len()
            invariant
                edges@ == self.spec_graph().edge_seq(),
                k <= edges@.len(),
                out@ == closed_list(edges@, v, k as int),
            decreases edges.len() - k,
        {
            let (a, b) = edges[k];
            if a == v {
                if !contains_usize(&out, b) {
                    out.push(b);
                }
            } else if b == v {
                if !contains_usize(&out, a) {
                    out.push(a);
                }
            }
            k += 1;
        }
        proof {
            let es = edges@;
            lemma_closed_list(es, v, es.len() as int);
            lemma_incident_others(es, v, es.len() as int);
            assert forall|u: usize| #[trigger] out@.contains(u) <==> (u == v || self.spec_graph().spec_has_edge(v as int, u as int)) by {
                if self.spec_graph().spec_has_edge(v as int, u as int) && u != v {
                    let i = choose|i: int| 0 <= i < es.len() && (((#[trigger] es[i]).0 as int == v && es[i].1 as int == u)
                        || (es[i].0 as int == u && es[i].1 as int == v));
                    assert(incident_others(es, v, es.len() as int).contains(u));
                }
                if out@.contains(u) && u != v {
                    assert(incident_others(es, v, es.len() as int).contains(u));
                    let j = choose|j: int| 0 <= j < es.len() && ((es[j].0 == v && es[j].1 == u) || (es[j].0 != v && es[j].1 == v && es[j].0 == u));
                    assert(es[j].0 as int == v && es[j].1 as int == u || es[j].0 as int == u && es[j].1 as int == v);
                }
            }
        }
        out
    }

    /// Whether every vertex is selected or has a selected neighbour.
    pub fn is_dominating(&self, config: &[usize]) -> (r: bool)
        requires
            self.wf(),
        ensures
            r == dominates(self.spec_graph(), config@),
    {
        let n = self.graph.num_vertices();
        let edges = self.graph.edges();
        let mut u: usize = 0;
        while u < n
            invariant
                n == self.spec_graph().n(),
                edges@ == self.spec_graph().edge_seq(),
                u <= n,
                forall|x: int| 0 <= x < u ==> #[trigger] dominated(self.spec_graph(), config@, x),
            decreases n - u,
        {
            let selected = u < config.len() && config[u] == 1;
            if !selected {
                let mut found = false;
                let mut k: usize = 0;
                while k < edges.len()
                    invariant
                        edges@ == self.spec_graph().edge_seq(),
                        k <= edges@.len(),
                        !found ==> forall|j: int| 0 <= j < k ==> {
                            let e = #[trigger] edges@[j];
                            !(e.0 == u && e.1 < config@.len() && config@[e.1 as int] == 1)
                                && !(e.1 == u && e.0 < config@.len() && config@[e.0 as int] == 1)
                        },
                        found ==> exists|w: int| 0 <= w < config@.len() && config@[w] == 1 && self.spec_graph().spec_has_edge(u as int, w),
                    decreases edges.len() - k,
                {
                    let (a, b) = edges[k];
                    if a == u && b < config.len() && config[b] == 1 {
                        assert(edges@[k as int] == (a, b));
                        assert(self.spec_graph().spec_has_edge(u as int, b as int));
                        found = true;
                    } else if b == u && a < config.len() && config[a] == 1 {
                        assert(edges@[k as int] == (a, b));
                        assert(self.spec_graph().spec_has_edge(u as int, a as int));
                        found = true;
                    }
                    k += 1;
                }
                if !found {
                    proof {
                        assert forall|w: int| 0 <= w < config@.len() && config@[w] == 1 implies !self.spec_graph().spec_has_edge(u as int, w) by {
                            if self.spec_graph().spec_has_edge(u as int, w) {
                                let i = choose|i: int| 0 <= i < edges@.len() && (((#[trigger] edges@[i]).0 as int == u && edges@[i].1 as int == w)
                                    || (edges@[i].0 as int == w && edges@[i].1 as int == u));
                                assert(edges@[i].0 < self.spec_graph().n());
                            }
                        }
                        assert(!dominated(self.spec_graph(), config@, u as int));
                    }
                    return false;
                }
            }
            u += 1;
        }
        true
    }

    /// Whether every vertex is selected or has a selected neighbour.
    pub fn is_satisfied(&self, config: &[usize]) -> (r: bool)
        requires
            self.wf(),
        ensures
            r == dominates(self.spec_graph(), config@),
    {
        self.is_dominating(config)
    }

    /// One variable per vertex.
    pub fn num_variables(&self) -> (r: usize)
        ensures
            r == self.spec_graph().n(),
    {
        self.graph.num_vertices()
    }

    /// Each variable is binary.
    pub fn num_flavors(&self) -> (r: usize)
        ensures
            r == 2,
    {
        2
    }

    /// Size parameters: vertex and edge counts.
    pub fn problem_size(&self) -> (r: ProblemSize)
        ensures
            r.components@.len() == 2,
            r.components@[0].0@ == "num_vertices"@,
            r.components@[0].1 == self.spec_graph().n(),
            r.components@[1].0@ == "num_edges"@,
            r.components@[1].1 == self.spec_graph().edge_seq().len(),
    {
        ProblemSize::new(vec![("num_vertices", self.graph.num_vertices()), ("num_edges", self.graph.num_edges())])
    }

    /// The problem is a minimization.
    pub fn energy_mode(&self) -> (r: EnergyMode)
        ensures
            r is SmallerSizeIsBetter,
    {
        EnergyMode::SmallerSizeIsBetter
    }

    /// Total weight of the selected vertices and whether they dominate the graph.
    /// Panics (overflow, or a selected position that is not a vertex) outside the `requires`.
    pub fn solution_size(&self, config: &[usize]) -> (r: SolutionSize<i32>)
        requires
            self.wf(),
            forall|i: int| self.spec_graph().n() <= i < config@.len() ==> config@[i] != 1,
            selected_weight(config@, self.spec_weights()) is Some,
        ensures
            r.is_valid == dominates(self.spec_graph(), config@),
            Some(r.size as int) == selected_weight(config@, self.spec_weights()),
    {
        let is_valid = self.is_dominating(config);
        let total = selection_weight(config, &self.weights);
        SolutionSize::new(total, is_valid)
    }

    /// One constraint per vertex, in vertex order: some vertex of its closed
    /// neighbourhood is selected (every joint value allowed but all zeros).
    pub fn constraints(&self) -> (r: Vec<LocalConstraint>)
        requires
            forall|v: usize| v < self.spec_graph().n() ==>
                pow2(#[trigger] closed_list(self.spec_graph().edge_seq(), v, self.spec_graph().edge_seq().len() as int).len()) <= usize::MAX,
        ensures
            r@.len() == self.spec_graph().n(),
            forall|v: int| 0 <= v < r@.len() ==> {
                let c = #[trigger] r@[v];
                let vars = closed_list(self.spec_graph().edge_seq(), v as usize, self.spec_graph().edge_seq().len() as int);
                &&& c.num_flavors == 2
                &&& c.variables@ == vars
                &&& c.spec@ == Seq::new(pow2(vars.len()), |i: int| i != 0)
            },
    {
        let n = self.graph.num_vertices();
        let mut out: Vec<LocalConstraint> = Vec::new();
        let mut v: usize = 0;
        while v < n
            invariant
                n == self.spec_graph().n(),
                v <= n,
                out@.len() == v,
                forall|x: usize| x < self.spec_graph().n() ==>
                    pow2(#[trigger] closed_list(self.spec_graph().edge_seq(), x, self.spec_graph().edge_seq().len() as int).len()) <= usize::MAX,
                forall|x: int| 0 <= x < out@.len() ==> {
                    let c = #[trigger] out@[x];
                    let vars = closed_list(self.spec_graph().edge_seq(), x as usize, self.spec_graph().edge_seq().len() as int);
                    &&& c.num_flavors == 2
                    &&& c.variables@ == vars
                    &&& c.spec@ == Seq::new(pow2(vars.len()), |i: int| i != 0)
                },
            decreases n - v,
        {
            let nbhd = self.closed_neighborhood(v);
            assert(pow2(closed_list(self.spec_graph().edge_seq(), v, self.spec_graph().edge_seq().len() as int).len()) <= usize::MAX);
            let table = all_but_zero(nbhd.len());
            out.push(LocalConstraint::new(2, nbhd, table));
            v += 1;
        }
        out
    }

    /// One objective term per vertex: 0 when unselected, its weight when selected.
    pub fn objectives(&self) -> (r: Vec<LocalSolutionSize<i32>>)
        ensures
            vertex_terms(r@, self.spec_weights()),
    {
        vertex_objectives(&self.weights)
    }

    /// The weights, copied.
    pub fn weights(&self) -> (r: Vec<i32>)
        ensures
            r@ == self.spec_weights(),
    {
        copy_vec(&self.weights)
    }

    /// Replaces the weights; panics unless there is one weight per vertex.
    pub fn set_weights(&mut self, weights: Vec<i32>)
        requires
            old(self).wf(),
            weights@.len() == old(self).spec_graph().n(),
        ensures
            final(self).wf(),
            final(self).spec_graph() == old(self).spec_graph(),
            final(self).spec_weights() == weights@,
    {
        self.weights = weights;
    }

    /// Whether the weights are not all equal (`false` when there are none).
    pub fn is_weighted(&self) -> (r: bool)
        ensures
            r == weights_differ(self.spec_weights()),
    {
        weights_vary(&self.weights)
    }
}

fn contains_usize(v: &Vec<usize>, x: usize) -> (r: bool)
    ensures
        r == v@.contains(x),
{
    let mut i: usize = 0;
    while i < v.len()
        invariant
            i <= v@.len(),
            forall|j: int| 0 <= j < i ==> v@[j] != x,
        decreases v.len() - i,
    {
        if v[i] == x {
            return true;
        }
        i += 1;
    }
    false
}

/// The table of `2^len` entries that allows every joint value but all zeros.
fn all_but_zero(len: usize) -> (r: Vec<bool>)
    requires
        pow2(len as nat) <= usize::MAX,
    ensures
        r@ == Seq::new(pow2(len as nat), |i: int| i != 0),
{
    let mut size: usize = 1;
    let mut j: usize = 0;
    proof { lemma2_to64(); }
    while j < len
        invariant
            j <= len,
            size == pow2(j as nat),
            pow2(len as nat) <= usize::MAX,
        decreases len - j,
    {
        proof {
            lemma_pow2_unfold((j + 1) as nat);
            if j + 1 < len {
                vstd::arithmetic::power2::lemma_pow2_strictly_increases((j + 1) as nat, len as nat);
            }
        }
        if j + 1 == len {
            assert(2 * size == pow2(len as nat));
        } else {
            assert(pow2((j + 1) as nat) < pow2(len as nat));
        }
        size = 2 * size;
        j += 1;
    }
    let mut out: Vec<bool> = Vec::new();
    let mut i: usize = 0;
    while i < size
        invariant
            i <= size,
            out@.len() == i,
            forall|k: int| 0 <= k < i ==> #[trigger] out@[k] == (k != 0),
        decreases size - i,
    {
        out.push(i != 0);
        i += 1;
    }
    assert(out@ =~= Seq::new(pow2(len as nat), |i: int| i != 0));
    out
}

/// Edge `e` (both endpoints below `n`) joins `v` to a selected vertex.
pub open spec fn edge_dominates(e: (usize, usize), n: usize, selected: Seq<bool>, v: int) -> bool {
    e.0 < n && e.1 < n && ((e.0 as int == v && selected[e.1 as int]) || (e.1 as int == v && selected[e.0 as int]))
}

/// Whether `selected` (one flag per vertex) dominates the graph: every vertex
/// is selected or joined by a listed edge (endpoints in range) to a selected
/// vertex; a length mismatch gives `false`.
pub fn is_dominating_set(num_vertices: usize, edges: &[(usize, usize)], selected: &[bool]) -> (r: bool)
    ensures
        r == (selected@.len() == num_vertices && forall|v: int| 0 <= v < num_vertices ==>
            #[trigger] selected@[v] || exists|k: int| 0 <= k < edges@.len() && #[trigger] edge_dominates(edges@[k], num_vertices, selected@, v)),
{
    if selected.len() != num_vertices {
        return false;
    }
    let mut v: usize = 0;
    while v < num_vertices
        invariant
            selected@.len() == num_vertices,
            v <= num_vertices,
            forall|x: int| 0 <= x < v ==>
                #[trigger] selected@[x] || exists|k: int| 0 <= k < edges@.len() && #[trigger] edge_dominates(edges@[k], num_vertices, selected@, x),
        decreases num_vertices - v,
    {
        if !selected[v] {
            let mut found = false;
            let mut k: usize = 0;
            while k < edges.len() && !found
                invariant
                    selected@.len() == num_vertices,
                    v < num_vertices,
                    k <= edges@.len(),
                    !found ==> forall|j: int| 0 <= j < k ==> !#[trigger] edge_dominates(edges@[j], num_vertices, selected@, v as int),
                    found ==> exists|j: int| 0 <= j < edges@.len() && #[trigger] edge_dominates(edges@[j], num_vertices, selected@, v as int),
                decreases edges.len() - k,
            {
                let (a, b) = edges[k];
                if a < num_vertices && b < num_vertices && ((a == v && selected[b]) || (b == v && selected[a])) {
                    assert(edge_dominates(edges@[k as int], num_vertices, selected@, v as int));
                    found = true;
                }
                k += 1;
            }
            if !found {
                return false;
            }
        }
        v += 1;
    }
    true
}

} // verus!
