//! The maximum-weight Matching problem on a `petgraph` graph.
use vstd::prelude::*;
use vstd::arithmetic::power2::{pow2, lemma_pow2_unfold, lemma2_to64};
use crate::models::graph::vertex_weights::{
    selected_weight, all_ones, unit_weights, selection_weight, weights_vary, weights_differ,
    vertex_objectives, vertex_terms,
};
use crate::topology::{endpoints_below, copy_vec};
use crate::ungraph::UndirectedGraph;
use crate::types::{EnergyMode, LocalConstraint, LocalSolutionSize, ProblemSize, SolutionSize};

verus! {

/// Edges `e` and `f` have no endpoint in common.
pub open spec fn disjoint_edges(e: (usize, usize), f: (usize, usize)) -> bool {
    e.0 != f.0 && e.0 != f.1 && e.1 != f.0 && e.1 != f.1
}

/// Edge `i` is selected (value 1) and exists.
pub open spec fn edge_selected(edges: Seq<(usize, usize)>, config: Seq<usize>, i: int) -> bool {
    0 <= i < edges.len() && i < config.len() && config[i] == 1
}

/// No two selected edges share an endpoint.
pub open spec fn is_matching_spec(edges: Seq<(usize, usize)>, config: Seq<usize>) -> bool {
    forall|i: int, j: int| #![trigger edge_selected(edges, config, i), edge_selected(edges, config, j)]
        i < j && edge_selected(edges, config, i) && edge_selected(edges, config, j) ==> disjoint_edges(edges[i], edges[j])
}

/// `config` cut to its first `n` entries when it is longer.
pub open spec fn clip(config: Seq<usize>, n: nat) -> Seq<usize> {
    if config.len() <= n { config } else { config.take(n as int) }
}

/// The checked `i32` sum of the weights of the selected edges (entries past the edges are ignored).
pub open spec fn matching_weight(config: Seq<usize>, w: Seq<i32>) -> Option<int> {
    selected_weight(clip(config, w.len()), w)
}

/// Indices of the first `k` edges at `v`, in edge order; a loop at `v` is listed twice.
pub open spec fn incident_list(edges: Seq<(usize, usize)>, v: usize, k: int) -> Seq<usize>
    decreases k,
{
    if k <= 0 {
        Seq::empty()
    } else {
        let prev = incident_list(edges, v, k - 1);
        let e = edges[k - 1];
        let once = if e.0 == v { prev.push((k - 1) as usize) } else { prev };
        if e.1 == v { once.push((k - 1) as usize) } else { once }
    }
}

/// Number of one bits among the lowest `m` bits of `c`.
pub open spec fn low_bits(c: nat, m: nat) -> nat
    decreases m,
{
    if m == 0 { 0 } else { c % 2 + low_bits(c / 2, (m - 1) as nat) }
}

/// The table over `m` edges that allows a joint value iff at most one of them is selected.
pub open spec fn at_most_one_table(m: nat) -> Seq<bool> {
    Seq::new(pow2(m), |c: int| low_bits(c as nat, m) <= 1)
}

/// Given a graph with edge weights, find a maximum-weight set of edges no
/// two of which share a vertex; the variables are the edges.
#[derive(Debug, Clone)]
pub struct Matching {
    graph: UndirectedGraph,
    edge_weights: Vec<i32>,
}

impl Matching {
    /// The underlying graph.
    pub closed spec fn spec_graph(&self) -> UndirectedGraph {
        self.graph
    }

    /// The edge weights.
    pub closed spec fn spec_weights(&self) -> Seq<i32> {
        self.edge_weights@
    }

    /// One weight per edge, on a well-formed graph.
    pub open spec fn wf(&self) -> bool {
        &&& self.spec_graph().wf()
        &&& self.spec_weights().len() == self.spec_graph().edge_seq().len()
    }

    /// Instance on `num_vertices` vertices with weighted edges `(u, v, w)`.
    pub fn new(num_vertices: usize, edges: Vec<(usize, usize, i32)>) -> (r: Self)
        requires
            forall|i: int| 0 <= i < edges@.len() ==> (#[trigger] edges@[i]).0 < num_vertices && edges@[i].1 < num_vertices,
            num_vertices <= u32::MAX,
            edges@.len() <= u32::MAX,
        ensures
            r.wf(),
            r.spec_graph().n() == num_vertices,
            r.spec_graph().edge_seq().len() == edges@.len(),
            forall|i: int| 0 <= i < edges@.len() ==> {
                &&& #[trigger] r.spec_graph().edge_seq()[i] == (edges@[i].0, edges@[i].1)
                &&& r.spec_weights()[i] == edges@[i].2
            },
    {
        let mut pairs: Vec<(usize, usize)> = Vec::new();
        let mut weights: Vec<i32> = Vec::new();
        let mut i: usize = 0;
        while i < edges.len()
            invariant
                i <= edges@.len(),
                pairs@.len() == i,
                weights@.len() == i,
                forall|j: int| 0 <= j < i ==> #[trigger] pairs@[j] == (edges@[j].0, edges@[j].1) && weights@[j] == edges@[j].2,
            decreases edges.len() - i,
        {
            let (u, v, w) = edges[i];
            pairs.push((u, v));
            weights.push(w);
            i += 1;
        }
        assert(endpoints_below(pairs@, num_vertices as nat)) by {
            assert forall|j: int| 0 <= j < pairs@.len() implies (#[trigger] pairs@[j]).0 < num_vertices && pairs@[j].1 < num_vertices by {
                assert(edges@[j].0 < num_vertices && edges@[j].1 < num_vertices);
            }
        }
        Matching { graph: UndirectedGraph::new(num_vertices, pairs), edge_weights: weights }
    }

    /// Unit-weight instance on `num_vertices` vertices.
    pub fn unweighted(num_vertices: usize, edges: Vec<(usize, usize)>) -> (r: Self)
        requires
            endpoints_below(edges@, num_vertices as nat),
            num_vertices <= u32::MAX,
            edges@.len() <= u32::MAX,
        ensures
            r.wf(),
            r.spec_graph().n() == num_vertices,
            r.spec_graph().edge_seq() == edges@,
            all_ones(r.spec_weights()),
    {
        let weights = unit_weights(edges.len());
        Matching { graph: UndirectedGraph::new(num_vertices, edges), edge_weights: weights }
    }

    /// Number of vertices.
    pub fn num_vertices(&self) -> (r: usize)
        ensures
            r == self.spec_graph().n(),
    {
        self.graph.num_vertices()
    }

    /// Number of edges.
    pub fn num_edges(&self) -> (r: usize)
        ensures
            r == self.spec_graph().edge_seq().len(),
    {
        self.graph.num_edges()
    }

    /// The endpoints of edge `edge_idx`, or `None` past the last edge.
    pub fn edge_endpoints(&self, edge_idx: usize) -> (r: Option<(usize, usize)>)
        ensures
            r == (if edge_idx < self.spec_graph().edge_seq().len() {
                Some(self.spec_graph().edge_seq()[edge_idx as int])
            } else {
                None
            }),
    {
        let edges = self.graph.edges();
        if edge_idx < edges.len() {
            Some(edges[edge_idx])
        } else {
            None
        }
    }

    /// The edges with their weights, in edge order.
    pub fn edges(&self) -> (r: Vec<(usize, usize, i32)>)
        requires
            self.wf(),
        ensures
            r@.len() == self.spec_graph().edge_seq().len(),
            forall|i: int| 0 <= i < r@.len() ==> #[trigger] r@[i] == (
                self.spec_graph().edge_seq()[i].0, self.spec_graph().edge_seq()[i].1, self.spec_weights()[i]),
    {
        let edges = self.graph.edges();
        let mut out: Vec<(usize, usize, i32)> = Vec::new();
        let mut i: usize = 0;
        while i < edges.len()
            invariant
                edges@ == self.spec_graph().edge_seq(),
                self.edge_weights@.len() == edges@.len(),
                i <= edges@.len(),
                out@.len() == i,
                forall|j: int| 0 <= j < i ==> #[trigger] out@[j] == (edges@[j].0, edges@[j].1, self.edge_weights@[j]),
            decreases edges.len() - i,
        {
            let (u, v) = edges[i];
            out.push((u, v, self.edge_weights[i]));
            i += 1;
        }
        out
    }

    /// For every vertex, the indices of the edges at it, in edge order (a loop twice).
    pub fn vertex_to_edges(&self) -> (r: Vec<Vec<usize>>)
        requires
            self.wf(),
        ensures
            r@.len() == self.spec_graph().n(),
            forall|v: int| 0 <= v < r@.len() ==>
                (#[trigger] r@[v])@ == incident_list(self.spec_graph().edge_seq(), v as usize, self.spec_graph().edge_seq().len() as int),
    {
        let n = self.graph.num_vertices();
        let edges = self.graph.edges();
        let mut out: Vec<Vec<usize>> = Vec::new();
        let mut v: usize = 0;
        while v < n
            invariant
                n == self.spec_graph().n(),
                edges@ == self.spec_graph().edge_seq(),
                v <= n,
                out@.len() == v,
                forall|x: int| 0 <= x < v ==>
                    (#[trigger] out@[x])@ == incident_list(edges@, x as usize, edges@.len() as int),
            decreases n - v,
        {
            let mut list: Vec<usize> = Vec::new();
            let mut k: usize = 0;
            while k < edges.len()
                invariant
                    edges@ == self.spec_graph().edge_seq(),
                    k <= edges@.len(),
                    list@ == incident_list(edges@, v, k as int),
                decreases edges.len() - k,
            {
                let (a, b) = edges[k];
                if a == v {
                    list.push(k);
                }
                if b == v {
                    list.push(k);
                }
                k += 1;
            }
            out.push(list);
            v += 1;
        }
        out
    }

    /// Whether no two selected edges share an endpoint (entries past the edges are ignored).
    pub fn is_valid_matching(&self, config: &[usize]) -> (r: bool)
        requires
            self.wf(),
        ensures
            r == is_matching_spec(self.spec_graph().edge_seq(), config@),
    {
        let n = self.graph.num_vertices();
        let edges = self.graph.edges();
        let mut used: Vec<bool> = Vec::new();
        let mut x: usize = 0;
        while x < n
            invariant
                x <= n,
                used@.len() == x,
                forall|y: int| 0 <= y < x ==> !#[trigger] used@[y],
            decreases n - x,
        {
            used.push(false);
            x += 1;
        }
        let mut idx: usize = 0;
        while idx < config.len()
            invariant
                n == self.spec_graph().n(),
                edges@ == self.spec_graph().edge_seq(),
                endpoints_below(edges@, n as nat),
                used@.len() == n,
                idx <= config@.len(),
                forall|y: int| 0 <= y < n ==> (#[trigger] used@[y] <==> exists|j: int| 0 <= j < idx
                    && edge_selected(edges@, config@, j) && (edges@[j].0 == y || edges@[j].1 == y)),
                forall|i: int, j: int| #![trigger edge_selected(edges@, config@, i), edge_selected(edges@, config@, j)]
                    i < j < idx && edge_selected(edges@, config@, i) && edge_selected(edges@, config@, j)
                    ==> disjoint_edges(edges@[i], edges@[j]),
            decreases config.len() - idx,
        {
            if config[idx] == 1 && idx < edges.len() {
                let (u, v) = edges[idx];
                assert(edge_selected(edges@, config@, idx as int));
                if used[u] || used[v] {
                    proof {
                        let y: int = if used@[u as int] { u as int } else { v as int };
                        let j = choose|j: int| 0 <= j < idx
                            && edge_selected(edges@, config@, j) && (edges@[j].0 == y || edges@[j].1 == y);
                        assert(!disjoint_edges(edges@[j], edges@[idx as int]));
                    }
                    return false;
                }
                proof {
                    assert forall|j: int| 0 <= j < idx && edge_selected(edges@, config@, j)
                        implies disjoint_edges(edges@[j], edges@[idx as int]) by {
                        assert(edges@[j].0 < n && edges@[j].1 < n);
                        if edges@[j].0 == u || edges@[j].1 == u {
                            assert(used@[u as int]);
                        }
                        if edges@[j].0 == v || edges@[j].1 == v {
                            assert(used@[v as int]);
                        }
                    }
                }
                used.set(u, true);
                used.set(v, true);
            }
            proof {
                assert forall|y: int| 0 <= y < n implies (#[trigger] used@[y] <==> exists|j: int| 0 <= j < idx + 1
                    && edge_selected(edges@, config@, j) && (edges@[j].0 == y || edges@[j].1 == y)) by {
                    if exists|j: int| 0 <= j < idx + 1 && edge_selected(edges@, config@, j) && (edges@[j].0 == y || edges@[j].1 == y) {
                        let j = choose|j: int| 0 <= j < idx + 1 && edge_selected(edges@, config@, j) && (edges@[j].0 == y || edges@[j].1 == y);
                        if j < idx {
                            assert(exists|j: int| 0 <= j < idx && edge_selected(edges@, config@, j) && (edges@[j].0 == y || edges@[j].1 == y));
                        }
                    }
                }
            }
            idx += 1;
        }
        proof {
            assert forall|i: int, j: int| #![trigger edge_selected(edges@, config@, i), edge_selected(edges@, config@, j)]
                i < j && edge_selected(edges@, config@, i) && edge_selected(edges@, config@, j)
                implies disjoint_edges(edges@[i], edges@[j]) by {
                assert(j < config@.len());
            }
        }
        true
    }

    /// Whether no two selected edges share an endpoint.
    pub fn is_satisfied(&self, config: &[usize]) -> (r: bool)
        requires
            self.wf(),
        ensures
            r == is_matching_spec(self.spec_graph().edge_seq(), config@),
    {
        self.is_valid_matching(config)
    }

    /// One variable per edge.
    pub fn num_variables(&self) -> (r: usize)
        ensures
            r == self.spec_graph().edge_seq().len(),
    {
        self.graph.num_edges()
    }

    /// Each variable is binary.
    pub fn num_flavors(&self) -> (r: usize)
        ensures
            r == 2,
    {
        2
    }

    /// Size parameters: vertex and edge counts.
    pub fn problem_size(&self) -> (r: ProblemSize)
        ensures
            r.components@.len() == 2,
            r.components@[0].0@ == "num_vertices"@,
            r.components@[0].1 == self.spec_graph().n(),
            r.components@[1].0@ == "num_edges"@,
            r.components@[1].1 == self.spec_graph().edge_seq().len(),
    {
        ProblemSize::new(vec![("num_vertices", self.graph.num_vertices()), ("num_edges", self.graph.num_edges())])
    }

    /// The problem is a maximization.
    pub fn energy_mode(&self) -> (r: EnergyMode)
        ensures
            r is LargerSizeIsBetter,
    {
        EnergyMode::LargerSizeIsBetter
    }

    /// Total weight of the selected edges and whether they form a matching.
    /// Panics on overflow, outside the `requires`.
    pub fn solution_size(&self, config: &[usize]) -> (r: SolutionSize<i32>)
        requires
            self.wf(),
            matching_weight(config@, self.spec_weights()) is Some,
        ensures
            r.is_valid == is_matching_spec(self.spec_graph().edge_seq(), config@),
            Some(r.size as int) == matching_weight(config@, self.spec_weights()),
    {
        let is_valid = self.is_valid_matching(config);
        let m = if config.len() <= self.edge_weights.len() { config.len() } else { self.edge_weights.len() };
        let mut clipped: Vec<usize> = Vec::new();
        let mut i: usize = 0;
        while i < m
            invariant
                m <= config@.len(),
                i <= m,
                clipped@ == config@.take(i as int),
            decreases m - i,
        {
            clipped.push(config[i]);
            i += 1;
            assert(clipped@ =~= config@.take(i as int));
        }
        assert(clipped@ =~= clip(config@, self.edge_weights@.len()));
        let total = selection_weight(&clipped, &self.edge_weights);
        SolutionSize::new(total, is_valid)
    }

    /// For every vertex with at least two edge ends, in vertex order: at most
    /// one of its edges is selected (a table over its incident edges).
    pub fn constraints(&self) -> (r: Vec<LocalConstraint>)
        requires
            self.wf(),
            forall|v: usize| v < self.spec_graph().n() ==>
                pow2(#[trigger] incident_list(self.spec_graph().edge_seq(), v, self.spec_graph().edge_seq().len() as int).len()) <= usize::MAX,
        ensures
            forall|k: int| 0 <= k < r@.len() ==> {
                let c = #[trigger] r@[k];
                &&& c.num_flavors == 2
                &&& c.variables@.len() >= 2
                &&& exists|v: usize| v < self.spec_graph().n()
                    && c.variables@ == incident_list(self.spec_graph().edge_seq(), v, self.spec_graph().edge_seq().len() as int)
                &&& c.spec@ == at_most_one_table(c.variables@.len())
            },
            forall|v: usize| v < self.spec_graph().n()
                && (#[trigger] incident_list(self.spec_graph().edge_seq(), v, self.spec_graph().edge_seq().len() as int)).len() >= 2
                ==> exists|k: int| 0 <= k < r@.len()
                    && r@[k].variables@ == incident_list(self.spec_graph().edge_seq(), v, self.spec_graph().edge_seq().len() as int),
    {
        let v2e = self.vertex_to_edges();
        let ghost es = self.spec_graph().edge_seq();
        let ghost n = self.spec_graph().n();
        let mut out: Vec<LocalConstraint> = Vec::new();
        let mut v: usize = 0;
        while v < v2e.len()
            invariant
                v2e@.len() == n,
                v <= v2e@.len(),
                forall|x: int| 0 <= x < v2e@.len() ==> (#[trigger] v2e@[x])@ == incident_list(es, x as usize, es.len() as int),
                forall|x: usize| x < n ==> pow2(#[trigger] incident_list(es, x, es.len() as int).len()) <= usize::MAX,
                forall|k: int| 0 <= k < out@.len() ==> {
                    let c = #[trigger] out@[k];
                    &&& c.num_flavors == 2
                    &&& c.variables@.len() >= 2
                    &&& exists|x: usize| x < n && c.variables@ == incident_list(es, x, es.len() as int)
                    &&& c.spec@ == at_most_one_table(c.variables@.len())
                },
                forall|x: usize| x < v && (#[trigger] incident_list(es, x, es.len() as int)).len() >= 2
                    ==> exists|k: int| 0 <= k < out@.len() && out@[k].variables@ == incident_list(es, x, es.len() as int),
            decreases v2e.len() - v,
        {
            let incident = copy_vec(&v2e[v]);
            assert(incident@ == incident_list(es, v, es.len() as int));
            if incident.len() >= 2 {
                let table = at_most_one(incident.len());
                let ghost before = out@;
                out.push(LocalConstraint::new(2, incident, table));
                proof {
                    let c = out@[out@.len() - 1];
                    assert(c.variables@ == incident_list(es, v, es.len() as int));
                    assert forall|x: usize| x < v + 1 && (#[trigger] incident_list(es, x, es.len() as int)).len() >= 2
                        implies exists|k: int| 0 <= k < out@.len() && out@[k].variables@ == incident_list(es, x, es.len() as int) by {
                        if x == v {
                            assert(out@[out@.len() - 1].variables@ == incident_list(es, x, es.len() as int));
                        } else {
                            let k = choose|k: int| 0 <= k < before.len() && before[k].variables@ == incident_list(es, x, es.len() as int);
                            assert(out@[k] == before[k]);
                        }
                    }
                }
            }
            v += 1;
        }
        out
    }

    /// One objective term per edge: 0 when unselected, its weight when selected.
    pub fn objectives(&self) -> (r: Vec<LocalSolutionSize<i32>>)
        ensures
            vertex_terms(r@, self.spec_weights()),
    {
        vertex_objectives(&self.edge_weights)
    }

    /// The edge weights, copied.
    pub fn weights(&self) -> (r: Vec<i32>)
        ensures
            r@ == self.spec_weights(),
    {
        copy_vec(&self.edge_weights)
    }

    /// Replaces the edge weights; panics unless there is one weight per edge.
    pub fn set_weights(&mut self, weights: Vec<i32>)
        requires
            old(self).wf(),
            weights@.len() == old(self).spec_graph().edge_seq().len(),
        ensures
            final(self).wf(),
            final(self).spec_graph() == old(self).spec_graph(),
            final(self).spec_weights() == weights@,
    {
        self.edge_weights = weights;
    }

    /// Whether the weights are not all equal (`false` when there are none).
    pub fn is_weighted(&self) -> (r: bool)
        ensures
            r == weights_differ(self.spec_weights()),
    {
        weights_vary(&self.edge_weights)
    }
}

/// The number of one bits among the lowest `m` bits of `c`.
fn count_low_bits(c: usize, m: usize) -> (r: usize)
    ensures
        r == low_bits(c as nat, m as nat),
{
    let mut t: usize = c;
    let mut cnt: usize = 0;
    let mut i: usize = 0;
    while i < m
        invariant
            i <= m,
            cnt <= i,
            cnt + low_bits(t as nat, (m - i) as nat) == low_bits(c as nat, m as nat),
        decreases m - i,
    {
        cnt = cnt + t % 2;
        t = t / 2;
        i += 1;
    }
    cnt
}

/// The table over `m` variables allowing at most one selected.
fn at_most_one(m: usize) -> (r: Vec<bool>)
    requires
        pow2(m as nat) <= usize::MAX,
    ensures
        r@ == at_most_one_table(m as nat),
{
    let mut size: usize = 1;
    let mut j: usize = 0;
    proof { lemma2_to64(); }
    while j < m
        invariant
            j <= m,
            size == pow2(j as nat),
            pow2(m as nat) <= usize::MAX,
        decreases m - j,
    {
        proof {
            lemma_pow2_unfold((j + 1) as nat);
            if j + 1 < m {
                vstd::arithmetic::power2::lemma_pow2_strictly_increases((j + 1) as nat, m as nat);
            }
        }
        size = 2 * size;
        j += 1;
    }
    let mut out: Vec<bool> = Vec::new();
    let mut c: usize = 0;
    while c < size
        invariant
            c <= size,
            size == pow2(m as nat),
            out@.len() == c,
            forall|k: int| 0 <= k < c ==> #[trigger] out@[k] == (low_bits(k as nat, m as nat) <= 1),
        decreases size - c,
    {
        let cnt = count_low_bits(c, m);
        out.push(cnt <= 1);
        c += 1;
    }
    assert(out@ =~= at_most_one_table(m as nat));
    out
}

/// Whether `selected` (one flag per edge) picks edges with endpoints below
/// `num_vertices`, no two sharing an endpoint; a length mismatch gives `false`.
pub fn is_matching(num_vertices: usize, edges: &[(usize, usize)], selected: &[bool]) -> (r: bool)
    ensures
        r == (selected@.len() == edges@.len()
            && (forall|i: int| 0 <= i < selected@.len() && #[trigger] selected@[i] ==> edges@[i].0 < num_vertices && edges@[i].1 < num_vertices)
            && (forall|i: int, j: int| 0 <= i < j < selected@.len() && #[trigger] selected@[i] && #[trigger] selected@[j]
                ==> disjoint_edges(edges@[i], edges@[j]))),
{
    if selected.len() != edges.len() {
        return false;
    }
    let mut used: Vec<bool> = Vec::new();
    let mut x: usize = 0;
    while x < num_vertices
        invariant
            x <= num_vertices,
            used@.len() == x,
            forall|y: int| 0 <= y < x ==> !#[trigger] used@[y],
        decreases num_vertices - x,
    {
        used.push(false);
        x += 1;
    }
    let mut idx: usize = 0;
    while idx < selected.len()
        invariant
            selected@.len() == edges@.len(),
            used@.len() == num_vertices,
            idx <= selected@.len(),
            forall|i: int| 0 <= i < idx && #[trigger] selected@[i] ==> edges@[i].0 < num_vertices && edges@[i].1 < num_vertices,
            forall|y: int| 0 <= y < num_vertices ==> (#[trigger] used@[y] <==> exists|j: int| 0 <= j < idx
                && selected@[j] && (edges@[j].0 == y || edges@[j].1 == y)),
            forall|i: int, j: int| 0 <= i < j < idx && #[trigger] selected@[i] && #[trigger] selected@[j]
                ==> disjoint_edges(edges@[i], edges@[j]),
        decreases selected.len() - idx,
    {
        if selected[idx] {
            let (u, v) = edges[idx];
            if u >= num_vertices || v >= num_vertices {
                return false;
            }
            if used[u] || used[v] {
                proof {
                    let y: int = if used@[u as int] { u as int } else { v as int };
                    let j = choose|j: int| 0 <= j < idx && selected@[j] && (edges@[j].0 == y || edges@[j].1 == y);
                    assert(!disjoint_edges(edges@[j], edges@[idx as int]));
                }
                return false;
            }
            proof {
                assert forall|j: int| 0 <= j < idx && selected@[j] implies disjoint_edges(edges@[j], edges@[idx as int]) by {
                    if edges@[j].0 == u || edges@[j].1 == u {
                        assert(used@[u as int]);
                    }
                    if edges@[j].0 == v || edges@[j].1 == v {
                        assert(used@[v as int]);
                    }
                }
            }
            used.set(u, true);
            used.set(v, true);
        }
        proof {
            assert forall|y: int| 0 <= y < num_vertices implies (#[trigger] used@[y] <==> exists|j: int| 0 <= j < idx + 1
                && selected@[j] && (edges@[j].0 == y || edges@[j].1 == y)) by {
                if exists|j: int| 0 <= j < idx + 1 && selected@[j] && (edges@[j].0 == y || edges@[j].1 == y) {
                    let j = choose|j: int| 0 <= j < idx + 1 && selected@[j] && (edges@[j].0 == y || edges@[j].1 == y);
                    if j < idx {
                        assert(exists|j: int| 0 <= j < idx && selected@[j] && (edges@[j].0 == y || edges@[j].1 == y));
                    }
                }
            }
        }
        idx += 1;
    }
    true
}

} // verus!
