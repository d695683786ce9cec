//! Graph colouring with a fixed number of colours.
use vstd::prelude::*;
use crate::topology::endpoints_below;
use crate::ungraph::UndirectedGraph;
use crate::types::{EnergyMode, LocalConstraint, LocalSolutionSize, ProblemSize, SolutionSize};

verus! {

/// Colour of vertex `v` in `config`; a vertex beyond the end has colour 0.
pub open spec fn color_at(config: Seq<usize>, v: int) -> usize {
    if 0 <= v < config.len() { config[v] } else { 0 }
}

/// Edge `e` has both endpoints of one colour.
pub open spec fn edge_conflicts(config: Seq<usize>, e: (usize, usize)) -> bool {
    color_at(config, e.0 as int) == color_at(config, e.1 as int)
}

/// Number of the first `k` edges whose endpoints share a colour.
pub open spec fn count_conflicts(edges: Seq<(usize, usize)>, config: Seq<usize>, k: int) -> nat
    decreases k,
{
    if k <= 0 {
        0
    } else {
        count_conflicts(edges, config, k - 1) + if edge_conflicts(config, edges[k - 1]) { 1nat } else { 0nat }
    }
}

/// No edge has both endpoints of one colour.
pub open spec fn proper_coloring(edges: Seq<(usize, usize)>, config: Seq<usize>) -> bool {
    forall|k: int| 0 <= k < edges.len() ==> !edge_conflicts(config, #[trigger] edges[k])
}

proof fn lemma_count_bounded(edges: Seq<(usize, usize)>, config: Seq<usize>, k: int)
    requires
        0 <= k,
    ensures
        count_conflicts(edges, config, k) <= k,
        (count_conflicts(edges, config, k) == 0) == (forall|j: int| 0 <= j < k ==> !edge_conflicts(config, #[trigger] edges[j])),
    decreases k,
{
    if k > 0 {
        lemma_count_bounded(edges, config, k - 1);
        if edge_conflicts(config, edges[k - 1]) {
            assert(!(forall|j: int| 0 <= j < k ==> !edge_conflicts(config, #[trigger] edges[j])));
        }
    }
}

/// Colour the vertices of a graph with `num_colors` colours so that no edge
/// joins two vertices of one colour.
#[derive(Debug, Clone)]
pub struct Coloring {
    num_colors: usize,
    graph: UndirectedGraph,
}

impl Coloring {
    /// The underlying graph.
    pub closed spec fn spec_graph(&self) -> UndirectedGraph {
        self.graph
    }

    /// Number of colours.
    pub closed spec fn spec_num_colors(&self) -> usize {
        self.num_colors
    }

    /// Instance on `num_vertices` vertices with `num_colors` colours.
    pub fn new(num_vertices: usize, num_colors: usize, edges: Vec<(usize, usize)>) -> (r: Self)
        requires
            endpoints_below(edges@, num_vertices as nat),
            num_vertices <= u32::MAX,
            edges@.len() <= u32::MAX,
        ensures
            r.spec_graph().wf(),
            r.spec_graph().n() == num_vertices,
            r.spec_graph().edge_seq() == edges@,
            r.spec_num_colors() == num_colors,
    {
        Coloring { num_colors, graph: UndirectedGraph::new(num_vertices, edges) }
    }

    /// Number of vertices.
    pub fn num_vertices(&self) -> (r: usize)
        ensures
            r == self.spec_graph().n(),
    {
        self.graph.num_vertices()
    }

    /// Number of edges.
    pub fn num_edges(&self) -> (r: usize)
        ensures
            r == self.spec_graph().edge_seq().len(),
    {
        self.graph.num_edges()
    }

    /// Number of colours.
    pub fn num_colors(&self) -> (r: usize)
        ensures
            r == self.spec_num_colors(),
    {
        self.num_colors
    }

    /// The edges as `(u, v)` pairs.
    pub fn edges(&self) -> (r: Vec<(usize, usize)>)
        ensures
            r@ == self.spec_graph().edge_seq(),
    {
        self.graph.edges()
    }

    /// Whether no edge joins two vertices of one colour (missing entries count as colour 0).
    pub fn is_valid_coloring(&self, config: &[usize]) -> (r: bool)
        ensures
            r == proper_coloring(self.spec_graph().edge_seq(), config@),
    {
        let edges = self.graph.edges();
        let mut k: usize = 0;
        while k < edges.len()
            invariant
                edges@ == self.spec_graph().edge_seq(),
                k <= edges@.len(),
                forall|j: int| 0 <= j < k ==> !edge_conflicts(config@, #[trigger] edges@[j]),
            decreases edges.len() - k,
        {
            let (u, v) = edges[k];
            let cu = if u < config.len() { config[u] } else { 0 };
            let cv = if v < config.len() { config[v] } else { 0 };
            if cu == cv {
                assert(edge_conflicts(config@, edges@[k as int]));
                return false;
            }
            k += 1;
        }
        true
    }

    /// Whether `config` is a proper colouring.
    pub fn is_satisfied(&self, config: &[usize]) -> (r: bool)
        ensures
            r == proper_coloring(self.spec_graph().edge_seq(), config@),
    {
        self.is_valid_coloring(config)
    }

    /// One variable per vertex.
    pub fn num_variables(&self) -> (r: usize)
        ensures
            r == self.spec_graph().n(),
    {
        self.graph.num_vertices()
    }

    /// Each variable takes one of the colours.
    pub fn num_flavors(&self) -> (r: usize)
        ensures
            r == self.spec_num_colors(),
    {
        self.num_colors
    }

    /// Size parameters: vertices, edges and colours.
    pub fn problem_size(&self) -> (r: ProblemSize)
        ensures
            r.components@.len() == 3,
            r.components@[0].0@ == "num_vertices"@,
            r.components@[0].1 == self.spec_graph().n(),
            r.components@[1].0@ == "num_edges"@,
            r.components@[1].1 == self.spec_graph().edge_seq().len(),
            r.components@[2].0@ == "num_colors"@,
            r.components@[2].1 == self.spec_num_colors(),
    {
        ProblemSize::new(vec![
            ("num_vertices", self.graph.num_vertices()),
            ("num_edges", self.graph.num_edges()),
            ("num_colors", self.num_colors),
        ])
    }

    /// Fewer conflicts are better.
    pub fn energy_mode(&self) -> (r: EnergyMode)
        ensures
            r is SmallerSizeIsBetter,
    {
        EnergyMode::SmallerSizeIsBetter
    }

    /// The type parameters of this model: graph kind and weight type.
    pub fn variant() -> (r: Vec<(&'static str, &'static str)>)
        ensures
            r@.len() == 2,
            r@[0].0@ == "graph"@,
            r@[0].1@ == "SimpleGraph"@,
            r@[1].0@ == "weight"@,
            r@[1].1@ == "i32"@,
    {
        vec![("graph", "SimpleGraph"), ("weight", "i32")]
    }

    /// The number of edges whose endpoints share a colour, and whether there is none.
    pub fn solution_size(&self, config: &[usize]) -> (r: SolutionSize<i32>)
        requires
            self.spec_graph().edge_seq().len() <= i32::MAX,
        ensures
            r.size as int == count_conflicts(self.spec_graph().edge_seq(), config@, self.spec_graph().edge_seq().len() as int),
            r.is_valid == proper_coloring(self.spec_graph().edge_seq(), config@),
            r.is_valid == (r.size == 0),
    {
        let is_valid = self.is_valid_coloring(config);
        let edges = self.graph.edges();
        let mut conflicts: i32 = 0;
        let mut k: usize = 0;
        while k < edges.len()
            invariant
                edges@ == self.spec_graph().edge_seq(),
                edges@.len() <= i32::MAX,
                k <= edges@.len(),
                conflicts as int == count_conflicts(edges@, config@, k as int),
            decreases edges.len() - k,
        {
            proof { lemma_count_bounded(edges@, config@, k as int); }
            let (u, v) = edges[k];
            let cu = if u < config.len() { config[u] } else { 0 };
            let cv = if v < config.len() { config[v] } else { 0 };
            if cu == cv {
                conflicts += 1;
            }
            k += 1;
        }
        proof { lemma_count_bounded(edges@, config@, edges@.len() as int); }
        SolutionSize::new(conflicts, is_valid)
    }

    /// One constraint per edge, in edge order: its two endpoints take
    /// different colours (a `k * k` table, `k` the number of colours).
    pub fn constraints(&self) -> (r: Vec<LocalConstraint>)
        requires
            self.spec_num_colors() * self.spec_num_colors() <= usize::MAX,
        ensures
            r@.len() == self.spec_graph().edge_seq().len(),
            forall|j: int| 0 <= j < r@.len() ==> {
                let c = #[trigger] r@[j];
                &&& c.num_flavors == self.spec_num_colors()
                &&& c.variables@ == seq![self.spec_graph().edge_seq()[j].0, self.spec_graph().edge_seq()[j].1]
                &&& c.spec@ == different_table(self.spec_num_colors() as int)
            },
    {
        let k = self.num_colors;
        let table = different_colors_table(k);
        let edges = self.graph.edges();
        let mut out: Vec<LocalConstraint> = Vec::new();
        let mut e: usize = 0;
        while e < edges.len()
            invariant
                edges@ == self.spec_graph().edge_seq(),
                k == self.spec_num_colors(),
                table@ == different_table(k as int),
                e <= edges@.len(),
                out@.len() == e,
                forall|j: int| 0 <= j < out@.len() ==> {
                    let c = #[trigger] out@[j];
                    &&& c.num_flavors == k
                    &&& c.variables@ == seq![edges@[j].0, edges@[j].1]
                    &&& c.spec@ == different_table(k as int)
                },
            decreases edges.len() - e,
        {
            let (u, v) = edges[e];
            let c = LocalConstraint::new(k, vec![u, v], copy_bools(&table));
            assert(c.variables@ =~= seq![u, v]);
            out.push(c);
            e += 1;
        }
        out
    }

    /// No objective terms: this is a pure constraint problem.
    pub fn objectives(&self) -> (r: Vec<LocalSolutionSize<i32>>)
        ensures
            r@.len() == 0,
    {
        Vec::new()
    }

    /// No weights.
    pub fn weights(&self) -> (r: Vec<i32>)
        ensures
            r@.len() == 0,
    {
        Vec::new()
    }

    /// Weights are ignored; the instance is unchanged.
    pub fn set_weights(&mut self, weights: Vec<i32>)
        ensures
            *final(self) == *old(self),
    {
    }

    /// Never weighted.
    pub fn is_weighted(&self) -> (r: bool)
        ensures
            r == false,
    {
        false
    }
}

/// The `k * k` table whose entry `c1 * k + c2` is `c1 != c2`.
pub open spec fn different_table(k: int) -> Seq<bool> {
    Seq::new((k * k) as nat, |i: int| i / k != i % k)
}

fn copy_bools(v: &Vec<bool>) -> (r: Vec<bool>)
    ensures
        r@ == v@,
{
    v.clone()
}

fn different_colors_table(k: usize) -> (r: Vec<bool>)
    requires
        k * k <= usize::MAX,
    ensures
        r@ == different_table(k as int),
{
    let mut out: Vec<bool> = Vec::new();
    let mut c1: usize = 0;
    while c1 < k
        invariant
            k * k <= usize::MAX,
            c1 <= k,
            out@.len() == c1 * k,
            forall|i: int| 0 <= i < out@.len() ==> #[trigger] out@[i] == (i / k as int != i % k as int),
        decreases k - c1,
    {
        let mut c2: usize = 0;
        while c2 < k
            invariant
                k * k <= usize::MAX,
                c1 < k,
                c2 <= k,
                out@.len() == c1 * k + c2,
                forall|i: int| 0 <= i < out@.len() ==> #[trigger] out@[i] == (i / k as int != i % k as int),
            decreases k - c2,
        {
            proof {
                let i = c1 * k + c2;
                vstd::arithmetic::div_mod::lemma_fundamental_div_mod_converse(i as int, k as int, c1 as int, c2 as int);
                assert(c1 * k + c2 < k * k) by (nonlinear_arith)
                    requires c1 < k, c2 < k;
            }
            out.push(c1 != c2);
            c2 += 1;
        }
        assert(c1 * k + k == (c1 + 1) * k) by (nonlinear_arith);
        c1 += 1;
    }
    assert(out@ =~= different_table(k as int));
    out
}

/// Whether `coloring` gives each of the `num_vertices` vertices a colour below
/// `num_colors` and no listed edge (with both endpoints in range) joins two
/// vertices of one colour.
pub fn is_valid_coloring(num_vertices: usize, edges: &[(usize, usize)], coloring: &[usize], num_colors: usize) -> (r: bool)
    ensures
        r == (coloring@.len() == num_vertices
            && (forall|i: int| 0 <= i < coloring@.len() ==> #[trigger] coloring@[i] < num_colors)
            && (forall|k: int| 0 <= k < edges@.len() ==> {
                let e = #[trigger] edges@[k];
                e.0 < coloring@.len() && e.1 < coloring@.len() ==> coloring@[e.0 as int] != coloring@[e.1 as int]
            })),
{
    if coloring.len() != num_vertices {
        return false;
    }
    let mut i: usize = 0;
    while i < coloring.len()
        invariant
            i <= coloring@.len(),
            forall|j: int| 0 <= j < i ==> #[trigger] coloring@[j] < num_colors,
        decreases coloring.len() - i,
    {
        if coloring[i] >= num_colors {
            return false;
        }
        i += 1;
    }
    let mut k: usize = 0;
    while k < edges.len()
        invariant
            k <= edges@.len(),
            forall|j: int| 0 <= j < k ==> {
                let e = #[trigger] edges@[j];
                e.0 < coloring@.len() && e.1 < coloring@.len() ==> coloring@[e.0 as int] != coloring@[e.1 as int]
            },
        decreases edges.len() - k,
    {
        let (u, v) = edges[k];
        if u < coloring.len() && v < coloring.len() && coloring[u] == coloring[v] {
            assert(edges@[k as int] == (u, v));
            return false;
        }
        k += 1;
    }
    true
}

} // verus!
