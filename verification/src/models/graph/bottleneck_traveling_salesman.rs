//! Bottleneck Traveling Salesman: a Hamiltonian cycle whose heaviest edge is
//! as light as possible.
use vstd::prelude::*;
use crate::models::graph::bounded_diameter_spanning_tree::chosen_edges;
use crate::models::graph::reach::{reachable, reach_all};
use crate::models::graph::{simple_graph_from_create, listed_vertex_count, no_self_loops};
use crate::models::graph::acyclic_partition::max_endpoint_plus_one;
use crate::topology::{SimpleGraph, endpoints_below, copy_vec};
use crate::types::{ConstructionError, EvaluationError, Min};

verus! {

/// Number of ends at `v` among the first `k` edges (a loop counts twice).
pub open spec fn degree(edges: Seq<(usize, usize)>, v: int, k: int) -> nat
    decreases k,
{
    if k <= 0 {
        0
    } else {
        degree(edges, v, k - 1) + (if edges[k - 1].0 as int == v { 1nat } else { 0nat })
            + (if edges[k - 1].1 as int == v { 1nat } else { 0nat })
    }
}

pub proof fn lemma_degree_grows(edges: Seq<(usize, usize)>, v: int, a: int, b: int)
    requires
        0 <= a <= b,
    ensures
        degree(edges, v, a) <= degree(edges, v, b),
    decreases b - a,
{
    if a < b {
        lemma_degree_grows(edges, v, a, b - 1);
    }
}

/// The edges form one cycle through all `n >= 3` vertices: every vertex
/// has two edge ends and all vertices are reachable from vertex 0.
pub open spec fn hamiltonian_cycle(edges: Seq<(usize, usize)>, n: nat) -> bool {
    &&& n >= 3
    &&& forall|v: int| 0 <= v < n ==> #[trigger] degree(edges, v, edges.len() as int) == 2
    &&& forall|v: int| 0 <= v < n ==> #[trigger] reachable(edges, 0, v)
}

/// The flag of each edge: the configuration entry is 1.
pub open spec fn ones_flags(config: Seq<usize>) -> Seq<bool> {
    config.map_values(|c: usize| c == 1)
}

/// The largest weight among the first `k` edges whose entry is 1, if any.
pub open spec fn max_selected(config: Seq<usize>, w: Seq<i64>, k: int) -> Option<i64>
    decreases k,
{
    if k <= 0 {
        None
    } else {
        let prev = max_selected(config, w, k - 1);
        if config[k - 1] != 1 {
            prev
        } else {
            match prev {
                None => Some(w[k - 1]),
                Some(m) => if w[k - 1] > m { Some(w[k - 1]) } else { Some(m) },
            }
        }
    }
}

/// Whether the edges on the vertices `0..n` form a Hamiltonian cycle.
#[verifier::loop_isolation(false)]
pub fn is_hamiltonian_cycle_edges(n: usize, edges: &[(usize, usize)]) -> (r: bool)
    requires
        endpoints_below(edges@, n as nat),
    ensures
        r == hamiltonian_cycle(edges@, n as nat),
{
    if n < 3 {
        return false;
    }
    let mut v: usize = 0;
    while v < n
        invariant
            v <= n,
            forall|x: int| 0 <= x < v ==> #[trigger] degree(edges@, x, edges@.len() as int) == 2,
        decreases n - v,
    {
        let mut d: usize = 0;
        let mut k: usize = 0;
        while k < edges.len()
            invariant
                k <= edges@.len(),
                d == degree(edges@, v as int, k as int),
                d <= 2,
            decreases edges.len() - k,
        {
            let add: usize = (if edges[k].0 == v { 1 } else { 0 }) + (if edges[k].1 == v { 1 } else { 0 });
            if d + add > 2 {
                proof { lemma_degree_grows(edges@, v as int, k as int + 1, edges@.len() as int); }
                return false;
            }
            d = d + add;
            k += 1;
        }
        if d != 2 {
            return false;
        }
        v += 1;
    }
    let seen = reach_all(n, edges, 0);
    let mut x: usize = 0;
    while x < n
        invariant
            x <= n,
            seen@.len() == n,
            forall|y: int| 0 <= y < n ==> #[trigger] seen@[y] == reachable(edges@, 0, y),
            forall|y: int| 0 <= y < x ==> #[trigger] reachable(edges@, 0, y),
        decreases n - x,
    {
        if !seen[x] {
            assert(!reachable(edges@, 0, x as int));
            return false;
        }
        x += 1;
    }
    true
}

/// Given a graph with edge weights, find a Hamiltonian cycle whose heaviest
/// edge is lightest; the variables are the edges.
#[derive(Debug, Clone)]
pub struct BottleneckTravelingSalesman {
    graph: SimpleGraph,
    edge_weights: Vec<i64>,
}

impl BottleneckTravelingSalesman {
    /// The graph.
    pub closed spec fn spec_graph(&self) -> SimpleGraph {
        self.graph
    }

    /// The edge weights.
    pub closed spec fn spec_weights(&self) -> Seq<i64> {
        self.edge_weights@
    }

    /// One weight per edge, on a well-formed graph.
    pub open spec fn wf(&self) -> bool {
        self.spec_graph().wf() && self.spec_weights().len() == self.spec_graph().edge_seq().len()
    }

    /// An instance; panics unless there is one weight per edge.
    pub fn new(graph: SimpleGraph, edge_weights: Vec<i64>) -> (r: Self)
        requires
            graph.wf(),
            edge_weights@.len() == graph.edge_seq().len(),
        ensures
            r.wf(),
            r.spec_graph() == graph,
            r.spec_weights() == edge_weights@,
    {
        BottleneckTravelingSalesman { graph, edge_weights }
    }

    /// Builds an instance from listed parts: the graph as by
    /// `simple_graph_from_create`, weights defaulting to 1 and otherwise one
    /// per edge (`LengthMismatch`).
    pub fn try_from_spec(edges: Vec<(usize, usize)>, num_vertices: Option<usize>, edge_weights: Option<Vec<i64>>)
        -> (r: Result<Self, ConstructionError>)
        ensures
            r is Ok <==> {
                &&& !(edges@.len() == 0 && num_vertices is None)
                &&& no_self_loops(edges@)
                &&& max_endpoint_plus_one(edges@, edges@.len() as int) <= usize::MAX
                &&& max_endpoint_plus_one(edges@, edges@.len() as int) <= listed_vertex_count(edges@, num_vertices)
                &&& edge_weights matches Some(w) ==> w@.len() == edges@.len()
            },
            r matches Ok(p) ==> {
                &&& p.wf()
                &&& p.spec_graph().edge_seq() == edges@
                &&& p.spec_graph().n() == listed_vertex_count(edges@, num_vertices)
                &&& edge_weights matches Some(w) ==> p.spec_weights() == w@
                &&& edge_weights is None ==> forall|i: int| 0 <= i < p.spec_weights().len() ==> #[trigger] p.spec_weights()[i] == 1
            },
    {
        let m = edges.len();
        let graph = match simple_graph_from_create(edges, num_vertices) {
            Ok(g) => g,
            Err(e) => return Err(e),
        };
        let weights = match edge_weights {
            Some(w) => w,
            None => {
                let mut w: Vec<i64> = Vec::new();
                let mut i: usize = 0;
                while i < m
                    invariant
                        i <= m,
                        w@.len() == i,
                        forall|j: int| 0 <= j < i ==> #[trigger] w@[j] == 1,
                    decreases m - i,
                {
                    w.push(1);
                    i += 1;
                }
                w
            },
        };
        if weights.len() != m {
            return Err(ConstructionError::LengthMismatch);
        }
        Ok(BottleneckTravelingSalesman { graph, edge_weights: weights })
    }

    /// The graph.
    pub fn graph(&self) -> (r: &SimpleGraph)
        ensures
            *r == self.spec_graph(),
    {
        &self.graph
    }

    /// The edge weights, copied.
    pub fn weights(&self) -> (r: Vec<i64>)
        ensures
            r@ == self.spec_weights(),
    {
        copy_vec(&self.edge_weights)
    }

    /// Replaces the weights; panics unless there is one per edge.
    pub fn set_weights(&mut self, weights: Vec<i64>)
        requires
            old(self).wf(),
            weights@.len() == old(self).spec_graph().edge_seq().len(),
        ensures
            final(self).wf(),
            final(self).spec_graph() == old(self).spec_graph(),
            final(self).spec_weights() == weights@,
    {
        self.edge_weights = weights;
    }

    /// The edges with their weights.
    pub fn edges(&self) -> (r: Vec<(usize, usize, i64)>)
        requires
            self.wf(),
        ensures
            r@.len() == self.spec_graph().edge_seq().len(),
            forall|i: int| 0 <= i < r@.len() ==> #[trigger] r@[i] == (
                self.spec_graph().edge_seq()[i].0, self.spec_graph().edge_seq()[i].1, self.spec_weights()[i]),
    {
        let es = self.graph.edge_list();
        let mut out: Vec<(usize, usize, i64)> = Vec::new();
        let mut i: usize = 0;
        while i < es.len()
            invariant
                es@ == self.spec_graph().edge_seq(),
                self.edge_weights@.len() == es@.len(),
                i <= es@.len(),
                out@.len() == i,
                forall|j: int| 0 <= j < i ==> #[trigger] out@[j] == (es@[j].0, es@[j].1, self.edge_weights@[j]),
            decreases es.len() - i,
        {
            let (u, v) = es[i];
            out.push((u, v, self.edge_weights[i]));
            i += 1;
        }
        out
    }

    /// Number of vertices.
    pub fn num_vertices(&self) -> (r: usize)
        ensures
            r == self.spec_graph().n(),
    {
        self.graph.num_vertices()
    }

    /// Number of edges.
    pub fn num_edges(&self) -> (r: usize)
        ensures
            r == self.spec_graph().edge_seq().len(),
    {
        self.graph.num_edges()
    }

    /// The instance is always weighted.
    pub fn is_weighted(&self) -> (r: bool)
        ensures
            r,
    {
        true
    }

    /// The edges whose entry is 1.
    fn selected_edges(&self, config: &[usize]) -> (r: Vec<(usize, usize)>)
        requires
            self.wf(),
            config@.len() == self.spec_graph().edge_seq().len(),
        ensures
            r@ == chosen_edges(self.spec_graph().edge_seq(), ones_flags(config@), config@.len() as int),
            endpoints_below(r@, self.spec_graph().n()),
    {
        let es = self.graph.edge_list();
        let mut out: Vec<(usize, usize)> = Vec::new();
        let mut k: usize = 0;
        while k < es.len()
            invariant
                es@ == self.spec_graph().edge_seq(),
                self.spec_graph().wf(),
                config@.len() == es@.len(),
                k <= es@.len(),
                out@ == chosen_edges(es@, ones_flags(config@), k as int),
                endpoints_below(out@, self.spec_graph().n()),
            decreases es.len() - k,
        {
            if config[k] == 1 {
                out.push(es[k]);
            }
            k += 1;
        }
        out
    }

    /// Whether the edges with entry 1 form a Hamiltonian cycle.
    pub fn is_valid_solution(&self, config: &[usize]) -> (r: bool)
        requires
            self.wf(),
        ensures
            r == (config@.len() == self.spec_graph().edge_seq().len()
                && hamiltonian_cycle(chosen_edges(self.spec_graph().edge_seq(), ones_flags(config@), config@.len() as int), self.spec_graph().n())),
    {
        if config.len() != self.graph.num_edges() {
            return false;
        }
        let sel = self.selected_edges(config);
        is_hamiltonian_cycle_edges(self.graph.num_vertices(), sel.as_slice())
    }

    /// One binary variable per edge.
    pub fn dims(&self) -> (r: Vec<usize>)
        ensures
            r@.len() == self.spec_graph().edge_seq().len(),
            forall|i: int| 0 <= i < r@.len() ==> #[trigger] r@[i] == 2,
    {
        crate::models::graph::uniform_dims(self.graph.num_edges(), 2)
    }

    /// The heaviest weight of the selected edges when they form a
    /// Hamiltonian cycle, `None` otherwise.
    pub fn evaluate(&self, config: &[usize]) -> (r: Result<Min<i64>, EvaluationError>)
        requires
            self.wf(),
        ensures
            !(config@.len() == self.spec_graph().edge_seq().len()
                && hamiltonian_cycle(chosen_edges(self.spec_graph().edge_seq(), ones_flags(config@), config@.len() as int), self.spec_graph().n()))
                ==> r == Ok::<Min<i64>, EvaluationError>(Min(None)),
            (config@.len() == self.spec_graph().edge_seq().len()
                && hamiltonian_cycle(chosen_edges(self.spec_graph().edge_seq(), ones_flags(config@), config@.len() as int), self.spec_graph().n()))
                ==> r == Ok::<Min<i64>, EvaluationError>(Min(max_selected(config@, self.spec_weights(), config@.len() as int))),
    {
        if !self.is_valid_solution(config) {
            return Ok(Min(None));
        }
        let mut best: Option<i64> = None;
        let mut k: usize = 0;
        while k < config.len()
            invariant
                self.wf(),
                config@.len() == self.edge_weights@.len(),
                k <= config@.len(),
                best == max_selected(config@, self.edge_weights@, k as int),
            decreases config.len() - k,
        {
            if config[k] == 1 {
                let w = self.edge_weights[k];
                best = match best {
                    None => Some(w),
                    Some(m) => if w > m { Some(w) } else { Some(m) },
                };
            }
            k += 1;
        }
        Ok(Min(best))
    }
}

/// The bottleneck of a selection is its heaviest selected edge: among the
/// first `k` entries, the value is present exactly when some entry is 1, and
/// then it is the weight of a selected edge and at least the weight of every
/// selected edge.
pub proof fn law_bottleneck_is_heaviest_selected(config: Seq<usize>, w: Seq<i64>, k: int)
    requires
        0 <= k <= config.len(),
        k <= w.len(),
    ensures
        max_selected(config, w, k) is Some <==> exists|i: int| 0 <= i < k && #[trigger] config[i] == 1,
        max_selected(config, w, k) matches Some(b) ==> (exists|i: int| 0 <= i < k && #[trigger] config[i] == 1 && w[i] == b)
            && forall|i: int| 0 <= i < k && #[trigger] config[i] == 1 ==> w[i] <= b,
    decreases k,
{
    if k > 0 {
        law_bottleneck_is_heaviest_selected(config, w, k - 1);
        let j = k - 1;
        if config[j] == 1 {
            assert(config[j] == 1);
            match max_selected(config, w, k - 1) {
                None => {
                    assert forall|i: int| 0 <= i < k && #[trigger] config[i] == 1 implies w[i] <= w[j] by {
                        if i < j {
                            assert(exists|i2: int| 0 <= i2 < k - 1 && #[trigger] config[i2] == 1);
                        }
                    }
                },
                Some(m) => {
                    let b = if w[j] > m { w[j] } else { m };
                    assert(max_selected(config, w, k) == Some(b));
                    if w[j] > m {
                        assert(config[j] == 1 && w[j] == b);
                    } else {
                        let i0 = choose|i: int| 0 <= i < k - 1 && #[trigger] config[i] == 1 && w[i] == m;
                        assert(config[i0] == 1 && w[i0] == b);
                    }
                    assert forall|i: int| 0 <= i < k && #[trigger] config[i] == 1 implies w[i] <= b by {
                        if i < j {
                            assert(w[i] <= m);
                        }
                    }
                },
            }
        } else {
            assert forall|i: int| 0 <= i < k && #[trigger] config[i] == 1 implies i < k - 1 by {}
            if exists|i: int| 0 <= i < k && #[trigger] config[i] == 1 {
                let i0 = choose|i: int| 0 <= i < k && #[trigger] config[i] == 1;
                assert(0 <= i0 < k - 1 && config[i0] == 1);
            }
            if let Some(b) = max_selected(config, w, k) {
                let i0 = choose|i: int| 0 <= i < k - 1 && #[trigger] config[i] == 1 && w[i] == b;
                assert(0 <= i0 < k && config[i0] == 1 && w[i0] == b);
            }
        }
    }
}

} // verus!
