//! Bounded Diameter Spanning Tree: a spanning tree of bounded total edge
//! weight in which every two vertices are joined by a path of bounded length.
use vstd::prelude::*;
use crate::models::graph::props::{count_true, count_selected};
use crate::models::graph::reach::{reach_within, reachable, reach_capped, reach_all};
use crate::models::graph::{simple_graph_from_create, listed_vertex_count, no_self_loops};
use crate::sums::{selected_sum64, checked_selected_sum};
use crate::topology::{SimpleGraph, endpoints_below, copy_vec};
use crate::types::{ConstructionError, EvaluationError, Or};

verus! {

/// The edges among the first `k` whose flag is set, in order.
pub open spec fn chosen_edges(edges: Seq<(usize, usize)>, sel: Seq<bool>, k: int) -> Seq<(usize, usize)>
    decreases k,
{
    if k <= 0 {
        Seq::empty()
    } else {
        let prev = chosen_edges(edges, sel, k - 1);
        if sel[k - 1] { prev.push(edges[k - 1]) } else { prev }
    }
}

proof fn lemma_chosen_below(edges: Seq<(usize, usize)>, sel: Seq<bool>, n: nat, k: int)
    requires
        endpoints_below(edges, n),
        0 <= k <= edges.len(),
        k <= sel.len(),
    ensures
        endpoints_below(chosen_edges(edges, sel, k), n),
    decreases k,
{
    if k > 0 {
        lemma_chosen_below(edges, sel, n, k - 1);
    }
}

/// The value of a selection of edges: an error for the wrong number of
/// flags or an overflowing weight sum; otherwise whether the chosen edges
/// form a spanning tree (as many as vertices less one, connected) of weight
/// at most `wb` in which every two vertices are joined by at most `d` edges.
pub open spec fn bdst_result(g: SimpleGraph, w: Seq<i64>, wb: int, d: nat, sel: Seq<bool>) -> Result<Or, EvaluationError> {
    let n = g.n();
    let m = g.edge_seq().len();
    let chosen = chosen_edges(g.edge_seq(), sel, m as int);
    if sel.len() != m {
        Err(EvaluationError::InvalidConfiguration)
    } else if n == 0 {
        Ok(Or(count_true(sel) == 0))
    } else if count_true(sel) != n - 1 {
        Ok(Or(false))
    } else {
        match selected_sum64(sel, w) {
            None => Err(EvaluationError::IntegerOverflow),
            Some(t) => if t > wb {
                Ok(Or(false))
            } else if !(forall|v: int| 0 <= v < n ==> #[trigger] reachable(chosen, 0, v)) {
                Ok(Or(false))
            } else {
                Ok(Or(forall|s: int, v: int| 0 <= s < n && 0 <= v < n ==> #[trigger] reach_within(chosen, s, v, d)))
            },
        }
    }
}

/// Given a graph with positive edge weights, a weight bound and a diameter
/// bound, decide whether some spanning tree has weight at most the weight
/// bound and diameter at most the diameter bound.
#[derive(Debug, Clone)]
pub struct BoundedDiameterSpanningTree {
    graph: SimpleGraph,
    edge_weights: Vec<i64>,
    weight_bound: i64,
    diameter_bound: usize,
    edge_list: Vec<(usize, usize)>,
}

/// Every weight is positive.
pub open spec fn all_positive(w: Seq<i64>) -> bool {
    forall|i: int| 0 <= i < w.len() ==> #[trigger] w[i] > 0
}

fn check_positive(w: &[i64]) -> (r: bool)
    ensures
        r == all_positive(w@),
{
    let mut i: usize = 0;
    while i < w.len()
        invariant
            i <= w@.len(),
            forall|j: int| 0 <= j < i ==> #[trigger] w@[j] > 0,
        decreases w.len() - i,
    {
        if w[i] <= 0 {
            return false;
        }
        i += 1;
    }
    true
}

impl BoundedDiameterSpanningTree {
    /// The graph.
    pub closed spec fn spec_graph(&self) -> SimpleGraph {
        self.graph
    }

    /// The edge weights.
    pub closed spec fn spec_weights(&self) -> Seq<i64> {
        self.edge_weights@
    }

    /// The bound on the tree's weight.
    pub closed spec fn spec_weight_bound(&self) -> i64 {
        self.weight_bound
    }

    /// The stored edge list.
    pub closed spec fn spec_edge_list(&self) -> Seq<(usize, usize)> {
        self.edge_list@
    }

    /// The bound on the tree's diameter.
    pub closed spec fn spec_diameter_bound(&self) -> usize {
        self.diameter_bound
    }

    /// Positive weights, one per edge, positive bounds, and the edge list of the graph.
    pub open spec fn wf(&self) -> bool {
        &&& self.spec_graph().wf()
        &&& self.spec_weights().len() == self.spec_graph().edge_seq().len()
        &&& all_positive(self.spec_weights())
        &&& self.spec_weight_bound() > 0
        &&& self.spec_diameter_bound() >= 1
        &&& self.spec_edge_list() == self.spec_graph().edge_seq()
    }

    /// Creates an instance; panics unless there is one positive weight per
    /// edge, the weight bound is positive and the diameter bound at least 1.
    pub fn new(graph: SimpleGraph, edge_weights: Vec<i64>, weight_bound: i64, diameter_bound: usize) -> (r: Self)
        requires
            graph.wf(),
            edge_weights@.len() == graph.edge_seq().len(),
            all_positive(edge_weights@),
            weight_bound > 0,
            diameter_bound >= 1,
        ensures
            r.wf(),
            r.spec_graph() == graph,
            r.spec_weights() == edge_weights@,
            r.spec_weight_bound() == weight_bound,
            r.spec_diameter_bound() == diameter_bound,
    {
        let edge_list = graph.edges();
        BoundedDiameterSpanningTree { graph, edge_weights, weight_bound, diameter_bound, edge_list }
    }

    /// Builds an instance from listed parts (see `simple_graph_from_create`
    /// for the graph; weights default to 1): `LengthMismatch` unless there is
    /// one weight per edge, `InvalidValue` for a weight or weight bound that
    /// is not positive or a zero diameter bound.
    pub fn try_from_spec(
        edges: Vec<(usize, usize)>,
        num_vertices: Option<usize>,
        edge_weights: Option<Vec<i64>>,
        weight_bound: i64,
        diameter_bound: usize,
    ) -> (r: Result<Self, ConstructionError>)
        ensures
            r is Ok <==> {
                &&& !(edges@.len() == 0 && num_vertices is None)
                &&& no_self_loops(edges@)
                &&& crate::models::graph::acyclic_partition::max_endpoint_plus_one(edges@, edges@.len() as int) <= usize::MAX
                &&& crate::models::graph::acyclic_partition::max_endpoint_plus_one(edges@, edges@.len() as int)
                    <= listed_vertex_count(edges@, num_vertices)
                &&& edge_weights matches Some(w) ==> w@.len() == edges@.len() && all_positive(w@)
                &&& weight_bound > 0
                &&& diameter_bound >= 1
            },
            r matches Ok(p) ==> {
                &&& p.wf()
                &&& p.spec_graph().edge_seq() == edges@
                &&& p.spec_graph().n() == listed_vertex_count(edges@, num_vertices)
                &&& edge_weights matches Some(w) ==> p.spec_weights() == w@
                &&& edge_weights is None ==> forall|i: int| 0 <= i < p.spec_weights().len() ==> #[trigger] p.spec_weights()[i] == 1
                &&& p.spec_weight_bound() == weight_bound
                &&& p.spec_diameter_bound() == diameter_bound
            },
    {
        let m = edges.len();
        let graph = match simple_graph_from_create(edges, num_vertices) {
            Ok(g) => g,
            Err(e) => return Err(e),
        };
        let weights = match edge_weights {
            Some(w) => w,
            None => {
                let mut w: Vec<i64> = Vec::new();
                let mut i: usize = 0;
                while i < m
                    invariant
                        i <= m,
                        w@.len() == i,
                        forall|j: int| 0 <= j < i ==> #[trigger] w@[j] == 1,
                    decreases m - i,
                {
                    w.push(1);
                    i += 1;
                }
                w
            },
        };
        if weights.len() != m {
            return Err(ConstructionError::LengthMismatch);
        }
        if !check_positive(&weights) {
            return Err(ConstructionError::InvalidValue);
        }
        if weight_bound <= 0 {
            return Err(ConstructionError::InvalidValue);
        }
        if diameter_bound == 0 {
            return Err(ConstructionError::InvalidValue);
        }
        Ok(Self::new(graph, weights, weight_bound, diameter_bound))
    }

    /// The graph.
    pub fn graph(&self) -> (r: &SimpleGraph)
        ensures
            *r == self.spec_graph(),
    {
        &self.graph
    }

    /// The edge weights.
    pub fn edge_weights(&self) -> (r: &[i64])
        ensures
            r@ == self.spec_weights(),
    {
        self.edge_weights.as_slice()
    }

    /// Replaces the weights; panics unless there is one positive weight per edge.
    pub fn set_weights(&mut self, edge_weights: Vec<i64>)
        requires
            old(self).wf(),
            edge_weights@.len() == old(self).spec_graph().edge_seq().len(),
            all_positive(edge_weights@),
        ensures
            final(self).wf(),
            final(self).spec_weights() == edge_weights@,
            final(self).spec_graph() == old(self).spec_graph(),
            final(self).spec_weight_bound() == old(self).spec_weight_bound(),
            final(self).spec_diameter_bound() == old(self).spec_diameter_bound(),
    {
        self.edge_weights = edge_weights;
    }

    /// The bound on the tree's weight.
    pub fn weight_bound(&self) -> (r: i64)
        ensures
            r == self.spec_weight_bound(),
    {
        self.weight_bound
    }

    /// The bound on the tree's diameter.
    pub fn diameter_bound(&self) -> (r: usize)
        ensures
            r == self.spec_diameter_bound(),
    {
        self.diameter_bound
    }

    /// Number of vertices.
    pub fn num_vertices(&self) -> (r: usize)
        ensures
            r == self.spec_graph().n(),
    {
        self.graph.num_vertices()
    }

    /// Number of edges.
    pub fn num_edges(&self) -> (r: usize)
        ensures
            r == self.spec_graph().edge_seq().len(),
    {
        self.graph.num_edges()
    }

    /// The edges, in order.
    pub fn edge_list(&self) -> (r: &[(usize, usize)])
        requires
            self.wf(),
        ensures
            r@ == self.spec_graph().edge_seq(),
    {
        self.edge_list.as_slice()
    }

    /// Integer weights are never the unit weight type.
    pub fn is_weighted(&self) -> (r: bool)
        ensures
            r,
    {
        true
    }

    /// Whether the selected edges form a spanning tree within both bounds;
    /// an error for the wrong number of flags or an overflowing weight sum.
    #[verifier::loop_isolation(false)]
    pub fn evaluate(&self, config: &Vec<bool>) -> (r: Result<Or, EvaluationError>)
        requires
            self.wf(),
        ensures
            r == bdst_result(self.spec_graph(), self.spec_weights(), self.spec_weight_bound() as int,
                self.spec_diameter_bound() as nat, config@),
    {
        let n = self.graph.num_vertices();
        let ghost es = self.spec_graph().edge_seq();
        if config.len() != self.edge_list.len() {
            return Err(EvaluationError::InvalidConfiguration);
        }
        let count = count_selected(config.as_slice());
        if n == 0 {
            return Ok(Or(count == 0));
        }
        if count != n - 1 {
            return Ok(Or(false));
        }
        let total = match checked_selected_sum(config, self.edge_weights.as_slice()) {
            Ok(t) => t,
            Err(e) => return Err(e),
        };
        if total > self.weight_bound {
            return Ok(Or(false));
        }
        let mut chosen: Vec<(usize, usize)> = Vec::new();
        let mut k: usize = 0;
        while k < self.edge_list.len()
            invariant
                self.wf(),
                es == self.spec_graph().edge_seq(),
                config@.len() == es.len(),
                k <= es.len(),
                chosen@ == chosen_edges(es, config@, k as int),
            decreases self.edge_list.len() - k,
        {
            if config[k] {
                chosen.push(self.edge_list[k]);
            }
            k += 1;
        }
        proof { lemma_chosen_below(es, config@, n as nat, es.len() as int); }
        let from_zero = reach_all(n, chosen.as_slice(), 0);
        let mut v: usize = 0;
        while v < n
            invariant
                from_zero@.len() == n,
                forall|x: int| 0 <= x < n ==> #[trigger] from_zero@[x] == reachable(chosen@, 0, x),
                v <= n,
                forall|x: int| 0 <= x < v ==> #[trigger] reachable(chosen@, 0, x),
            decreases n - v,
        {
            if !from_zero[v] {
                assert(!reachable(chosen@, 0, v as int));
                return Ok(Or(false));
            }
            v += 1;
        }
        let mut s: usize = 0;
        while s < n
            invariant
                endpoints_below(chosen@, n as nat),
                s <= n,
                forall|a: int, b: int| 0 <= a < s && 0 <= b < n ==> #[trigger] reach_within(chosen@, a, b, self.diameter_bound as nat),
            decreases n - s,
        {
            let within = reach_capped(n, chosen.as_slice(), s, self.diameter_bound);
            let mut t: usize = 0;
            while t < n
                invariant
                    within@.len() == n,
                    s < n,
                    forall|x: int| 0 <= x < n ==> #[trigger] within@[x] == reach_within(chosen@, s as int, x, self.diameter_bound as nat),
                    t <= n,
                    forall|x: int| 0 <= x < t ==> #[trigger] reach_within(chosen@, s as int, x, self.diameter_bound as nat),
                decreases n - t,
            {
                if !within[t] {
                    assert(!reach_within(chosen@, s as int, t as int, self.diameter_bound as nat));
                    return Ok(Or(false));
                }
                t += 1;
            }
            s += 1;
        }
        Ok(Or(true))
    }

    /// One binary variable per edge.
    pub fn dimensions(&self) -> (r: Vec<usize>)
        ensures
            r@.len() == self.spec_edge_list().len(),
            forall|i: int| 0 <= i < r@.len() ==> #[trigger] r@[i] == 2,
    {
        crate::models::graph::uniform_dims(self.edge_list.len(), 2)
    }
}

} // verus!
