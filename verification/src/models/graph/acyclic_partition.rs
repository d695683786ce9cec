//! Acyclic Partition: split the vertices of a directed graph into parts of
//! bounded weight, with bounded cost of the arcs between parts, so that the
//! parts form a directed acyclic graph.
use vstd::prelude::*;
use crate::sums::fits64;
use crate::topology::{DirectedGraph, endpoints_below, is_acyclic, arcs_acyclic, copy_vec};
use crate::types::{ConstructionError, EvaluationError, Or};

verus! {

/// Where a running `i64` sum checked against a bound stands.
pub enum SumScan {
    /// Every partial sum so far is within the bound; the current state.
    Within(Seq<int>),
    /// A partial sum went past the bound.
    Exceeded,
    /// A partial sum left `i64`.
    Overflow,
}

/// Adding the first `k` vertices' weights to the totals of their parts, in
/// vertex order, stopping when a part's total leaves `i64` or passes `bound`.
pub open spec fn weight_scan(labels: Seq<usize>, w: Seq<i64>, n: nat, bound: int, k: int) -> SumScan
    decreases k,
{
    if k <= 0 {
        SumScan::Within(Seq::new(n, |i: int| 0int))
    } else {
        match weight_scan(labels, w, n, bound, k - 1) {
            SumScan::Within(s) => {
                let l = labels[k - 1] as int;
                let t = s[l] + w[k - 1];
                if !fits64(t) { SumScan::Overflow } else if t > bound { SumScan::Exceeded } else { SumScan::Within(s.update(l, t)) }
            },
            other => other,
        }
    }
}

/// The arc joins two different parts.
pub open spec fn crosses(labels: Seq<usize>, a: (usize, usize)) -> bool {
    labels[a.0 as int] != labels[a.1 as int]
}

/// Adding the costs of the first `k` arcs that join different parts, in arc
/// order, stopping when the total leaves `i64` or passes `bound`.
pub open spec fn cost_scan(arcs: Seq<(usize, usize)>, labels: Seq<usize>, c: Seq<i64>, bound: int, k: int) -> SumScan
    decreases k,
{
    if k <= 0 {
        SumScan::Within(seq![0int])
    } else {
        match cost_scan(arcs, labels, c, bound, k - 1) {
            SumScan::Within(s) => if !crosses(labels, arcs[k - 1]) {
                SumScan::Within(s)
            } else {
                let t = s[0] + c[k - 1];
                if !fits64(t) { SumScan::Overflow } else if t > bound { SumScan::Exceeded } else { SumScan::Within(seq![t]) }
            },
            other => other,
        }
    }
}

/// The arcs between parts among the first `k` arcs, as arcs between part labels.
pub open spec fn quotient_arcs(arcs: Seq<(usize, usize)>, labels: Seq<usize>, k: int) -> Seq<(usize, usize)>
    decreases k,
{
    if k <= 0 {
        Seq::empty()
    } else {
        let prev = quotient_arcs(arcs, labels, k - 1);
        let a = arcs[k - 1];
        if crosses(labels, a) { prev.push((labels[a.0 as int], labels[a.1 as int])) } else { prev }
    }
}

/// What the partition test returns for a labelling: `false` for the wrong
/// number of labels, mismatched weight lists, or a label that is not a vertex;
/// an overflow error or `false` as the two scans end; otherwise whether the
/// parts form an acyclic graph.
pub open spec fn partition_result(g: DirectedGraph, w: Seq<i64>, c: Seq<i64>, wb: int, cb: int, labels: Seq<usize>)
    -> Result<bool, EvaluationError>
{
    let n = g.n();
    let m = g.arc_seq().len() as int;
    if labels.len() != n || w.len() != n || c.len() != m
        || exists|v: int| 0 <= v < labels.len() && #[trigger] labels[v] >= n {
        Ok(false)
    } else {
        match weight_scan(labels, w, n, wb, n as int) {
            SumScan::Overflow => Err(EvaluationError::IntegerOverflow),
            SumScan::Exceeded => Ok(false),
            SumScan::Within(_) => match cost_scan(g.arc_seq(), labels, c, cb, m) {
                SumScan::Overflow => Err(EvaluationError::IntegerOverflow),
                SumScan::Exceeded => Ok(false),
                SumScan::Within(_) => Ok(is_acyclic(n, quotient_arcs(g.arc_seq(), labels, m))),
            },
        }
    }
}

proof fn lemma_weight_stop(labels: Seq<usize>, w: Seq<i64>, n: nat, bound: int, a: int, b: int)
    requires
        0 <= a <= b,
        !(weight_scan(labels, w, n, bound, a) is Within),
    ensures
        weight_scan(labels, w, n, bound, b) == weight_scan(labels, w, n, bound, a),
    decreases b - a,
{
    if a < b {
        lemma_weight_stop(labels, w, n, bound, a, b - 1);
    }
}

proof fn lemma_cost_stop(arcs: Seq<(usize, usize)>, labels: Seq<usize>, c: Seq<i64>, bound: int, a: int, b: int)
    requires
        0 <= a <= b,
        !(cost_scan(arcs, labels, c, bound, a) is Within),
    ensures
        cost_scan(arcs, labels, c, bound, b) == cost_scan(arcs, labels, c, bound, a),
    decreases b - a,
{
    if a < b {
        lemma_cost_stop(arcs, labels, c, bound, a, b - 1);
    }
}

/// Test a labelling of the vertices as an acyclic partition.
fn is_valid_acyclic_partition(
    graph: &DirectedGraph,
    vertex_weights: &[i64],
    arc_costs: &[i64],
    weight_bound: i64,
    cost_bound: i64,
    config: &[usize],
) -> (r: Result<bool, EvaluationError>)
    requires
        graph.wf(),
    ensures
        r == partition_result(*graph, vertex_weights@, arc_costs@, weight_bound as int, cost_bound as int, config@),
{
    let n = graph.num_vertices();
    let arcs = graph.arc_list();
    let ghost m = arcs@.len() as int;
    if config.len() != n || vertex_weights.len() != n || arc_costs.len() != arcs.len() {
        return Ok(false);
    }
    let mut v: usize = 0;
    while v < n
        invariant
            config@.len() == n,
            v <= n,
            forall|x: int| 0 <= x < v ==> #[trigger] config@[x] < n,
        decreases n - v,
    {
        if config[v] >= n {
            assert(config@[v as int] >= n);
            return Ok(false);
        }
        v += 1;
    }
    let ghost labels = config@;
    let mut sums: Vec<i64> = Vec::new();
    let mut x: usize = 0;
    while x < n
        invariant
            x <= n,
            sums@.len() == x,
            forall|y: int| 0 <= y < x ==> #[trigger] sums@[y] == 0,
        decreases n - x,
    {
        sums.push(0);
        x += 1;
    }
    assert(sums@.map_values(|t: i64| t as int) =~= Seq::new(n as nat, |i: int| 0int));
    let mut vertex: usize = 0;
    while vertex < n
        invariant
            graph.wf(),
            n == graph.n(),
            labels == config@,
            labels.len() == n,
            vertex_weights@.len() == n,
            arc_costs@.len() == graph.arc_seq().len(),
            forall|y: int| 0 <= y < n ==> #[trigger] labels[y] < n,
            sums@.len() == n,
            vertex <= n,
            weight_scan(labels, vertex_weights@, n as nat, weight_bound as int, vertex as int)
                == SumScan::Within(sums@.map_values(|t: i64| t as int)),
        decreases n - vertex,
    {
        let label = config[vertex];
        let add = sums[label].checked_add(vertex_weights[vertex]);
        match add {
            None => {
                proof {
                    let s0 = weight_scan(labels, vertex_weights@, n as nat, weight_bound as int, vertex as int)->Within_0;
                    assert(s0[label as int] == sums@[label as int] as int);
                    assert(weight_scan(labels, vertex_weights@, n as nat, weight_bound as int, vertex as int + 1) is Overflow);
                }
                proof { lemma_weight_stop(labels, vertex_weights@, n as nat, weight_bound as int, vertex as int + 1, n as int); }
                return Err(EvaluationError::IntegerOverflow);
            },
            Some(t) => {
                if t > weight_bound {
                    proof { lemma_weight_stop(labels, vertex_weights@, n as nat, weight_bound as int, vertex as int + 1, n as int); }
                    return Ok(false);
                }
                sums.set(label, t);
                assert(sums@.map_values(|t: i64| t as int) =~= weight_scan(labels, vertex_weights@, n as nat, weight_bound as int, vertex as int)
                    ->Within_0.update(label as int, t as int));
            },
        }
        vertex += 1;
    }
    let mut total: i64 = 0;
    let mut quotient: Vec<(usize, usize)> = Vec::new();
    let mut k: usize = 0;
    while k < arcs.len()
        invariant
            graph.wf(),
            n == graph.n(),
            arcs@ == graph.arc_seq(),
            m == arcs@.len(),
            labels == config@,
            labels.len() == n,
            arc_costs@.len() == m,
            forall|y: int| 0 <= y < n ==> #[trigger] labels[y] < n,
            k <= m,
            cost_scan(arcs@, labels, arc_costs@, cost_bound as int, k as int) == SumScan::Within(seq![total as int]),
            vertex_weights@.len() == n,
            weight_scan(labels, vertex_weights@, n as nat, weight_bound as int, n as int) is Within,
            quotient@ == quotient_arcs(arcs@, labels, k as int),
            endpoints_below(quotient@, n as nat),
        decreases arcs.len() - k,
    {
        let (s, t) = arcs[k];
        assert(arcs@[k as int] == (s, t));
        let ls = config[s];
        let lt = config[t];
        if ls != lt {
            match total.checked_add(arc_costs[k]) {
                None => {
                    proof { lemma_cost_stop(arcs@, labels, arc_costs@, cost_bound as int, k as int + 1, m); }
                    return Err(EvaluationError::IntegerOverflow);
                },
                Some(nt) => {
                    if nt > cost_bound {
                        proof { lemma_cost_stop(arcs@, labels, arc_costs@, cost_bound as int, k as int + 1, m); }
                        return Ok(false);
                    }
                    total = nt;
                },
            }
            quotient.push((ls, lt));
        }
        k += 1;
    }
    Ok(arcs_acyclic(n, quotient.as_slice()))
}

/// Given a directed graph with vertex weights and arc costs and two bounds,
/// decide whether the vertices can be split into parts of weight at most the
/// weight bound, with total cost of the arcs between parts at most the cost
/// bound, such that the parts form a directed acyclic graph.
#[derive(Debug, Clone)]
pub struct AcyclicPartition {
    graph: DirectedGraph,
    vertex_weights: Vec<i64>,
    arc_costs: Vec<i64>,
    weight_bound: i64,
    cost_bound: i64,
}

impl AcyclicPartition {
    /// The graph.
    pub closed spec fn spec_graph(&self) -> DirectedGraph {
        self.graph
    }

    /// The vertex weights.
    pub closed spec fn spec_vertex_weights(&self) -> Seq<i64> {
        self.vertex_weights@
    }

    /// The arc costs.
    pub closed spec fn spec_arc_costs(&self) -> Seq<i64> {
        self.arc_costs@
    }

    /// The bound on a part's weight.
    pub closed spec fn spec_weight_bound(&self) -> i64 {
        self.weight_bound
    }

    /// The bound on the cost of the arcs between parts.
    pub closed spec fn spec_cost_bound(&self) -> i64 {
        self.cost_bound
    }

    /// One weight per vertex and one cost per arc, on a well-formed graph.
    pub open spec fn wf(&self) -> bool {
        &&& self.spec_graph().wf()
        &&& self.spec_vertex_weights().len() == self.spec_graph().n()
        &&& self.spec_arc_costs().len() == self.spec_graph().arc_seq().len()
    }

    /// Creates an instance; panics unless there is one weight per vertex and one cost per arc.
    pub fn new(graph: DirectedGraph, vertex_weights: Vec<i64>, arc_costs: Vec<i64>, weight_bound: i64, cost_bound: i64) -> (r: Self)
        requires
            graph.wf(),
            vertex_weights@.len() == graph.n(),
            arc_costs@.len() == graph.arc_seq().len(),
        ensures
            r.wf(),
            r.spec_graph() == graph,
            r.spec_vertex_weights() == vertex_weights@,
            r.spec_arc_costs() == arc_costs@,
            r.spec_weight_bound() == weight_bound,
            r.spec_cost_bound() == cost_bound,
    {
        AcyclicPartition { graph, vertex_weights, arc_costs, weight_bound, cost_bound }
    }

    /// Builds an instance from its listed parts. The vertex count defaults to
    /// one more than the largest arc endpoint (an error, `InvalidValue`, when
    /// there are no arcs either); a given count below that is `OutOfRange`;
    /// weights and costs default to 1 and must otherwise have one entry per
    /// vertex and per arc (`LengthMismatch`).
    pub fn try_from_spec(
        arcs: Vec<(usize, usize)>,
        num_vertices: Option<usize>,
        weights: Option<Vec<i64>>,
        arc_weights: Option<Vec<i64>>,
        weight_bound: i64,
        cost_bound: i64,
    ) -> (r: Result<Self, ConstructionError>)
        ensures
            arcs@.len() == 0 && num_vertices is None ==> r == Err::<Self, ConstructionError>(ConstructionError::InvalidValue),
            r matches Ok(p) ==> {
                &&& p.wf()
                &&& p.spec_graph().arc_seq() == arcs@
                &&& num_vertices matches Some(nv) ==> p.spec_graph().n() == nv
                &&& num_vertices is None ==> p.spec_graph().n() == max_endpoint_plus_one(arcs@, arcs@.len() as int)
                &&& weights matches Some(wv) ==> p.spec_vertex_weights() == wv@
                &&& weights is None ==> forall|i: int| 0 <= i < p.spec_vertex_weights().len() ==> #[trigger] p.spec_vertex_weights()[i] == 1
                &&& arc_weights matches Some(cv) ==> p.spec_arc_costs() == cv@
                &&& arc_weights is None ==> forall|i: int| 0 <= i < p.spec_arc_costs().len() ==> #[trigger] p.spec_arc_costs()[i] == 1
                &&& p.spec_weight_bound() == weight_bound
                &&& p.spec_cost_bound() == cost_bound
            },
            r is Ok <==> {
                &&& !(arcs@.len() == 0 && num_vertices is None)
                &&& max_endpoint_plus_one(arcs@, arcs@.len() as int) <= usize::MAX
                &&& num_vertices matches Some(nv) ==> nv >= max_endpoint_plus_one(arcs@, arcs@.len() as int)
                &&& weights matches Some(wv) ==> wv@.len() == (match num_vertices {
                        Some(nv) => nv as int,
                        None => max_endpoint_plus_one(arcs@, arcs@.len() as int),
                    })
                &&& arc_weights matches Some(cv) ==> cv@.len() == arcs@.len()
            },
    {
        if arcs.len() == 0 && num_vertices.is_none() {
            return Err(ConstructionError::InvalidValue);
        }
        let mut inferred: usize = 0;
        let mut k: usize = 0;
        while k < arcs.len()
            invariant
                k <= arcs@.len(),
                inferred as int == max_endpoint_plus_one(arcs@, k as int),
            decreases arcs.len() - k,
        {
            let (u, v) = arcs[k];
            let hi = if u >= v { u } else { v };
            if hi == usize::MAX {
                proof { lemma_max_endpoint_grows(arcs@, k as int + 1, arcs@.len() as int); }
                return Err(ConstructionError::OutOfRange);
            }
            if hi + 1 > inferred {
                inferred = hi + 1;
            }
            k += 1;
        }
        let n = match num_vertices {
            Some(nv) => nv,
            None => inferred,
        };
        if n < inferred {
            return Err(ConstructionError::OutOfRange);
        }
        proof { lemma_max_endpoint_bounds(arcs@, arcs@.len() as int); }
        let m = arcs.len();
        let graph = DirectedGraph::new(n, arcs);
        let vertex_weights = match weights {
            Some(wv) => wv,
            None => ones_i64(n),
        };
        if vertex_weights.len() != n {
            return Err(ConstructionError::LengthMismatch);
        }
        let arc_costs = match arc_weights {
            Some(cv) => cv,
            None => ones_i64(m),
        };
        if arc_costs.len() != m {
            return Err(ConstructionError::LengthMismatch);
        }
        Ok(AcyclicPartition { graph, vertex_weights, arc_costs, weight_bound, cost_bound })
    }

    /// The graph.
    pub fn graph(&self) -> (r: &DirectedGraph)
        ensures
            *r == self.spec_graph(),
    {
        &self.graph
    }

    /// The vertex weights.
    pub fn vertex_weights(&self) -> (r: &[i64])
        ensures
            r@ == self.spec_vertex_weights(),
    {
        self.vertex_weights.as_slice()
    }

    /// The arc costs.
    pub fn arc_costs(&self) -> (r: &[i64])
        ensures
            r@ == self.spec_arc_costs(),
    {
        self.arc_costs.as_slice()
    }

    /// Replaces the vertex weights; panics unless there is one per vertex.
    pub fn set_vertex_weights(&mut self, vertex_weights: Vec<i64>)
        requires
            old(self).wf(),
            vertex_weights@.len() == old(self).spec_graph().n(),
        ensures
            final(self).wf(),
            final(self).spec_vertex_weights() == vertex_weights@,
            final(self).spec_graph() == old(self).spec_graph(),
            final(self).spec_arc_costs() == old(self).spec_arc_costs(),
            final(self).spec_weight_bound() == old(self).spec_weight_bound(),
            final(self).spec_cost_bound() == old(self).spec_cost_bound(),
    {
        self.vertex_weights = vertex_weights;
    }

    /// Replaces the arc costs; panics unless there is one per arc.
    pub fn set_arc_costs(&mut self, arc_costs: Vec<i64>)
        requires
            old(self).wf(),
            arc_costs@.len() == old(self).spec_graph().arc_seq().len(),
        ensures
            final(self).wf(),
            final(self).spec_arc_costs() == arc_costs@,
            final(self).spec_graph() == old(self).spec_graph(),
            final(self).spec_vertex_weights() == old(self).spec_vertex_weights(),
            final(self).spec_weight_bound() == old(self).spec_weight_bound(),
            final(self).spec_cost_bound() == old(self).spec_cost_bound(),
    {
        self.arc_costs = arc_costs;
    }

    /// The bound on a part's weight.
    pub fn weight_bound(&self) -> (r: i64)
        ensures
            r == self.spec_weight_bound(),
    {
        self.weight_bound
    }

    /// The bound on the cost of the arcs between parts.
    pub fn cost_bound(&self) -> (r: i64)
        ensures
            r == self.spec_cost_bound(),
    {
        self.cost_bound
    }

    /// Integer weights are never the unit weight type.
    pub fn is_weighted(&self) -> (r: bool)
        ensures
            r,
    {
        true
    }

    /// Number of vertices.
    pub fn num_vertices(&self) -> (r: usize)
        ensures
            r == self.spec_graph().n(),
    {
        self.graph.num_vertices()
    }

    /// Number of arcs.
    pub fn num_arcs(&self) -> (r: usize)
        ensures
            r == self.spec_graph().arc_seq().len(),
    {
        self.graph.num_arcs()
    }

    /// Whether `config` (a part label per vertex) is an acyclic partition
    /// within both bounds; an error when a running sum leaves `i64`.
    pub fn is_valid_solution(&self, config: &[usize]) -> (r: Result<bool, EvaluationError>)
        requires
            self.wf(),
        ensures
            r == partition_result(self.spec_graph(), self.spec_vertex_weights(), self.spec_arc_costs(),
                self.spec_weight_bound() as int, self.spec_cost_bound() as int, config@),
    {
        is_valid_acyclic_partition(&self.graph, &self.vertex_weights, &self.arc_costs, self.weight_bound, self.cost_bound, config)
    }

    /// One variable per vertex: its part label, below the vertex count.
    pub fn dims(&self) -> (r: Vec<usize>)
        ensures
            r@.len() == self.spec_graph().n(),
            forall|i: int| 0 <= i < r@.len() ==> #[trigger] r@[i] == self.spec_graph().n(),
    {
        let n = self.graph.num_vertices();
        crate::models::graph::uniform_dims(n, n)
    }

    /// Whether `config` is an acyclic partition within both bounds.
    pub fn evaluate(&self, config: &[usize]) -> (r: Result<Or, EvaluationError>)
        requires
            self.wf(),
        ensures
            r == (match partition_result(self.spec_graph(), self.spec_vertex_weights(), self.spec_arc_costs(),
                self.spec_weight_bound() as int, self.spec_cost_bound() as int, config@) {
                Ok(b) => Ok::<Or, EvaluationError>(Or(b)),
                Err(e) => Err(e),
            }),
    {
        match self.is_valid_solution(config) {
            Ok(b) => Ok(Or(b)),
            Err(e) => Err(e),
        }
    }
}

/// One more than the largest endpoint of the first `k` arcs (0 without arcs).
pub open spec fn max_endpoint_plus_one(arcs: Seq<(usize, usize)>, k: int) -> int
    decreases k,
{
    if k <= 0 {
        0
    } else {
        let prev = max_endpoint_plus_one(arcs, k - 1);
        let a = arcs[k - 1];
        let hi = if a.0 >= a.1 { a.0 as int } else { a.1 as int };
        if hi + 1 > prev { hi + 1 } else { prev }
    }
}

pub proof fn lemma_max_endpoint_grows(arcs: Seq<(usize, usize)>, a: int, b: int)
    requires
        0 <= a <= b,
    ensures
        max_endpoint_plus_one(arcs, a) <= max_endpoint_plus_one(arcs, b),
    decreases b - a,
{
    if a < b {
        lemma_max_endpoint_grows(arcs, a, b - 1);
    }
}

pub proof fn lemma_max_endpoint_bounds(arcs: Seq<(usize, usize)>, k: int)
    requires
        0 <= k <= arcs.len(),
    ensures
        forall|i: int| 0 <= i < k ==> (#[trigger] arcs[i]).0 < max_endpoint_plus_one(arcs, k)
            && arcs[i].1 < max_endpoint_plus_one(arcs, k),
    decreases k,
{
    if k > 0 {
        lemma_max_endpoint_bounds(arcs, k - 1);
    }
}

/// `n` weights equal to one.
fn ones_i64(n: usize) -> (r: Vec<i64>)
    ensures
        r@.len() == n,
        forall|i: int| 0 <= i < n ==> #[trigger] r@[i] == 1,
{
    let mut r: Vec<i64> = Vec::new();
    let mut i: usize = 0;
    while i < n
        invariant
            i <= n,
            r@.len() == i,
            forall|j: int| 0 <= j < i ==> #[trigger] r@[j] == 1,
        decreases n - i,
    {
        r.push(1);
        i += 1;
    }
    r
}

} // verus!
