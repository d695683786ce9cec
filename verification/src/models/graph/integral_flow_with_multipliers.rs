//! Integral Flow with Multipliers: an integral flow in which each inner
//! vertex sends out its inflow times its multiplier, meeting a requirement
//! at the sink.
use vstd::prelude::*;
use crate::models::graph::acyclic_partition::{SumScan, max_endpoint_plus_one};
use crate::models::graph::{listed_vertex_count};
use crate::sums::fits64;
use crate::topology::{DirectedGraph, endpoints_below};
use crate::types::{ConstructionError, EvaluationError, Or};

verus! {

/// Adding the flows of the first `k` arcs to the inflow of their heads
/// (entry `v`) and the outflow of their tails (entry `n + v`), in arc
/// order: rejected at a flow above `i64` or its capacity, an overflow error
/// when a sum leaves `i64`.
pub open spec fn io_scan(arcs: Seq<(usize, usize)>, cap: Seq<i64>, flow: Seq<usize>, n: nat, k: int) -> SumScan
    decreases k,
{
    if k <= 0 {
        SumScan::Within(Seq::new(2 * n, |i: int| 0int))
    } else {
        match io_scan(arcs, cap, flow, n, k - 1) {
            SumScan::Within(b) => {
                let f = flow[k - 1] as int;
                let (u, v) = arcs[k - 1];
                let o = n + u;
                if f > i64::MAX || f > cap[k - 1] {
                    SumScan::Exceeded
                } else if !fits64(b[o] + f) {
                    SumScan::Overflow
                } else {
                    let b1 = b.update(o, b[o] + f);
                    if !fits64(b1[v as int] + f) {
                        SumScan::Overflow
                    } else {
                        SumScan::Within(b1.update(v as int, b1[v as int] + f))
                    }
                }
            },
            other => other,
        }
    }
}

proof fn lemma_io_stop(arcs: Seq<(usize, usize)>, cap: Seq<i64>, flow: Seq<usize>, n: nat, a: int, b: int)
    requires
        0 <= a <= b,
        !(io_scan(arcs, cap, flow, n, a) is Within),
    ensures
        io_scan(arcs, cap, flow, n, b) == io_scan(arcs, cap, flow, n, a),
    decreases b - a,
{
    if a < b {
        lemma_io_stop(arcs, cap, flow, n, a, b - 1);
    }
}

/// Checking the first `k` vertices other than source and sink, in order:
/// an overflow error when inflow times multiplier leaves `i64`, `false` at
/// the first vertex whose outflow differs from it.
pub open spec fn balance_check(io: Seq<int>, mult: Seq<i64>, n: nat, s: int, t: int, k: int) -> Result<bool, EvaluationError>
    decreases k,
{
    if k <= 0 {
        Ok(true)
    } else {
        match balance_check(io, mult, n, s, t, k - 1) {
            Ok(true) => {
                let v = k - 1;
                if v == s || v == t {
                    Ok(true)
                } else if !fits64(io[v] * mult[v]) {
                    Err(EvaluationError::IntegerOverflow)
                } else {
                    Ok(io[v] * mult[v] == io[n + v])
                }
            },
            other => other,
        }
    }
}

proof fn lemma_check_stop(io: Seq<int>, mult: Seq<i64>, n: nat, s: int, t: int, a: int, b: int)
    requires
        0 <= a <= b,
        balance_check(io, mult, n, s, t, a) != Ok::<bool, EvaluationError>(true),
    ensures
        balance_check(io, mult, n, s, t, b) == balance_check(io, mult, n, s, t, a),
    decreases b - a,
{
    if a < b {
        lemma_check_stop(io, mult, n, s, t, a, b - 1);
    }
}

/// Whether a flow is feasible: `false` for the wrong number of flows or a
/// flow out of range; an overflow error when a sum or product leaves `i64`;
/// otherwise whether every inner vertex's outflow is its inflow times its
/// multiplier and the sink's net inflow reaches `req`.
pub open spec fn feasible_result(g: DirectedGraph, cap: Seq<i64>, mult: Seq<i64>, s: int, t: int, req: int,
    flow: Seq<usize>) -> Result<bool, EvaluationError>
{
    let n = g.n();
    let m = g.arc_seq().len();
    if flow.len() != m {
        Ok(false)
    } else {
        match io_scan(g.arc_seq(), cap, flow, n, m as int) {
            SumScan::Overflow => Err(EvaluationError::IntegerOverflow),
            SumScan::Exceeded => Ok(false),
            SumScan::Within(io) => match balance_check(io, mult, n, s, t, n as int) {
                Err(e) => Err(e),
                Ok(false) => Ok(false),
                Ok(true) => if !fits64(io[t] - io[n + t]) {
                    Err(EvaluationError::IntegerOverflow)
                } else {
                    Ok(io[t] - io[n + t] >= req)
                },
            },
        }
    }
}

/// One capacity per arc, nonnegative; one multiplier per vertex, positive
/// away from source and sink; distinct source and sink vertices.
pub open spec fn valid_multipliers(g: DirectedGraph, s: usize, t: usize, mult: Seq<i64>, cap: Seq<i64>) -> bool {
    &&& g.wf()
    &&& cap.len() == g.arc_seq().len()
    &&& mult.len() == g.n()
    &&& s < g.n()
    &&& t < g.n()
    &&& s != t
    &&& forall|v: int| 0 <= v < mult.len() && v != s && v != t ==> #[trigger] mult[v] > 0
    &&& forall|i: int| 0 <= i < cap.len() ==> #[trigger] cap[i] >= 0
}

/// Given a directed graph with arc capacities, vertex multipliers, a source,
/// a sink and a requirement, decide whether an integral flow within the
/// capacities, multiplied at every inner vertex, brings the requirement to the sink.
#[derive(Debug, Clone)]
pub struct IntegralFlowWithMultipliers {
    graph: DirectedGraph,
    source: usize,
    sink: usize,
    multipliers: Vec<i64>,
    capacities: Vec<i64>,
    requirement: i64,
}

impl IntegralFlowWithMultipliers {
    /// The graph.
    pub closed spec fn spec_graph(&self) -> DirectedGraph {
        self.graph
    }

    /// The source.
    pub closed spec fn spec_source(&self) -> usize {
        self.source
    }

    /// The sink.
    pub closed spec fn spec_sink(&self) -> usize {
        self.sink
    }

    /// The vertex multipliers.
    pub closed spec fn spec_multipliers(&self) -> Seq<i64> {
        self.multipliers@
    }

    /// The arc capacities.
    pub closed spec fn spec_capacities(&self) -> Seq<i64> {
        self.capacities@
    }

    /// The requirement at the sink.
    pub closed spec fn spec_requirement(&self) -> i64 {
        self.requirement
    }

    /// The instance is valid.
    pub open spec fn wf(&self) -> bool {
        valid_multipliers(self.spec_graph(), self.spec_source(), self.spec_sink(), self.spec_multipliers(), self.spec_capacities())
    }

    /// Creates an instance, or an error: `LengthMismatch` unless there is one
    /// capacity per arc and one multiplier per vertex, `OutOfRange` for a
    /// source or sink that is not a vertex, `InvalidValue` for equal source and
    /// sink, an inner multiplier that is not positive or a negative capacity.
    #[verifier::loop_isolation(false)]
    pub fn new(graph: DirectedGraph, source: usize, sink: usize, multipliers: Vec<i64>, capacities: Vec<i64>, requirement: i64)
        -> (r: Result<Self, ConstructionError>)
        requires
            graph.wf(),
        ensures
            r is Ok <==> valid_multipliers(graph, source, sink, multipliers@, capacities@),
            capacities@.len() != graph.arc_seq().len() || multipliers@.len() != graph.n()
                ==> r == Err::<Self, ConstructionError>(ConstructionError::LengthMismatch),
            capacities@.len() == graph.arc_seq().len() && multipliers@.len() == graph.n() && (source >= graph.n() || sink >= graph.n())
                ==> r == Err::<Self, ConstructionError>(ConstructionError::OutOfRange),
            capacities@.len() == graph.arc_seq().len() && multipliers@.len() == graph.n() && source < graph.n() && sink < graph.n()
                && !valid_multipliers(graph, source, sink, multipliers@, capacities@)
                ==> r == Err::<Self, ConstructionError>(ConstructionError::InvalidValue),
            r matches Ok(p) ==> p.wf() && p.spec_graph() == graph && p.spec_source() == source && p.spec_sink() == sink
                && p.spec_multipliers() == multipliers@ && p.spec_capacities() == capacities@ && p.spec_requirement() == requirement,
    {
        if capacities.len() != graph.num_arcs() || multipliers.len() != graph.num_vertices() {
            return Err(ConstructionError::LengthMismatch);
        }
        let n = graph.num_vertices();
        if source >= n || sink >= n {
            return Err(ConstructionError::OutOfRange);
        }
        if source == sink {
            return Err(ConstructionError::InvalidValue);
        }
        let mut v: usize = 0;
        while v < multipliers.len()
            invariant
                v <= multipliers@.len(),
                forall|x: int| 0 <= x < v && x != source && x != sink ==> #[trigger] multipliers@[x] > 0,
            decreases multipliers.len() - v,
        {
            if v != source && v != sink && multipliers[v] <= 0 {
                return Err(ConstructionError::InvalidValue);
            }
            v += 1;
        }
        let mut i: usize = 0;
        while i < capacities.len()
            invariant
                i <= capacities@.len(),
                forall|x: int| 0 <= x < i ==> #[trigger] capacities@[x] >= 0,
            decreases capacities.len() - i,
        {
            if capacities[i] < 0 {
                return Err(ConstructionError::InvalidValue);
            }
            i += 1;
        }
        Ok(IntegralFlowWithMultipliers { graph, source, sink, multipliers, capacities, requirement })
    }

    /// Builds an instance from listed parts: the vertex count defaults to one
    /// more than the largest endpoint (`OutOfRange` if that overflows, or if a
    /// given count is below it), then as by `new`.
    pub fn try_from_spec(arcs: Vec<(usize, usize)>, num_vertices: Option<usize>, capacities: Vec<i64>, source: usize,
        sink: usize, multipliers: Vec<i64>, requirement: i64) -> (r: Result<Self, ConstructionError>)
        ensures
            r matches Ok(p) ==> p.wf() && p.spec_graph().arc_seq() == arcs@
                && p.spec_graph().n() == listed_vertex_count(arcs@, num_vertices)
                && p.spec_source() == source && p.spec_sink() == sink && p.spec_multipliers() == multipliers@
                && p.spec_capacities() == capacities@ && p.spec_requirement() == requirement,
            r is Ok <==> max_endpoint_plus_one(arcs@, arcs@.len() as int) <= usize::MAX
                && max_endpoint_plus_one(arcs@, arcs@.len() as int) <= listed_vertex_count(arcs@, num_vertices)
                && capacities@.len() == arcs@.len() && multipliers@.len() == listed_vertex_count(arcs@, num_vertices)
                && source < listed_vertex_count(arcs@, num_vertices) && sink < listed_vertex_count(arcs@, num_vertices)
                && source != sink
                && (forall|v: int| 0 <= v < multipliers@.len() && v != source && v != sink ==> #[trigger] multipliers@[v] > 0)
                && (forall|i: int| 0 <= i < capacities@.len() ==> #[trigger] capacities@[i] >= 0),
    {
        let mut inferred: usize = 0;
        let mut k: usize = 0;
        while k < arcs.len()
            invariant
                k <= arcs@.len(),
                inferred as int == max_endpoint_plus_one(arcs@, k as int),
            decreases arcs.len() - k,
        {
            let (u, v) = arcs[k];
            let hi = if u >= v { u } else { v };
            if hi == usize::MAX {
                proof { crate::models::graph::acyclic_partition::lemma_max_endpoint_grows(arcs@, k as int + 1, arcs@.len() as int); }
                return Err(ConstructionError::OutOfRange);
            }
            if hi + 1 > inferred {
                inferred = hi + 1;
            }
            k += 1;
        }
        let n = match num_vertices {
            Some(nv) => nv,
            None => inferred,
        };
        if n < inferred {
            return Err(ConstructionError::OutOfRange);
        }
        proof { crate::models::graph::acyclic_partition::lemma_max_endpoint_bounds(arcs@, arcs@.len() as int); }
        let graph = DirectedGraph::new(n, arcs);
        Self::new(graph, source, sink, multipliers, capacities, requirement)
    }

    /// The graph.
    pub fn graph(&self) -> (r: &DirectedGraph)
        ensures
            *r == self.spec_graph(),
    {
        &self.graph
    }

    /// The source.
    pub fn source(&self) -> (r: usize)
        ensures
            r == self.spec_source(),
    {
        self.source
    }

    /// The sink.
    pub fn sink(&self) -> (r: usize)
        ensures
            r == self.spec_sink(),
    {
        self.sink
    }

    /// The vertex multipliers.
    pub fn multipliers(&self) -> (r: &[i64])
        ensures
            r@ == self.spec_multipliers(),
    {
        self.multipliers.as_slice()
    }

    /// The arc capacities.
    pub fn capacities(&self) -> (r: &[i64])
        ensures
            r@ == self.spec_capacities(),
    {
        self.capacities.as_slice()
    }

    /// The requirement at the sink.
    pub fn requirement(&self) -> (r: i64)
        ensures
            r == self.spec_requirement(),
    {
        self.requirement
    }

    /// Number of vertices.
    pub fn num_vertices(&self) -> (r: usize)
        ensures
            r == self.spec_graph().n(),
    {
        self.graph.num_vertices()
    }

    /// Number of arcs.
    pub fn num_arcs(&self) -> (r: usize)
        ensures
            r == self.spec_graph().arc_seq().len(),
    {
        self.graph.num_arcs()
    }

    /// The largest capacity, 0 without arcs.
    pub fn max_capacity(&self) -> (r: i64)
        ensures
            self.spec_capacities().len() == 0 ==> r == 0,
            self.spec_capacities().len() > 0 ==> (exists|i: int| 0 <= i < self.spec_capacities().len() && r == #[trigger] self.spec_capacities()[i])
                && forall|i: int| 0 <= i < self.spec_capacities().len() ==> #[trigger] self.spec_capacities()[i] <= r,
    {
        if self.capacities.len() == 0 {
            return 0;
        }
        let mut best = self.capacities[0];
        let mut i: usize = 1;
        while i < self.capacities.len()
            invariant
                1 <= i <= self.capacities@.len(),
                exists|j: int| 0 <= j < i && best == #[trigger] self.capacities@[j],
                forall|j: int| 0 <= j < i ==> #[trigger] self.capacities@[j] <= best,
            decreases self.capacities.len() - i,
        {
            if self.capacities[i] > best {
                best = self.capacities[i];
            }
            i += 1;
        }
        best
    }

    /// Whether `config` is a feasible flow; an error when a sum or product overflows.
    #[verifier::loop_isolation(false)]
    pub fn is_feasible(&self, config: &[usize]) -> (r: Result<bool, EvaluationError>)
        requires
            self.wf(),
        ensures
            r == feasible_result(self.spec_graph(), self.spec_capacities(), self.spec_multipliers(),
                self.spec_source() as int, self.spec_sink() as int, self.spec_requirement() as int, config@),
    {
        let m = self.graph.num_arcs();
        if config.len() != m {
            return Ok(false);
        }
        let n = self.graph.num_vertices();
        let arcs = self.graph.arc_list();
        let mut inflow: Vec<i64> = Vec::new();
        let mut outflow: Vec<i64> = Vec::new();
        let mut x: usize = 0;
        while x < n
            invariant
                x <= n,
                inflow@.len() == x,
                outflow@.len() == x,
                forall|y: int| 0 <= y < x ==> #[trigger] inflow@[y] == 0,
                forall|y: int| 0 <= y < x ==> #[trigger] outflow@[y] == 0,
            decreases n - x,
        {
            inflow.push(0);
            outflow.push(0);
            x += 1;
        }
        let ghost z = inflow@.map_values(|t: i64| t as int) + outflow@.map_values(|t: i64| t as int);
        assert forall|i: int| 0 <= i < 2 * n implies #[trigger] z[i] == 0 by {
            if i >= n {
                assert(outflow@[i - n] == 0);
            } else {
                assert(inflow@[i] == 0);
            }
        }
        assert(inflow@.map_values(|t: i64| t as int) + outflow@.map_values(|t: i64| t as int) =~= Seq::new(2 * (n as nat), |i: int| 0int));
        let mut k: usize = 0;
        while k < m
            invariant
                k <= m,
                inflow@.len() == n,
                outflow@.len() == n,
                io_scan(arcs@, self.capacities@, config@, n as nat, k as int)
                    == SumScan::Within(inflow@.map_values(|t: i64| t as int) + outflow@.map_values(|t: i64| t as int)),
            decreases m - k,
        {
            let (u, v) = arcs[k];
            assert(arcs@[k as int] == (u, v));
            let raw = config[k];
            if (raw as u64) > 9223372036854775807u64 || (raw as i64) > self.capacities[k] {
                proof { lemma_io_stop(arcs@, self.capacities@, config@, n as nat, k as int + 1, m as int); }
                return Ok(false);
            }
            let f = raw as i64;
            let ghost b0 = inflow@.map_values(|t: i64| t as int) + outflow@.map_values(|t: i64| t as int);
            assert(b0[n + u] == outflow@[u as int]);
            match outflow[u].checked_add(f) {
                None => {
                    proof { lemma_io_stop(arcs@, self.capacities@, config@, n as nat, k as int + 1, m as int); }
                    return Err(EvaluationError::IntegerOverflow);
                },
                Some(t) => {
                    outflow.set(u, t);
                },
            }
            let ghost b1 = b0.update(n + u, b0[n + u] + f);
            assert(inflow@.map_values(|t: i64| t as int) + outflow@.map_values(|t: i64| t as int) =~= b1);
            assert(b1[v as int] == inflow@[v as int]);
            match inflow[v].checked_add(f) {
                None => {
                    proof { lemma_io_stop(arcs@, self.capacities@, config@, n as nat, k as int + 1, m as int); }
                    return Err(EvaluationError::IntegerOverflow);
                },
                Some(t) => {
                    inflow.set(v, t);
                },
            }
            assert(inflow@.map_values(|t: i64| t as int) + outflow@.map_values(|t: i64| t as int) =~= b1.update(v as int, b1[v as int] + f));
            k += 1;
        }
        let ghost iov = inflow@.map_values(|t: i64| t as int) + outflow@.map_values(|t: i64| t as int);
        let mut vtx: usize = 0;
        while vtx < n
            invariant
                vtx <= n,
                inflow@.len() == n,
                outflow@.len() == n,
                iov == inflow@.map_values(|t: i64| t as int) + outflow@.map_values(|t: i64| t as int),
                balance_check(iov, self.multipliers@, n as nat, self.source as int, self.sink as int, vtx as int)
                    == Ok::<bool, EvaluationError>(true),
            decreases n - vtx,
        {
            if vtx != self.source && vtx != self.sink {
                assert(iov[vtx as int] == inflow@[vtx as int] && iov[n + vtx] == outflow@[vtx as int]);
                match inflow[vtx].checked_mul(self.multipliers[vtx]) {
                    None => {
                        proof { lemma_check_stop(iov, self.multipliers@, n as nat, self.source as int, self.sink as int, vtx as int + 1, n as int); }
                        return Err(EvaluationError::IntegerOverflow);
                    },
                    Some(expected) => {
                        if expected != outflow[vtx] {
                            proof { lemma_check_stop(iov, self.multipliers@, n as nat, self.source as int, self.sink as int, vtx as int + 1, n as int); }
                            return Ok(false);
                        }
                    },
                }
            }
            vtx += 1;
        }
        assert(iov[self.sink as int] == inflow@[self.sink as int] && iov[n + self.sink] == outflow@[self.sink as int]);
        match inflow[self.sink].checked_sub(outflow[self.sink]) {
            None => Err(EvaluationError::IntegerOverflow),
            Some(net) => Ok(net >= self.requirement),
        }
    }

    /// Whether `config` is a feasible flow; an error for the wrong number of
    /// flows, or when a sum or product overflows.
    pub fn evaluate(&self, config: &Vec<usize>) -> (r: Result<Or, EvaluationError>)
        requires
            self.wf(),
        ensures
            config@.len() != self.spec_graph().arc_seq().len() ==> r == Err::<Or, EvaluationError>(EvaluationError::InvalidConfiguration),
            config@.len() == self.spec_graph().arc_seq().len() ==> r == (match feasible_result(self.spec_graph(), self.spec_capacities(),
                self.spec_multipliers(), self.spec_source() as int, self.spec_sink() as int, self.spec_requirement() as int, config@) {
                Ok(b) => Ok::<Or, EvaluationError>(Or(b)),
                Err(e) => Err(e),
            }),
    {
        if config.len() != self.graph.num_arcs() {
            return Err(EvaluationError::InvalidConfiguration);
        }
        match self.is_feasible(config.as_slice()) {
            Ok(b) => Ok(Or(b)),
            Err(e) => Err(e),
        }
    }

    /// Number of flow variables: one per arc.
    pub fn num_variables(&self) -> (r: usize)
        ensures
            r == self.spec_capacities().len(),
    {
        self.capacities.len()
    }

    /// Number of values of variable `variable`: its capacity plus one; panics
    /// when that does not fit in `usize`.
    pub fn dimension(&self, variable: usize) -> (r: usize)
        requires
            self.wf(),
            variable < self.spec_capacities().len(),
            self.spec_capacities()[variable as int] + 1 <= usize::MAX,
        ensures
            r == self.spec_capacities()[variable as int] + 1,
    {
        let c = self.capacities[variable];
        assert(c >= 0);
        (c as usize) + 1
    }
}

/// The flow into `v` over the first `k` arcs, summed exactly.
pub open spec fn arc_inflow(arcs: Seq<(usize, usize)>, flow: Seq<usize>, v: int, k: int) -> int
    decreases k,
{
    if k <= 0 {
        0
    } else {
        arc_inflow(arcs, flow, v, k - 1) + if arcs[k - 1].1 as int == v { flow[k - 1] as int } else { 0 }
    }
}

/// The flow out of `v` over the first `k` arcs, summed exactly.
pub open spec fn arc_outflow(arcs: Seq<(usize, usize)>, flow: Seq<usize>, v: int, k: int) -> int
    decreases k,
{
    if k <= 0 {
        0
    } else {
        arc_outflow(arcs, flow, v, k - 1) + if arcs[k - 1].0 as int == v { flow[k - 1] as int } else { 0 }
    }
}

/// Entry `v` of `io` is the inflow of `v` over the first `k` arcs and entry
/// `n + v` its outflow.
pub open spec fn io_sums(io: Seq<int>, arcs: Seq<(usize, usize)>, flow: Seq<usize>, n: nat, k: int) -> bool {
    &&& io.len() == 2 * n
    &&& forall|v: int| 0 <= v < n ==> #[trigger] io[v] == arc_inflow(arcs, flow, v, k)
        && io[n + v] == arc_outflow(arcs, flow, v, k)
}

/// While the scan stays within range, entry `v` holds the inflow of `v` and
/// entry `n + v` its outflow.
proof fn lemma_io_scan_sums(arcs: Seq<(usize, usize)>, cap: Seq<i64>, flow: Seq<usize>, n: nat, k: int)
    requires
        0 <= k <= arcs.len(),
        endpoints_below(arcs, n),
        io_scan(arcs, cap, flow, n, k) is Within,
    ensures
        io_sums(io_scan(arcs, cap, flow, n, k)->Within_0, arcs, flow, n, k),
    decreases k,
{
    if k == 0 {
        let io = io_scan(arcs, cap, flow, n, k)->Within_0;
        assert(io =~= Seq::new(2 * n, |i: int| 0int));
        assert forall|v: int| 0 <= v < n implies #[trigger] io[v] == arc_inflow(arcs, flow, v, k)
            && io[n + v] == arc_outflow(arcs, flow, v, k) by {}
        assert(io_sums(io, arcs, flow, n, k));
    } else {
        if !(io_scan(arcs, cap, flow, n, k - 1) is Within) {
            lemma_io_stop(arcs, cap, flow, n, k - 1, k);
        }
        lemma_io_scan_sums(arcs, cap, flow, n, k - 1);
        let b = io_scan(arcs, cap, flow, n, k - 1)->Within_0;
        let (u, w) = arcs[k - 1];
        assert(u < n && w < n);
        let f = flow[k - 1] as int;
        let b1 = b.update(n + u, b[n + u] + f);
        let io = b1.update(w as int, b1[w as int] + f);
        assert(io_scan(arcs, cap, flow, n, k) == SumScan::Within(io));
        assert forall|v: int| 0 <= v < n implies #[trigger] io[v] == arc_inflow(arcs, flow, v, k)
            && io[n + v] == arc_outflow(arcs, flow, v, k) by {
            assert(b[v] == arc_inflow(arcs, flow, v, k - 1));
            assert(b[n + v] == arc_outflow(arcs, flow, v, k - 1));
        }
        assert(io_sums(io, arcs, flow, n, k));
    }
}

/// The requirement only sets the threshold on the sink's net inflow: once
/// a flow is accepted for some requirement, for every requirement `req2` it
/// is accepted exactly when the flow into the sink minus the flow out of it
/// is at least `req2`.
pub proof fn law_requirement_is_threshold(g: DirectedGraph, cap: Seq<i64>, mult: Seq<i64>, s: int, t: int, req1: int,
    req2: int, flow: Seq<usize>)
    requires
        g.wf(),
        0 <= t < g.n(),
        feasible_result(g, cap, mult, s, t, req1, flow) == Ok::<bool, EvaluationError>(true),
    ensures
        feasible_result(g, cap, mult, s, t, req2, flow) == Ok::<bool, EvaluationError>(
            arc_inflow(g.arc_seq(), flow, t, g.arc_seq().len() as int) - arc_outflow(g.arc_seq(), flow, t,
                g.arc_seq().len() as int) >= req2,
        ),
{
    let arcs = g.arc_seq();
    let m = arcs.len();
    let n = g.n();
    assert(flow.len() == m);
    let sc = io_scan(arcs, cap, flow, n, m as int);
    assert(sc is Within);
    lemma_io_scan_sums(arcs, cap, flow, n, m as int);
    let io = sc->Within_0;
    assert(io_sums(io, arcs, flow, n, m as int));
    assert(io[t] == arc_inflow(arcs, flow, t, m as int));
    assert(io[n + t] == arc_outflow(arcs, flow, t, m as int));
}

/// While the scan stays within range, every flow so far is within its
/// capacity.
proof fn lemma_io_scan_capacities(arcs: Seq<(usize, usize)>, cap: Seq<i64>, flow: Seq<usize>, n: nat, k: int)
    requires
        0 <= k <= arcs.len(),
        io_scan(arcs, cap, flow, n, k) is Within,
    ensures
        forall|i: int| 0 <= i < k ==> #[trigger] flow[i] as int <= cap[i] as int,
    decreases k,
{
    if k > 0 {
        if !(io_scan(arcs, cap, flow, n, k - 1) is Within) {
            lemma_io_stop(arcs, cap, flow, n, k - 1, k);
        }
        lemma_io_scan_capacities(arcs, cap, flow, n, k - 1);
    }
}

/// A passed balance check over the first `k` vertices means every one of
/// them other than source and sink sends out its inflow times its
/// multiplier.
proof fn lemma_balance_holds(io: Seq<int>, mult: Seq<i64>, n: nat, s: int, t: int, k: int)
    requires
        0 <= k,
        balance_check(io, mult, n, s, t, k) == Ok::<bool, EvaluationError>(true),
    ensures
        forall|v: int| 0 <= v < k && v != s && v != t ==> #[trigger] io[n + v] == io[v] * mult[v],
    decreases k,
{
    if k > 0 {
        if balance_check(io, mult, n, s, t, k - 1) != Ok::<bool, EvaluationError>(true) {
            lemma_check_stop(io, mult, n, s, t, k - 1, k);
        }
        lemma_balance_holds(io, mult, n, s, t, k - 1);
    }
}

/// An accepted flow is a flow with multipliers: one value per arc, each
/// within its capacity; at every vertex other than source and sink the flow
/// out is the flow in times the vertex's multiplier; and the sink's net
/// inflow is at least the requirement.
pub proof fn law_accepted_flow_is_valid(g: DirectedGraph, cap: Seq<i64>, mult: Seq<i64>, s: int, t: int, req: int,
    flow: Seq<usize>)
    requires
        g.wf(),
        0 <= t < g.n(),
        feasible_result(g, cap, mult, s, t, req, flow) == Ok::<bool, EvaluationError>(true),
    ensures
        flow.len() == g.arc_seq().len(),
        forall|i: int| 0 <= i < flow.len() ==> #[trigger] flow[i] as int <= cap[i] as int,
        forall|v: int| 0 <= v < g.n() && v != s && v != t ==> #[trigger] arc_outflow(g.arc_seq(), flow, v,
            g.arc_seq().len() as int) == arc_inflow(g.arc_seq(), flow, v, g.arc_seq().len() as int) * mult[v],
        arc_inflow(g.arc_seq(), flow, t, g.arc_seq().len() as int) - arc_outflow(g.arc_seq(), flow, t,
            g.arc_seq().len() as int) >= req,
{
    let arcs = g.arc_seq();
    let m = arcs.len();
    let n = g.n();
    let sc = io_scan(arcs, cap, flow, n, m as int);
    assert(sc is Within);
    lemma_io_scan_sums(arcs, cap, flow, n, m as int);
    lemma_io_scan_capacities(arcs, cap, flow, n, m as int);
    let io = sc->Within_0;
    assert(io_sums(io, arcs, flow, n, m as int));
    assert(balance_check(io, mult, n, s, t, n as int) == Ok::<bool, EvaluationError>(true));
    lemma_balance_holds(io, mult, n, s, t, n as int);
    assert forall|v: int| 0 <= v < n && v != s && v != t implies #[trigger] arc_outflow(arcs, flow, v, m as int)
        == arc_inflow(arcs, flow, v, m as int) * mult[v] by {
        assert(io[n + v] == io[v] * mult[v]);
    }
    assert(io[t] == arc_inflow(arcs, flow, t, m as int));
}

} // verus!
