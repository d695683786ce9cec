//! Integral Flow with Homologous Arcs: an integral flow meeting a requirement
//! at the sink, within arc capacities, with equal flow on paired arcs.
use vstd::prelude::*;
use crate::models::graph::acyclic_partition::{SumScan, max_endpoint_plus_one};
use crate::models::graph::{directed_graph_from_create, listed_vertex_count};
use crate::sums::fits64;
use crate::topology::DirectedGraph;
use crate::types::{ConstructionError, EvaluationError, Or};

verus! {

/// Moving the flows of the first `k` arcs into the vertex balances (out of
/// the tail, into the head), in arc order: rejected at an arc whose flow is
/// above `i64` or its capacity, an overflow error when a balance leaves `i64`.
pub open spec fn flow_scan(arcs: Seq<(usize, usize)>, cap: Seq<i64>, flow: Seq<usize>, n: nat, k: int) -> SumScan
    decreases k,
{
    if k <= 0 {
        SumScan::Within(Seq::new(n, |i: int| 0int))
    } else {
        match flow_scan(arcs, cap, flow, n, k - 1) {
            SumScan::Within(b) => {
                let f = flow[k - 1] as int;
                let (u, v) = arcs[k - 1];
                if f > i64::MAX || f > cap[k - 1] {
                    SumScan::Exceeded
                } else if !fits64(b[u as int] - f) {
                    SumScan::Overflow
                } else {
                    let b1 = b.update(u as int, b[u as int] - f);
                    if !fits64(b1[v as int] + f) {
                        SumScan::Overflow
                    } else {
                        SumScan::Within(b1.update(v as int, b1[v as int] + f))
                    }
                }
            },
            other => other,
        }
    }
}

proof fn lemma_flow_stop(arcs: Seq<(usize, usize)>, cap: Seq<i64>, flow: Seq<usize>, n: nat, a: int, b: int)
    requires
        0 <= a <= b,
        !(flow_scan(arcs, cap, flow, n, a) is Within),
    ensures
        flow_scan(arcs, cap, flow, n, b) == flow_scan(arcs, cap, flow, n, a),
    decreases b - a,
{
    if a < b {
        lemma_flow_stop(arcs, cap, flow, n, a, b - 1);
    }
}

/// The value of a flow: an error for the wrong number of flows or an
/// overflowing balance; `false` when paired arcs differ, a flow is out of
/// range, or some vertex other than source and sink is unbalanced; otherwise
/// whether the sink receives at least `req`.
pub open spec fn homologous_result(g: DirectedGraph, cap: Seq<i64>, s: int, t: int, req: int,
    pairs: Seq<(usize, usize)>, flow: Seq<usize>) -> Result<Or, EvaluationError>
{
    let m = g.arc_seq().len();
    if flow.len() != m {
        Err(EvaluationError::InvalidConfiguration)
    } else if exists|i: int| 0 <= i < pairs.len() && #[trigger] flow[pairs[i].0 as int] != flow[pairs[i].1 as int] {
        Ok(Or(false))
    } else {
        match flow_scan(g.arc_seq(), cap, flow, g.n(), m as int) {
            SumScan::Overflow => Err(EvaluationError::IntegerOverflow),
            SumScan::Exceeded => Ok(Or(false)),
            SumScan::Within(b) => Ok(Or(
                (forall|v: int| 0 <= v < g.n() && v != s && v != t ==> #[trigger] b[v] == 0) && b[t] >= req)),
        }
    }
}

/// Given a directed graph with arc capacities, a source, a sink, a
/// requirement and pairs of arcs, decide whether an integral flow within the
/// capacities, equal on each pair, brings at least the requirement to the sink.
#[derive(Debug, Clone)]
pub struct IntegralFlowHomologousArcs {
    graph: DirectedGraph,
    capacities: Vec<i64>,
    source: usize,
    sink: usize,
    requirement: i64,
    homologous_pairs: Vec<(usize, usize)>,
}

/// A capacity is nonnegative and one more than it fits in `usize`.
pub open spec fn capacity_fits(c: i64) -> bool {
    0 <= c && c + 1 <= usize::MAX
}

impl IntegralFlowHomologousArcs {
    /// The graph.
    pub closed spec fn spec_graph(&self) -> DirectedGraph {
        self.graph
    }

    /// The arc capacities.
    pub closed spec fn spec_capacities(&self) -> Seq<i64> {
        self.capacities@
    }

    /// The source.
    pub closed spec fn spec_source(&self) -> usize {
        self.source
    }

    /// The sink.
    pub closed spec fn spec_sink(&self) -> usize {
        self.sink
    }

    /// The requirement at the sink.
    pub closed spec fn spec_requirement(&self) -> i64 {
        self.requirement
    }

    /// The pairs of arcs that must carry equal flow.
    pub closed spec fn spec_pairs(&self) -> Seq<(usize, usize)> {
        self.homologous_pairs@
    }

    /// One fitting capacity per arc, source and sink vertices, pairs of arcs.
    pub open spec fn wf(&self) -> bool {
        valid_homologous(self.spec_graph(), self.spec_capacities(), self.spec_source(), self.spec_sink(), self.spec_pairs())
    }

    /// Creates an instance; panics unless there is one capacity per arc, each
    /// fitting, source and sink are vertices, and the pairs name arcs.
    pub fn new(graph: DirectedGraph, capacities: Vec<i64>, source: usize, sink: usize, requirement: i64,
        homologous_pairs: Vec<(usize, usize)>) -> (r: Self)
        requires
            valid_homologous(graph, capacities@, source, sink, homologous_pairs@),
        ensures
            r.wf(),
            r.spec_graph() == graph,
            r.spec_capacities() == capacities@,
            r.spec_source() == source,
            r.spec_sink() == sink,
            r.spec_requirement() == requirement,
            r.spec_pairs() == homologous_pairs@,
    {
        IntegralFlowHomologousArcs { graph, capacities, source, sink, requirement, homologous_pairs }
    }

    /// Builds an instance from listed parts: the graph as by
    /// `directed_graph_from_create`, capacities defaulting to 1; an error
    /// (`LengthMismatch`) unless there is one capacity per arc, (`OutOfRange`)
    /// for a source, sink or paired arc out of range, or (`InvalidValue`) for a
    /// capacity that is negative or too large.
    pub fn try_from_spec(arcs: Vec<(usize, usize)>, num_vertices: Option<usize>, capacities: Option<Vec<i64>>,
        source: usize, sink: usize, requirement: i64, homologous_pairs: Vec<(usize, usize)>) -> (r: Result<Self, ConstructionError>)
        ensures
            r is Ok <==> {
                &&& arcs@.len() > 0
                &&& max_endpoint_plus_one(arcs@, arcs@.len() as int) <= usize::MAX
                &&& max_endpoint_plus_one(arcs@, arcs@.len() as int) <= listed_vertex_count(arcs@, num_vertices)
                &&& capacities matches Some(c) ==> c@.len() == arcs@.len()
                &&& source < listed_vertex_count(arcs@, num_vertices) && sink < listed_vertex_count(arcs@, num_vertices)
                &&& forall|i: int| 0 <= i < homologous_pairs@.len() ==>
                    (#[trigger] homologous_pairs@[i]).0 < arcs@.len() && homologous_pairs@[i].1 < arcs@.len()
                &&& capacities matches Some(c) ==> forall|i: int| 0 <= i < c@.len() ==> capacity_fits(#[trigger] c@[i])
            },
            r matches Ok(p) ==> {
                &&& p.wf()
                &&& p.spec_graph().arc_seq() == arcs@
                &&& p.spec_graph().n() == listed_vertex_count(arcs@, num_vertices)
                &&& capacities matches Some(c) ==> p.spec_capacities() == c@
                &&& capacities is None ==> forall|i: int| 0 <= i < p.spec_capacities().len() ==> #[trigger] p.spec_capacities()[i] == 1
                &&& p.spec_source() == source && p.spec_sink() == sink
                &&& p.spec_requirement() == requirement && p.spec_pairs() == homologous_pairs@
            },
    {
        let m = arcs.len();
        let graph = match directed_graph_from_create(arcs, num_vertices) {
            Ok(g) => g,
            Err(e) => return Err(e),
        };
        let caps = match capacities {
            Some(c) => c,
            None => {
                let mut c: Vec<i64> = Vec::new();
                let mut i: usize = 0;
                while i < m
                    invariant
                        i <= m,
                        c@.len() == i,
                        forall|j: int| 0 <= j < i ==> #[trigger] c@[j] == 1,
                    decreases m - i,
                {
                    c.push(1);
                    i += 1;
                }
                c
            },
        };
        if caps.len() != m {
            return Err(ConstructionError::LengthMismatch);
        }
        let n = graph.num_vertices();
        if source >= n || sink >= n {
            return Err(ConstructionError::OutOfRange);
        }
        if !pairs_in_range(&homologous_pairs, m) {
            return Err(ConstructionError::OutOfRange);
        }
        if !capacities_fit(&caps) {
            return Err(ConstructionError::InvalidValue);
        }
        Ok(IntegralFlowHomologousArcs { graph, capacities: caps, source, sink, requirement, homologous_pairs })
    }

    /// The graph.
    pub fn graph(&self) -> (r: &DirectedGraph)
        ensures
            *r == self.spec_graph(),
    {
        &self.graph
    }

    /// The arc capacities.
    pub fn capacities(&self) -> (r: &[i64])
        ensures
            r@ == self.spec_capacities(),
    {
        self.capacities.as_slice()
    }

    /// The source.
    pub fn source(&self) -> (r: usize)
        ensures
            r == self.spec_source(),
    {
        self.source
    }

    /// The sink.
    pub fn sink(&self) -> (r: usize)
        ensures
            r == self.spec_sink(),
    {
        self.sink
    }

    /// The requirement at the sink.
    pub fn requirement(&self) -> (r: i64)
        ensures
            r == self.spec_requirement(),
    {
        self.requirement
    }

    /// The pairs of arcs that must carry equal flow.
    pub fn homologous_pairs(&self) -> (r: &[(usize, usize)])
        ensures
            r@ == self.spec_pairs(),
    {
        self.homologous_pairs.as_slice()
    }

    /// Number of vertices.
    pub fn num_vertices(&self) -> (r: usize)
        ensures
            r == self.spec_graph().n(),
    {
        self.graph.num_vertices()
    }

    /// Number of arcs.
    pub fn num_arcs(&self) -> (r: usize)
        ensures
            r == self.spec_graph().arc_seq().len(),
    {
        self.graph.num_arcs()
    }

    /// The largest capacity, 0 without arcs.
    pub fn max_capacity(&self) -> (r: i64)
        ensures
            self.spec_capacities().len() == 0 ==> r == 0,
            self.spec_capacities().len() > 0 ==> (exists|i: int| 0 <= i < self.spec_capacities().len() && r == #[trigger] self.spec_capacities()[i])
                && forall|i: int| 0 <= i < self.spec_capacities().len() ==> #[trigger] self.spec_capacities()[i] <= r,
    {
        if self.capacities.len() == 0 {
            return 0;
        }
        let mut best = self.capacities[0];
        let mut i: usize = 1;
        while i < self.capacities.len()
            invariant
                1 <= i <= self.capacities@.len(),
                exists|j: int| 0 <= j < i && best == #[trigger] self.capacities@[j],
                forall|j: int| 0 <= j < i ==> #[trigger] self.capacities@[j] <= best,
            decreases self.capacities.len() - i,
        {
            if self.capacities[i] > best {
                best = self.capacities[i];
            }
            i += 1;
        }
        best
    }

    /// Whether `config` is a valid flow; an error for the wrong number of flows
    /// or an overflowing balance.
    pub fn is_valid_solution(&self, config: &[usize]) -> (r: Result<bool, EvaluationError>)
        requires
            self.wf(),
        ensures
            r == (match homologous_result(self.spec_graph(), self.spec_capacities(), self.spec_source() as int,
                self.spec_sink() as int, self.spec_requirement() as int, self.spec_pairs(), config@) {
                Ok(Or(b)) => Ok::<bool, EvaluationError>(b),
                Err(e) => Err(e),
            }),
    {
        match self.evaluate_solution(config) {
            Ok(Or(b)) => Ok(b),
            Err(e) => Err(e),
        }
    }

    #[verifier::loop_isolation(false)]
    fn evaluate_solution(&self, config: &[usize]) -> (r: Result<Or, EvaluationError>)
        requires
            self.wf(),
        ensures
            r == homologous_result(self.spec_graph(), self.spec_capacities(), self.spec_source() as int,
                self.spec_sink() as int, self.spec_requirement() as int, self.spec_pairs(), config@),
    {
        let ghost g = self.spec_graph();
        let m = self.graph.num_arcs();
        if config.len() != m {
            return Err(EvaluationError::InvalidConfiguration);
        }
        let mut p: usize = 0;
        while p < self.homologous_pairs.len()
            invariant
                p <= self.homologous_pairs@.len(),
                forall|i: int| 0 <= i < p ==> #[trigger] config@[self.homologous_pairs@[i].0 as int] == config@[self.homologous_pairs@[i].1 as int],
            decreases self.homologous_pairs.len() - p,
        {
            let (a, b) = self.homologous_pairs[p];
            if config[a] != config[b] {
                assert(config@[self.homologous_pairs@[p as int].0 as int] != config@[self.homologous_pairs@[p as int].1 as int]);
                return Ok(Or(false));
            }
            p += 1;
        }
        let n = self.graph.num_vertices();
        let arcs = self.graph.arc_list();
        let mut balances: Vec<i64> = Vec::new();
        let mut x: usize = 0;
        while x < n
            invariant
                x <= n,
                balances@.len() == x,
                forall|y: int| 0 <= y < x ==> #[trigger] balances@[y] == 0,
            decreases n - x,
        {
            balances.push(0);
            x += 1;
        }
        assert(balances@.map_values(|t: i64| t as int) =~= Seq::new(n as nat, |i: int| 0int));
        let mut k: usize = 0;
        while k < m
            invariant
                k <= m,
                balances@.len() == n,
                flow_scan(arcs@, self.capacities@, config@, n as nat, k as int) == SumScan::Within(balances@.map_values(|t: i64| t as int)),
            decreases m - k,
        {
            let (u, v) = arcs[k];
            assert(arcs@[k as int] == (u, v));
            let raw = config[k];
            if (raw as u64) > 9223372036854775807u64 || (raw as i64) > self.capacities[k] {
                proof { lemma_flow_stop(arcs@, self.capacities@, config@, n as nat, k as int + 1, m as int); }
                return Ok(Or(false));
            }
            let f = raw as i64;
            let ghost b0 = balances@.map_values(|t: i64| t as int);
            match balances[u].checked_sub(f) {
                None => {
                    proof { lemma_flow_stop(arcs@, self.capacities@, config@, n as nat, k as int + 1, m as int); }
                    return Err(EvaluationError::IntegerOverflow);
                },
                Some(nu) => {
                    balances.set(u, nu);
                },
            }
            let ghost b1 = b0.update(u as int, b0[u as int] - f);
            assert(balances@.map_values(|t: i64| t as int) =~= b1);
            match balances[v].checked_add(f) {
                None => {
                    proof { lemma_flow_stop(arcs@, self.capacities@, config@, n as nat, k as int + 1, m as int); }
                    return Err(EvaluationError::IntegerOverflow);
                },
                Some(nv) => {
                    balances.set(v, nv);
                },
            }
            assert(balances@.map_values(|t: i64| t as int) =~= b1.update(v as int, b1[v as int] + f));
            k += 1;
        }
        let ghost bs = balances@.map_values(|t: i64| t as int);
        let mut vtx: usize = 0;
        while vtx < n
            invariant
                vtx <= n,
                balances@.len() == n,
                bs == balances@.map_values(|t: i64| t as int),
                forall|y: int| 0 <= y < vtx && y != self.source && y != self.sink ==> #[trigger] bs[y] == 0,
            decreases n - vtx,
        {
            if vtx != self.source && vtx != self.sink && balances[vtx] != 0 {
                assert(bs[vtx as int] != 0);
                return Ok(Or(false));
            }
            vtx += 1;
        }
        Ok(Or(balances[self.sink] >= self.requirement))
    }

    /// Each arc's flow ranges over `0..=capacity`.
    pub fn dimensions(&self) -> (r: Vec<usize>)
        requires
            self.wf(),
        ensures
            r@.len() == self.spec_capacities().len(),
            forall|i: int| 0 <= i < r@.len() ==> #[trigger] r@[i] == self.spec_capacities()[i] + 1,
    {
        let mut out: Vec<usize> = Vec::new();
        let mut i: usize = 0;
        while i < self.capacities.len()
            invariant
                self.wf(),
                i <= self.capacities@.len(),
                out@.len() == i,
                forall|j: int| 0 <= j < i ==> #[trigger] out@[j] == self.capacities@[j] + 1,
            decreases self.capacities.len() - i,
        {
            let c = self.capacities[i];
            assert(capacity_fits(self.capacities@[i as int]));
            out.push(c as usize + 1);
            i += 1;
        }
        out
    }

    /// Whether `config` is a valid flow.
    pub fn evaluate(&self, config: &Vec<usize>) -> (r: Result<Or, EvaluationError>)
        requires
            self.wf(),
        ensures
            r == homologous_result(self.spec_graph(), self.spec_capacities(), self.spec_source() as int,
                self.spec_sink() as int, self.spec_requirement() as int, self.spec_pairs(), config@),
    {
        self.evaluate_solution(config.as_slice())
    }
}

/// One fitting capacity per arc, source and sink vertices, pairs naming arcs.
pub open spec fn valid_homologous(g: DirectedGraph, cap: Seq<i64>, s: usize, t: usize, pairs: Seq<(usize, usize)>) -> bool {
    &&& g.wf()
    &&& cap.len() == g.arc_seq().len()
    &&& s < g.n()
    &&& t < g.n()
    &&& forall|i: int| 0 <= i < pairs.len() ==> (#[trigger] pairs[i]).0 < cap.len() && pairs[i].1 < cap.len()
    &&& forall|i: int| 0 <= i < cap.len() ==> capacity_fits(#[trigger] cap[i])
}

fn pairs_in_range(pairs: &Vec<(usize, usize)>, m: usize) -> (r: bool)
    ensures
        r == forall|i: int| 0 <= i < pairs@.len() ==> (#[trigger] pairs@[i]).0 < m && pairs@[i].1 < m,
{
    let mut i: usize = 0;
    while i < pairs.len()
        invariant
            i <= pairs@.len(),
            forall|j: int| 0 <= j < i ==> (#[trigger] pairs@[j]).0 < m && pairs@[j].1 < m,
        decreases pairs.len() - i,
    {
        if pairs[i].0 >= m || pairs[i].1 >= m {
            return false;
        }
        i += 1;
    }
    true
}

fn capacities_fit(caps: &Vec<i64>) -> (r: bool)
    ensures
        r == forall|i: int| 0 <= i < caps@.len() ==> capacity_fits(#[trigger] caps@[i]),
{
    let mut i: usize = 0;
    while i < caps.len()
        invariant
            i <= caps@.len(),
            forall|j: int| 0 <= j < i ==> capacity_fits(#[trigger] caps@[j]),
        decreases caps.len() - i,
    {
        let c = caps[i];
        if c < 0 || (c as u64) >= (usize::MAX as u64) {
            return false;
        }
        i += 1;
    }
    true
}

} // verus!
