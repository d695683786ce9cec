//! Min-Max Multicenter (vertex p-center): choose `K` centers so that the
//! largest weighted distance from a vertex to its nearest center is least.
use vstd::prelude::*;
use crate::models::graph::props::{count_true, count_selected};
use crate::models::graph::kernel::ones;
use crate::topology::{SimpleGraph, endpoints_below};
use crate::types::{EvaluationError, Min};

use crate::types::ConstructionError;
use vstd::set_lib::{set_int_range, lemma_int_range, lemma_len_subset};
use crate::models::graph::{simple_graph_from_create, listed_graph_ok, listed_graph_error, listed_vertex_count};
verus! {

/// No entry is negative.
pub open spec fn nonnegative32(s: Seq<i32>) -> bool {
    forall|i: int| 0 <= i < s.len() ==> #[trigger] s[i] >= 0
}

/// Whether no entry is negative.
fn check_nonnegative32(s: &Vec<i32>) -> (r: bool)
    ensures
        r == nonnegative32(s@),
{
    let mut i: usize = 0;
    while i < s.len()
        invariant
            i <= s@.len(),
            forall|k: int| 0 <= k < i ==> #[trigger] s@[k] >= 0,
        decreases s.len() - i,
    {
        if s[i] < 0 {
            return false;
        }
        i += 1;
    }
    true
}

/// The given values, or `n` ones when none are given.
fn values_or_ones32(values: Option<Vec<i32>>, n: usize) -> (r: Vec<i32>)
    ensures
        values matches Some(w) ==> r@ == w@,
        values is None ==> r@.len() == n && forall|i: int| 0 <= i < n ==> #[trigger] r@[i] == 1,
{
    match values {
        Some(w) => w,
        None => {
            let mut r: Vec<i32> = Vec::new();
            let mut i: usize = 0;
            while i < n
                invariant
                    i <= n,
                    r@.len() == i,
                    forall|k: int| 0 <= k < i ==> #[trigger] r@[k] == 1,
                decreases n - i,
            {
                r.push(1);
                i += 1;
            }
            r
        },
    }
}

/// `a + len` when `a` is a distance.
pub open spec fn extend(a: Option<int>, len: int) -> Option<int> {
    match a {
        Some(d) => Some(d + len),
        None => None,
    }
}

/// The smaller of two distances, `None` standing for "unreached".
pub open spec fn opt_min(a: Option<int>, b: Option<int>) -> Option<int> {
    match (a, b) {
        (Some(x), Some(y)) => Some(if x <= y { x } else { y }),
        (Some(x), None) => Some(x),
        (None, _) => b,
    }
}

/// The best distance to `v` from the previous round `prev`, over staying
/// put and the first `j` edges (each usable in both directions).
pub open spec fn relax(prev: Seq<Option<int>>, edges: Seq<(usize, usize)>, lens: Seq<i32>, v: int, j: int) -> Option<int>
    decreases j,
{
    if j <= 0 {
        prev[v]
    } else {
        let r = relax(prev, edges, lens, v, j - 1);
        let e = edges[j - 1];
        let r1 = if e.1 as int == v { opt_min(r, extend(prev[e.0 as int], lens[j - 1] as int)) } else { r };
        if e.0 as int == v { opt_min(r1, extend(prev[e.1 as int], lens[j - 1] as int)) } else { r1 }
    }
}

/// For every vertex, the least total length of a walk of at most `k` edges
/// from some center (`None` when no such walk exists).
pub open spec fn walk_dist(g: SimpleGraph, lens: Seq<i32>, centers: Seq<bool>, k: nat) -> Seq<Option<int>>
    decreases k,
{
    if k == 0 {
        Seq::new(g.n(), |v: int| if centers[v] { Some(0int) } else { None })
    } else {
        let prev = walk_dist(g, lens, centers, (k - 1) as nat);
        Seq::new(g.n(), |v: int| relax(prev, g.edge_seq(), lens, v, g.edge_seq().len() as int))
    }
}

/// The distances to the nearest center: walks of at most `n - 1` edges,
/// which for nonnegative lengths give the shortest-path distances.
pub open spec fn center_dist(g: SimpleGraph, lens: Seq<i32>, centers: Seq<bool>) -> Seq<Option<int>> {
    walk_dist(g, lens, centers, (g.n() - 1) as nat)
}

/// Every vertex is reached.
pub open spec fn all_reached(d: Seq<Option<int>>) -> bool {
    forall|v: int| 0 <= v < d.len() ==> (#[trigger] d[v]) is Some
}

/// The largest `w[v] * d[v]` over the first `k` vertices, from 0.
pub open spec fn weighted_max(w: Seq<i32>, d: Seq<Option<int>>, k: int) -> int
    decreases k,
{
    if k <= 0 {
        0
    } else {
        let prev = weighted_max(w, d, k - 1);
        let x = w[k - 1] as int * d[k - 1]->0;
        if x > prev { x } else { prev }
    }
}

/// The configuration marks `k` centers with 0/1 values, one per vertex.
pub open spec fn centers_ok(config: Seq<usize>, n: nat, k: nat) -> bool {
    &&& config.len() == n
    &&& forall|i: int| 0 <= i < config.len() ==> #[trigger] config[i] <= 1
    &&& count_true(ones(config)) == k
}

/// Given a graph with nonnegative vertex weights and edge lengths and a
/// number `K`, find `K` centers minimizing the largest weighted distance
/// from a vertex to its nearest center.
#[derive(Debug, Clone)]
pub struct MinMaxMulticenter {
    graph: SimpleGraph,
    vertex_weights: Vec<i32>,
    edge_lengths: Vec<i32>,
    k: usize,
}

/// Two's smaller of two optional distances, in `i128`.
fn min_opt(a: Option<i128>, b: Option<i128>) -> (r: Option<i128>)
    ensures
        opt_i(r) == opt_min(opt_i(a), opt_i(b)),
{
    match (a, b) {
        (Some(x), Some(y)) => Some(if x <= y { x } else { y }),
        (Some(x), None) => Some(x),
        (None, _) => b,
    }
}

/// An optional `i128` as an optional integer.
pub open spec fn opt_i(a: Option<i128>) -> Option<int> {
    match a {
        Some(x) => Some(x as int),
        None => None,
    }
}

/// The distances as optional integers.
pub open spec fn opts(d: Seq<Option<i128>>) -> Seq<Option<int>> {
    Seq::new(d.len(), |v: int| opt_i(d[v]))
}

/// Every distance lies in `[0, b]`.
pub open spec fn bounded(d: Seq<Option<i128>>, b: int) -> bool {
    forall|v: int| 0 <= v < d.len() ==> (#[trigger] d[v] matches Some(x) ==> 0 <= x <= b)
}

/// The largest edge length, 2^31 - 1.
pub open spec fn max_len() -> int {
    0x7fff_ffff
}

impl MinMaxMulticenter {
    /// The underlying graph.
    pub closed spec fn spec_graph(&self) -> SimpleGraph {
        self.graph
    }

    /// The vertex weights.
    pub closed spec fn spec_vertex_weights(&self) -> Seq<i32> {
        self.vertex_weights@
    }

    /// The edge lengths.
    pub closed spec fn spec_edge_lengths(&self) -> Seq<i32> {
        self.edge_lengths@
    }

    /// The number of centers.
    pub closed spec fn spec_k(&self) -> nat {
        self.k as nat
    }

    /// One nonnegative weight per vertex and length per edge, and
    /// `1 <= K <= n`.
    pub open spec fn wf(&self) -> bool {
        &&& self.spec_graph().wf()
        &&& self.spec_vertex_weights().len() == self.spec_graph().n()
        &&& self.spec_edge_lengths().len() == self.spec_graph().edge_seq().len()
        &&& forall|i: int| 0 <= i < self.spec_vertex_weights().len() ==> #[trigger] self.spec_vertex_weights()[i] >= 0
        &&& forall|i: int| 0 <= i < self.spec_edge_lengths().len() ==> #[trigger] self.spec_edge_lengths()[i] >= 0
        &&& 1 <= self.spec_k() <= self.spec_graph().n()
    }

    /// Builds an instance from listed parts, checking in this order: the
    /// graph as by `simple_graph_from_create`; vertex weights (1 each by
    /// default) one per vertex and edge lengths (1 each by default) one per
    /// edge (`LengthMismatch`); no negative weight or length
    /// (`InvalidValue`); `1 <= k <= n` (`OutOfRange`).
    pub fn try_from_spec(
        edges: Vec<(usize, usize)>,
        num_vertices: Option<usize>,
        weights: Option<Vec<i32>>,
        edge_weights: Option<Vec<i32>>,
        k: usize,
    ) -> (r: Result<MinMaxMulticenter, ConstructionError>)
        ensures
            !listed_graph_ok(edges@, num_vertices) ==> r == Err::<MinMaxMulticenter, ConstructionError>(listed_graph_error(edges@, num_vertices)),
            listed_graph_ok(edges@, num_vertices) && !(!(weights matches Some(w) && w@.len() != listed_vertex_count(edges@, num_vertices)) && !(edge_weights matches Some(w) && w@.len() != edges@.len()))
                ==> r == Err::<MinMaxMulticenter, ConstructionError>(ConstructionError::LengthMismatch),
            listed_graph_ok(edges@, num_vertices) && !(weights matches Some(w) && w@.len() != listed_vertex_count(edges@, num_vertices)) && !(edge_weights matches Some(w) && w@.len() != edges@.len()) && !((weights matches Some(w) ==> nonnegative32(w@)) && (edge_weights matches Some(w) ==> nonnegative32(w@)))
                ==> r == Err::<MinMaxMulticenter, ConstructionError>(ConstructionError::InvalidValue),
            listed_graph_ok(edges@, num_vertices) && !(weights matches Some(w) && w@.len() != listed_vertex_count(edges@, num_vertices)) && !(edge_weights matches Some(w) && w@.len() != edges@.len()) && (weights matches Some(w) ==> nonnegative32(w@)) && (edge_weights matches Some(w) ==> nonnegative32(w@)) && !(1 <= k <= listed_vertex_count(edges@, num_vertices))
                ==> r == Err::<MinMaxMulticenter, ConstructionError>(ConstructionError::OutOfRange),
            listed_graph_ok(edges@, num_vertices) && !(weights matches Some(w) && w@.len() != listed_vertex_count(edges@, num_vertices)) && !(edge_weights matches Some(w) && w@.len() != edges@.len()) && (weights matches Some(w) ==> nonnegative32(w@)) && (edge_weights matches Some(w) ==> nonnegative32(w@)) && 1 <= k <= listed_vertex_count(edges@, num_vertices)
                ==> (r matches Ok(p) && p.wf() && p.spec_graph().edge_seq() == edges@
                && p.spec_graph().n() == listed_vertex_count(edges@, num_vertices) && p.spec_k() == k
                && (weights matches Some(w) ==> p.spec_vertex_weights() == w@)
                && (weights is None ==> forall|i: int| 0 <= i < p.spec_vertex_weights().len() ==> #[trigger] p.spec_vertex_weights()[i] == 1)
                && (edge_weights matches Some(w) ==> p.spec_edge_lengths() == w@)
                && (edge_weights is None ==> forall|i: int| 0 <= i < p.spec_edge_lengths().len() ==> #[trigger] p.spec_edge_lengths()[i] == 1)),
    {
        let graph = match simple_graph_from_create(edges, num_vertices) {
            Ok(g) => g,
            Err(e) => return Err(e),
        };
        let n = graph.num_vertices();
        let vertex_weights = values_or_ones32(weights, n);
        if vertex_weights.len() != n {
            return Err(ConstructionError::LengthMismatch);
        }
        let edge_lengths = values_or_ones32(edge_weights, graph.num_edges());
        if edge_lengths.len() != graph.num_edges() {
            return Err(ConstructionError::LengthMismatch);
        }
        if !check_nonnegative32(&vertex_weights) {
            return Err(ConstructionError::InvalidValue);
        }
        if !check_nonnegative32(&edge_lengths) {
            return Err(ConstructionError::InvalidValue);
        }
        if k == 0 || k > n {
            return Err(ConstructionError::OutOfRange);
        }
        Ok(MinMaxMulticenter::new(graph, vertex_weights, edge_lengths, k))
    }

    /// Creates an instance; panics unless the weights and lengths match the
    /// graph and are nonnegative, and `1 <= K <= n`.
    pub fn new(graph: SimpleGraph, vertex_weights: Vec<i32>, edge_lengths: Vec<i32>, k: usize) -> (r: Self)
        requires
            graph.wf(),
            vertex_weights@.len() == graph.n(),
            edge_lengths@.len() == graph.edge_seq().len(),
            forall|i: int| 0 <= i < vertex_weights@.len() ==> #[trigger] vertex_weights@[i] >= 0,
            forall|i: int| 0 <= i < edge_lengths@.len() ==> #[trigger] edge_lengths@[i] >= 0,
            1 <= k <= graph.n(),
        ensures
            r.wf(),
            r.spec_graph() == graph,
            r.spec_vertex_weights() == vertex_weights@,
            r.spec_edge_lengths() == edge_lengths@,
            r.spec_k() == k,
    {
        MinMaxMulticenter { graph, vertex_weights, edge_lengths, k }
    }

    /// The underlying graph.
    pub fn graph(&self) -> (r: &SimpleGraph)
        ensures
            *r == self.spec_graph(),
    {
        &self.graph
    }

    /// The vertex weights.
    pub fn vertex_weights(&self) -> (r: &[i32])
        ensures
            r@ == self.spec_vertex_weights(),
    {
        self.vertex_weights.as_slice()
    }

    /// The edge lengths.
    pub fn edge_lengths(&self) -> (r: &[i32])
        ensures
            r@ == self.spec_edge_lengths(),
    {
        self.edge_lengths.as_slice()
    }

    /// The number of centers `K`.
    pub fn k(&self) -> (r: usize)
        ensures
            r == self.spec_k(),
    {
        self.k
    }

    /// Number of vertices.
    pub fn num_vertices(&self) -> (r: usize)
        ensures
            r == self.spec_graph().n(),
    {
        self.graph.num_vertices()
    }

    /// Number of edges.
    pub fn num_edges(&self) -> (r: usize)
        ensures
            r == self.spec_graph().edge_seq().len(),
    {
        self.graph.num_edges()
    }

    /// The number of centers `K`.
    pub fn num_centers(&self) -> (r: usize)
        ensures
            r == self.spec_k(),
    {
        self.k
    }

    /// One round of relaxation over every edge.
    fn relax_round(&self, prev: &Vec<Option<i128>>, Ghost(b): Ghost<int>) -> (r: Vec<Option<i128>>)
        requires
            self.wf(),
            prev@.len() == self.spec_graph().n(),
            bounded(prev@, b),
            0 <= b,
            b + max_len() < 0x7fff_ffff_ffff_ffff_ffff_ffff_ffff_ffff,
        ensures
            r@.len() == prev@.len(),
            bounded(r@, b + max_len()),
            forall|v: int| 0 <= v < r@.len() ==> #[trigger] opt_i(r@[v]) == relax(opts(prev@), self.spec_graph().edge_seq(),
                self.spec_edge_lengths(), v, self.spec_graph().edge_seq().len() as int),
    {
        let n = self.graph.num_vertices();
        let edges = self.graph.edge_list();
        let ghost es = self.spec_graph().edge_seq();
        let ghost lens = self.spec_edge_lengths();
        let ghost p = opts(prev@);
        let mut next: Vec<Option<i128>> = Vec::new();
        let mut v: usize = 0;
        while v < n
            invariant
                v <= n,
                n == prev@.len(),
                next@.len() == v,
                forall|x: int| 0 <= x < v ==> #[trigger] next@[x] == prev@[x],
            decreases n - v,
        {
            next.push(prev[v]);
            v += 1;
        }
        let mut j: usize = 0;
        while j < edges.len()
            invariant
                j <= es.len(),
                edges@ == es,
                es == self.spec_graph().edge_seq(),
                lens == self.edge_lengths@,
                p == opts(prev@),
                self.wf(),
                n == prev@.len(),
                n == self.spec_graph().n(),
                next@.len() == n,
                bounded(prev@, b),
                bounded(next@, b + max_len()),
                0 <= b,
                b + max_len() < 0x7fff_ffff_ffff_ffff_ffff_ffff_ffff_ffff,
                forall|x: int| 0 <= x < n ==> #[trigger] opt_i(next@[x]) == relax(p, es, lens, x, j as int),
            decreases edges.len() - j,
        {
            let (a, c) = edges[j];
            assert(endpoints_below(es, n as nat));
            assert(es[j as int] == (a, c));
            assert(a < n && c < n);
            let len = self.edge_lengths[j] as i128;
            assert(0 <= len <= max_len());
            let ghost before = next@;
            let via_a: Option<i128> = match prev[a] {
                Some(d) => Some(d + len),
                None => None,
            };
            assert(opt_i(via_a) == extend(p[a as int], lens[j as int] as int));
            let nc = min_opt(next[c], via_a);
            next.set(c, nc);
            let ghost mid = next@;
            let via_c: Option<i128> = match prev[c] {
                Some(d) => Some(d + len),
                None => None,
            };
            assert(opt_i(via_c) == extend(p[c as int], lens[j as int] as int));
            let na = min_opt(next[a], via_c);
            next.set(a, na);
            proof {
                assert forall|x: int| 0 <= x < n implies #[trigger] opt_i(next@[x]) == relax(p, es, lens, x, j as int + 1) by {
                    assert(opt_i(before[x]) == relax(p, es, lens, x, j as int));
                }
                assert forall|x: int| 0 <= x < next@.len() implies (#[trigger] next@[x] matches Some(y) ==> 0 <= y <= b + max_len()) by {
                    if x == a as int {
                    } else if x == c as int {
                    } else {
                        assert(next@[x] == before[x]);
                    }
                }
            }
            j += 1;
        }
        next
    }

    /// The distance from every vertex to its nearest center, or `None` when
    /// the configuration is not a 0/1 vector over the vertices or some
    /// vertex is unreachable from every center.
    fn shortest_distances(&self, config: &[usize]) -> (r: Option<Vec<i128>>)
        requires
            self.wf(),
        ensures
            !(config@.len() == self.spec_graph().n() && forall|i: int| 0 <= i < config@.len() ==> #[trigger] config@[i] <= 1)
                ==> r is None,
            (config@.len() == self.spec_graph().n() && forall|i: int| 0 <= i < config@.len() ==> #[trigger] config@[i] <= 1)
                ==> (r is Some <==> all_reached(center_dist(self.spec_graph(), self.spec_edge_lengths(), ones(config@)))),
            r is Some ==> r->0@.len() == self.spec_graph().n(),
            r is Some ==> forall|x: int| 0 <= x < r->0@.len() ==>
                (#[trigger] center_dist(self.spec_graph(), self.spec_edge_lengths(), ones(config@))[x]) == Some(r->0@[x] as int),
            r is Some ==> forall|x: int| 0 <= x < r->0@.len() ==> 0 <= #[trigger] r->0@[x] < 0x1_0000_0000_0000_0000_0000_0000,
    {
        let n = self.graph.num_vertices();
        if config.len() != n {
            return None;
        }
        let mut i: usize = 0;
        while i < n
            invariant
                i <= n,
                config@.len() == n,
                forall|q: int| 0 <= q < i ==> #[trigger] config@[q] <= 1,
            decreases n - i,
        {
            if config[i] > 1 {
                return None;
            }
            i += 1;
        }
        let ghost centers = ones(config@);
        let ghost g = self.spec_graph();
        let ghost lens = self.spec_edge_lengths();
        let mut dist: Vec<Option<i128>> = Vec::new();
        i = 0;
        while i < n
            invariant
                i <= n,
                n == g.n(),
                config@.len() == n,
                centers == ones(config@),
                dist@.len() == i,
                bounded(dist@, 0),
                forall|x: int| 0 <= x < i ==> #[trigger] opt_i(dist@[x]) == walk_dist(g, lens, centers, 0)[x],
            decreases n - i,
        {
            if config[i] == 1 {
                dist.push(Some(0));
            } else {
                dist.push(None);
            }
            i += 1;
        }
        assert(opts(dist@) =~= walk_dist(g, lens, centers, 0));
        let mut round: usize = 0;
        while round + 1 < n
            invariant
                round < n,
                n == g.n(),
                g == self.spec_graph(),
                lens == self.spec_edge_lengths(),
                self.wf(),
                dist@.len() == n,
                config@.len() == n,
                centers == ones(config@),
                bounded(dist@, round as int * max_len()),
                opts(dist@) == walk_dist(g, lens, centers, round as nat),
            decreases n - round,
        {
            assert(round as int * max_len() + max_len() < 0x7fff_ffff_ffff_ffff_ffff_ffff_ffff_ffff) by (nonlinear_arith)
                requires
                    round < n,
                    n <= usize::MAX,
                    max_len() == 0x7fff_ffff,
            ;
            assert(0 <= round as int * max_len()) by (nonlinear_arith)
                requires
                    max_len() == 0x7fff_ffff,
            ;
            let next = self.relax_round(&dist, Ghost(round as int * max_len()));
            proof {
                assert(opts(next@) =~= walk_dist(g, lens, centers, (round + 1) as nat));
                assert((round as int) * max_len() + max_len() == (round as int + 1) * max_len()) by (nonlinear_arith);
            }
            dist = next;
            round += 1;
        }
        assert(round + 1 == n);
        let ghost d = center_dist(g, lens, centers);
        assert(d == opts(dist@));
        let mut out: Vec<i128> = Vec::new();
        i = 0;
        while i < n
            invariant
                i <= n,
                round + 1 == n,
                dist@.len() == n,
                n == g.n(),
                g == self.spec_graph(),
                lens == self.spec_edge_lengths(),
                config@.len() == n,
                centers == ones(config@),
                d == center_dist(g, lens, centers),
                d == opts(dist@),
                d.len() == n,
                bounded(dist@, round as int * max_len()),
                out@.len() == i,
                forall|x: int| 0 <= x < i ==> (#[trigger] d[x]) == Some(out@[x] as int) && 0 <= out@[x] <= (n as int) * max_len(),
            decreases n - i,
        {
            match dist[i] {
                Some(x) => {
                    assert(round as int * max_len() <= n as int * max_len()) by (nonlinear_arith)
                        requires
                            round < n,
                            max_len() == 0x7fff_ffff,
                    ;
                    out.push(x);
                },
                None => {
                    assert(d[i as int] is None);
                    return None;
                },
            }
            i += 1;
        }
        assert forall|x: int| 0 <= x < out@.len() implies 0 <= #[trigger] out@[x] < 0x1_0000_0000_0000_0000_0000_0000 by {
            let b = (n as int) * max_len();
            assert(d[x] == Some(out@[x] as int));
            assert(out@[x] <= b);
            assert(b < 0x1_0000_0000_0000_0000_0000_0000) by (nonlinear_arith)
                requires
                    b == (n as int) * max_len(),
                    n <= usize::MAX,
                    max_len() == 0x7fff_ffff,
            ;
        }
        Some(out)
    }

    /// The largest weighted distance to the nearest center, when the
    /// configuration marks exactly `K` centers (0/1 per vertex) and every
    /// vertex is reachable from one; `None` otherwise; an overflow error
    /// when the value leaves `i64`.
    pub fn evaluate(&self, config: &[usize]) -> (r: Result<Min<i64>, EvaluationError>)
        requires
            self.wf(),
        ensures
            !centers_ok(config@, self.spec_graph().n(), self.spec_k()) ==> r == Ok::<Min<i64>, EvaluationError>(Min(None)),
            centers_ok(config@, self.spec_graph().n(), self.spec_k()) ==> {
                let d = center_dist(self.spec_graph(), self.spec_edge_lengths(), ones(config@));
                let m = weighted_max(self.spec_vertex_weights(), d, self.spec_graph().n() as int);
                &&& !all_reached(d) ==> r == Ok::<Min<i64>, EvaluationError>(Min(None))
                &&& all_reached(d) && m <= i64::MAX ==> r == Ok::<Min<i64>, EvaluationError>(Min(Some(m as i64)))
                &&& all_reached(d) && m > i64::MAX ==> r == Err::<Min<i64>, EvaluationError>(EvaluationError::IntegerOverflow)
            },
    {
        let n = self.graph.num_vertices();
        if config.len() != n {
            return Ok(Min(None));
        }
        let mut flags: Vec<bool> = Vec::new();
        let mut i: usize = 0;
        while i < n
            invariant
                i <= n,
                config@.len() == n,
                flags@.len() == i,
                forall|q: int| 0 <= q < i ==> #[trigger] config@[q] <= 1,
                forall|q: int| 0 <= q < i ==> #[trigger] flags@[q] == (config@[q] == 1),
            decreases n - i,
        {
            if config[i] > 1 {
                return Ok(Min(None));
            }
            flags.push(config[i] == 1);
            i += 1;
        }
        assert(flags@ =~= ones(config@));
        if count_selected(flags.as_slice()) != self.k {
            return Ok(Min(None));
        }
        let dist = match self.shortest_distances(config) {
            Some(d) => d,
            None => return Ok(Min(None)),
        };
        let ghost d = center_dist(self.spec_graph(), self.spec_edge_lengths(), ones(config@));
        let ghost w = self.spec_vertex_weights();
        let mut best: i128 = 0;
        i = 0;
        while i < n
            invariant
                i <= n,
                n == self.spec_graph().n(),
                w == self.vertex_weights@,
                w.len() == n,
                self.wf(),
                dist@.len() == n,
                d.len() == n,
                forall|x: int| 0 <= x < n ==> (#[trigger] d[x]) == Some(dist@[x] as int),
                forall|x: int| 0 <= x < n ==> 0 <= #[trigger] dist@[x] < 0x1_0000_0000_0000_0000_0000_0000,
                best == weighted_max(w, d, i as int),
                0 <= best,
                best < 0x8000_0000 * 0x1_0000_0000_0000_0000_0000_0000,
            decreases n - i,
        {
            let wv = self.vertex_weights[i] as i128;
            let dv = dist[i];
            assert(0 <= wv < 0x8000_0000);
            assert(0 <= wv * dv < 0x8000_0000 * 0x1_0000_0000_0000_0000_0000_0000) by (nonlinear_arith)
                requires
                    0 <= wv < 0x8000_0000,
                    0 <= dv < 0x1_0000_0000_0000_0000_0000_0000,
            ;
            let x = wv * dv;
            assert(d[i as int]->0 == dv);
            if x > best {
                best = x;
            }
            i += 1;
        }
        if best > i64::MAX as i128 {
            return Err(EvaluationError::IntegerOverflow);
        }
        Ok(Min(Some(best as i64)))
    }

    /// One binary variable per vertex.
    pub fn dims(&self) -> (r: Vec<usize>)
        ensures
            r@.len() == self.spec_graph().n(),
            forall|i: int| 0 <= i < r@.len() ==> #[trigger] r@[i] == 2,
    {
        crate::models::graph::uniform_dims(self.graph.num_vertices(), 2)
    }
}

/// `a` is at most `b`, where `None` stands for "unreached" (above every
/// distance).
pub open spec fn opt_le(a: Option<int>, b: Option<int>) -> bool {
    b is Some ==> (a is Some && a->0 <= b->0)
}

/// Edge `e` joins `a` and `b`, in either orientation.
pub open spec fn joins(e: (usize, usize), a: int, b: int) -> bool {
    (e.0 as int == a && e.1 as int == b) || (e.0 as int == b && e.1 as int == a)
}

/// `vs` is a walk through the vertices of `g` that starts at a center,
/// stepping along edge `es[k]` from `vs[k]` to `vs[k + 1]`.
pub open spec fn center_walk(g: SimpleGraph, centers: Seq<bool>, vs: Seq<int>, es: Seq<int>) -> bool {
    &&& vs.len() == es.len() + 1
    &&& forall|k: int| 0 <= k < vs.len() ==> 0 <= #[trigger] vs[k] < g.n()
    &&& centers[vs[0]]
    &&& forall|k: int| 0 <= k < es.len() ==> 0 <= #[trigger] es[k] < g.edge_seq().len()
        && joins(g.edge_seq()[es[k]], vs[k], vs[k + 1])
}

/// The total length of the edges of a walk.
pub open spec fn walk_length(lens: Seq<i32>, es: Seq<int>) -> int
    decreases es.len(),
{
    if es.len() == 0 {
        0
    } else {
        walk_length(lens, es.drop_last()) + lens[es.last()] as int
    }
}

/// A relaxation round is at most the previous distance and at most the
/// previous distance of each neighbour plus the length of the joining edge.
proof fn lemma_relax_bound(prev: Seq<Option<int>>, edges: Seq<(usize, usize)>, lens: Seq<i32>, v: int, j: int)
    requires
        0 <= j <= edges.len(),
    ensures
        opt_le(relax(prev, edges, lens, v, j), prev[v]),
        forall|i: int| 0 <= i < j && (#[trigger] edges[i]).1 as int == v ==> opt_le(
            relax(prev, edges, lens, v, j),
            extend(prev[edges[i].0 as int], lens[i] as int),
        ),
        forall|i: int| 0 <= i < j && (#[trigger] edges[i]).0 as int == v ==> opt_le(
            relax(prev, edges, lens, v, j),
            extend(prev[edges[i].1 as int], lens[i] as int),
        ),
    decreases j,
{
    if j > 0 {
        lemma_relax_bound(prev, edges, lens, v, j - 1);
        let r = relax(prev, edges, lens, v, j - 1);
        let e = edges[j - 1];
        let c1 = extend(prev[e.0 as int], lens[j - 1] as int);
        let c2 = extend(prev[e.1 as int], lens[j - 1] as int);
        let r1 = if e.1 as int == v { opt_min(r, c1) } else { r };
        let r2 = if e.0 as int == v { opt_min(r1, c2) } else { r1 };
        assert(r2 == relax(prev, edges, lens, v, j));
        assert(opt_le(r1, r));
        assert(opt_le(r2, r1));
        assert(e.1 as int == v ==> opt_le(r1, c1));
        assert(e.0 as int == v ==> opt_le(r2, c2));
        assert forall|i: int| 0 <= i < j && (#[trigger] edges[i]).1 as int == v implies opt_le(
            r2,
            extend(prev[edges[i].0 as int], lens[i] as int),
        ) by {
            if i < j - 1 {
                assert(opt_le(r, extend(prev[edges[i].0 as int], lens[i] as int)));
            }
        }
        assert forall|i: int| 0 <= i < j && (#[trigger] edges[i]).0 as int == v implies opt_le(
            r2,
            extend(prev[edges[i].1 as int], lens[i] as int),
        ) by {
            if i < j - 1 {
                assert(opt_le(r, extend(prev[edges[i].1 as int], lens[i] as int)));
            }
        }
    }
}

/// A relaxation round only takes values that are already there: the
/// previous distance, or a neighbour's previous distance plus the length of
/// the joining edge.
proof fn lemma_relax_source(prev: Seq<Option<int>>, edges: Seq<(usize, usize)>, lens: Seq<i32>, v: int, j: int)
    requires
        0 <= j <= edges.len(),
        relax(prev, edges, lens, v, j) is Some,
    ensures
        relax(prev, edges, lens, v, j) == prev[v] || exists|i: int| 0 <= i < j && ((
            (#[trigger] edges[i]).1 as int == v && relax(prev, edges, lens, v, j) == extend(prev[edges[i].0 as int], lens[i] as int))
            || (edges[i].0 as int == v && relax(prev, edges, lens, v, j) == extend(prev[edges[i].1 as int], lens[i] as int))),
    decreases j,
{
    if j > 0 {
        let r = relax(prev, edges, lens, v, j - 1);
        let e = edges[j - 1];
        let c1 = extend(prev[e.0 as int], lens[j - 1] as int);
        let c2 = extend(prev[e.1 as int], lens[j - 1] as int);
        let r1 = if e.1 as int == v { opt_min(r, c1) } else { r };
        let r2 = if e.0 as int == v { opt_min(r1, c2) } else { r1 };
        assert(r2 == relax(prev, edges, lens, v, j));
        if e.0 as int == v && r2 == c2 {
            assert(edges[j - 1].0 as int == v);
        } else if e.1 as int == v && r1 == c1 && r2 == r1 {
            assert(edges[j - 1].1 as int == v);
        } else {
            assert(r2 == r);
            lemma_relax_source(prev, edges, lens, v, j - 1);
            if r != prev[v] {
                let i = choose|i: int| 0 <= i < j - 1 && ((
                    (#[trigger] edges[i]).1 as int == v && r == extend(prev[edges[i].0 as int], lens[i] as int))
                    || (edges[i].0 as int == v && r == extend(prev[edges[i].1 as int], lens[i] as int)));
                assert(0 <= i < j);
            }
        }
    }
}

/// After `k` rounds, the distance of the last vertex of a walk from a
/// center of at most `k` edges is at most the walk's length.
proof fn lemma_walk_dist_le(g: SimpleGraph, lens: Seq<i32>, centers: Seq<bool>, k: nat, vs: Seq<int>, es: Seq<int>)
    requires
        g.wf(),
        center_walk(g, centers, vs, es),
        es.len() <= k,
    ensures
        opt_le(walk_dist(g, lens, centers, k)[vs.last()], Some(walk_length(lens, es))),
    decreases k,
{
    let n = g.n();
    let edges = g.edge_seq();
    let v = vs.last();
    assert(0 <= vs[vs.len() - 1] < n);
    if k == 0 {
        assert(es.len() == 0);
        assert(vs.last() == vs[0]);
    } else {
        let prev = walk_dist(g, lens, centers, (k - 1) as nat);
        assert(walk_dist(g, lens, centers, k)[v] == relax(prev, edges, lens, v, edges.len() as int));
        lemma_relax_bound(prev, edges, lens, v, edges.len() as int);
        if es.len() < k {
            lemma_walk_dist_le(g, lens, centers, (k - 1) as nat, vs, es);
        } else {
            let vs0 = vs.drop_last();
            let es0 = es.drop_last();
            assert(center_walk(g, centers, vs0, es0)) by {
                assert forall|q: int| 0 <= q < vs0.len() implies 0 <= #[trigger] vs0[q] < n by {
                    assert(vs0[q] == vs[q]);
                }
                assert forall|q: int| 0 <= q < es0.len() implies 0 <= #[trigger] es0[q] < edges.len()
                    && joins(edges[es0[q]], vs0[q], vs0[q + 1]) by {
                    assert(es0[q] == es[q] && vs0[q] == vs[q] && vs0[q + 1] == vs[q + 1]);
                }
            }
            lemma_walk_dist_le(g, lens, centers, (k - 1) as nat, vs0, es0);
            let u = vs0.last();
            let last = es.len() - 1;
            let i = es[last];
            assert(0 <= i < edges.len() && joins(edges[i], vs[last], vs[last + 1]));
            assert(u == vs[last]);
            assert(v == vs[last + 1]);
            assert(walk_length(lens, es) == walk_length(lens, es0) + lens[i] as int);
            if edges[i].1 as int == v && edges[i].0 as int == u {
                assert(opt_le(relax(prev, edges, lens, v, edges.len() as int), extend(prev[edges[i].0 as int], lens[i] as int)));
            } else {
                assert(edges[i].0 as int == v && edges[i].1 as int == u);
                assert(opt_le(relax(prev, edges, lens, v, edges.len() as int), extend(prev[edges[i].1 as int], lens[i] as int)));
            }
        }
    }
}

/// Every distance found after `k` rounds is the length of some walk of at
/// most `k` edges from a center.
proof fn lemma_walk_dist_realized(g: SimpleGraph, lens: Seq<i32>, centers: Seq<bool>, k: nat, v: int)
    requires
        g.wf(),
        0 <= v < g.n(),
        walk_dist(g, lens, centers, k)[v] is Some,
    ensures
        exists|vs: Seq<int>, es: Seq<int>|
            #[trigger] center_walk(g, centers, vs, es) && es.len() <= k && vs.last() == v
                && walk_length(lens, es) == walk_dist(g, lens, centers, k)[v]->0,
    decreases k,
{
    let n = g.n();
    let edges = g.edge_seq();
    let d = walk_dist(g, lens, centers, k)[v]->0;
    if k == 0 {
        let vs = seq![v];
        let es = Seq::<int>::empty();
        assert(centers[v]);
        assert(center_walk(g, centers, vs, es));
    } else {
        let prev = walk_dist(g, lens, centers, (k - 1) as nat);
        let r = relax(prev, edges, lens, v, edges.len() as int);
        assert(walk_dist(g, lens, centers, k)[v] == r);
        lemma_relax_source(prev, edges, lens, v, edges.len() as int);
        if r == prev[v] {
            lemma_walk_dist_realized(g, lens, centers, (k - 1) as nat, v);
            let (vs, es) = choose|vs: Seq<int>, es: Seq<int>|
                #[trigger] center_walk(g, centers, vs, es) && es.len() <= k - 1 && vs.last() == v
                    && walk_length(lens, es) == prev[v]->0;
            assert(center_walk(g, centers, vs, es));
        } else {
            let i = choose|i: int| 0 <= i < edges.len() && ((
                (#[trigger] edges[i]).1 as int == v && r == extend(prev[edges[i].0 as int], lens[i] as int))
                || (edges[i].0 as int == v && r == extend(prev[edges[i].1 as int], lens[i] as int)));
            let u: int = if edges[i].1 as int == v && r == extend(prev[edges[i].0 as int], lens[i] as int) {
                edges[i].0 as int
            } else {
                edges[i].1 as int
            };
            assert(r == extend(prev[u], lens[i] as int));
            assert(joins(edges[i], u, v));
            assert(edges[i].0 < n && edges[i].1 < n);
            lemma_walk_dist_realized(g, lens, centers, (k - 1) as nat, u);
            let (vs0, es0) = choose|vs: Seq<int>, es: Seq<int>|
                #[trigger] center_walk(g, centers, vs, es) && es.len() <= k - 1 && vs.last() == u
                    && walk_length(lens, es) == prev[u]->0;
            let vs = vs0.push(v);
            let es = es0.push(i);
            assert(es.drop_last() =~= es0);
            assert(walk_length(lens, es) == walk_length(lens, es0) + lens[i] as int);
            assert(center_walk(g, centers, vs, es)) by {
                assert forall|q: int| 0 <= q < vs.len() implies 0 <= #[trigger] vs[q] < n by {
                    if q < vs0.len() {
                        assert(vs[q] == vs0[q]);
                    }
                }
                assert(vs[0] == vs0[0]);
                assert forall|q: int| 0 <= q < es.len() implies 0 <= #[trigger] es[q] < edges.len()
                    && joins(edges[es[q]], vs[q], vs[q + 1]) by {
                    if q < es0.len() {
                        assert(es[q] == es0[q] && vs[q] == vs0[q] && vs[q + 1] == vs0[q + 1]);
                    } else {
                        assert(vs[q] == vs0.last());
                    }
                }
            }
        }
    }
}

/// The distances to the nearest center are shortest-path distances: a
/// vertex reached by a walk of at most `n - 1` edges from some center gets a
/// distance, and that distance is at most the walk's length.
pub proof fn law_center_dist_at_most_any_walk(g: SimpleGraph, lens: Seq<i32>, centers: Seq<bool>, vs: Seq<int>, es: Seq<int>)
    requires
        g.wf(),
        center_walk(g, centers, vs, es),
        es.len() <= g.n() - 1,
    ensures
        center_dist(g, lens, centers)[vs.last()] is Some,
        center_dist(g, lens, centers)[vs.last()]->0 <= walk_length(lens, es),
{
    lemma_walk_dist_le(g, lens, centers, (g.n() - 1) as nat, vs, es);
}

/// Every distance to the nearest center is the length of a walk from a
/// center to the vertex.
pub proof fn law_center_dist_is_a_walk(g: SimpleGraph, lens: Seq<i32>, centers: Seq<bool>, v: int)
    requires
        g.wf(),
        0 <= v < g.n(),
        center_dist(g, lens, centers)[v] is Some,
    ensures
        exists|vs: Seq<int>, es: Seq<int>|
            #[trigger] center_walk(g, centers, vs, es) && es.len() <= g.n() - 1 && vs.last() == v
                && walk_length(lens, es) == center_dist(g, lens, centers)[v]->0,
{
    lemma_walk_dist_realized(g, lens, centers, (g.n() - 1) as nat, v);
}

/// The objective is the largest weighted distance: it is at least every
/// `w[v] * d[v]` over the first `k` vertices, and it is one of them unless
/// it is 0 (the value with no vertices).
pub proof fn law_weighted_max_is_largest(w: Seq<i32>, d: Seq<Option<int>>, k: int)
    requires
        0 <= k,
    ensures
        forall|v: int| 0 <= v < k ==> w[v] as int * (#[trigger] d[v])->0 <= weighted_max(w, d, k),
        weighted_max(w, d, k) == 0 || exists|v: int| 0 <= v < k && weighted_max(w, d, k) == w[v] as int * (#[trigger] d[v])->0,
        weighted_max(w, d, k) >= 0,
    decreases k,
{
    if k > 0 {
        law_weighted_max_is_largest(w, d, k - 1);
        let prev = weighted_max(w, d, k - 1);
        let x = w[k - 1] as int * d[k - 1]->0;
        assert forall|v: int| 0 <= v < k implies w[v] as int * (#[trigger] d[v])->0 <= weighted_max(w, d, k) by {
            if v < k - 1 {
                assert(w[v] as int * d[v]->0 <= prev);
            }
        }
        if x > prev {
            assert(weighted_max(w, d, k) == w[k - 1] as int * d[k - 1]->0);
        } else if prev != 0 {
            let v0 = choose|v: int| 0 <= v < k - 1 && prev == w[v] as int * (#[trigger] d[v])->0;
            assert(weighted_max(w, d, k) == w[v0] as int * d[v0]->0);
        }
    }
}

/// A sequence of more than `n` values below `n` repeats a value.
proof fn lemma_walk_repeats(vs: Seq<int>, n: nat)
    requires
        vs.len() > n,
        forall|k: int| 0 <= k < vs.len() ==> 0 <= #[trigger] vs[k] < n,
    ensures
        exists|p: int, q: int| 0 <= p < q < vs.len() && #[trigger] vs[p] == #[trigger] vs[q],
{
    if !exists|p: int, q: int| 0 <= p < q < vs.len() && #[trigger] vs[p] == #[trigger] vs[q] {
        assert(vs.no_duplicates()) by {
            assert forall|a: int, b: int| 0 <= a < vs.len() && 0 <= b < vs.len() && a != b implies vs[a] != vs[b] by {
                if a < b {
                    assert(!(vs[a] == vs[b]));
                } else {
                    assert(!(vs[b] == vs[a]));
                }
            }
        }
        vs.unique_seq_to_set();
        lemma_int_range(0, n as int);
        assert(vs.to_set().subset_of(set_int_range(0, n as int))) by {
            assert forall|x: int| vs.to_set().contains(x) implies set_int_range(0, n as int).contains(x) by {
                let k = choose|k: int| 0 <= k < vs.len() && vs[k] == x;
                assert(0 <= vs[k] < n);
            }
        }
        lemma_len_subset(vs.to_set(), set_int_range(0, n as int));
    }
}

/// The length of two walks joined is the sum of their lengths.
proof fn lemma_walk_length_concat(lens: Seq<i32>, a: Seq<int>, b: Seq<int>)
    ensures
        walk_length(lens, a + b) == walk_length(lens, a) + walk_length(lens, b),
    decreases b.len(),
{
    if b.len() > 0 {
        lemma_walk_length_concat(lens, a, b.drop_last());
        assert((a + b).drop_last() =~= a + b.drop_last());
    } else {
        assert(a + b =~= a);
    }
}

/// Edges of nonnegative length give a walk a nonnegative length.
proof fn lemma_walk_length_nonnegative(lens: Seq<i32>, es: Seq<int>)
    requires
        forall|k: int| 0 <= k < es.len() ==> 0 <= #[trigger] es[k] < lens.len(),
        nonnegative32(lens),
    ensures
        walk_length(lens, es) >= 0,
    decreases es.len(),
{
    if es.len() > 0 {
        lemma_walk_length_nonnegative(lens, es.drop_last());
        assert(lens[es.last()] >= 0);
    }
}

/// With nonnegative edge lengths the walk length bound needs no bound on
/// the number of edges: a vertex reached by any walk from a center gets a
/// distance to its nearest center, at most the walk's length.
pub proof fn law_center_dist_at_most_any_long_walk(g: SimpleGraph, lens: Seq<i32>, centers: Seq<bool>, vs: Seq<int>,
    es: Seq<int>)
    requires
        g.wf(),
        lens.len() == g.edge_seq().len(),
        nonnegative32(lens),
        center_walk(g, centers, vs, es),
    ensures
        center_dist(g, lens, centers)[vs.last()] is Some,
        center_dist(g, lens, centers)[vs.last()]->0 <= walk_length(lens, es),
    decreases es.len(),
{
    let n = g.n();
    if es.len() <= n - 1 {
        law_center_dist_at_most_any_walk(g, lens, centers, vs, es);
    } else {
        lemma_walk_repeats(vs, n);
        let (p, q) = choose|p: int, q: int| 0 <= p < q < vs.len() && #[trigger] vs[p] == #[trigger] vs[q];
        let vs2 = vs.take(p + 1) + vs.skip(q + 1);
        let es2 = es.take(p) + es.skip(q);
        let edges = g.edge_seq();
        assert(vs2.len() == es2.len() + 1);
        assert(vs2[0] == vs[0]);
        assert(vs2.last() == vs.last()) by {
            if q + 1 == vs.len() {
                assert(vs2.last() == vs[p]);
            } else {
                assert(vs2.last() == vs[vs.len() - 1]);
            }
        }
        assert(center_walk(g, centers, vs2, es2)) by {
            assert forall|k: int| 0 <= k < vs2.len() implies 0 <= #[trigger] vs2[k] < n by {
                if k <= p {
                    assert(vs2[k] == vs[k]);
                } else {
                    assert(vs2[k] == vs[k - p + q]);
                }
            }
            assert forall|k: int| 0 <= k < es2.len() implies 0 <= #[trigger] es2[k] < edges.len()
                && joins(edges[es2[k]], vs2[k], vs2[k + 1]) by {
                if k < p {
                    assert(es2[k] == es[k] && vs2[k] == vs[k] && vs2[k + 1] == vs[k + 1]);
                } else if k == p {
                    assert(es2[k] == es[q] && vs2[k] == vs[q] && vs2[k + 1] == vs[q + 1]);
                } else {
                    assert(es2[k] == es[k - p + q] && vs2[k] == vs[k - p + q] && vs2[k + 1] == vs[k - p + q + 1]);
                }
            }
        }
        let mid = es.subrange(p, q);
        assert(es =~= es.take(p) + mid + es.skip(q));
        lemma_walk_length_concat(lens, es.take(p) + mid, es.skip(q));
        lemma_walk_length_concat(lens, es.take(p), mid);
        lemma_walk_length_concat(lens, es.take(p), es.skip(q));
        assert forall|k: int| 0 <= k < mid.len() implies 0 <= #[trigger] mid[k] < lens.len() by {
            assert(mid[k] == es[p + k]);
        }
        lemma_walk_length_nonnegative(lens, mid);
        law_center_dist_at_most_any_long_walk(g, lens, centers, vs2, es2);
    }
}

} // verus!
