//! Biconnectivity Augmentation: add candidate edges within a budget so that
//! the graph becomes biconnected.
use vstd::prelude::*;
use crate::models::graph::reach::reachable;
use crate::models::graph::{simple_graph_from_create, listed_vertex_count, no_self_loops};
use crate::models::graph::acyclic_partition::max_endpoint_plus_one;
use crate::sums::fits64;
use crate::topology::{SimpleGraph, endpoints_below, adjacent_in};
use crate::types::{ConstructionError, EvaluationError, Or};

verus! {

/// Number of vertices below `k` that no smaller vertex reaches: one per
/// connected component of the graph on `0..n` (the least vertex of each).
pub open spec fn component_leaders(edges: Seq<(usize, usize)>, k: int) -> nat
    decreases k,
{
    if k <= 0 {
        0
    } else {
        component_leaders(edges, k - 1)
            + if forall|u: int| 0 <= u < k - 1 ==> !#[trigger] reachable(edges, u, k - 1) { 1nat } else { 0nat }
    }
}

/// The edges among the first `k` that do not touch `v`.
pub open spec fn edges_avoiding(edges: Seq<(usize, usize)>, v: int, k: int) -> Seq<(usize, usize)>
    decreases k,
{
    if k <= 0 {
        Seq::empty()
    } else {
        let prev = edges_avoiding(edges, v, k - 1);
        let e = edges[k - 1];
        if e.0 as int == v || e.1 as int == v { prev } else { prev.push(e) }
    }
}

/// Removing `v` separates two other vertices that were connected: `v` is an
/// articulation point (its removal increases the number of components).
pub open spec fn is_cut_vertex(edges: Seq<(usize, usize)>, n: nat, v: int) -> bool {
    &&& 0 <= v < n
    &&& exists|a: int, b: int| #![trigger reachable(edges, a, b)]
        0 <= a < n && 0 <= b < n && a != v && b != v && reachable(edges, a, b)
        && !reachable(edges_avoiding(edges, v, edges.len() as int), a, b)
}

/// The graph on `0..n` is connected and has no articulation point (at most one vertex counts as biconnected).
pub open spec fn biconnected(edges: Seq<(usize, usize)>, n: nat) -> bool {
    n <= 1 || (component_leaders(edges, n as int) == 1 && forall|v: int| !#[trigger] is_cut_vertex(edges, n, v))
}

/// Number of connected components of the graph on `0..n` with the given
/// edges, by petgraph's `connected_components`. Claimed: the count of
/// component leaders, as petgraph documents the result.
#[verifier::external_body]
fn component_count(n: usize, edges: &[(usize, usize)]) -> (r: usize)
    requires
        endpoints_below(edges@, n as nat),
        n < 4294967295,
        edges@.len() < 4294967295,
    ensures
        r == component_leaders(edges@, n as int),
{
    let mut g = petgraph::graph::UnGraph::<(), ()>::with_capacity(n, edges.len());
    for _ in 0..n {
        g.add_node(());
    }
    for &(u, v) in edges {
        g.add_edge(petgraph::graph::NodeIndex::new(u), petgraph::graph::NodeIndex::new(v), ());
    }
    petgraph::algo::connected_components(&g)
}

/// The articulation points of the graph on `0..n` with the given edges, by
/// petgraph's `articulation_points`, in no particular order. Claimed: each
/// once, and exactly the vertices whose removal separates two others, as
/// petgraph documents the result.
#[verifier::external_body]
fn cut_vertices(n: usize, edges: &[(usize, usize)]) -> (r: Vec<usize>)
    requires
        endpoints_below(edges@, n as nat),
        n < 4294967295,
        edges@.len() < 4294967295,
    ensures
        r@.no_duplicates(),
        forall|v: usize| #[trigger] r@.contains(v) <==> is_cut_vertex(edges@, n as nat, v as int),
{
    let mut g = petgraph::graph::UnGraph::<(), ()>::with_capacity(n, edges.len());
    for _ in 0..n {
        g.add_node(());
    }
    for &(u, v) in edges {
        g.add_edge(petgraph::graph::NodeIndex::new(u), petgraph::graph::NodeIndex::new(v), ());
    }
    petgraph::algo::articulation_points::articulation_points(&g).into_iter().map(|x| x.index()).collect()
}

/// Whether the graph on `0..n` is biconnected.
pub fn is_biconnected(n: usize, edges: &[(usize, usize)]) -> (r: bool)
    requires
        endpoints_below(edges@, n as nat),
        n < 4294967295,
        edges@.len() < 4294967295,
    ensures
        r == biconnected(edges@, n as nat),
{
    if n <= 1 {
        return true;
    }
    if component_count(n, edges) != 1 {
        return false;
    }
    let cuts = cut_vertices(n, edges);
    if cuts.len() == 0 {
        assert forall|v: int| !#[trigger] is_cut_vertex(edges@, n as nat, v) by {
            if is_cut_vertex(edges@, n as nat, v) {
                assert(cuts@.contains(v as usize));
            }
        }
        true
    } else {
        assert(cuts@.contains(cuts@[0]));
        false
    }
}

/// The edge with its smaller endpoint first.
fn normalize_edge(u: usize, v: usize) -> (r: (usize, usize))
    ensures
        r == normalized(u, v),
{
    if u <= v { (u, v) } else { (v, u) }
}

/// The edge with its smaller endpoint first.
pub open spec fn normalized(u: usize, v: usize) -> (usize, usize) {
    if u <= v { (u, v) } else { (v, u) }
}

/// What is wrong with candidate `i`, checking in order: an endpoint out of
/// range, a loop, an edge the graph has, or an edge listed before.
pub open spec fn candidate_issue(n: nat, edges: Seq<(usize, usize)>, p: Seq<(usize, usize, i64)>, i: int) -> Option<ConstructionError> {
    let (u, v, w) = p[i];
    if u >= n || v >= n {
        Some(ConstructionError::OutOfRange)
    } else if u == v {
        Some(ConstructionError::InvalidValue)
    } else if adjacent_in(edges, normalized(u, v).0 as int, normalized(u, v).1 as int) {
        Some(ConstructionError::InvalidValue)
    } else if exists|j: int| 0 <= j < i && #[trigger] normalized(p[j].0, p[j].1) == normalized(u, v) {
        Some(ConstructionError::InvalidValue)
    } else {
        None
    }
}

/// Every candidate is fine.
pub open spec fn candidates_ok(n: nat, edges: Seq<(usize, usize)>, p: Seq<(usize, usize, i64)>) -> bool {
    forall|i: int| 0 <= i < p.len() ==> (#[trigger] candidate_issue(n, edges, p, i)) is None
}

/// The edges of the augmented graph: the graph's edges, then the selected
/// candidates, each normalized, each once.
pub open spec fn augmented_edge(g: SimpleGraph, p: Seq<(usize, usize, i64)>, sel: Seq<bool>, e: (usize, usize)) -> bool {
    (exists|k: int| 0 <= k < g.edge_seq().len() && #[trigger] normalized(g.edge_seq()[k].0, g.edge_seq()[k].1) == e)
        || (exists|k: int| 0 <= k < p.len() && sel[k] && #[trigger] normalized(p[k].0, p[k].1) == e)
}

/// The checked sum of the weights of the selected candidates, in order.
pub open spec fn selected_cost(p: Seq<(usize, usize, i64)>, sel: Seq<bool>, k: int) -> Option<int>
    decreases k,
{
    if k <= 0 {
        Some(0)
    } else {
        match selected_cost(p, sel, k - 1) {
            None => None,
            Some(t) => if !sel[k - 1] { Some(t) } else if fits64(t + p[k - 1].2) { Some(t + p[k - 1].2) } else { None },
        }
    }
}

proof fn lemma_cost_none_stays(p: Seq<(usize, usize, i64)>, sel: Seq<bool>, a: int, b: int)
    requires
        0 <= a <= b,
        selected_cost(p, sel, a) is None,
    ensures
        selected_cost(p, sel, b) is None,
    decreases b - a,
{
    if a < b {
        lemma_cost_none_stays(p, sel, a, b - 1);
    }
}

/// Given a graph, candidate edges with weights and a budget, decide whether
/// adding some candidates of total weight within the budget makes the graph
/// biconnected.
#[derive(Debug, Clone)]
pub struct BiconnectivityAugmentation {
    graph: SimpleGraph,
    potential_weights: Vec<(usize, usize, i64)>,
    budget: i64,
}

impl BiconnectivityAugmentation {
    /// The graph.
    pub closed spec fn spec_graph(&self) -> SimpleGraph {
        self.graph
    }

    /// The candidate edges with their weights.
    pub closed spec fn spec_candidates(&self) -> Seq<(usize, usize, i64)> {
        self.potential_weights@
    }

    /// The budget.
    pub closed spec fn spec_budget(&self) -> i64 {
        self.budget
    }

    /// A well-formed graph and fine candidates.
    pub open spec fn wf(&self) -> bool {
        self.spec_graph().wf() && candidates_ok(self.spec_graph().n(), self.spec_graph().edge_seq(), self.spec_candidates())
    }

    /// Creates an instance; panics on a bad candidate.
    pub fn new(graph: SimpleGraph, potential_weights: Vec<(usize, usize, i64)>, budget: i64) -> (r: Self)
        requires
            graph.wf(),
            candidates_ok(graph.n(), graph.edge_seq(), potential_weights@),
        ensures
            r.wf(),
            r.spec_graph() == graph,
            r.spec_candidates() == potential_weights@,
            r.spec_budget() == budget,
    {
        BiconnectivityAugmentation { graph, potential_weights, budget }
    }

    /// Creates an instance, or the error of the first bad candidate.
    #[verifier::loop_isolation(false)]
    pub fn try_new(graph: SimpleGraph, potential_weights: Vec<(usize, usize, i64)>, budget: i64) -> (r: Result<Self, ConstructionError>)
        requires
            graph.wf(),
        ensures
            r is Ok <==> candidates_ok(graph.n(), graph.edge_seq(), potential_weights@),
            r matches Ok(p) ==> p.wf() && p.spec_graph() == graph && p.spec_candidates() == potential_weights@ && p.spec_budget() == budget,
            r matches Err(e) ==> exists|i: int| 0 <= i < potential_weights@.len()
                && candidate_issue(graph.n(), graph.edge_seq(), potential_weights@, i) == Some(e)
                && forall|j: int| 0 <= j < i ==> (#[trigger] candidate_issue(graph.n(), graph.edge_seq(), potential_weights@, j)) is None,
    {
        let n = graph.num_vertices();
        let mut seen: Vec<(usize, usize)> = Vec::new();
        let mut i: usize = 0;
        while i < potential_weights.len()
            invariant
                n == graph.n(),
                i <= potential_weights@.len(),
                seen@.len() == i,
                forall|j: int| 0 <= j < i ==> #[trigger] seen@[j] == normalized(potential_weights@[j].0, potential_weights@[j].1),
                forall|j: int| 0 <= j < i ==> (#[trigger] candidate_issue(graph.n(), graph.edge_seq(), potential_weights@, j)) is None,
            decreases potential_weights.len() - i,
        {
            let (u, v, _w) = potential_weights[i];
            let ghost p = potential_weights@;
            assert(p[i as int] == (u, v, _w));
            if u >= n || v >= n {
                assert(candidate_issue(graph.n(), graph.edge_seq(), p, i as int) == Some(ConstructionError::OutOfRange));
                return Err(ConstructionError::OutOfRange);
            }
            if u == v {
                assert(candidate_issue(graph.n(), graph.edge_seq(), p, i as int) == Some(ConstructionError::InvalidValue));
                return Err(ConstructionError::InvalidValue);
            }
            let edge = normalize_edge(u, v);
            if graph.has_edge(edge.0, edge.1) {
                assert(candidate_issue(graph.n(), graph.edge_seq(), p, i as int) == Some(ConstructionError::InvalidValue));
                return Err(ConstructionError::InvalidValue);
            }
            let mut j: usize = 0;
            while j < seen.len()
                invariant
                    p == potential_weights@,
                    i < p.len(),
                    seen@.len() == i,
                    forall|x: int| 0 <= x < i ==> #[trigger] seen@[x] == normalized(p[x].0, p[x].1),
                    j <= seen@.len(),
                    forall|x: int| 0 <= x < j ==> seen@[x] != edge,
                decreases seen.len() - j,
            {
                if seen[j].0 == edge.0 && seen[j].1 == edge.1 {
                    proof {
                        assert(normalized(p[j as int].0, p[j as int].1) == normalized(u, v));
                        assert(candidate_issue(graph.n(), graph.edge_seq(), p, i as int) == Some(ConstructionError::InvalidValue));
                    }
                    return Err(ConstructionError::InvalidValue);
                }
                j += 1;
            }
            proof {
                assert(!exists|x: int| 0 <= x < i && #[trigger] normalized(p[x].0, p[x].1) == normalized(u, v)) by {
                    if exists|x: int| 0 <= x < i && #[trigger] normalized(p[x].0, p[x].1) == normalized(u, v) {
                        let x = choose|x: int| 0 <= x < i && #[trigger] normalized(p[x].0, p[x].1) == normalized(u, v);
                        assert(seen@[x] == edge);
                    }
                }
            }
            seen.push(edge);
            i += 1;
        }
        Ok(BiconnectivityAugmentation { graph, potential_weights, budget })
    }

    /// Builds an instance from listed parts: the graph as by
    /// `simple_graph_from_create`, then the candidates as by `try_new`.
    pub fn try_from_spec(
        edges: Vec<(usize, usize)>,
        num_vertices: Option<usize>,
        potential_weights: Vec<(usize, usize, i64)>,
        budget: i64,
    ) -> (r: Result<Self, ConstructionError>)
        ensures
            r is Ok <==> {
                &&& !(edges@.len() == 0 && num_vertices is None)
                &&& no_self_loops(edges@)
                &&& max_endpoint_plus_one(edges@, edges@.len() as int) <= usize::MAX
                &&& max_endpoint_plus_one(edges@, edges@.len() as int) <= listed_vertex_count(edges@, num_vertices)
                &&& candidates_ok(listed_vertex_count(edges@, num_vertices) as nat, edges@, potential_weights@)
            },
            r matches Ok(p) ==> p.wf() && p.spec_graph().edge_seq() == edges@
                && p.spec_graph().n() == listed_vertex_count(edges@, num_vertices)
                && p.spec_candidates() == potential_weights@ && p.spec_budget() == budget,
    {
        let graph = match simple_graph_from_create(edges, num_vertices) {
            Ok(g) => g,
            Err(e) => return Err(e),
        };
        Self::try_new(graph, potential_weights, budget)
    }

    /// The graph.
    pub fn graph(&self) -> (r: &SimpleGraph)
        ensures
            *r == self.spec_graph(),
    {
        &self.graph
    }

    /// The candidate edges with their weights.
    pub fn potential_weights(&self) -> (r: &[(usize, usize, i64)])
        ensures
            r@ == self.spec_candidates(),
    {
        self.potential_weights.as_slice()
    }

    /// The budget.
    pub fn budget(&self) -> (r: i64)
        ensures
            r == self.spec_budget(),
    {
        self.budget
    }

    /// Number of vertices.
    pub fn num_vertices(&self) -> (r: usize)
        ensures
            r == self.spec_graph().n(),
    {
        self.graph.num_vertices()
    }

    /// Number of edges.
    pub fn num_edges(&self) -> (r: usize)
        ensures
            r == self.spec_graph().edge_seq().len(),
    {
        self.graph.num_edges()
    }

    /// Number of candidate edges.
    pub fn num_potential_edges(&self) -> (r: usize)
        ensures
            r == self.spec_candidates().len(),
    {
        self.potential_weights.len()
    }

    /// Integer weights are never the unit weight type.
    pub fn is_weighted(&self) -> (r: bool)
        ensures
            r,
    {
        true
    }

    /// The edges of the graph with the selected candidates added (each
    /// normalized, each once), or `None` for the wrong number of flags or a
    /// total weight over the budget; an error when the weight sum overflows.
    fn augmented_graph(&self, config: &[bool]) -> (r: Result<Option<Vec<(usize, usize)>>, EvaluationError>)
        requires
            self.wf(),
        ensures
            config@.len() != self.spec_candidates().len() ==> r == Ok::<Option<Vec<(usize, usize)>>, EvaluationError>(None),
            config@.len() == self.spec_candidates().len() ==> match selected_cost(self.spec_candidates(), config@, config@.len() as int) {
                None => r == Err::<Option<Vec<(usize, usize)>>, EvaluationError>(EvaluationError::IntegerOverflow),
                Some(t) => if t > self.spec_budget() {
                    r == Ok::<Option<Vec<(usize, usize)>>, EvaluationError>(None)
                } else {
                    r matches Ok(Some(es)) && es@.no_duplicates() && endpoints_below(es@, self.spec_graph().n())
                        && forall|e: (usize, usize)| #[trigger] es@.contains(e)
                            <==> augmented_edge(self.spec_graph(), self.spec_candidates(), config@, e)
                },
            },
    {
        if config.len() != self.potential_weights.len() {
            return Ok(None);
        }
        let ghost g = self.spec_graph();
        let ghost p = self.spec_candidates();
        let n = self.graph.num_vertices();
        let ge = self.graph.edge_list();
        let mut edges: Vec<(usize, usize)> = Vec::new();
        let mut k: usize = 0;
        while k < ge.len()
            invariant
                g.wf(),
                ge@ == g.edge_seq(),
                n == g.n(),
                k <= ge@.len(),
                edges@.no_duplicates(),
                endpoints_below(edges@, n as nat),
                forall|e: (usize, usize)| #[trigger] edges@.contains(e) <==>
                    exists|j: int| 0 <= j < k && #[trigger] normalized(ge@[j].0, ge@[j].1) == e,
            decreases ge.len() - k,
        {
            let (a, b) = ge[k];
            assert(ge@[k as int] == (a, b));
            let e = normalize_edge(a, b);
            insert_new(&mut edges, e);
            proof {
                assert forall|x: (usize, usize)| #[trigger] edges@.contains(x) <==>
                    exists|j: int| 0 <= j < k + 1 && #[trigger] normalized(ge@[j].0, ge@[j].1) == x by {
                    if exists|j: int| 0 <= j < k + 1 && #[trigger] normalized(ge@[j].0, ge@[j].1) == x {
                        let j = choose|j: int| 0 <= j < k + 1 && #[trigger] normalized(ge@[j].0, ge@[j].1) == x;
                        if j < k {
                            assert(exists|j: int| 0 <= j < k && #[trigger] normalized(ge@[j].0, ge@[j].1) == x);
                        }
                    }
                }
            }
            k += 1;
        }
        let mut total: i64 = 0;
        let mut i: usize = 0;
        while i < self.potential_weights.len()
            invariant
                self.wf(),
                g == self.spec_graph(),
                p == self.spec_candidates(),
                g.wf(),
                ge@ == g.edge_seq(),
                n == g.n(),
                config@.len() == p.len(),
                i <= p.len(),
                selected_cost(p, config@, i as int) == Some(total as int),
                edges@.no_duplicates(),
                endpoints_below(edges@, n as nat),
                forall|e: (usize, usize)| #[trigger] edges@.contains(e) <==>
                    (exists|j: int| 0 <= j < ge@.len() && #[trigger] normalized(ge@[j].0, ge@[j].1) == e)
                    || (exists|j: int| 0 <= j < i && config@[j] && #[trigger] normalized(p[j].0, p[j].1) == e),
            decreases self.potential_weights.len() - i,
        {
            let (u, v, w) = self.potential_weights[i];
            assert(p[i as int] == (u, v, w));
            if config[i] {
                match total.checked_add(w) {
                    None => {
                        proof { lemma_cost_none_stays(p, config@, i as int + 1, p.len() as int); }
                        return Err(EvaluationError::IntegerOverflow);
                    },
                    Some(t) => {
                        total = t;
                    },
                }
                assert(candidate_issue(g.n(), g.edge_seq(), p, i as int) is None);
                let e = normalize_edge(u, v);
                insert_new(&mut edges, e);
            }
            proof {
                assert forall|x: (usize, usize)| #[trigger] edges@.contains(x) <==>
                    (exists|j: int| 0 <= j < ge@.len() && #[trigger] normalized(ge@[j].0, ge@[j].1) == x)
                    || (exists|j: int| 0 <= j < i + 1 && config@[j] && #[trigger] normalized(p[j].0, p[j].1) == x) by {
                    if exists|j: int| 0 <= j < i + 1 && config@[j] && #[trigger] normalized(p[j].0, p[j].1) == x {
                        let j = choose|j: int| 0 <= j < i + 1 && config@[j] && #[trigger] normalized(p[j].0, p[j].1) == x;
                        if j < i {
                            assert(exists|j: int| 0 <= j < i && config@[j] && #[trigger] normalized(p[j].0, p[j].1) == x);
                        }
                    }
                }
            }
            i += 1;
        }
        if total > self.budget {
            return Ok(None);
        }
        Ok(Some(edges))
    }

    /// Whether the selected candidates fit the budget and make the graph
    /// biconnected; an error for the wrong number of flags or an overflowing sum.
    pub fn evaluate(&self, config: &Vec<bool>) -> (r: Result<Or, EvaluationError>)
        requires
            self.wf(),
            self.spec_graph().n() < 4294967295,
            self.spec_graph().edge_seq().len() + self.spec_candidates().len() < 4294967295,
        ensures
            config@.len() != self.spec_candidates().len() ==> r == Err::<Or, EvaluationError>(EvaluationError::InvalidConfiguration),
            config@.len() == self.spec_candidates().len() ==> match selected_cost(self.spec_candidates(), config@, config@.len() as int) {
                None => r == Err::<Or, EvaluationError>(EvaluationError::IntegerOverflow),
                Some(t) => if t > self.spec_budget() {
                    r == Ok::<Or, EvaluationError>(Or(false))
                } else {
                    exists|es: Seq<(usize, usize)>| #![trigger biconnected(es, self.spec_graph().n())]
                        (forall|e: (usize, usize)| #[trigger] es.contains(e)
                            <==> augmented_edge(self.spec_graph(), self.spec_candidates(), config@, e))
                        && r == Ok::<Or, EvaluationError>(Or(biconnected(es, self.spec_graph().n())))
                },
            },
    {
        if config.len() != self.potential_weights.len() {
            return Err(EvaluationError::InvalidConfiguration);
        }
        match self.augmented_graph(config.as_slice()) {
            Err(e) => Err(e),
            Ok(None) => Ok(Or(false)),
            Ok(Some(edges)) => {
                proof {
                    lemma_distinct_bound(edges@, self.spec_graph().edge_seq(), self.spec_candidates());
                }
                Ok(Or(is_biconnected(self.graph.num_vertices(), edges.as_slice())))
            },
        }
    }

    /// One binary variable per candidate edge.
    pub fn dimensions(&self) -> (r: Vec<usize>)
        ensures
            r@.len() == self.spec_candidates().len(),
            forall|i: int| 0 <= i < r@.len() ==> #[trigger] r@[i] == 2,
    {
        crate::models::graph::uniform_dims(self.potential_weights.len(), 2)
    }
}

/// Appends `e` unless the list has it.
fn insert_new(v: &mut Vec<(usize, usize)>, e: (usize, usize))
    requires
        old(v)@.no_duplicates(),
    ensures
        final(v)@.no_duplicates(),
        forall|x: (usize, usize)| #[trigger] final(v)@.contains(x) <==> old(v)@.contains(x) || x == e,
        old(v)@.contains(e) ==> final(v)@ == old(v)@,
        !old(v)@.contains(e) ==> final(v)@ == old(v)@.push(e),
{
    let mut i: usize = 0;
    while i < v.len()
        invariant
            v@ == old(v)@,
            v@.no_duplicates(),
            i <= v@.len(),
            forall|j: int| 0 <= j < i ==> v@[j] != e,
        decreases v.len() - i,
    {
        if v[i].0 == e.0 && v[i].1 == e.1 {
            return;
        }
        i += 1;
    }
    let ghost before = v@;
    v.push(e);
    proof {
        assert forall|x: (usize, usize)| #[trigger] v@.contains(x) <==> before.contains(x) || x == e by {
            if before.contains(x) {
                let j = choose|j: int| 0 <= j < before.len() && before[j] == x;
                assert(v@[j] == x);
            }
            if x == e {
                assert(v@[before.len() as int] == e);
            }
        }
    }
}

/// A list of distinct edges drawn from two lists is no longer than both together.
proof fn lemma_distinct_bound(es: Seq<(usize, usize)>, a: Seq<(usize, usize)>, p: Seq<(usize, usize, i64)>)
    requires
        es.no_duplicates(),
        forall|e: (usize, usize)| #[trigger] es.contains(e) ==>
            (exists|k: int| 0 <= k < a.len() && #[trigger] normalized(a[k].0, a[k].1) == e)
            || (exists|k: int| 0 <= k < p.len() && #[trigger] normalized(p[k].0, p[k].1) == e),
    ensures
        es.len() <= a.len() + p.len(),
{
    let src = Seq::new(a.len(), |k: int| normalized(a[k].0, a[k].1)) + Seq::new(p.len(), |k: int| normalized(p[k].0, p[k].1));
    assert forall|e: (usize, usize)| es.to_set().contains(e) implies src.to_set().contains(e) by {
        assert(es.contains(e));
        if exists|k: int| 0 <= k < a.len() && #[trigger] normalized(a[k].0, a[k].1) == e {
            let k = choose|k: int| 0 <= k < a.len() && #[trigger] normalized(a[k].0, a[k].1) == e;
            assert(src[k] == e);
        } else {
            let k = choose|k: int| 0 <= k < p.len() && #[trigger] normalized(p[k].0, p[k].1) == e;
            assert(src[a.len() + k] == e);
        }
    }
    es.unique_seq_to_set();
    src.lemma_cardinality_of_set();
    vstd::seq_lib::seq_to_set_is_finite(src);
    vstd::set_lib::lemma_len_subset(es.to_set(), src.to_set());
}

} // verus!
