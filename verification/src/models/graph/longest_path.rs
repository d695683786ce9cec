//! Longest Path: a simple path between two given vertices of largest total length.
use vstd::prelude::*;
use crate::models::graph::bottleneck_traveling_salesman::{degree, lemma_degree_grows};
use crate::models::graph::bounded_diameter_spanning_tree::{chosen_edges, all_positive};
use crate::models::graph::reach::{reachable, reach_all};
use crate::models::graph::{simple_graph_from_create, listed_vertex_count, no_self_loops};
use crate::models::graph::acyclic_partition::max_endpoint_plus_one;
use crate::sums::{selected_sum64, checked_selected_sum};
use crate::topology::{SimpleGraph, endpoints_below};
use crate::types::{ConstructionError, EvaluationError, Max};

verus! {

/// The edges form a simple path from `s` to `t` on the vertices `0..n`:
/// none when `s == t`; otherwise `s` and `t` have one edge end each, every
/// other vertex none or two, and every vertex with an edge end is reachable from `s`.
pub open spec fn simple_st_path(n: nat, edges: Seq<(usize, usize)>, s: int, t: int) -> bool {
    if s == t {
        edges.len() == 0
    } else {
        &&& degree(edges, s, edges.len() as int) == 1
        &&& degree(edges, t, edges.len() as int) == 1
        &&& forall|v: int| 0 <= v < n && v != s && v != t ==>
            (#[trigger] degree(edges, v, edges.len() as int) == 0 || degree(edges, v, edges.len() as int) == 2)
        &&& forall|v: int| 0 <= v < n && degree(edges, v, edges.len() as int) > 0 ==> #[trigger] reachable(edges, s, v)
    }
}

/// The number of edge ends at `v`, if at most `cap`; `None` past it.
fn capped_degree(edges: &[(usize, usize)], v: usize, cap: usize) -> (r: Option<usize>)
    requires
        cap <= 2,
    ensures
        r matches Some(d) ==> d == degree(edges@, v as int, edges@.len() as int) && d <= cap,
        r is None ==> degree(edges@, v as int, edges@.len() as int) > cap,
{
    let mut d: usize = 0;
    let mut k: usize = 0;
    while k < edges.len()
        invariant
            cap <= 2,
            k <= edges@.len(),
            d == degree(edges@, v as int, k as int),
            d <= cap,
        decreases edges.len() - k,
    {
        let add: usize = (if edges[k].0 == v { 1 } else { 0 }) + (if edges[k].1 == v { 1 } else { 0 });
        if d + add > cap {
            proof { lemma_degree_grows(edges@, v as int, k as int + 1, edges@.len() as int); }
            return None;
        }
        d = d + add;
        k += 1;
    }
    Some(d)
}

/// Whether the selected edges form a simple path from `s` to `t` (`false`
/// unless there is one flag per edge).
#[verifier::loop_isolation(false)]
pub fn is_simple_st_path(n: usize, edges: &[(usize, usize)], s: usize, t: usize, config: &[bool]) -> (r: bool)
    requires
        endpoints_below(edges@, n as nat),
        s < n,
        t < n,
    ensures
        r == (config@.len() == edges@.len() && simple_st_path(n as nat, chosen_edges(edges@, config@, edges@.len() as int), s as int, t as int)),
{
    if config.len() != edges.len() {
        return false;
    }
    let mut sel: Vec<(usize, usize)> = Vec::new();
    let mut k: usize = 0;
    while k < edges.len()
        invariant
            k <= edges@.len(),
            sel@ == chosen_edges(edges@, config@, k as int),
            endpoints_below(sel@, n as nat),
        decreases edges.len() - k,
    {
        if config[k] {
            sel.push(edges[k]);
        }
        k += 1;
    }
    let ghost es = sel@;
    if s == t {
        return sel.len() == 0;
    }
    match capped_degree(sel.as_slice(), s, 1) {
        Some(d) => if d != 1 { return false; },
        None => { return false; },
    }
    match capped_degree(sel.as_slice(), t, 1) {
        Some(d) => if d != 1 { return false; },
        None => { return false; },
    }
    let from_s = reach_all(n, sel.as_slice(), s);
    let mut v: usize = 0;
    while v < n
        invariant
            v <= n,
            from_s@.len() == n,
            forall|y: int| 0 <= y < n ==> #[trigger] from_s@[y] == reachable(es, s as int, y),
            forall|y: int| 0 <= y < v && y != s && y != t ==>
                (#[trigger] degree(es, y, es.len() as int) == 0 || degree(es, y, es.len() as int) == 2),
            forall|y: int| 0 <= y < v && degree(es, y, es.len() as int) > 0 ==> #[trigger] reachable(es, s as int, y),
        decreases n - v,
    {
        let d = match capped_degree(sel.as_slice(), v, 2) {
            Some(d) => d,
            None => {
                if v == s || v == t {
                    assert(degree(es, v as int, es.len() as int) > 1);
                }
                return false;
            },
        };
        if v != s && v != t && d == 1 {
            return false;
        }
        if d > 0 && !from_s[v] {
            return false;
        }
        v += 1;
    }
    true
}

/// Given a graph with positive edge lengths and two vertices, find a simple
/// path between them of largest total length; the variables are the edges.
#[derive(Debug, Clone)]
pub struct LongestPath {
    graph: SimpleGraph,
    edge_lengths: Vec<i64>,
    source_vertex: usize,
    target_vertex: usize,
}

impl LongestPath {
    /// The graph.
    pub closed spec fn spec_graph(&self) -> SimpleGraph {
        self.graph
    }

    /// The edge lengths.
    pub closed spec fn spec_lengths(&self) -> Seq<i64> {
        self.edge_lengths@
    }

    /// The source vertex.
    pub closed spec fn spec_source(&self) -> usize {
        self.source_vertex
    }

    /// The target vertex.
    pub closed spec fn spec_target(&self) -> usize {
        self.target_vertex
    }

    /// Positive lengths, one per edge, and both end vertices in the graph.
    pub open spec fn wf(&self) -> bool {
        &&& self.spec_graph().wf()
        &&& self.spec_lengths().len() == self.spec_graph().edge_seq().len()
        &&& all_positive(self.spec_lengths())
        &&& self.spec_source() < self.spec_graph().n()
        &&& self.spec_target() < self.spec_graph().n()
    }

    /// An instance; panics unless the lengths are positive, one per edge,
    /// and both end vertices are in the graph.
    pub fn new(graph: SimpleGraph, edge_lengths: Vec<i64>, source_vertex: usize, target_vertex: usize) -> (r: Self)
        requires
            graph.wf(),
            edge_lengths@.len() == graph.edge_seq().len(),
            all_positive(edge_lengths@),
            source_vertex < graph.n(),
            target_vertex < graph.n(),
        ensures
            r.wf(),
            r.spec_graph() == graph,
            r.spec_lengths() == edge_lengths@,
            r.spec_source() == source_vertex,
            r.spec_target() == target_vertex,
    {
        LongestPath { graph, edge_lengths, source_vertex, target_vertex }
    }

    /// An instance, or an error: `LengthMismatch` unless there is one length
    /// per edge, `InvalidValue` for a length that is not positive,
    /// `OutOfRange` for an end vertex outside the graph.
    pub fn try_new(graph: SimpleGraph, edge_lengths: Vec<i64>, source_vertex: usize, target_vertex: usize)
        -> (r: Result<Self, ConstructionError>)
        requires
            graph.wf(),
        ensures
            edge_lengths@.len() != graph.edge_seq().len() ==> r == Err::<Self, ConstructionError>(ConstructionError::LengthMismatch),
            edge_lengths@.len() == graph.edge_seq().len() && !all_positive(edge_lengths@)
                ==> r == Err::<Self, ConstructionError>(ConstructionError::InvalidValue),
            edge_lengths@.len() == graph.edge_seq().len() && all_positive(edge_lengths@)
                && (source_vertex >= graph.n() || target_vertex >= graph.n())
                ==> r == Err::<Self, ConstructionError>(ConstructionError::OutOfRange),
            r is Ok <==> edge_lengths@.len() == graph.edge_seq().len() && all_positive(edge_lengths@)
                && source_vertex < graph.n() && target_vertex < graph.n(),
            r matches Ok(p) ==> p.wf() && p.spec_graph() == graph && p.spec_lengths() == edge_lengths@
                && p.spec_source() == source_vertex && p.spec_target() == target_vertex,
    {
        match Self::check_weights(&graph, &edge_lengths) {
            Err(e) => return Err(e),
            Ok(()) => {},
        }
        if source_vertex >= graph.num_vertices() || target_vertex >= graph.num_vertices() {
            return Err(ConstructionError::OutOfRange);
        }
        Ok(LongestPath { graph, edge_lengths, source_vertex, target_vertex })
    }

    /// Builds an instance from listed parts: the graph as by
    /// `simple_graph_from_create`, then as by `try_new`.
    pub fn try_from_spec(edges: Vec<(usize, usize)>, num_vertices: Option<usize>, edge_lengths: Vec<i64>,
        source_vertex: usize, target_vertex: usize) -> (r: Result<Self, ConstructionError>)
        ensures
            r is Ok <==> {
                &&& !(edges@.len() == 0 && num_vertices is None)
                &&& no_self_loops(edges@)
                &&& max_endpoint_plus_one(edges@, edges@.len() as int) <= usize::MAX
                &&& max_endpoint_plus_one(edges@, edges@.len() as int) <= listed_vertex_count(edges@, num_vertices)
                &&& edge_lengths@.len() == edges@.len() && all_positive(edge_lengths@)
                &&& source_vertex < listed_vertex_count(edges@, num_vertices)
                &&& target_vertex < listed_vertex_count(edges@, num_vertices)
            },
            r matches Ok(p) ==> p.wf() && p.spec_graph().edge_seq() == edges@
                && p.spec_graph().n() == listed_vertex_count(edges@, num_vertices)
                && p.spec_lengths() == edge_lengths@ && p.spec_source() == source_vertex && p.spec_target() == target_vertex,
    {
        let graph = match simple_graph_from_create(edges, num_vertices) {
            Ok(g) => g,
            Err(e) => return Err(e),
        };
        Self::try_new(graph, edge_lengths, source_vertex, target_vertex)
    }

    /// `Ok` when there is one positive length per edge; otherwise
    /// `LengthMismatch` or `InvalidValue`.
    #[verifier::loop_isolation(false)]
    fn check_weights(graph: &SimpleGraph, weights: &Vec<i64>) -> (r: Result<(), ConstructionError>)
        ensures
            weights@.len() != graph.edge_seq().len() ==> r == Err::<(), ConstructionError>(ConstructionError::LengthMismatch),
            weights@.len() == graph.edge_seq().len() && !all_positive(weights@)
                ==> r == Err::<(), ConstructionError>(ConstructionError::InvalidValue),
            r is Ok <==> weights@.len() == graph.edge_seq().len() && all_positive(weights@),
    {
        if weights.len() != graph.num_edges() {
            return Err(ConstructionError::LengthMismatch);
        }
        let mut i: usize = 0;
        while i < weights.len()
            invariant
                i <= weights@.len(),
                forall|j: int| 0 <= j < i ==> #[trigger] weights@[j] > 0,
            decreases weights.len() - i,
        {
            if weights[i] <= 0 {
                return Err(ConstructionError::InvalidValue);
            }
            i += 1;
        }
        Ok(())
    }

    /// The graph.
    pub fn graph(&self) -> (r: &SimpleGraph)
        ensures
            *r == self.spec_graph(),
    {
        &self.graph
    }

    /// The edge lengths.
    pub fn edge_lengths(&self) -> (r: &[i64])
        ensures
            r@ == self.spec_lengths(),
    {
        self.edge_lengths.as_slice()
    }

    /// Replaces the lengths; panics unless they are positive, one per edge.
    pub fn set_lengths(&mut self, edge_lengths: Vec<i64>)
        requires
            old(self).wf(),
            edge_lengths@.len() == old(self).spec_graph().edge_seq().len(),
            all_positive(edge_lengths@),
        ensures
            final(self).wf(),
            final(self).spec_lengths() == edge_lengths@,
            final(self).spec_graph() == old(self).spec_graph(),
            final(self).spec_source() == old(self).spec_source(),
            final(self).spec_target() == old(self).spec_target(),
    {
        self.edge_lengths = edge_lengths;
    }

    /// The source vertex.
    pub fn source_vertex(&self) -> (r: usize)
        ensures
            r == self.spec_source(),
    {
        self.source_vertex
    }

    /// The target vertex.
    pub fn target_vertex(&self) -> (r: usize)
        ensures
            r == self.spec_target(),
    {
        self.target_vertex
    }

    /// Integer lengths are never the unit weight type.
    pub fn is_weighted(&self) -> (r: bool)
        ensures
            r,
    {
        true
    }

    /// Number of vertices.
    pub fn num_vertices(&self) -> (r: usize)
        ensures
            r == self.spec_graph().n(),
    {
        self.graph.num_vertices()
    }

    /// Number of edges.
    pub fn num_edges(&self) -> (r: usize)
        ensures
            r == self.spec_graph().edge_seq().len(),
    {
        self.graph.num_edges()
    }

    /// Whether the selected edges form a simple path between the two vertices.
    pub fn is_valid_solution(&self, config: &[bool]) -> (r: bool)
        requires
            self.wf(),
        ensures
            r == (config@.len() == self.spec_graph().edge_seq().len() && simple_st_path(self.spec_graph().n(),
                chosen_edges(self.spec_graph().edge_seq(), config@, config@.len() as int), self.spec_source() as int, self.spec_target() as int)),
    {
        is_simple_st_path(self.graph.num_vertices(), self.graph.edge_list().as_slice(), self.source_vertex, self.target_vertex, config)
    }

    /// The total length of the selected path (`None` when the selection is
    /// not such a path); an error for the wrong number of flags or an overflowing sum.
    pub fn evaluate(&self, config: &Vec<bool>) -> (r: Result<Max<i64>, EvaluationError>)
        requires
            self.wf(),
        ensures
            config@.len() != self.spec_graph().edge_seq().len() ==> r == Err::<Max<i64>, EvaluationError>(EvaluationError::InvalidConfiguration),
            config@.len() == self.spec_graph().edge_seq().len() ==> r == (if !simple_st_path(self.spec_graph().n(),
                chosen_edges(self.spec_graph().edge_seq(), config@, config@.len() as int), self.spec_source() as int, self.spec_target() as int) {
                Ok::<Max<i64>, EvaluationError>(Max(None))
            } else {
                match selected_sum64(config@, self.spec_lengths()) {
                    Some(t) => Ok::<Max<i64>, EvaluationError>(Max(Some(t as i64))),
                    None => Err(EvaluationError::IntegerOverflow),
                }
            }),
    {
        if config.len() != self.graph.num_edges() {
            return Err(EvaluationError::InvalidConfiguration);
        }
        if !self.is_valid_solution(config.as_slice()) {
            return Ok(Max(None));
        }
        match checked_selected_sum(config, self.edge_lengths.as_slice()) {
            Ok(t) => Ok(Max(Some(t))),
            Err(e) => Err(e),
        }
    }

    /// One binary variable per edge.
    pub fn dimensions(&self) -> (r: Vec<usize>)
        ensures
            r@.len() == self.spec_graph().edge_seq().len(),
            forall|i: int| 0 <= i < r@.len() ==> #[trigger] r@[i] == 2,
    {
        crate::models::graph::uniform_dims(self.graph.num_edges(), 2)
    }
}

} // verus!
