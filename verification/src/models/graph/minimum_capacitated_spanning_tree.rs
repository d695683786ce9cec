//! Minimum Capacitated Spanning Tree: a minimum-weight spanning tree, rooted
//! at a given vertex, in which the requirements of the vertices below every
//! tree edge add up to at most a capacity.
use vstd::prelude::*;
use crate::models::graph::bounded_diameter_spanning_tree::chosen_edges;
use crate::models::graph::props::{count_true, count_selected};
use crate::models::graph::reach::{reachable, reach_all};
use crate::sums::{fits64, selected_sum64, checked_selected_sum};
use crate::topology::{SimpleGraph, endpoints_below};
use crate::types::{EvaluationError, Min};

use crate::types::ConstructionError;
use crate::models::graph::weights_or_ones;
verus! {

/// The first `k` edges of the list that do not touch `v`.
pub open spec fn avoiding(edges: Seq<(usize, usize)>, v: int, k: int) -> Seq<(usize, usize)>
    decreases k,
{
    if k <= 0 {
        Seq::empty()
    } else {
        let prev = avoiding(edges, v, k - 1);
        if edges[k - 1].0 as int != v && edges[k - 1].1 as int != v { prev.push(edges[k - 1]) } else { prev }
    }
}

/// The vertices below `v` when the tree hangs from `root`: those cut off
/// from the root once `v` is removed (`v` itself among them); every vertex
/// for the root.
pub open spec fn below(tree: Seq<(usize, usize)>, root: int, v: int, n: nat) -> Seq<bool> {
    Seq::new(n, |u: int| v == root || !reachable(avoiding(tree, v, tree.len() as int), root, u))
}

/// Sum of the first `k` requirements of the marked vertices.
pub open spec fn marked_total(req: Seq<i64>, marked: Seq<bool>, k: int) -> int
    decreases k,
{
    if k <= 0 {
        0
    } else {
        marked_total(req, marked, k - 1) + if marked[k - 1] { req[k - 1] as int } else { 0 }
    }
}

/// The total requirement below `v`.
pub open spec fn load(tree: Seq<(usize, usize)>, req: Seq<i64>, root: int, v: int, n: nat) -> int {
    marked_total(req, below(tree, root, v, n), n as int)
}

/// The selected edges form a spanning tree: `n - 1` of them, connecting
/// every vertex to vertex 0.
pub open spec fn spanning_tree(g: SimpleGraph, sel: Seq<bool>) -> bool {
    let tree = chosen_edges(g.edge_seq(), sel, sel.len() as int);
    &&& sel.len() == g.edge_seq().len()
    &&& count_true(sel) + 1 == g.n()
    &&& forall|u: int| 0 <= u < g.n() ==> #[trigger] reachable(tree, 0, u)
}

/// The capacity check of a spanning tree: an overflow error when the load
/// below some vertex (the root's being the total) leaves `i64`, otherwise
/// whether every vertex but the root has a load within the capacity.
pub open spec fn capacity_result(tree: Seq<(usize, usize)>, req: Seq<i64>, root: int, cap: i64, n: nat) -> Result<bool, EvaluationError> {
    if exists|v: int| 0 <= v < n && !fits64(#[trigger] load(tree, req, root, v, n)) {
        Err(EvaluationError::IntegerOverflow)
    } else {
        Ok(forall|v: int| 0 <= v < n && v != root ==> #[trigger] load(tree, req, root, v, n) <= cap)
    }
}

/// Whether a selection is a spanning tree meeting the capacity.
pub open spec fn valid_result(g: SimpleGraph, req: Seq<i64>, root: int, cap: i64, sel: Seq<bool>) -> Result<bool, EvaluationError> {
    if !spanning_tree(g, sel) {
        Ok(false)
    } else {
        capacity_result(chosen_edges(g.edge_seq(), sel, sel.len() as int), req, root, cap, g.n())
    }
}

/// Given a graph with edge weights, a root, vertex requirements and a
/// capacity, find a minimum-weight spanning tree in which the requirements
/// below every vertex other than the root add up to at most the capacity.
#[derive(Debug, Clone)]
pub struct MinimumCapacitatedSpanningTree {
    graph: SimpleGraph,
    weights: Vec<i64>,
    root: usize,
    requirements: Vec<i64>,
    capacity: i64,
}

/// The edges of `tree` that do not touch `v`.
fn edges_avoiding(tree: &Vec<(usize, usize)>, v: usize, n: usize) -> (r: Vec<(usize, usize)>)
    requires
        endpoints_below(tree@, n as nat),
    ensures
        r@ == avoiding(tree@, v as int, tree@.len() as int),
        endpoints_below(r@, n as nat),
{
    let mut r: Vec<(usize, usize)> = Vec::new();
    let mut k: usize = 0;
    while k < tree.len()
        invariant
            k <= tree@.len(),
            endpoints_below(tree@, n as nat),
            r@ == avoiding(tree@, v as int, k as int),
            endpoints_below(r@, n as nat),
        decreases tree.len() - k,
    {
        let (a, b) = tree[k];
        if a != v && b != v {
            r.push((a, b));
        }
        k += 1;
    }
    r
}

/// The load below `v`, exactly, in `i128`.
fn load_of(tree: &Vec<(usize, usize)>, req: &Vec<i64>, root: usize, v: usize, n: usize) -> (r: i128)
    requires
        endpoints_below(tree@, n as nat),
        req@.len() == n,
        root < n,
    ensures
        r == load(tree@, req@, root as int, v as int, n as nat),
{
    let ghost marked = below(tree@, root as int, v as int, n as nat);
    let mut keep: Vec<bool> = Vec::new();
    if v == root {
        let mut u: usize = 0;
        while u < n
            invariant
                u <= n,
                keep@.len() == u,
                forall|x: int| 0 <= x < u ==> #[trigger] keep@[x],
            decreases n - u,
        {
            keep.push(true);
            u += 1;
        }
    } else {
        let rest = edges_avoiding(tree, v, n);
        let reach = reach_all(n, rest.as_slice(), root);
        let mut u: usize = 0;
        while u < n
            invariant
                u <= n,
                reach@.len() == n,
                forall|x: int| 0 <= x < n ==> #[trigger] reach@[x] == reachable(rest@, root as int, x),
                keep@.len() == u,
                forall|x: int| 0 <= x < u ==> #[trigger] keep@[x] == !reach@[x],
            decreases n - u,
        {
            keep.push(!reach[u]);
            u += 1;
        }
    }
    assert(keep@ =~= marked);
    let mut total: i128 = 0;
    let mut u: usize = 0;
    while u < n
        invariant
            u <= n,
            keep@ == marked,
            marked.len() == n,
            req@.len() == n,
            total == marked_total(req@, marked, u as int),
            -(u as int) * 0x8000_0000_0000_0000 <= total <= (u as int) * 0x8000_0000_0000_0000,
        decreases n - u,
    {
        if keep[u] {
            total = total + req[u] as i128;
        }
        u += 1;
    }
    total
}

impl MinimumCapacitatedSpanningTree {
    /// The underlying graph.
    pub closed spec fn spec_graph(&self) -> SimpleGraph {
        self.graph
    }

    /// The edge weights.
    pub closed spec fn spec_weights(&self) -> Seq<i64> {
        self.weights@
    }

    /// The root.
    pub closed spec fn spec_root(&self) -> usize {
        self.root
    }

    /// The vertex requirements.
    pub closed spec fn spec_requirements(&self) -> Seq<i64> {
        self.requirements@
    }

    /// The capacity.
    pub closed spec fn spec_capacity(&self) -> i64 {
        self.capacity
    }

    /// One weight per edge, one requirement per vertex, a root among at
    /// least two vertices.
    pub open spec fn wf(&self) -> bool {
        &&& self.spec_graph().wf()
        &&& self.spec_weights().len() == self.spec_graph().edge_seq().len()
        &&& self.spec_requirements().len() == self.spec_graph().n()
        &&& self.spec_root() < self.spec_graph().n()
        &&& self.spec_graph().n() >= 2
    }

    /// Builds an instance, checking in this order: edge weights (1 each by
    /// default) one per edge (`LengthMismatch`); at least two vertices
    /// (`InvalidValue`); one requirement per vertex (`LengthMismatch`); the
    /// root a vertex (`OutOfRange`).
    pub fn try_from_spec(graph: SimpleGraph, weights: Option<Vec<i64>>, root: usize, requirements: Vec<i64>, capacity: i64)
        -> (r: Result<MinimumCapacitatedSpanningTree, ConstructionError>)
        requires
            graph.wf(),
        ensures
            (weights matches Some(w) && w@.len() != graph.edge_seq().len())
                ==> r == Err::<MinimumCapacitatedSpanningTree, ConstructionError>(ConstructionError::LengthMismatch),
            !(weights matches Some(w) && w@.len() != graph.edge_seq().len()) && graph.n() < 2
                ==> r == Err::<MinimumCapacitatedSpanningTree, ConstructionError>(ConstructionError::InvalidValue),
            !(weights matches Some(w) && w@.len() != graph.edge_seq().len()) && graph.n() >= 2 && requirements@.len() != graph.n()
                ==> r == Err::<MinimumCapacitatedSpanningTree, ConstructionError>(ConstructionError::LengthMismatch),
            !(weights matches Some(w) && w@.len() != graph.edge_seq().len()) && graph.n() >= 2 && requirements@.len() == graph.n()
                && root >= graph.n() ==> r == Err::<MinimumCapacitatedSpanningTree, ConstructionError>(ConstructionError::OutOfRange),
            !(weights matches Some(w) && w@.len() != graph.edge_seq().len()) && graph.n() >= 2 && requirements@.len() == graph.n()
                && root < graph.n() ==> (r matches Ok(p) && p.wf() && p.spec_graph() == graph && p.spec_root() == root
                && p.spec_requirements() == requirements@ && p.spec_capacity() == capacity
                && (weights matches Some(w) ==> p.spec_weights() == w@)
                && (weights is None ==> forall|i: int| 0 <= i < p.spec_weights().len() ==> #[trigger] p.spec_weights()[i] == 1)),
    {
        let m = graph.num_edges();
        let weights = weights_or_ones(weights, m);
        if weights.len() != m {
            return Err(ConstructionError::LengthMismatch);
        }
        let n = graph.num_vertices();
        if n < 2 {
            return Err(ConstructionError::InvalidValue);
        }
        if requirements.len() != n {
            return Err(ConstructionError::LengthMismatch);
        }
        if root >= n {
            return Err(ConstructionError::OutOfRange);
        }
        Ok(MinimumCapacitatedSpanningTree::new(graph, weights, root, requirements, capacity))
    }

    /// Creates an instance; panics unless there is one weight per edge and
    /// one requirement per vertex, the root is a vertex, and there are at
    /// least two vertices.
    pub fn new(graph: SimpleGraph, weights: Vec<i64>, root: usize, requirements: Vec<i64>, capacity: i64) -> (r: Self)
        requires
            graph.wf(),
            weights@.len() == graph.edge_seq().len(),
            requirements@.len() == graph.n(),
            root < graph.n(),
            graph.n() >= 2,
        ensures
            r.wf(),
            r.spec_graph() == graph,
            r.spec_weights() == weights@,
            r.spec_root() == root,
            r.spec_requirements() == requirements@,
            r.spec_capacity() == capacity,
    {
        MinimumCapacitatedSpanningTree { graph, weights, root, requirements, capacity }
    }

    /// The underlying graph.
    pub fn graph(&self) -> (r: &SimpleGraph)
        ensures
            *r == self.spec_graph(),
    {
        &self.graph
    }

    /// The edge weights.
    pub fn weights(&self) -> (r: &[i64])
        ensures
            r@ == self.spec_weights(),
    {
        self.weights.as_slice()
    }

    /// Replaces the edge weights; panics unless there is one per edge.
    pub fn set_weights(&mut self, weights: Vec<i64>)
        requires
            old(self).wf(),
            weights@.len() == old(self).spec_graph().edge_seq().len(),
        ensures
            final(self).wf(),
            final(self).spec_weights() == weights@,
            final(self).spec_graph() == old(self).spec_graph(),
            final(self).spec_root() == old(self).spec_root(),
            final(self).spec_requirements() == old(self).spec_requirements(),
            final(self).spec_capacity() == old(self).spec_capacity(),
    {
        self.weights = weights;
    }

    /// Whether the weights are of a non-unit type: always, for `i64`.
    pub fn is_weighted(&self) -> (r: bool)
        ensures
            r,
    {
        true
    }

    /// The root.
    pub fn root(&self) -> (r: usize)
        ensures
            r == self.spec_root(),
    {
        self.root
    }

    /// The vertex requirements.
    pub fn requirements(&self) -> (r: &[i64])
        ensures
            r@ == self.spec_requirements(),
    {
        self.requirements.as_slice()
    }

    /// The capacity.
    pub fn capacity(&self) -> (r: &i64)
        ensures
            *r == self.spec_capacity(),
    {
        &self.capacity
    }

    /// Number of vertices.
    pub fn num_vertices(&self) -> (r: usize)
        ensures
            r == self.spec_graph().n(),
    {
        self.graph.num_vertices()
    }

    /// Number of edges.
    pub fn num_edges(&self) -> (r: usize)
        ensures
            r == self.spec_graph().edge_seq().len(),
    {
        self.graph.num_edges()
    }

    /// Whether the selected edges form a spanning tree.
    fn is_spanning_tree(&self, config: &[bool]) -> (r: bool)
        requires
            self.wf(),
        ensures
            r == spanning_tree(self.spec_graph(), config@),
    {
        let n = self.graph.num_vertices();
        let edges = self.graph.edge_list();
        let ghost es = self.spec_graph().edge_seq();
        if config.len() != edges.len() {
            return false;
        }
        let count = count_selected(config);
        if count != n - 1 {
            return false;
        }
        let tree = self.chosen(config);
        let from_zero = reach_all(n, tree.as_slice(), 0);
        let mut v: usize = 0;
        while v < n
            invariant
                v <= n,
                n == self.spec_graph().n(),
                from_zero@.len() == n,
                es == self.spec_graph().edge_seq(),
                tree@ == chosen_edges(es, config@, config@.len() as int),
                forall|x: int| 0 <= x < n ==> #[trigger] from_zero@[x] == reachable(tree@, 0, x),
                forall|x: int| 0 <= x < v ==> #[trigger] reachable(tree@, 0, x),
            decreases n - v,
        {
            if !from_zero[v] {
                assert(!reachable(tree@, 0, v as int));
                assert(!spanning_tree(self.spec_graph(), config@));
                return false;
            }
            v += 1;
        }
        true
    }

    /// The selected edges, in order.
    fn chosen(&self, config: &[bool]) -> (r: Vec<(usize, usize)>)
        requires
            self.wf(),
            config@.len() == self.spec_graph().edge_seq().len(),
        ensures
            r@ == chosen_edges(self.spec_graph().edge_seq(), config@, config@.len() as int),
            endpoints_below(r@, self.spec_graph().n()),
    {
        let edges = self.graph.edge_list();
        let ghost es = self.spec_graph().edge_seq();
        let n = self.graph.num_vertices();
        let mut chosen: Vec<(usize, usize)> = Vec::new();
        let mut k: usize = 0;
        while k < edges.len()
            invariant
                k <= es.len(),
                edges@ == es,
                config@.len() == es.len(),
                n == self.spec_graph().n(),
                endpoints_below(es, n as nat),
                chosen@ == chosen_edges(es, config@, k as int),
                endpoints_below(chosen@, n as nat),
            decreases edges.len() - k,
        {
            if config[k] {
                chosen.push(edges[k]);
            }
            k += 1;
        }
        chosen
    }

    /// The capacity check of a spanning tree.
    fn check_capacity(&self, config: &[bool]) -> (r: Result<bool, EvaluationError>)
        requires
            self.wf(),
            config@.len() == self.spec_graph().edge_seq().len(),
        ensures
            r == capacity_result(chosen_edges(self.spec_graph().edge_seq(), config@, config@.len() as int),
                self.spec_requirements(), self.spec_root() as int, self.spec_capacity(), self.spec_graph().n()),
    {
        let n = self.graph.num_vertices();
        let tree = self.chosen(config);
        let ghost req = self.spec_requirements();
        let ghost root = self.root as int;
        let mut overflow = false;
        let mut within = true;
        let mut v: usize = 0;
        while v < n
            invariant
                v <= n,
                n == self.spec_graph().n(),
                req == self.requirements@,
                root == self.root,
                self.wf(),
                endpoints_below(tree@, n as nat),
                overflow == exists|x: int| 0 <= x < v && !fits64(#[trigger] load(tree@, req, root, x, n as nat)),
                within == forall|x: int| 0 <= x < v && x != root ==> #[trigger] load(tree@, req, root, x, n as nat)
                    <= self.capacity,
            decreases n - v,
        {
            let s = load_of(&tree, &self.requirements, self.root, v, n);
            if s < i64::MIN as i128 || s > i64::MAX as i128 {
                overflow = true;
            }
            if v != self.root && s > self.capacity as i128 {
                within = false;
            }
            v += 1;
        }
        if overflow {
            Err(EvaluationError::IntegerOverflow)
        } else {
            Ok(within)
        }
    }

    /// Whether the selected edges form a spanning tree meeting the
    /// capacity; an overflow error when a load leaves `i64`.
    pub fn is_valid_solution(&self, config: &[bool]) -> (r: Result<bool, EvaluationError>)
        requires
            self.wf(),
        ensures
            r == valid_result(self.spec_graph(), self.spec_requirements(), self.spec_root() as int,
                self.spec_capacity(), config@),
    {
        if !self.is_spanning_tree(config) {
            return Ok(false);
        }
        self.check_capacity(config)
    }

    /// The total weight of a valid tree (`None` for any other selection); an
    /// error for the wrong number of flags or an overflowing sum.
    pub fn evaluate(&self, config: &Vec<bool>) -> (r: Result<Min<i64>, EvaluationError>)
        requires
            self.wf(),
        ensures
            config@.len() != self.spec_graph().edge_seq().len() ==> r == Err::<Min<i64>, EvaluationError>(EvaluationError::InvalidConfiguration),
            config@.len() == self.spec_graph().edge_seq().len() ==> r == (match valid_result(self.spec_graph(),
                self.spec_requirements(), self.spec_root() as int, self.spec_capacity(), config@) {
                Err(e) => Err(e),
                Ok(false) => Ok(Min(None)),
                Ok(true) => match selected_sum64(config@, self.spec_weights()) {
                    Some(t) => Ok::<Min<i64>, EvaluationError>(Min(Some(t as i64))),
                    None => Err(EvaluationError::IntegerOverflow),
                },
            }),
    {
        if config.len() != self.graph.num_edges() {
            return Err(EvaluationError::InvalidConfiguration);
        }
        match self.is_valid_solution(config.as_slice()) {
            Err(e) => Err(e),
            Ok(false) => Ok(Min(None)),
            Ok(true) => match checked_selected_sum(config, self.weights.as_slice()) {
                Ok(t) => Ok(Min(Some(t))),
                Err(e) => Err(e),
            },
        }
    }

    /// One binary variable per edge.
    pub fn dimensions(&self) -> (r: Vec<usize>)
        ensures
            r@.len() == self.spec_graph().edge_seq().len(),
            forall|i: int| 0 <= i < r@.len() ==> #[trigger] r@[i] == 2,
    {
        crate::models::graph::uniform_dims(self.graph.num_edges(), 2)
    }
}

} // verus!
