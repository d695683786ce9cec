//! Kth Best Spanning Tree: `K` distinct spanning trees, each of weight at
//! most a bound.
use vstd::prelude::*;
use crate::models::graph::bounded_diameter_spanning_tree::chosen_edges;
use crate::models::graph::props::{count_true, count_selected};
use crate::models::graph::reach::{reachable, reach_all};
use crate::models::graph::{simple_graph_from_create, listed_vertex_count, no_self_loops};
use crate::models::graph::acyclic_partition::max_endpoint_plus_one;
use crate::sums::{selected_sum64, checked_selected_sum};
use crate::topology::{SimpleGraph, endpoints_below};
use crate::types::{ConstructionError, EvaluationError, Or};

verus! {

/// The value of one candidate tree: `false` unless it has as many edges as
/// the vertices less one (none for at most one vertex); an overflow error
/// when its weight sum overflows; `false` above the bound; otherwise
/// whether every vertex is reached from the tail of its first edge (always
/// for at most one vertex).
pub open spec fn tree_result(g: SimpleGraph, w: Seq<i64>, bound: int, sel: Seq<bool>) -> Result<bool, EvaluationError> {
    let n = g.n();
    let chosen = chosen_edges(g.edge_seq(), sel, sel.len() as int);
    if count_true(sel) != (if n == 0 { 0 } else { n - 1 }) {
        Ok(false)
    } else {
        match selected_sum64(sel, w) {
            None => Err(EvaluationError::IntegerOverflow),
            Some(t) => if t > bound {
                Ok(false)
            } else if n <= 1 {
                Ok(true)
            } else {
                Ok(forall|v: int| 0 <= v < n ==> #[trigger] reachable(chosen, chosen[0].0 as int, v))
            },
        }
    }
}

/// Checking the first `k` trees in order: an error or `false` at the first that is not `Ok(true)`.
pub open spec fn trees_result(g: SimpleGraph, w: Seq<i64>, bound: int, trees: Seq<Seq<bool>>, k: int) -> Result<bool, EvaluationError>
    decreases k,
{
    if k <= 0 {
        Ok(true)
    } else {
        match trees_result(g, w, bound, trees, k - 1) {
            Ok(true) => tree_result(g, w, bound, trees[k - 1]),
            other => other,
        }
    }
}

proof fn lemma_trees_stop(g: SimpleGraph, w: Seq<i64>, bound: int, trees: Seq<Seq<bool>>, a: int, b: int)
    requires
        0 <= a <= b,
        trees_result(g, w, bound, trees, a) != Ok::<bool, EvaluationError>(true),
    ensures
        trees_result(g, w, bound, trees, b) == trees_result(g, w, bound, trees, a),
    decreases b - a,
{
    if a < b {
        lemma_trees_stop(g, w, bound, trees, a, b - 1);
    }
}

proof fn lemma_chosen_count(edges: Seq<(usize, usize)>, sel: Seq<bool>, k: int)
    requires
        0 <= k <= sel.len(),
    ensures
        chosen_edges(edges, sel, k).len() == count_true(sel.take(k)),
    decreases k,
{
    if k > 0 {
        lemma_chosen_count(edges, sel, k - 1);
        assert(sel.take(k).drop_last() =~= sel.take(k - 1));
    }
}

/// The trees as flag sequences.
pub open spec fn trees_view(t: Seq<Vec<bool>>) -> Seq<Seq<bool>> {
    t.map_values(|x: Vec<bool>| x@)
}

/// `k` flag lists, each with one flag per edge.
pub open spec fn tree_shapes(trees: Seq<Seq<bool>>, k: nat, m: nat) -> bool {
    trees.len() == k && forall|i: int| 0 <= i < trees.len() ==> (#[trigger] trees[i]).len() == m
}

/// No two of the trees are equal.
pub open spec fn pairwise_distinct(trees: Seq<Seq<bool>>) -> bool {
    forall|i: int, j: int| 0 <= i < j < trees.len() ==> #[trigger] trees[i] != #[trigger] trees[j]
}

/// Given a graph with edge weights, a number `K` and a bound, decide
/// whether there are `K` distinct spanning trees of weight at most the bound.
#[derive(Debug, Clone)]
pub struct KthBestSpanningTree {
    graph: SimpleGraph,
    weights: Vec<i64>,
    k: usize,
    bound: i64,
}

impl KthBestSpanningTree {
    /// The graph.
    pub closed spec fn spec_graph(&self) -> SimpleGraph {
        self.graph
    }

    /// The edge weights.
    pub closed spec fn spec_weights(&self) -> Seq<i64> {
        self.weights@
    }

    /// The number of trees.
    pub closed spec fn spec_k(&self) -> usize {
        self.k
    }

    /// The bound on each tree's weight.
    pub closed spec fn spec_bound(&self) -> i64 {
        self.bound
    }

    /// One weight per edge and a positive number of trees.
    pub open spec fn wf(&self) -> bool {
        self.spec_graph().wf() && self.spec_weights().len() == self.spec_graph().edge_seq().len() && self.spec_k() > 0
    }

    /// An instance; panics unless there is one weight per edge and `k > 0`.
    pub fn new(graph: SimpleGraph, weights: Vec<i64>, k: usize, bound: i64) -> (r: Self)
        requires
            graph.wf(),
            weights@.len() == graph.edge_seq().len(),
            k > 0,
        ensures
            r.wf(),
            r.spec_graph() == graph,
            r.spec_weights() == weights@,
            r.spec_k() == k,
            r.spec_bound() == bound,
    {
        KthBestSpanningTree { graph, weights, k, bound }
    }

    /// Builds an instance from listed parts: the graph as by
    /// `simple_graph_from_create`; `LengthMismatch` unless there is one
    /// weight per edge, `InvalidValue` for `k == 0`.
    pub fn try_from_spec(edges: Vec<(usize, usize)>, num_vertices: Option<usize>, weights: Vec<i64>, k: usize, bound: i64)
        -> (r: Result<Self, ConstructionError>)
        ensures
            r is Ok <==> {
                &&& !(edges@.len() == 0 && num_vertices is None)
                &&& no_self_loops(edges@)
                &&& max_endpoint_plus_one(edges@, edges@.len() as int) <= usize::MAX
                &&& max_endpoint_plus_one(edges@, edges@.len() as int) <= listed_vertex_count(edges@, num_vertices)
                &&& weights@.len() == edges@.len()
                &&& k > 0
            },
            r matches Ok(p) ==> p.wf() && p.spec_graph().edge_seq() == edges@
                && p.spec_graph().n() == listed_vertex_count(edges@, num_vertices)
                && p.spec_weights() == weights@ && p.spec_k() == k && p.spec_bound() == bound,
    {
        let graph = match simple_graph_from_create(edges, num_vertices) {
            Ok(g) => g,
            Err(e) => return Err(e),
        };
        if weights.len() != graph.num_edges() {
            return Err(ConstructionError::LengthMismatch);
        }
        if k == 0 {
            return Err(ConstructionError::InvalidValue);
        }
        Ok(KthBestSpanningTree { graph, weights, k, bound })
    }

    /// The graph.
    pub fn graph(&self) -> (r: &SimpleGraph)
        ensures
            *r == self.spec_graph(),
    {
        &self.graph
    }

    /// The edge weights.
    pub fn weights(&self) -> (r: &[i64])
        ensures
            r@ == self.spec_weights(),
    {
        self.weights.as_slice()
    }

    /// The number of trees.
    pub fn k(&self) -> (r: usize)
        ensures
            r == self.spec_k(),
    {
        self.k
    }

    /// The bound on each tree's weight.
    pub fn bound(&self) -> (r: i64)
        ensures
            r == self.spec_bound(),
    {
        self.bound
    }

    /// Number of vertices.
    pub fn num_vertices(&self) -> (r: usize)
        ensures
            r == self.spec_graph().n(),
    {
        self.graph.num_vertices()
    }

    /// Number of edges.
    pub fn num_edges(&self) -> (r: usize)
        ensures
            r == self.spec_graph().edge_seq().len(),
    {
        self.graph.num_edges()
    }

    /// Integer weights are never the unit weight type.
    pub fn is_weighted(&self) -> (r: bool)
        ensures
            r,
    {
        true
    }

    /// The value of one candidate tree.
    #[verifier::loop_isolation(false)]
    fn block_is_valid_tree(&self, block: &Vec<bool>) -> (r: Result<bool, EvaluationError>)
        requires
            self.wf(),
            block@.len() == self.spec_graph().edge_seq().len(),
        ensures
            r == tree_result(self.spec_graph(), self.spec_weights(), self.spec_bound() as int, block@),
    {
        let n = self.graph.num_vertices();
        let ghost es = self.spec_graph().edge_seq();
        let count = count_selected(block.as_slice());
        let target = if n == 0 { 0 } else { n - 1 };
        if count != target {
            return Ok(false);
        }
        let total = match checked_selected_sum(block, self.weights.as_slice()) {
            Ok(t) => t,
            Err(e) => return Err(e),
        };
        if total > self.bound {
            return Ok(false);
        }
        if n <= 1 {
            return Ok(true);
        }
        let edges = self.graph.edge_list();
        let mut chosen: Vec<(usize, usize)> = Vec::new();
        let mut k: usize = 0;
        while k < edges.len()
            invariant
                edges@ == es,
                k <= es.len(),
                chosen@ == chosen_edges(es, block@, k as int),
                endpoints_below(chosen@, n as nat),
            decreases edges.len() - k,
        {
            if block[k] {
                chosen.push(edges[k]);
            }
            k += 1;
        }
        proof {
            lemma_chosen_count(es, block@, block@.len() as int);
            assert(block@.take(block@.len() as int) =~= block@);
        }
        let start = chosen[0].0;
        let seen = reach_all(n, chosen.as_slice(), start);
        let mut v: usize = 0;
        while v < n
            invariant
                v <= n,
                seen@.len() == n,
                forall|x: int| 0 <= x < n ==> #[trigger] seen@[x] == reachable(chosen@, start as int, x),
                forall|x: int| 0 <= x < v ==> #[trigger] reachable(chosen@, start as int, x),
            decreases n - v,
        {
            if !seen[v] {
                assert(!reachable(chosen@, start as int, v as int));
                return Ok(false);
            }
            v += 1;
        }
        Ok(true)
    }

    /// Whether no two of the trees are equal.
    fn blocks_are_pairwise_distinct(&self, config: &Vec<Vec<bool>>) -> (r: bool)
        ensures
            r == pairwise_distinct(trees_view(config@)),
    {
        let ghost tv = trees_view(config@);
        let mut left: usize = 0;
        while left < config.len()
            invariant
                tv == trees_view(config@),
                left <= config@.len(),
                forall|i: int, j: int| 0 <= i < left && i < j < config@.len() ==> #[trigger] tv[i] != #[trigger] tv[j],
            decreases config.len() - left,
        {
            let mut right: usize = left + 1;
            while right < config.len()
                invariant
                    tv == trees_view(config@),
                    left < config@.len(),
                    left + 1 <= right <= config@.len(),
                    forall|i: int, j: int| 0 <= i < left && i < j < config@.len() ==> #[trigger] tv[i] != #[trigger] tv[j],
                    forall|j: int| left < j < right ==> #[trigger] tv[j] != tv[left as int],
                decreases config.len() - right,
            {
                if same_flags(&config[left], &config[right]) {
                    assert(tv[left as int] == tv[right as int]);
                    return false;
                }
                right += 1;
            }
            left += 1;
        }
        true
    }

    /// Whether `config` lists `K` distinct trees, each a spanning tree of
    /// weight at most the bound; an error when a tree's weight overflows.
    #[verifier::loop_isolation(false)]
    pub fn is_valid_solution(&self, config: &Vec<Vec<bool>>) -> (r: Result<bool, EvaluationError>)
        requires
            self.wf(),
        ensures
            r == (if !tree_shapes(trees_view(config@), self.spec_k() as nat, self.spec_graph().edge_seq().len()) {
                Ok::<bool, EvaluationError>(false)
            } else if !pairwise_distinct(trees_view(config@)) {
                Ok::<bool, EvaluationError>(false)
            } else {
                trees_result(self.spec_graph(), self.spec_weights(), self.spec_bound() as int, trees_view(config@), config@.len() as int)
            }),
    {
        let ghost tv = trees_view(config@);
        let m = self.graph.num_edges();
        if config.len() != self.k {
            return Ok(false);
        }
        let mut i: usize = 0;
        while i < config.len()
            invariant
                tv == trees_view(config@),
                i <= config@.len(),
                forall|j: int| 0 <= j < i ==> (#[trigger] tv[j]).len() == m,
            decreases config.len() - i,
        {
            if config[i].len() != m {
                assert(tv[i as int].len() != m);
                return Ok(false);
            }
            i += 1;
        }
        if !self.blocks_are_pairwise_distinct(config) {
            return Ok(false);
        }
        let mut t: usize = 0;
        while t < config.len()
            invariant
                self.wf(),
                tv == trees_view(config@),
                m == self.spec_graph().edge_seq().len(),
                forall|j: int| 0 <= j < config@.len() ==> (#[trigger] tv[j]).len() == m,
                t <= config@.len(),
                trees_result(self.spec_graph(), self.spec_weights(), self.spec_bound() as int, tv, t as int) == Ok::<bool, EvaluationError>(true),
            decreases config.len() - t,
        {
            assert(config@[t as int]@ == tv[t as int]);
            match self.block_is_valid_tree(&config[t]) {
                Err(e) => {
                    proof { lemma_trees_stop(self.spec_graph(), self.spec_weights(), self.spec_bound() as int, tv, t as int + 1, config@.len() as int); }
                    return Err(e);
                },
                Ok(false) => {
                    proof { lemma_trees_stop(self.spec_graph(), self.spec_weights(), self.spec_bound() as int, tv, t as int + 1, config@.len() as int); }
                    return Ok(false);
                },
                Ok(true) => {},
            }
            t += 1;
        }
        Ok(true)
    }

    /// Whether `solution` is a valid set of trees; an error unless it has
    /// `K` lists of one flag per edge, or when a tree's weight overflows.
    pub fn evaluate(&self, solution: &Vec<Vec<bool>>) -> (r: Result<Or, EvaluationError>)
        requires
            self.wf(),
        ensures
            !tree_shapes(trees_view(solution@), self.spec_k() as nat, self.spec_graph().edge_seq().len())
                ==> r == Err::<Or, EvaluationError>(EvaluationError::InvalidConfiguration),
            tree_shapes(trees_view(solution@), self.spec_k() as nat, self.spec_graph().edge_seq().len())
                ==> r == (if !pairwise_distinct(trees_view(solution@)) {
                    Ok::<Or, EvaluationError>(Or(false))
                } else {
                    match trees_result(self.spec_graph(), self.spec_weights(), self.spec_bound() as int, trees_view(solution@), solution@.len() as int) {
                        Ok(b) => Ok::<Or, EvaluationError>(Or(b)),
                        Err(e) => Err(e),
                    }
                }),
    {
        match self.is_valid_solution(solution) {
            Ok(b) => {
                if solution.len() != self.k || !all_lengths(solution, self.graph.num_edges()) {
                    return Err(EvaluationError::InvalidConfiguration);
                }
                Ok(Or(b))
            },
            Err(e) => Err(e),
        }
    }

    /// One binary variable per edge of each tree; panics when `K` times the
    /// number of edges leaves `usize`.
    pub fn dimensions(&self) -> (r: Vec<usize>)
        requires
            self.spec_k() * self.spec_graph().edge_seq().len() <= usize::MAX,
        ensures
            r@.len() == self.spec_k() * self.spec_graph().edge_seq().len(),
            forall|i: int| 0 <= i < r@.len() ==> #[trigger] r@[i] == 2,
    {
        crate::models::graph::uniform_dims(self.k * self.graph.num_edges(), 2)
    }
}

/// Whether the two flag lists are equal.
fn same_flags(a: &Vec<bool>, b: &Vec<bool>) -> (r: bool)
    ensures
        r == (a@ == b@),
{
    if a.len() != b.len() {
        return false;
    }
    let mut i: usize = 0;
    while i < a.len()
        invariant
            a@.len() == b@.len(),
            i <= a@.len(),
            forall|j: int| 0 <= j < i ==> a@[j] == b@[j],
        decreases a.len() - i,
    {
        if a[i] != b[i] {
            return false;
        }
        i += 1;
    }
    assert(a@ =~= b@);
    true
}

/// Whether every list has `m` entries.
fn all_lengths(lists: &Vec<Vec<bool>>, m: usize) -> (r: bool)
    ensures
        r == forall|i: int| 0 <= i < lists@.len() ==> (#[trigger] trees_view(lists@)[i]).len() == m,
{
    let mut i: usize = 0;
    while i < lists.len()
        invariant
            i <= lists@.len(),
            forall|j: int| 0 <= j < i ==> (#[trigger] trees_view(lists@)[j]).len() == m,
        decreases lists.len() - i,
    {
        if lists[i].len() != m {
            assert(trees_view(lists@)[i as int].len() != m);
            return false;
        }
        i += 1;
    }
    true
}

} // verus!
