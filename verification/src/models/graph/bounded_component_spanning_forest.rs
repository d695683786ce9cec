//! Bounded Component Spanning Forest: split the vertices into at most `K`
//! connected parts, each of bounded total weight.
use vstd::prelude::*;
use crate::models::graph::reach::{reachable, reach_all};
use crate::sums::seq_sum;
use crate::topology::{SimpleGraph, endpoints_below};

verus! {

/// The weights of the vertices labelled `c`, in vertex order.
pub open spec fn class_weights(labels: Seq<usize>, w: Seq<i64>, c: usize, k: int) -> Seq<int>
    decreases k,
{
    if k <= 0 {
        Seq::empty()
    } else {
        let prev = class_weights(labels, w, c, k - 1);
        if labels[k - 1] == c { prev.push(w[k - 1] as int) } else { prev }
    }
}

/// The edges among the first `k` with both ends labelled `c`.
pub open spec fn class_edges(edges: Seq<(usize, usize)>, labels: Seq<usize>, c: usize, k: int) -> Seq<(usize, usize)>
    decreases k,
{
    if k <= 0 {
        Seq::empty()
    } else {
        let prev = class_edges(edges, labels, c, k - 1);
        let e = edges[k - 1];
        if labels[e.0 as int] == c && labels[e.1 as int] == c { prev.push(e) } else { prev }
    }
}

/// The least vertex labelled `c`.
pub open spec fn class_first(labels: Seq<usize>, c: usize) -> int {
    choose|v: int| 0 <= v < labels.len() && labels[v] == c && forall|u: int| 0 <= u < v ==> labels[u] != c
}

/// Every part is within the weight bound and connected by its own edges.
pub open spec fn parts_ok(g: SimpleGraph, w: Seq<i64>, k: usize, bound: i64, labels: Seq<usize>) -> bool {
    forall|c: usize| c < k && (exists|v: int| 0 <= v < labels.len() && labels[v] == c) ==> {
        &&& seq_sum(#[trigger] class_weights(labels, w, c, labels.len() as int)) <= bound
        &&& forall|v: int| 0 <= v < labels.len() && labels[v] == c
            ==> reachable(class_edges(g.edge_seq(), labels, c, g.edge_seq().len() as int), class_first(labels, c), v)
    }
}

/// A labelling into at most `k` parts, each within the bound and connected.
pub open spec fn forest_ok(g: SimpleGraph, w: Seq<i64>, k: usize, bound: i64, labels: Seq<usize>) -> bool {
    &&& labels.len() == g.n()
    &&& forall|v: int| 0 <= v < labels.len() ==> #[trigger] labels[v] < k
    &&& parts_ok(g, w, k, bound, labels)
}

/// Nonnegative weights, one per vertex.
pub open spec fn weights_ok(w: Seq<i64>, n: nat) -> bool {
    w.len() == n && forall|i: int| 0 <= i < w.len() ==> #[trigger] w[i] >= 0
}

proof fn lemma_class_weights_step(labels: Seq<usize>, w: Seq<i64>, c: usize, k: int)
    requires
        0 < k,
    ensures
        seq_sum(class_weights(labels, w, c, k)) == seq_sum(class_weights(labels, w, c, k - 1))
            + if labels[k - 1] == c { w[k - 1] as int } else { 0 },
{
    let prev = class_weights(labels, w, c, k - 1);
    if labels[k - 1] == c {
        assert(prev.push(w[k - 1] as int).drop_last() =~= prev);
    }
}

proof fn lemma_class_sum_grows(labels: Seq<usize>, w: Seq<i64>, c: usize, a: int, b: int)
    requires
        0 <= a <= b <= w.len(),
        forall|i: int| 0 <= i < w.len() ==> #[trigger] w[i] >= 0,
    ensures
        seq_sum(class_weights(labels, w, c, a)) <= seq_sum(class_weights(labels, w, c, b)),
        seq_sum(class_weights(labels, w, c, a)) >= 0,
    decreases b - a + b,
{
    if a < b {
        lemma_class_sum_grows(labels, w, c, a, b - 1);
        lemma_class_weights_step(labels, w, c, b);
    } else if a > 0 {
        lemma_class_sum_grows(labels, w, c, a - 1, a - 1);
        lemma_class_weights_step(labels, w, c, a);
    }
}

/// The least vertex labelled `c`, if any.
fn find_first(config: &[usize], c: usize) -> (r: Option<usize>)
    ensures
        r is None ==> forall|y: int| 0 <= y < config@.len() ==> config@[y] != c,
        r matches Some(f) ==> f < config@.len() && config@[f as int] == c && f as int == class_first(config@, c),
{
    let mut x: usize = 0;
    while x < config.len()
        invariant
            x <= config@.len(),
            forall|y: int| 0 <= y < x ==> config@[y] != c,
        decreases config.len() - x,
    {
        if config[x] == c {
            proof {
                let f = class_first(config@, c);
                assert(0 <= f < config@.len() && config@[f] == c && forall|u: int| 0 <= u < f ==> config@[u] != c);
                if f < x {
                    assert(config@[f] != c);
                } else if f > x {
                    assert(config@[x as int] != c);
                }
            }
            return Some(x);
        }
        x += 1;
    }
    None
}

/// Whether the vertices labelled `c` weigh at most `bound` together.
fn part_weight_ok(config: &[usize], weights: &Vec<i64>, c: usize, bound: i64) -> (r: bool)
    requires
        config@.len() == weights@.len(),
        forall|i: int| 0 <= i < weights@.len() ==> #[trigger] weights@[i] >= 0,
        seq_sum(class_weights(config@, weights@, c, config@.len() as int)) <= i64::MAX,
    ensures
        r == (seq_sum(class_weights(config@, weights@, c, config@.len() as int)) <= bound),
{
    let n = config.len();
    let mut total: i64 = 0;
    let mut y: usize = 0;
    while y < n
        invariant
            n == config@.len(),
            config@.len() == weights@.len(),
            forall|i: int| 0 <= i < weights@.len() ==> #[trigger] weights@[i] >= 0,
            seq_sum(class_weights(config@, weights@, c, n as int)) <= i64::MAX,
            y <= n,
            total as int == seq_sum(class_weights(config@, weights@, c, y as int)),
        decreases n - y,
    {
        proof {
            lemma_class_weights_step(config@, weights@, c, y as int + 1);
            lemma_class_sum_grows(config@, weights@, c, y as int + 1, n as int);
        }
        if config[y] == c {
            total = total + weights[y];
        }
        y += 1;
    }
    total <= bound
}

/// Whether every vertex labelled `c` is reached from `first` by edges
/// inside the part.
fn part_connected(graph: &SimpleGraph, config: &[usize], c: usize, first: usize) -> (r: bool)
    requires
        graph.wf(),
        config@.len() == graph.n(),
        first < graph.n(),
    ensures
        r == forall|x: int| 0 <= x < config@.len() && config@[x] == c
            ==> reachable(class_edges(graph.edge_seq(), config@, c, graph.edge_seq().len() as int), first as int, x),
{
    let n = graph.num_vertices();
    let edges = graph.edge_list();
    let mut inner: Vec<(usize, usize)> = Vec::new();
    let mut k: usize = 0;
    while k < edges.len()
        invariant
            graph.wf(),
            n == graph.n(),
            config@.len() == n,
            edges@ == graph.edge_seq(),
            k <= edges@.len(),
            inner@ == class_edges(edges@, config@, c, k as int),
            endpoints_below(inner@, n as nat),
        decreases edges.len() - k,
    {
        let (a, b) = edges[k];
        assert(edges@[k as int] == (a, b));
        if config[a] == c && config[b] == c {
            inner.push((a, b));
        }
        k += 1;
    }
    let seen = reach_all(n, inner.as_slice(), first);
    let mut z: usize = 0;
    while z < n
        invariant
            n == config@.len(),
            inner@ == class_edges(graph.edge_seq(), config@, c, graph.edge_seq().len() as int),
            z <= n,
            seen@.len() == n,
            forall|q: int| 0 <= q < n ==> #[trigger] seen@[q] == reachable(inner@, first as int, q),
            forall|q: int| 0 <= q < z && config@[q] == c ==> #[trigger] reachable(inner@, first as int, q),
        decreases n - z,
    {
        if config[z] == c && !seen[z] {
            assert(!reachable(inner@, first as int, z as int));
            return false;
        }
        z += 1;
    }
    true
}

/// Given a graph with nonnegative vertex weights, a number of parts `K` and
/// a weight bound, decide whether the vertices split into at most `K`
/// connected parts of weight at most the bound.
#[derive(Debug, Clone)]
pub struct BoundedComponentSpanningForest {
    graph: SimpleGraph,
    weights: Vec<i64>,
    max_components: usize,
    max_weight: i64,
}

impl BoundedComponentSpanningForest {
    /// The graph.
    pub closed spec fn spec_graph(&self) -> SimpleGraph {
        self.graph
    }

    /// The vertex weights.
    pub closed spec fn spec_weights(&self) -> Seq<i64> {
        self.weights@
    }

    /// The number of parts allowed.
    pub closed spec fn spec_max_components(&self) -> usize {
        self.max_components
    }

    /// The bound on a part's weight.
    pub closed spec fn spec_max_weight(&self) -> i64 {
        self.max_weight
    }

    /// Nonnegative weights, between 1 and the vertex count parts, a positive bound.
    pub open spec fn wf(&self) -> bool {
        &&& self.spec_graph().wf()
        &&& weights_ok(self.spec_weights(), self.spec_graph().n())
        &&& 1 <= self.spec_max_components() <= self.spec_graph().n()
        &&& self.spec_max_weight() > 0
    }

    /// An instance; panics unless the weights are nonnegative, one per vertex,
    /// the number of parts is between 1 and the vertex count, and the bound is positive.
    pub fn new(graph: SimpleGraph, weights: Vec<i64>, max_components: usize, max_weight: i64) -> (r: Self)
        requires
            graph.wf(),
            weights_ok(weights@, graph.n()),
            1 <= max_components <= graph.n(),
            max_weight > 0,
        ensures
            r.wf(),
            r.spec_graph() == graph,
            r.spec_weights() == weights@,
            r.spec_max_components() == max_components,
            r.spec_max_weight() == max_weight,
    {
        BoundedComponentSpanningForest { graph, weights, max_components, max_weight }
    }

    /// The graph.
    pub fn graph(&self) -> (r: &SimpleGraph)
        ensures
            *r == self.spec_graph(),
    {
        &self.graph
    }

    /// The vertex weights.
    pub fn weights(&self) -> (r: &[i64])
        ensures
            r@ == self.spec_weights(),
    {
        self.weights.as_slice()
    }

    /// The number of parts allowed.
    pub fn max_components(&self) -> (r: usize)
        ensures
            r == self.spec_max_components(),
    {
        self.max_components
    }

    /// The bound on a part's weight.
    pub fn max_weight(&self) -> (r: i64)
        ensures
            r == self.spec_max_weight(),
    {
        self.max_weight
    }

    /// Number of vertices.
    pub fn num_vertices(&self) -> (r: usize)
        ensures
            r == self.spec_graph().n(),
    {
        self.graph.num_vertices()
    }

    /// Number of edges.
    pub fn num_edges(&self) -> (r: usize)
        ensures
            r == self.spec_graph().edge_seq().len(),
    {
        self.graph.num_edges()
    }

    /// Integer weights are never the unit weight type.
    pub fn is_weighted(&self) -> (r: bool)
        ensures
            r,
    {
        true
    }

    /// Whether `config` labels every vertex with a part below the number of
    /// parts so that every part is connected and within the weight bound.
    /// Panics when a part's weight overflows, outside the `requires`.
    pub fn is_valid_solution(&self, config: &[usize]) -> (r: bool)
        requires
            self.wf(),
            forall|c: usize| #![trigger class_weights(config@, self.spec_weights(), c, config@.len() as int)]
                seq_sum(class_weights(config@, self.spec_weights(), c, config@.len() as int)) <= i64::MAX,
        ensures
            r == forest_ok(self.spec_graph(), self.spec_weights(), self.spec_max_components(), self.spec_max_weight(), config@),
    {
        let n = self.graph.num_vertices();
        let ghost g = self.spec_graph();
        let ghost w = self.spec_weights();
        if config.len() != n {
            return false;
        }
        let mut v: usize = 0;
        while v < n
            invariant
                v <= n,
                config@.len() == n,
                forall|x: int| 0 <= x < v ==> #[trigger] config@[x] < self.max_components,
            decreases n - v,
        {
            if config[v] >= self.max_components {
                assert(config@[v as int] >= self.max_components);
                return false;
            }
            v += 1;
        }
        let mut c: usize = 0;
        while c < self.max_components
            invariant
                self.wf(),
                g == self.spec_graph(),
                w == self.spec_weights(),
                config@.len() == n,
                n == g.n(),
                forall|x: int| 0 <= x < n ==> #[trigger] config@[x] < self.max_components,
                forall|d: usize| #![trigger class_weights(config@, w, d, config@.len() as int)]
                    seq_sum(class_weights(config@, w, d, config@.len() as int)) <= i64::MAX,
                c <= self.max_components,
                forall|d: usize| d < c && (exists|x: int| 0 <= x < config@.len() && config@[x] == d) ==> {
                    &&& seq_sum(#[trigger] class_weights(config@, w, d, config@.len() as int)) <= self.max_weight
                    &&& forall|x: int| 0 <= x < config@.len() && config@[x] == d
                        ==> reachable(class_edges(g.edge_seq(), config@, d, g.edge_seq().len() as int), class_first(config@, d), x)
                },
            decreases self.max_components - c,
        {
            match find_first(config, c) {
                None => {},
                Some(first) => {
                    if !part_weight_ok(config, &self.weights, c, self.max_weight) {
                        return false;
                    }
                    if !part_connected(&self.graph, config, c, first) {
                        return false;
                    }
                },
            }
            c += 1;
        }
        true
    }

    /// One variable per vertex: its part.
    pub fn dims(&self) -> (r: Vec<usize>)
        ensures
            r@.len() == self.spec_graph().n(),
            forall|i: int| 0 <= i < r@.len() ==> #[trigger] r@[i] == self.spec_max_components(),
    {
        crate::models::graph::uniform_dims(self.graph.num_vertices(), self.max_components)
    }

    /// Whether `config` is a valid split into bounded connected parts.
    pub fn evaluate(&self, config: &[usize]) -> (r: bool)
        requires
            self.wf(),
            forall|c: usize| #![trigger class_weights(config@, self.spec_weights(), c, config@.len() as int)]
                seq_sum(class_weights(config@, self.spec_weights(), c, config@.len() as int)) <= i64::MAX,
        ensures
            r == forest_ok(self.spec_graph(), self.spec_weights(), self.spec_max_components(), self.spec_max_weight(), config@),
    {
        self.is_valid_solution(config)
    }
}

} // verus!
