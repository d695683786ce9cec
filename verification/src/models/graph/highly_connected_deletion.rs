//! Highly Connected Deletion: delete as few edges as possible so that every
//! connected component is a single vertex or a highly connected graph on at
//! least three vertices.
use vstd::prelude::*;
use crate::models::graph::bounded_diameter_spanning_tree::chosen_edges;
use crate::models::graph::reach::{reachable, reach_all, lemma_reachable_symm, lemma_reachable_trans, lemma_reachable_step};
use crate::models::graph::edge_connectivity::{
    edges_matrix, matrix_cut, cut_row, leave_term, proper_part, edges_adjacency, matrix_edge_connectivity,
};
use crate::models::graph::edge_cuts::{
    comp, set_size, mark_term, highly_connected, linked, total, lemma_total_ext, lemma_total_mono,
    lemma_total_single, lemma_total_zero, lemma_total_add, side_term, link_term, complement, cut_size,
};
use crate::topology::{SimpleGraph, adjacent_in, endpoints_below};
use crate::types::{EvaluationError, Min};

verus! {

/// The edges kept by a configuration: those whose value is 0.
pub open spec fn kept_flags(config: Seq<usize>) -> Seq<bool> {
    Seq::new(config.len(), |i: int| config[i] == 0)
}

/// The edges that remain after the deletions.
pub open spec fn kept_edges(g: SimpleGraph, config: Seq<usize>) -> Seq<(usize, usize)> {
    chosen_edges(g.edge_seq(), kept_flags(config), config.len() as int)
}

/// Vertex `v`'s component is a single vertex, or has at least three
/// vertices and edge connectivity above half its size.
pub open spec fn component_ok(edges: Seq<(usize, usize)>, v: int, n: nat) -> bool {
    let s = set_size(comp(edges, v, n), n);
    s == 1 || (s >= 3 && highly_connected(edges, v, n))
}

/// The deletions leave every component a single vertex or a highly
/// connected graph (edge connectivity above half its size) on at least
/// three vertices.
pub open spec fn feasible_deletion(g: SimpleGraph, config: Seq<usize>) -> bool {
    &&& config.len() == g.edge_seq().len()
    &&& forall|v: int| 0 <= v < g.n() ==> #[trigger] component_ok(kept_edges(g, config), v, g.n())
}

/// Vertices of one component have the same component.
proof fn lemma_same_component(edges: Seq<(usize, usize)>, v: int, u: int, n: nat)
    requires
        reachable(edges, v, u),
    ensures
        comp(edges, u, n) == comp(edges, v, n),
{
    lemma_reachable_symm(edges, v, u);
    assert forall|w: int| 0 <= w < n implies #[trigger] comp(edges, u, n)[w] == comp(edges, v, n)[w] by {
        if reachable(edges, u, w) {
            lemma_reachable_trans(edges, v, u, w);
        }
        if reachable(edges, v, w) {
            lemma_reachable_trans(edges, u, v, w);
        }
    }
    assert(comp(edges, u, n) =~= comp(edges, v, n));
}

/// Number of configuration entries equal to 1.
pub open spec fn deleted_count(config: Seq<usize>, k: int) -> nat
    decreases k,
{
    if k <= 0 { 0 } else { deleted_count(config, k - 1) + if config[k - 1] == 1 { 1nat } else { 0nat } }
}

/// Given a graph, find the fewest edge deletions after which every
/// connected component is an isolated vertex or a highly connected graph on
/// at least three vertices.
#[derive(Debug, Clone)]
pub struct HighlyConnectedDeletion {
    graph: SimpleGraph,
}

impl HighlyConnectedDeletion {
    /// The underlying graph.
    pub closed spec fn spec_graph(&self) -> SimpleGraph {
        self.graph
    }

    /// Creates an instance.
    pub fn new(graph: SimpleGraph) -> (r: Self)
        ensures
            r.spec_graph() == graph,
    {
        HighlyConnectedDeletion { graph }
    }

    /// The underlying graph.
    pub fn graph(&self) -> (r: &SimpleGraph)
        ensures
            *r == self.spec_graph(),
    {
        &self.graph
    }

    /// Number of vertices.
    pub fn num_vertices(&self) -> (r: usize)
        ensures
            r == self.spec_graph().n(),
    {
        self.graph.num_vertices()
    }

    /// Number of edges.
    pub fn num_edges(&self) -> (r: usize)
        ensures
            r == self.spec_graph().edge_seq().len(),
    {
        self.graph.num_edges()
    }

    /// Whether deleting the edges with value 1 (any value but 0 deletes)
    /// leaves only isolated vertices and highly connected components.
    pub fn is_valid_solution(&self, config: &[usize]) -> (r: bool)
        requires
            self.spec_graph().wf(),
        ensures
            r == feasible_deletion(self.spec_graph(), config@),
    {
        let n = self.graph.num_vertices();
        let edges = self.graph.edge_list();
        let ghost g = self.spec_graph();
        if config.len() != edges.len() {
            return false;
        }
        let mut kept: Vec<(usize, usize)> = Vec::new();
        let mut k: usize = 0;
        while k < edges.len()
            invariant
                k <= edges@.len(),
                edges@ == g.edge_seq(),
                config@.len() == edges@.len(),
                endpoints_below(edges@, n as nat),
                n == g.n(),
                kept@ == chosen_edges(g.edge_seq(), kept_flags(config@), k as int),
                endpoints_below(kept@, n as nat),
            decreases edges.len() - k,
        {
            if config[k] == 0 {
                kept.push(edges[k]);
            }
            k += 1;
        }
        let ghost ke = kept_edges(g, config@);
        assert(kept@ == ke);
        let mut checked: Vec<bool> = Vec::new();
        let mut k: usize = 0;
        while k < n
            invariant
                k <= n,
                checked@.len() == k,
                forall|u: int| 0 <= u < k ==> !(#[trigger] checked@[u]),
            decreases n - k,
        {
            checked.push(false);
            k += 1;
        }
        let mut v: usize = 0;
        while v < n
            invariant
                v <= n,
                n == g.n(),
                g == self.spec_graph(),
                config@.len() == g.edge_seq().len(),
                ke == kept_edges(g, config@),
                kept@ == ke,
                endpoints_below(kept@, n as nat),
                checked@.len() == n,
                forall|x: int| 0 <= x < v ==> #[trigger] component_ok(ke, x, n as nat),
                forall|u: int| 0 <= u < n && #[trigger] checked@[u] ==> component_ok(ke, u, n as nat),
            decreases n - v,
        {
            if !checked[v] {
                let marks = reach_all(n, kept.as_slice(), v);
                let ghost c = comp(ke, v as int, n as nat);
                assert(marks@ =~= c);
                let mut cl: Vec<usize> = Vec::new();
                let ghost mut pos: Seq<int> = Seq::new(n as nat, |w: int| 0int);
                let mut u: usize = 0;
                while u < n
                    invariant
                        u <= n,
                        marks@ == c,
                        c.len() == n,
                        pos.len() == n,
                        forall|i: int| 0 <= i < cl@.len() ==> (#[trigger] cl@[i]) < u && c[cl@[i] as int] && pos[cl@[i] as int] == i,
                        forall|i: int, j: int| 0 <= i < j < cl@.len() ==> cl@[i] < cl@[j],
                        forall|w: int| 0 <= w < u && #[trigger] c[w] ==> 0 <= pos[w] < cl@.len() && cl@[pos[w]] == w,
                    decreases n - u,
                {
                    if marks[u] {
                        proof { pos = pos.update(u as int, cl@.len() as int); }
                        cl.push(u);
                    }
                    u += 1;
                }
                let m = cl.len();
                let ok = if m == 1 {
                    true
                } else if m < 3 {
                    false
                } else {
                    let a = edges_adjacency(&kept, cl.as_slice());
                    let lambda = matrix_edge_connectivity(&a, m);
                    proof {
                        let w = choose|y: Seq<bool>| proper_part(y, m as nat)
                            && #[trigger] matrix_cut(edges_matrix(ke, cl@), y, m as nat) == lambda as int;
                    }
                    2 * (lambda as u128) > m as u128
                };
                proof {
                    lemma_component_by_matrix(ke, v as int, n as nat, cl@, pos);
                }
                if !ok {
                    return false;
                }
                let mut u: usize = 0;
                while u < n
                    invariant
                        u <= n,
                        v < n,
                        marks@ == c,
                        c == comp(ke, v as int, n as nat),
                        component_ok(ke, v as int, n as nat),
                        checked@.len() == n,
                        forall|w: int| 0 <= w < n && #[trigger] checked@[w] ==> component_ok(ke, w, n as nat),
                    decreases n - u,
                {
                    if marks[u] {
                        proof {
                            lemma_same_component(ke, v as int, u as int, n as nat);
                        }
                        checked.set(u, true);
                    }
                    u += 1;
                }
            }
            v += 1;
        }
        true
    }

    /// The number of deleted edges when the deletions are feasible, `None`
    /// otherwise; an overflow error when the count leaves `i64`.
    pub fn evaluate(&self, config: &[usize]) -> (r: Result<Min<i64>, EvaluationError>)
        requires
            self.spec_graph().wf(),
        ensures
            !feasible_deletion(self.spec_graph(), config@) ==> r == Ok::<Min<i64>, EvaluationError>(Min(None)),
            feasible_deletion(self.spec_graph(), config@) && deleted_count(config@, config@.len() as int) <= i64::MAX
                ==> r == Ok::<Min<i64>, EvaluationError>(Min(Some(deleted_count(config@, config@.len() as int) as i64))),
            feasible_deletion(self.spec_graph(), config@) && deleted_count(config@, config@.len() as int) > i64::MAX
                ==> r == Err::<Min<i64>, EvaluationError>(EvaluationError::IntegerOverflow),
    {
        if !self.is_valid_solution(config) {
            return Ok(Min(None));
        }
        let mut c: usize = 0;
        let mut i: usize = 0;
        while i < config.len()
            invariant
                i <= config@.len(),
                c == deleted_count(config@, i as int),
                c <= i,
            decreases config.len() - i,
        {
            if config[i] == 1 {
                c += 1;
            }
            i += 1;
        }
        if c as u64 > i64::MAX as u64 {
            return Err(EvaluationError::IntegerOverflow);
        }
        Ok(Min(Some(c as i64)))
    }

    /// One binary variable per edge.
    pub fn dims(&self) -> (r: Vec<usize>)
        ensures
            r@.len() == self.spec_graph().edge_seq().len(),
            forall|i: int| 0 <= i < r@.len() ==> #[trigger] r@[i] == 2,
    {
        crate::models::graph::uniform_dims(self.graph.num_edges(), 2)
    }
}


/// `cl` lists, in increasing order, exactly the vertices marked in `c`,
/// and `pos` gives each marked vertex's place in the list.
pub open spec fn lists_marks(cl: Seq<usize>, pos: Seq<int>, c: Seq<bool>, n: nat) -> bool {
    &&& c.len() == n
    &&& pos.len() == n
    &&& forall|i: int| 0 <= i < cl.len() ==> (#[trigger] cl[i]) < n && c[cl[i] as int] && pos[cl[i] as int] == i
    &&& forall|i: int, j: int| 0 <= i < j < cl.len() ==> cl[i] < cl[j]
    &&& forall|w: int| 0 <= w < n && #[trigger] c[w] ==> 0 <= pos[w] < cl.len() && cl[pos[w]] == w
}

/// A sum over the vertices whose terms vanish off an increasing list is
/// the sum over the list.
proof fn lemma_total_reindex(f: spec_fn(int) -> int, cl: Seq<usize>, pos: Seq<int>, n: nat)
    requires
        forall|i: int| 0 <= i < cl.len() ==> (#[trigger] cl[i]) < n,
        forall|i: int, j: int| 0 <= i < j < cl.len() ==> cl[i] < cl[j],
        forall|w: int| 0 <= w < n && #[trigger] f(w) != 0 ==> 0 <= pos[w] < cl.len() && cl[pos[w]] == w,
    ensures
        total(f, n as int) == total(|i: int| f(cl[i] as int), cl.len() as int),
    decreases n,
{
    let m = cl.len() as int;
    if n == 0 {
        if m > 0 {
            assert(cl[0] < n);
        }
    } else if m > 0 && cl[m - 1] == n - 1 {
        let cl2 = cl.drop_last();
        assert forall|i: int| 0 <= i < cl2.len() implies (#[trigger] cl2[i]) < n - 1 by {
            assert(cl[i] < cl[m - 1]);
        }
        assert forall|w: int| 0 <= w < n - 1 && #[trigger] f(w) != 0 implies 0 <= pos[w] < cl2.len() && cl2[pos[w]] == w by {}
        lemma_total_reindex(f, cl2, pos, (n - 1) as nat);
        lemma_total_ext(|i: int| f(cl2[i] as int), |i: int| f(cl[i] as int), m - 1);
    } else {
        if f(n - 1) != 0 {
            let i = pos[n - 1];
            if i < m - 1 {
                assert(cl[i] < cl[m - 1]);
            }
            assert(cl[m - 1] < n);
        }
        lemma_total_reindex(f, cl, pos, (n - 1) as nat);
        assert forall|i: int| 0 <= i < m implies (#[trigger] cl[i]) < n - 1 by {
            if i < m - 1 {
                assert(cl[i] < cl[m - 1]);
            }
            assert(cl[m - 1] < n);
        }
    }
}

/// `m` ones sum to `m`.
proof fn lemma_total_ones(f: spec_fn(int) -> int, m: int)
    requires
        forall|i: int| 0 <= i < m ==> #[trigger] f(i) == 1,
    ensures
        total(f, m) == if m < 0 { 0 } else { m },
    decreases m,
{
    if m > 0 {
        lemma_total_ones(f, m - 1);
    }
}

/// A part is proper exactly when it has between 1 and `m - 1` members.
proof fn lemma_proper_size(y: Seq<bool>, m: nat)
    requires
        y.len() == m,
    ensures
        proper_part(y, m) <==> 1 <= set_size(y, m) <= m - 1,
{
    let n = m as int;
    if exists|i: int| 0 <= i < m && #[trigger] y[i] {
        let i = choose|i: int| 0 <= i < m && #[trigger] y[i];
        let d = |w: int| if w == i { 1int } else { 0int };
        assert forall|w: int| 0 <= w < n implies #[trigger] d(w) <= mark_term(y)(w) by {}
        lemma_total_mono(d, mark_term(y), n);
        lemma_total_single(d, i, n);
    } else {
        assert forall|w: int| 0 <= w < n implies #[trigger] mark_term(y)(w) == 0 by {}
        lemma_total_zero(mark_term(y), n);
    }
    if exists|j: int| 0 <= j < m && !#[trigger] y[j] {
        let j = choose|j: int| 0 <= j < m && !#[trigger] y[j];
        let one = |w: int| 1int;
        let d = |w: int| if w == j { 1int } else { 0int };
        let rest = |w: int| one(w) - d(w);
        assert forall|w: int| 0 <= w < n implies #[trigger] mark_term(y)(w) <= rest(w) by {}
        lemma_total_mono(mark_term(y), rest, n);
        assert forall|w: int| 0 <= w < n implies #[trigger] one(w) == rest(w) + d(w) by {}
        lemma_total_add(rest, d, one, n);
        lemma_total_single(d, j, n);
        lemma_total_ones(one, n);
    } else {
        assert forall|w: int| 0 <= w < n implies #[trigger] mark_term(y)(w) == 1 by {}
        lemma_total_ones(mark_term(y), n);
    }
}

/// The marks of the listed vertices, by place in the list.
pub open spec fn listed_marks(x: Seq<bool>, cl: Seq<usize>) -> Seq<bool> {
    Seq::new(cl.len(), |i: int| x[cl[i] as int])
}

/// Within the component of `v`, listed by `cl`, a part `x` of the
/// component has as many members and as many edges leaving it as its
/// listed marks have in the component's adjacency matrix.
proof fn lemma_part_matches(edges: Seq<(usize, usize)>, v: int, n: nat, cl: Seq<usize>, pos: Seq<int>, x: Seq<bool>)
    requires
        0 <= v < n,
        lists_marks(cl, pos, comp(edges, v, n), n),
        x.len() == n,
        forall|u: int| 0 <= u < n && #[trigger] x[u] ==> comp(edges, v, n)[u],
    ensures
        set_size(x, n) == set_size(listed_marks(x, cl), cl.len()),
        cut_size(edges, x, n) == matrix_cut(edges_matrix(edges, cl), listed_marks(x, cl), cl.len()),
{
    let c = comp(edges, v, n);
    let m = cl.len();
    let y = listed_marks(x, cl);
    let a = edges_matrix(edges, cl);
    let xc = complement(x, n);
    assert forall|w: int| 0 <= w < n && #[trigger] mark_term(x)(w) != 0 implies 0 <= pos[w] < m && cl[pos[w]] == w by {
        assert(c[w]);
    }
    lemma_total_reindex(mark_term(x), cl, pos, n);
    assert forall|i: int| 0 <= i < m implies #[trigger] mark_term(y)(i) == (|i: int| mark_term(x)(cl[i] as int))(i) by {}
    lemma_total_ext(mark_term(y), |i: int| mark_term(x)(cl[i] as int), m as int);
    let outer = side_term(edges, x, xc, n);
    assert forall|w: int| 0 <= w < n && #[trigger] outer(w) != 0 implies 0 <= pos[w] < m && cl[pos[w]] == w by {
        assert(x[w]);
        assert(c[w]);
    }
    lemma_total_reindex(outer, cl, pos, n);
    assert forall|i: int| 0 <= i < m implies #[trigger] cut_row(a, y, m)(i) == (|i: int| outer(cl[i] as int))(i) by {
        let u = cl[i] as int;
        if y[i] {
            let inner = link_term(edges, u, xc);
            assert(c[u]);
            assert forall|w: int| 0 <= w < n && #[trigger] inner(w) != 0 implies 0 <= pos[w] < m && cl[pos[w]] == w by {
                assert(linked(edges, u, w));
                lemma_reachable_step(edges, v, u, w);
                assert(c[w]);
            }
            lemma_total_reindex(inner, cl, pos, n);
            assert forall|j: int| 0 <= j < m implies #[trigger] leave_term(a, y, i)(j) == (|j: int| inner(cl[j] as int))(j) by {
                if i != j {
                    if i < j {
                        assert(cl[i] < cl[j]);
                    } else {
                        assert(cl[j] < cl[i]);
                    }
                }
            }
            lemma_total_ext(leave_term(a, y, i), |j: int| inner(cl[j] as int), m as int);
        }
    }
    lemma_total_ext(cut_row(a, y, m), |i: int| outer(cl[i] as int), m as int);
}

/// The component of `v`, listed by `cl`, passes the component test exactly
/// when it has one vertex, or at least three and every proper part of the
/// list has more than half as many edges leaving it as the list has
/// vertices.
proof fn lemma_component_by_matrix(edges: Seq<(usize, usize)>, v: int, n: nat, cl: Seq<usize>, pos: Seq<int>)
    requires
        0 <= v < n,
        lists_marks(cl, pos, comp(edges, v, n), n),
    ensures
        set_size(comp(edges, v, n), n) == cl.len(),
        component_ok(edges, v, n) <==> (cl.len() == 1 || (cl.len() >= 3 && forall|y: Seq<bool>| proper_part(y, cl.len())
            ==> 2 * #[trigger] matrix_cut(edges_matrix(edges, cl), y, cl.len()) > cl.len())),
{
    let c = comp(edges, v, n);
    let m = cl.len();
    let a = edges_matrix(edges, cl);
    lemma_part_matches(edges, v, n, cl, pos, c);
    assert forall|i: int| 0 <= i < m implies #[trigger] mark_term(listed_marks(c, cl))(i) == 1 by {}
    lemma_total_ones(mark_term(listed_marks(c, cl)), m as int);
    if m >= 3 {
        if highly_connected(edges, v, n) {
            assert forall|y: Seq<bool>| proper_part(y, m) implies 2 * #[trigger] matrix_cut(a, y, m) > m by {
                let x = Seq::new(n, |w: int| c[w] && y[pos[w]]);
                assert(listed_marks(x, cl) =~= y);
                lemma_part_matches(edges, v, n, cl, pos, x);
                lemma_proper_size(y, m);
                assert(2 * cut_size(edges, x, n) > m);
            }
        }
        if forall|y: Seq<bool>| proper_part(y, m) ==> 2 * #[trigger] matrix_cut(a, y, m) > m {
            assert forall|x: Seq<bool>|
                #![trigger cut_size(edges, x, n)]
                x.len() == n && (forall|u: int| 0 <= u < n && x[u] ==> c[u]) && 1 <= set_size(x, n) < set_size(c, n)
                implies 2 * cut_size(edges, x, n) > set_size(c, n) by {
                assert forall|u: int| 0 <= u < n && #[trigger] x[u] implies c[u] by {}
                lemma_part_matches(edges, v, n, cl, pos, x);
                lemma_proper_size(listed_marks(x, cl), m);
                assert(2 * matrix_cut(a, listed_marks(x, cl), m) > m);
            }
        }
    }
}

} // verus!
