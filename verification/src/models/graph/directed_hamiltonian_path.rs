//! The Directed Hamiltonian Path problem.
use vstd::prelude::*;
use crate::topology::{DirectedGraph, is_permutation, check_permutation};
use crate::types::{Or, EvaluationError};

verus! {

/// `perm` visits every vertex once and consecutive vertices are joined by arcs.
pub open spec fn is_directed_hamiltonian_path(g: DirectedGraph, perm: Seq<usize>) -> bool {
    &&& is_permutation(perm, g.n())
    &&& forall|i: int| 0 <= i < perm.len() - 1 ==> #[trigger] g.spec_has_arc(perm[i] as int, perm[i + 1] as int)
}

/// Given a directed graph, decide whether some ordering of all its vertices
/// is a directed path.
#[derive(Debug, Clone)]
pub struct DirectedHamiltonianPath {
    graph: DirectedGraph,
}

/// Whether `perm` is a directed Hamiltonian path of `graph`.
pub fn is_valid_directed_hamiltonian_path(graph: &DirectedGraph, perm: &[usize]) -> (r: bool)
    ensures
        r == is_directed_hamiltonian_path(*graph, perm@),
{
    let n = graph.num_vertices();
    if !check_permutation(perm, n) {
        return false;
    }
    let mut i: usize = 1;
    while i < n
        invariant
            n == graph.n(),
            perm@.len() == n,
            1 <= i,
            forall|k: int| 0 <= k < i - 1 && k < perm@.len() - 1 ==> #[trigger] graph.spec_has_arc(perm@[k] as int, perm@[k + 1] as int),
        decreases n - i,
    {
        if !graph.has_arc(perm[i - 1], perm[i]) {
            assert(!graph.spec_has_arc(perm@[(i - 1) as int] as int, perm@[(i - 1) as int + 1] as int));
            return false;
        }
        i += 1;
    }
    true
}

impl DirectedHamiltonianPath {
    /// The underlying graph.
    pub closed spec fn spec_graph(&self) -> DirectedGraph {
        self.graph
    }

    /// Creates an instance.
    pub fn new(graph: DirectedGraph) -> (r: Self)
        ensures
            r.spec_graph() == graph,
    {
        DirectedHamiltonianPath { graph }
    }

    /// The underlying graph.
    pub fn graph(&self) -> (r: &DirectedGraph)
        ensures
            *r == self.spec_graph(),
    {
        &self.graph
    }

    /// Number of vertices.
    pub fn num_vertices(&self) -> (r: usize)
        ensures
            r == self.spec_graph().n(),
    {
        self.graph.num_vertices()
    }

    /// Number of arcs.
    pub fn num_arcs(&self) -> (r: usize)
        ensures
            r == self.spec_graph().arc_seq().len(),
    {
        self.graph.num_arcs()
    }

    /// Whether the vertex ordering is a directed Hamiltonian path.
    pub fn is_valid_solution(&self, solution: &[usize]) -> (r: bool)
        ensures
            r == is_directed_hamiltonian_path(self.spec_graph(), solution@),
    {
        is_valid_directed_hamiltonian_path(&self.graph, solution)
    }

    /// Evaluates a vertex ordering: an error when its length is not the vertex
    /// count or it names a vertex out of range, else whether it is a
    /// directed Hamiltonian path.
    pub fn evaluate(&self, solution: &Vec<usize>) -> (r: Result<Or, EvaluationError>)
        ensures
            (solution@.len() != self.spec_graph().n() || exists|i: int| 0 <= i < solution@.len() && #[trigger] solution@[i] >= self.spec_graph().n())
                ==> r == Err::<Or, EvaluationError>(EvaluationError::InvalidConfiguration),
            (solution@.len() == self.spec_graph().n() && forall|i: int| 0 <= i < solution@.len() ==> #[trigger] solution@[i] < self.spec_graph().n())
                ==> r == Ok::<Or, EvaluationError>(Or(is_directed_hamiltonian_path(self.spec_graph(), solution@))),
    {
        let n = self.graph.num_vertices();
        if solution.len() != n {
            return Err(EvaluationError::InvalidConfiguration);
        }
        if !crate::models::graph::all_below(solution, n) {
            return Err(EvaluationError::InvalidConfiguration);
        }
        Ok(Or(is_valid_directed_hamiltonian_path(&self.graph, solution)))
    }

    /// The value ranges of a Lehmer code over the vertices: `[n, n - 1, ..., 1]`.
    pub fn dimensions(&self) -> (r: Vec<usize>)
        ensures
            r@.len() == self.spec_graph().n(),
            forall|i: int| 0 <= i < r@.len() ==> #[trigger] r@[i] == self.spec_graph().n() - i,
    {
        lehmer_dims(self.graph.num_vertices())
    }
}

/// `[n, n - 1, ..., 1]`: the value ranges of a Lehmer code of length `n`.
pub fn lehmer_dims(n: usize) -> (r: Vec<usize>)
    ensures
        r@.len() == n,
        forall|i: int| 0 <= i < n ==> #[trigger] r@[i] == n - i,
{
    let mut r: Vec<usize> = Vec::new();
    let mut i: usize = 0;
    while i < n
        invariant
            i <= n,
            r@.len() == i,
            forall|k: int| 0 <= k < i ==> #[trigger] r@[k] == n - k,
        decreases n - i,
    {
        r.push(n - i);
        i += 1;
    }
    r
}

/// The items `0..n` in increasing order.
pub open spec fn first_items(n: nat) -> Seq<usize> {
    Seq::new(n, |i: int| i as usize)
}

/// Lehmer decoding: each code entry, clamped to the last place, takes the
/// item at that place among those not yet taken.
pub open spec fn lehmer_decode(avail: Seq<usize>, code: Seq<usize>) -> Seq<usize>
    decreases code.len(),
{
    if code.len() == 0 || avail.len() == 0 {
        Seq::empty()
    } else {
        let idx = if code[0] < avail.len() { code[0] as int } else { avail.len() - 1 };
        seq![avail[idx]] + lehmer_decode(avail.remove(idx), code.drop_first())
    }
}

/// Decoding a code as long as the items takes every item exactly once.
pub proof fn lemma_lehmer_decode_permutes(avail: Seq<usize>, code: Seq<usize>)
    requires
        code.len() == avail.len(),
        avail.no_duplicates(),
    ensures
        lehmer_decode(avail, code).len() == avail.len(),
        lehmer_decode(avail, code).no_duplicates(),
        forall|x: usize| lehmer_decode(avail, code).contains(x) <==> avail.contains(x),
    decreases code.len(),
{
    if code.len() > 0 {
        let idx = if code[0] < avail.len() { code[0] as int } else { avail.len() - 1 };
        let a = avail[idx];
        let rest_avail = avail.remove(idx);
        assert forall|i: int, j: int| 0 <= i < rest_avail.len() && 0 <= j < rest_avail.len() && i != j
            implies rest_avail[i] != rest_avail[j] by {
            let ii = if i < idx { i } else { i + 1 };
            let jj = if j < idx { j } else { j + 1 };
            assert(rest_avail[i] == avail[ii] && rest_avail[j] == avail[jj]);
        }
        assert(rest_avail.no_duplicates());
        lemma_lehmer_decode_permutes(rest_avail, code.drop_first());
        let rest = lehmer_decode(rest_avail, code.drop_first());
        let res = lehmer_decode(avail, code);
        assert(res == seq![a] + rest);
        assert forall|x: usize| rest_avail.contains(x) <==> (avail.contains(x) && x != a) by {
            if rest_avail.contains(x) {
                let i = choose|i: int| 0 <= i < rest_avail.len() && rest_avail[i] == x;
                let ii = if i < idx { i } else { i + 1 };
                assert(avail[ii] == x);
                assert(ii != idx);
            }
            if avail.contains(x) && x != a {
                let i = choose|i: int| 0 <= i < avail.len() && avail[i] == x;
                if i < idx {
                    assert(rest_avail[i] == x);
                } else {
                    assert(i != idx);
                    assert(rest_avail[i - 1] == x);
                }
            }
        }
        assert(!rest_avail.contains(a));
        assert(!rest.contains(a));
        assert forall|i: int, j: int| 0 <= i < res.len() && 0 <= j < res.len() && i != j implies res[i] != res[j] by {
            if i == 0 {
                assert(rest.contains(res[j]));
            } else if j == 0 {
                assert(rest.contains(res[i]));
            } else {
                assert(res[i] == rest[i - 1] && res[j] == rest[j - 1]);
            }
        }
        assert forall|x: usize| res.contains(x) <==> avail.contains(x) by {
            if res.contains(x) {
                let i = choose|i: int| 0 <= i < res.len() && res[i] == x;
                if i > 0 {
                    assert(rest[i - 1] == x);
                }
            }
            if avail.contains(x) {
                if x == a {
                    assert(res[0] == x);
                } else {
                    assert(rest_avail.contains(x));
                    let i = choose|i: int| 0 <= i < rest.len() && rest[i] == x;
                    assert(res[i + 1] == x);
                }
            }
        }
    }
}

/// The permutation of `0..n` (n the code's length) with the given Lehmer
/// code, entries clamped to the places left.
pub fn decode_lehmer(code: &[usize]) -> (r: Vec<usize>)
    ensures
        r@ == lehmer_decode(first_items(code@.len()), code@),
        is_permutation(r@, code@.len()),
{
    let n = code.len();
    let ghost init = first_items(n as nat);
    let mut available: Vec<usize> = Vec::new();
    let mut i: usize = 0;
    while i < n
        invariant
            i <= n,
            available@.len() == i,
            forall|k: int| 0 <= k < i ==> #[trigger] available@[k] == k,
        decreases n - i,
    {
        available.push(i);
        i += 1;
    }
    assert(available@ =~= init);
    let mut perm: Vec<usize> = Vec::new();
    assert(code@.skip(0) =~= code@);
    assert(perm@ + lehmer_decode(available@, code@.skip(0)) =~= lehmer_decode(init, code@));
    let mut k: usize = 0;
    while k < n
        invariant
            n == code@.len(),
            k <= n,
            available@.len() == n - k,
            perm@ + lehmer_decode(available@, code@.skip(k as int)) == lehmer_decode(init, code@),
        decreases n - k,
    {
        let mut idx = code[k];
        if idx >= available.len() {
            idx = available.len() - 1;
        }
        let ghost before = available@;
        let ghost rest_code = code@.skip(k as int);
        assert(rest_code[0] == code@[k as int]);
        assert(rest_code.drop_first() =~= code@.skip(k as int + 1));
        let x = available.remove(idx);
        assert(lehmer_decode(before, rest_code) == seq![x] + lehmer_decode(available@, code@.skip(k as int + 1)));
        assert(perm@.push(x) + lehmer_decode(available@, code@.skip(k as int + 1))
            =~= perm@ + (seq![x] + lehmer_decode(available@, code@.skip(k as int + 1))));
        perm.push(x);
        k += 1;
    }
    proof {
        assert(lehmer_decode(available@, code@.skip(n as int)) =~= Seq::<usize>::empty());
        assert(perm@ =~= perm@ + Seq::<usize>::empty());
        assert(init.no_duplicates());
        lemma_lehmer_decode_permutes(init, code@);
        assert forall|i: int| 0 <= i < perm@.len() implies #[trigger] perm@[i] < n by {
            assert(perm@.contains(perm@[i]));
            assert(init.contains(perm@[i]));
        }
    }
    perm
}

} // verus!
