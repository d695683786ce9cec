//! Sums over vertices, and the edge cuts of a vertex set within a
//! component of a simple graph.
use vstd::prelude::*;
use crate::models::graph::reach::reachable;
use crate::topology::adjacent_in;

verus! {

/// `f(0) + ... + f(n - 1)`.
pub open spec fn total(f: spec_fn(int) -> int, n: int) -> int
    decreases n,
{
    if n <= 0 { 0 } else { total(f, n - 1) + f(n - 1) }
}

/// 1 for true, 0 for false.
pub open spec fn ind(b: bool) -> int {
    if b { 1 } else { 0 }
}

/// `u` and `w` are distinct and joined by an edge.
pub open spec fn linked(edges: Seq<(usize, usize)>, u: int, w: int) -> bool {
    u != w && adjacent_in(edges, u, w)
}

/// The marks of the vertices below `n` that are not marked in `x`.
pub open spec fn complement(x: Seq<bool>, n: nat) -> Seq<bool> {
    Seq::new(n, |w: int| !x[w])
}

/// Term `w`: 1 when `w` is marked in `x`.
pub open spec fn mark_term(x: Seq<bool>) -> spec_fn(int) -> int {
    |w: int| ind(x[w])
}

/// Term `w`: 1 when `w` is linked to `u` and marked in `q`.
pub open spec fn link_term(edges: Seq<(usize, usize)>, u: int, q: Seq<bool>) -> spec_fn(int) -> int {
    |w: int| ind(linked(edges, u, w) && q[w])
}

/// Number of marked vertices below `n`.
pub open spec fn set_size(x: Seq<bool>, n: nat) -> int {
    total(mark_term(x), n as int)
}

/// Number of neighbours of `u` below `n` marked in `q`.
pub open spec fn links_in(edges: Seq<(usize, usize)>, u: int, q: Seq<bool>, n: nat) -> int {
    total(link_term(edges, u, q), n as int)
}

/// Term `u`: the links from `u` into `q` when `u` is marked in `x`.
pub open spec fn side_term(edges: Seq<(usize, usize)>, x: Seq<bool>, q: Seq<bool>, n: nat) -> spec_fn(int) -> int {
    |u: int| if x[u] { links_in(edges, u, q, n) } else { 0 }
}

/// The pairs `(u, w)` of linked vertices with `u` marked in `x` and `w`
/// marked in `q`.
pub open spec fn side_total(edges: Seq<(usize, usize)>, x: Seq<bool>, q: Seq<bool>, n: nat) -> int {
    total(side_term(edges, x, q, n), n as int)
}

/// The edges leaving the marked set, each counted once from its marked end.
pub open spec fn cut_size(edges: Seq<(usize, usize)>, x: Seq<bool>, n: nat) -> int {
    side_total(edges, x, complement(x, n), n)
}

/// The component of `v`, as marks.
pub open spec fn comp(edges: Seq<(usize, usize)>, v: int, n: nat) -> Seq<bool> {
    Seq::new(n, |u: int| reachable(edges, v, u))
}

/// Every proper nonempty part of the component of `v` (of `s` vertices) has
/// more than `s / 2` edges leaving it: the component's edge connectivity
/// exceeds half its size.
pub open spec fn highly_connected(edges: Seq<(usize, usize)>, v: int, n: nat) -> bool {
    let c = comp(edges, v, n);
    let s = set_size(c, n);
    forall|x: Seq<bool>|
        #![trigger cut_size(edges, x, n)]
        x.len() == n && (forall|u: int| 0 <= u < n && x[u] ==> c[u]) && 1 <= set_size(x, n) < s
            ==> 2 * cut_size(edges, x, n) > s
}

/// Sums agree when the terms do.
pub proof fn lemma_total_ext(f: spec_fn(int) -> int, g: spec_fn(int) -> int, n: int)
    requires
        forall|i: int| 0 <= i < n ==> #[trigger] f(i) == g(i),
    ensures
        total(f, n) == total(g, n),
    decreases n,
{
    if n > 0 {
        lemma_total_ext(f, g, n - 1);
    }
}

/// Sums are monotone in their terms.
pub proof fn lemma_total_mono(f: spec_fn(int) -> int, g: spec_fn(int) -> int, n: int)
    requires
        forall|i: int| 0 <= i < n ==> #[trigger] f(i) <= g(i),
    ensures
        total(f, n) <= total(g, n),
    decreases n,
{
    if n > 0 {
        lemma_total_mono(f, g, n - 1);
    }
}

/// Sums are additive.
pub proof fn lemma_total_add(f: spec_fn(int) -> int, g: spec_fn(int) -> int, h: spec_fn(int) -> int, n: int)
    requires
        forall|i: int| 0 <= i < n ==> #[trigger] h(i) == f(i) + g(i),
    ensures
        total(h, n) == total(f, n) + total(g, n),
    decreases n,
{
    if n > 0 {
        lemma_total_add(f, g, h, n - 1);
    }
}

/// Zero terms sum to zero.
pub proof fn lemma_total_zero(f: spec_fn(int) -> int, n: int)
    requires
        forall|i: int| 0 <= i < n ==> #[trigger] f(i) == 0,
    ensures
        total(f, n) == 0,
    decreases n,
{
    if n > 0 {
        lemma_total_zero(f, n - 1);
    }
}

/// A sum with a single nonzero term.
pub proof fn lemma_total_single(f: spec_fn(int) -> int, j: int, n: int)
    requires
        0 <= j < n,
        forall|i: int| 0 <= i < n && i != j ==> #[trigger] f(i) == 0,
    ensures
        total(f, n) == f(j),
    decreases n,
{
    if n - 1 == j {
        lemma_total_zero(f, n - 1);
    } else {
        lemma_total_single(f, j, n - 1);
    }
}

/// Double sums can be taken in either order.
pub proof fn lemma_total_swap(f: spec_fn(int, int) -> int, n: int, m: int)
    ensures
        total(|u: int| total(|w: int| f(u, w), m), n) == total(|w: int| total(|u: int| f(u, w), n), m),
    decreases n,
{
    if n > 0 {
        lemma_total_swap(f, n - 1, m);
        let prev = |w: int| total(|u: int| f(u, w), n - 1);
        let last = |w: int| f(n - 1, w);
        let whole = |w: int| total(|u: int| f(u, w), n);
        assert forall|w: int| 0 <= w < m implies #[trigger] whole(w) == prev(w) + last(w) by {}
        lemma_total_add(prev, last, whole, m);
    } else {
        lemma_total_zero(|w: int| total(|u: int| f(u, w), n), m);
    }
}

/// The marks of `x` without position `j` count one less when `j` is marked.
pub proof fn lemma_size_without(x: Seq<bool>, j: int, n: nat)
    requires
        0 <= j < n,
        x.len() == n,
        x[j],
    ensures
        set_size(x.update(j, false), n) == set_size(x, n) - 1,
{
    let y = x.update(j, false);
    let d = |w: int| if w == j { 1int } else { 0int };
    assert forall|w: int| 0 <= w < n implies #[trigger] mark_term(x)(w) == mark_term(y)(w) + d(w) by {}
    lemma_total_add(mark_term(y), d, mark_term(x), n as int);
    lemma_total_single(d, j, n as int);
}

} // verus!
