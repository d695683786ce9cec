//! Edge connectivity of a small graph given by a symmetric adjacency
//! matrix: the fewest edges whose removal disconnects it, computed as the
//! least unit-capacity maximum flow from the first vertex to each other
//! vertex, with augmenting paths found by breadth-first search.
use vstd::prelude::*;
use crate::topology::{SimpleGraph, adjacent_in};
use crate::models::graph::edge_cuts::{
    total, ind, lemma_total_ext, lemma_total_mono, lemma_total_add, lemma_total_zero, lemma_total_single,
    lemma_total_swap, set_size, mark_term, lemma_size_without,
};

verus! {

/// `a` is an `m` by `m` symmetric matrix with a false diagonal: the
/// adjacency of a simple graph on the vertices `0..m`.
pub open spec fn sym_matrix(a: Seq<Seq<bool>>, m: nat) -> bool {
    &&& a.len() == m
    &&& forall|i: int| 0 <= i < m ==> (#[trigger] a[i]).len() == m
    &&& forall|i: int, j: int| 0 <= i < m && 0 <= j < m ==> a[i][j] == a[j][i]
    &&& forall|i: int| 0 <= i < m ==> !(#[trigger] a[i])[i]
}

/// Term `j`: 1 when `i` and `j` are adjacent and `j` is unmarked.
pub open spec fn leave_term(a: Seq<Seq<bool>>, y: Seq<bool>, i: int) -> spec_fn(int) -> int {
    |j: int| ind(a[i][j] && !y[j])
}

/// Term `i`: the edges from a marked `i` to unmarked vertices.
pub open spec fn cut_row(a: Seq<Seq<bool>>, y: Seq<bool>, m: nat) -> spec_fn(int) -> int {
    |i: int| if y[i] { total(leave_term(a, y, i), m as int) } else { 0 }
}

/// Number of edges between the marked and the unmarked vertices.
pub open spec fn matrix_cut(a: Seq<Seq<bool>>, y: Seq<bool>, m: nat) -> int {
    total(cut_row(a, y, m), m as int)
}

/// `y` marks some but not all of the vertices `0..m`.
pub open spec fn proper_part(y: Seq<bool>, m: nat) -> bool {
    &&& y.len() == m
    &&& exists|i: int| 0 <= i < m && #[trigger] y[i]
    &&& exists|j: int| 0 <= j < m && !#[trigger] y[j]
}

/// `k` is the edge connectivity of the graph: 0 on at most one vertex,
/// else the least number of edges between a proper part and the rest.
pub open spec fn is_edge_connectivity(a: Seq<Seq<bool>>, m: nat, k: int) -> bool {
    &&& m <= 1 ==> k == 0
    &&& m >= 2 ==> (exists|y: Seq<bool>| proper_part(y, m) && #[trigger] matrix_cut(a, y, m) == k)
    &&& m >= 2 ==> (forall|y: Seq<bool>| proper_part(y, m) ==> #[trigger] matrix_cut(a, y, m) >= k)
}

/// Residual capacities of a unit-capacity flow: each edge `{i, j}` has
/// capacities `r[i][j]` and `r[j][i]` summing to 2, a non-edge none.
pub open spec fn residual_ok(a: Seq<Seq<bool>>, r: Seq<Vec<u8>>, m: nat) -> bool {
    &&& r.len() == m
    &&& forall|i: int| 0 <= i < m ==> (#[trigger] r[i])@.len() == m
    &&& forall|i: int, j: int| 0 <= i < m && 0 <= j < m ==> r[i]@[j] + r[j]@[i] == 2 * ind(a[i][j])
}

/// Flow from `i` to `j`: the capacity used, `-1`, `0` or `1`.
pub open spec fn xflow(a: Seq<Seq<bool>>, r: Seq<Vec<u8>>, i: int, j: int) -> int {
    ind(a[i][j]) - r[i]@[j]
}

/// Term `j`: the flow from `i` to `j`.
pub open spec fn flow_term(a: Seq<Seq<bool>>, r: Seq<Vec<u8>>, i: int) -> spec_fn(int) -> int {
    |j: int| xflow(a, r, i, j)
}

/// Net flow out of `i`.
pub open spec fn netout(a: Seq<Seq<bool>>, r: Seq<Vec<u8>>, i: int, m: nat) -> int {
    total(flow_term(a, r, i), m as int)
}

/// The flow has value `f` from `s` to `t` and is conserved elsewhere.
pub open spec fn conserves(a: Seq<Seq<bool>>, r: Seq<Vec<u8>>, m: nat, s: int, t: int, f: int) -> bool {
    forall|i: int| 0 <= i < m ==> #[trigger] netout(a, r, i, m) == (if i == s { f } else if i == t { -f } else { 0 })
}

/// Term `j`: the flow from `i` to `j` when `j` is marked (`inside`) or
/// unmarked (otherwise).
pub open spec fn side_flow(a: Seq<Seq<bool>>, r: Seq<Vec<u8>>, y: Seq<bool>, inside: bool, i: int) -> spec_fn(int) -> int {
    |j: int| if y[j] == inside { xflow(a, r, i, j) } else { 0 }
}

/// Term `i`: for a marked `i`, its flow into the marked (`inside`) or
/// unmarked vertices.
pub open spec fn side_row(a: Seq<Seq<bool>>, r: Seq<Vec<u8>>, y: Seq<bool>, inside: bool, m: nat) -> spec_fn(int) -> int {
    |i: int| if y[i] { total(side_flow(a, r, y, inside, i), m as int) } else { 0 }
}

/// Negated terms sum to the negated sum.
proof fn lemma_total_neg(f: spec_fn(int) -> int, g: spec_fn(int) -> int, n: int)
    requires
        forall|i: int| 0 <= i < n ==> #[trigger] g(i) == -f(i),
    ensures
        total(g, n) == -total(f, n),
{
    let z = |i: int| 0int;
    assert forall|i: int| 0 <= i < n implies #[trigger] z(i) == f(i) + g(i) by {}
    lemma_total_add(f, g, z, n);
    lemma_total_zero(z, n);
}

/// The flow among the marked vertices cancels out.
proof fn lemma_inner_flow_zero(a: Seq<Seq<bool>>, r: Seq<Vec<u8>>, y: Seq<bool>, m: nat)
    requires
        sym_matrix(a, m),
        residual_ok(a, r, m),
    ensures
        total(side_row(a, r, y, true, m), m as int) == 0,
{
    let n = m as int;
    let g = |i: int, j: int| if y[i] && y[j] { xflow(a, r, i, j) } else { 0 };
    lemma_total_swap(g, n, n);
    let rows = |i: int| total(|j: int| g(i, j), n);
    let cols = |j: int| total(|i: int| g(i, j), n);
    assert forall|i: int| 0 <= i < n implies #[trigger] side_row(a, r, y, true, m)(i) == rows(i) by {
        if y[i] {
            assert forall|j: int| 0 <= j < n implies #[trigger] side_flow(a, r, y, true, i)(j) == g(i, j) by {}
            lemma_total_ext(side_flow(a, r, y, true, i), |j: int| g(i, j), n);
        } else {
            lemma_total_zero(|j: int| g(i, j), n);
        }
    }
    lemma_total_ext(side_row(a, r, y, true, m), rows, n);
    assert forall|j: int| 0 <= j < n implies #[trigger] cols(j) == -rows(j) by {
        assert forall|i: int| 0 <= i < n implies #[trigger] g(i, j) == -g(j, i) by {
            assert(r[i]@[j] + r[j]@[i] == 2 * ind(a[i][j]));
        }
        lemma_total_neg(|i: int| g(j, i), |i: int| g(i, j), n);
    }
    lemma_total_neg(rows, cols, n);
}

/// A flow of value `f` from `s` to `t` is at most any cut separating them,
/// and equals a cut whose edges it saturates.
proof fn lemma_flow_vs_cut(a: Seq<Seq<bool>>, r: Seq<Vec<u8>>, m: nat, s: int, t: int, f: int, y: Seq<bool>)
    requires
        sym_matrix(a, m),
        residual_ok(a, r, m),
        conserves(a, r, m, s, t, f),
        0 <= s < m,
        0 <= t < m,
        s != t,
        y.len() == m,
        y[s],
        !y[t],
    ensures
        f <= matrix_cut(a, y, m),
        (forall|i: int, j: int| 0 <= i < m && 0 <= j < m && y[i] && !y[j] ==> r[i]@[j] == 0)
            ==> f == matrix_cut(a, y, m),
{
    let n = m as int;
    let outs = |i: int| if y[i] { netout(a, r, i, m) } else { 0 };
    assert forall|i: int| 0 <= i < n && i != s implies #[trigger] outs(i) == 0 by {
        if y[i] {
            assert(netout(a, r, i, m) == (if i == s { f } else if i == t { -f } else { 0 }));
        }
    }
    assert(netout(a, r, s, m) == f);
    lemma_total_single(outs, s, n);
    assert forall|i: int| 0 <= i < n implies #[trigger] outs(i) == side_row(a, r, y, true, m)(i)
        + side_row(a, r, y, false, m)(i) by {
        if y[i] {
            assert forall|j: int| 0 <= j < n implies #[trigger] flow_term(a, r, i)(j)
                == side_flow(a, r, y, true, i)(j) + side_flow(a, r, y, false, i)(j) by {}
            lemma_total_add(side_flow(a, r, y, true, i), side_flow(a, r, y, false, i), flow_term(a, r, i), n);
        }
    }
    lemma_total_add(side_row(a, r, y, true, m), side_row(a, r, y, false, m), outs, n);
    lemma_inner_flow_zero(a, r, y, m);
    assert forall|i: int| 0 <= i < n implies #[trigger] side_row(a, r, y, false, m)(i) <= cut_row(a, y, m)(i) by {
        if y[i] {
            assert forall|j: int| 0 <= j < n implies #[trigger] side_flow(a, r, y, false, i)(j) <= leave_term(a, y, i)(j) by {
                assert(r[i]@[j] + r[j]@[i] == 2 * ind(a[i][j]));
            }
            lemma_total_mono(side_flow(a, r, y, false, i), leave_term(a, y, i), n);
        }
    }
    lemma_total_mono(side_row(a, r, y, false, m), cut_row(a, y, m), n);
    if forall|i: int, j: int| 0 <= i < m && 0 <= j < m && y[i] && !y[j] ==> r[i]@[j] == 0 {
        assert forall|i: int| 0 <= i < n implies #[trigger] side_row(a, r, y, false, m)(i) == cut_row(a, y, m)(i) by {
            if y[i] {
                assert forall|j: int| 0 <= j < n implies #[trigger] side_flow(a, r, y, false, i)(j) == leave_term(a, y, i)(j) by {
                    if !y[j] {
                        assert(r[i]@[j] == 0);
                    }
                }
                lemma_total_ext(side_flow(a, r, y, false, i), leave_term(a, y, i), n);
            }
        }
        lemma_total_ext(side_row(a, r, y, false, m), cut_row(a, y, m), n);
    }
}

/// The cut of the unmarked side is the cut of the marked side.
proof fn lemma_cut_complement(a: Seq<Seq<bool>>, y: Seq<bool>, m: nat)
    requires
        sym_matrix(a, m),
        y.len() == m,
    ensures
        matrix_cut(a, Seq::new(m, |i: int| !y[i]), m) == matrix_cut(a, y, m),
{
    let n = m as int;
    let yc = Seq::new(m, |i: int| !y[i]);
    let g = |i: int, j: int| ind(y[i] && a[i][j] && !y[j]);
    lemma_total_swap(g, n, n);
    let rows = |i: int| total(|j: int| g(i, j), n);
    let cols = |j: int| total(|i: int| g(i, j), n);
    assert forall|i: int| 0 <= i < n implies #[trigger] cut_row(a, y, m)(i) == rows(i) by {
        if y[i] {
            assert forall|j: int| 0 <= j < n implies #[trigger] leave_term(a, y, i)(j) == g(i, j) by {}
            lemma_total_ext(leave_term(a, y, i), |j: int| g(i, j), n);
        } else {
            lemma_total_zero(|j: int| g(i, j), n);
        }
    }
    lemma_total_ext(cut_row(a, y, m), rows, n);
    assert forall|j: int| 0 <= j < n implies #[trigger] cols(j) == cut_row(a, yc, m)(j) by {
        if yc[j] {
            assert forall|i: int| 0 <= i < n implies #[trigger] g(i, j) == leave_term(a, yc, j)(i) by {
                assert(a[i][j] == a[j][i]);
            }
            lemma_total_ext(|i: int| g(i, j), leave_term(a, yc, j), n);
        } else {
            lemma_total_zero(|i: int| g(i, j), n);
        }
    }
    lemma_total_ext(cols, cut_row(a, yc, m), n);
}


/// Pushing one unit of flow from `p` to `c` along a residual edge keeps the
/// capacities valid, adds one to the net flow out of `p` and takes one from
/// that out of `c`.
proof fn lemma_push_unit(a: Seq<Seq<bool>>, r: Seq<Vec<u8>>, r2: Seq<Vec<u8>>, m: nat, p: int, c: int)
    requires
        sym_matrix(a, m),
        residual_ok(a, r, m),
        0 <= p < m,
        0 <= c < m,
        p != c,
        r[p]@[c] >= 1,
        r2.len() == m,
        r2[p]@ == r[p]@.update(c, (r[p]@[c] - 1) as u8),
        r2[c]@ == r[c]@.update(p, (r[c]@[p] + 1) as u8),
        forall|i: int| 0 <= i < m && i != p && i != c ==> #[trigger] r2[i]@ == r[i]@,
    ensures
        residual_ok(a, r2, m),
        netout(a, r2, p, m) == netout(a, r, p, m) + 1,
        netout(a, r2, c, m) == netout(a, r, c, m) - 1,
        forall|i: int| 0 <= i < m && i != p && i != c ==> #[trigger] netout(a, r2, i, m) == netout(a, r, i, m),
{
    let n = m as int;
    assert(r[p]@[c] + r[c]@[p] == 2 * ind(a[p][c]));
    assert forall|i: int| 0 <= i < m implies (#[trigger] r2[i])@.len() == m by {
        if i != p && i != c {
            assert(r2[i]@ == r[i]@);
        }
    }
    assert forall|i: int, j: int| 0 <= i < m && 0 <= j < m implies r2[i]@[j] + r2[j]@[i] == 2 * ind(a[i][j]) by {
        assert(r[i]@[j] + r[j]@[i] == 2 * ind(a[i][j]));
        if i != p && i != c {
            assert(r2[i]@ == r[i]@);
        }
        if j != p && j != c {
            assert(r2[j]@ == r[j]@);
        }
    }
    let dp = |j: int| if j == c { 1int } else { 0int };
    assert forall|j: int| 0 <= j < n implies #[trigger] flow_term(a, r2, p)(j) == flow_term(a, r, p)(j) + dp(j) by {}
    lemma_total_add(flow_term(a, r, p), dp, flow_term(a, r2, p), n);
    lemma_total_single(dp, c, n);
    let dc = |j: int| if j == p { -1int } else { 0int };
    assert forall|j: int| 0 <= j < n implies #[trigger] flow_term(a, r2, c)(j) == flow_term(a, r, c)(j) + dc(j) by {}
    lemma_total_add(flow_term(a, r, c), dc, flow_term(a, r2, c), n);
    lemma_total_single(dc, p, n);
    assert forall|i: int| 0 <= i < m && i != p && i != c implies #[trigger] netout(a, r2, i, m) == netout(a, r, i, m) by {
        assert(r2[i]@ == r[i]@);
        assert forall|j: int| 0 <= j < n implies #[trigger] flow_term(a, r2, i)(j) == flow_term(a, r, i)(j) by {}
        lemma_total_ext(flow_term(a, r2, i), flow_term(a, r, i), n);
    }
}

/// At most `n` of the first `n` positions are marked.
proof fn lemma_size_le(x: Seq<bool>, n: nat)
    ensures
        0 <= set_size(x, n) <= n,
    decreases n,
{
    if n > 0 {
        lemma_size_le(x, (n - 1) as nat);
    }
}

/// Sets one residual capacity.
fn set_entry(r: &mut Vec<Vec<u8>>, i: usize, j: usize, v: u8)
    requires
        i < old(r)@.len(),
        j < old(r)@[i as int]@.len(),
    ensures
        final(r)@.len() == old(r)@.len(),
        final(r)@[i as int]@ == old(r)@[i as int]@.update(j as int, v),
        forall|k: int| 0 <= k < old(r)@.len() && k != i ==> #[trigger] final(r)@[k] == old(r)@[k],
{
    let mut row: Vec<u8> = Vec::new();
    r.set_and_swap(i, &mut row);
    row.set(j, v);
    r.set_and_swap(i, &mut row);
}

/// Breadth-first search from `s` along positive residual capacities,
/// stopping once `t` is taken from the queue: the marks of the vertices
/// reached, a parent for each reached vertex other than `s` (reached
/// earlier, by a positive capacity), and the order in which they were
/// reached. When `t` is not reached, no positive capacity leaves the
/// reached vertices.
fn residual_search(r: &Vec<Vec<u8>>, m: usize, s: usize, t: usize) -> (res: (Vec<bool>, Vec<usize>, Ghost<Seq<int>>))
    requires
        r@.len() == m,
        forall|i: int| 0 <= i < m ==> (#[trigger] r@[i])@.len() == m,
        s < m,
        t < m,
    ensures
        res.0@.len() == m,
        res.1@.len() == m,
        res.2@.len() == m,
        res.0@[s as int],
        res.2@[s as int] == 0,
        forall|v: int| 0 <= v < m && #[trigger] res.0@[v] ==> 0 <= res.2@[v],
        forall|v: int| 0 <= v < m && #[trigger] res.0@[v] && v != s ==> {
            let p = res.1@[v] as int;
            &&& p < m
            &&& res.0@[p]
            &&& res.2@[p] < res.2@[v]
            &&& r@[p]@[v] > 0
        },
        !res.0@[t as int] ==> forall|i: int, j: int| #![trigger res.0@[i], r@[i]@[j]] 0 <= i < m && 0 <= j < m && res.0@[i] && r@[i]@[j] > 0
            ==> res.0@[j],
{
    let mut visited: Vec<bool> = Vec::new();
    let mut parent: Vec<usize> = Vec::new();
    let mut k: usize = 0;
    while k < m
        invariant
            k <= m,
            visited@.len() == k,
            parent@.len() == k,
            forall|i: int| 0 <= i < k ==> !(#[trigger] visited@[i]),
        decreases m - k,
    {
        visited.push(false);
        parent.push(0);
        k += 1;
    }
    proof {
        assert forall|i: int| 0 <= i < m implies #[trigger] mark_term(visited@)(i) == 0 by {}
        lemma_total_zero(mark_term(visited@), m as int);
        lemma_size_without(visited@.update(s as int, true), s as int, m as nat);
        assert(visited@.update(s as int, true).update(s as int, false) =~= visited@);
    }
    visited.set(s, true);
    let ghost mut pos: Seq<int> = Seq::new(m as nat, |i: int| 0int);
    let mut queue: Vec<usize> = Vec::new();
    queue.push(s);
    let mut head: usize = 0;
    let mut done = false;
    while head < queue.len() && !done
        invariant
            r@.len() == m,
            forall|i: int| 0 <= i < m ==> (#[trigger] r@[i])@.len() == m,
            s < m,
            t < m,
            visited@.len() == m,
            parent@.len() == m,
            pos.len() == m,
            head <= queue@.len(),
            queue@.len() == set_size(visited@, m as nat),
            forall|q: int| 0 <= q < queue@.len() ==> {
                let v = #[trigger] queue@[q] as int;
                &&& v < m
                &&& visited@[v]
                &&& pos[v] == q
            },
            forall|v: int| 0 <= v < m && #[trigger] visited@[v] ==> 0 <= pos[v] < queue@.len() && queue@[pos[v]] == v,
            visited@[s as int],
            pos[s as int] == 0,
            forall|v: int| 0 <= v < m && #[trigger] visited@[v] && v != s ==> {
                let p = parent@[v] as int;
                &&& p < m
                &&& visited@[p]
                &&& pos[p] < pos[v]
                &&& r@[p]@[v] > 0
            },
            forall|v: int, j: int| #![trigger visited@[v], r@[v]@[j]] 0 <= v < m && 0 <= j < m && visited@[v] && pos[v] < head && r@[v]@[j] > 0
                ==> visited@[j],
            done ==> visited@[t as int],
        decreases 2 * (m - head) + (if done { 0int } else { 1int }),
    {
        proof { lemma_size_le(visited@, m as nat); }
        let u = queue[head];
        if u == t {
            done = true;
        } else {
            let mut j: usize = 0;
            while j < m
                invariant
                    r@.len() == m,
                    forall|i: int| 0 <= i < m ==> (#[trigger] r@[i])@.len() == m,
                    s < m,
                    t < m,
                    u < m,
                    j <= m,
                    visited@.len() == m,
                    parent@.len() == m,
                    pos.len() == m,
                    head < queue@.len(),
                    queue@[head as int] == u,
                    queue@.len() == set_size(visited@, m as nat),
                    forall|q: int| 0 <= q < queue@.len() ==> {
                        let v = #[trigger] queue@[q] as int;
                        &&& v < m
                        &&& visited@[v]
                        &&& pos[v] == q
                    },
                    forall|v: int| 0 <= v < m && #[trigger] visited@[v] ==> 0 <= pos[v] < queue@.len() && queue@[pos[v]] == v,
                    visited@[s as int],
                    pos[s as int] == 0,
                    forall|v: int| 0 <= v < m && #[trigger] visited@[v] && v != s ==> {
                        let p = parent@[v] as int;
                        &&& p < m
                        &&& visited@[p]
                        &&& pos[p] < pos[v]
                        &&& r@[p]@[v] > 0
                    },
                    forall|v: int, jj: int| #![trigger visited@[v], r@[v]@[jj]] 0 <= v < m && 0 <= jj < m && visited@[v] && pos[v] < head && r@[v]@[jj] > 0
                        ==> visited@[jj],
                    forall|jj: int| 0 <= jj < j && r@[u as int]@[jj] > 0 ==> #[trigger] visited@[jj],
                decreases m - j,
            {
                if !visited[j] && r[u][j] > 0 {
                    proof {
                        lemma_size_le(visited@, m as nat);
                        lemma_size_without(visited@.update(j as int, true), j as int, m as nat);
                        assert(visited@.update(j as int, true).update(j as int, false) =~= visited@);
                        pos = pos.update(j as int, queue@.len() as int);
                    }
                    visited.set(j, true);
                    parent.set(j, u);
                    queue.push(j);
                }
                j += 1;
            }
            head += 1;
        }
    }
    proof {
        if !visited@[t as int] {
            assert forall|i: int, jj: int| #![trigger visited@[i], r@[i]@[jj]] 0 <= i < m && 0 <= jj < m && visited@[i] && r@[i]@[jj] > 0
                implies visited@[jj] by {}
        }
    }
    (visited, parent, Ghost(pos))
}


/// The adjacency matrix held by rows.
pub open spec fn mview(a: Seq<Vec<bool>>) -> Seq<Seq<bool>> {
    Seq::new(a.len(), |i: int| a[i]@)
}

/// Terms of at most 1 sum to at most their number.
proof fn lemma_total_le_count(f: spec_fn(int) -> int, n: int)
    requires
        forall|i: int| 0 <= i < n ==> #[trigger] f(i) <= 1,
    ensures
        total(f, n) <= if n < 0 { 0 } else { n },
    decreases n,
{
    if n > 0 {
        lemma_total_le_count(f, n - 1);
    }
}

/// A cut around a single vertex has at most `m` edges.
proof fn lemma_single_cut_bound(a: Seq<Seq<bool>>, m: nat, s: int)
    requires
        0 <= s < m,
    ensures
        matrix_cut(a, Seq::new(m, |i: int| i == s), m) <= m,
{
    let y = Seq::new(m, |i: int| i == s);
    assert forall|i: int| 0 <= i < m && i != s implies #[trigger] cut_row(a, y, m)(i) == 0 by {}
    lemma_total_single(cut_row(a, y, m), s, m as int);
    assert forall|j: int| 0 <= j < m implies #[trigger] leave_term(a, y, s)(j) <= 1 by {}
    lemma_total_le_count(leave_term(a, y, s), m as int);
}

/// The residual capacities of the zero flow: the adjacency itself.
fn zero_flow(a: &Vec<Vec<bool>>, m: usize) -> (r: Vec<Vec<u8>>)
    requires
        sym_matrix(mview(a@), m as nat),
    ensures
        residual_ok(mview(a@), r@, m as nat),
        forall|i: int| 0 <= i < m ==> #[trigger] netout(mview(a@), r@, i, m as nat) == 0,
{
    let ghost aa = mview(a@);
    let mut r: Vec<Vec<u8>> = Vec::new();
    let mut i: usize = 0;
    while i < m
        invariant
            i <= m,
            aa == mview(a@),
            sym_matrix(aa, m as nat),
            r@.len() == i,
            forall|k: int| 0 <= k < i ==> (#[trigger] r@[k])@.len() == m,
            forall|k: int, j: int| 0 <= k < i && 0 <= j < m ==> #[trigger] r@[k]@[j] == ind(aa[k][j]),
        decreases m - i,
    {
        let mut row: Vec<u8> = Vec::new();
        let mut j: usize = 0;
        while j < m
            invariant
                i < m,
                j <= m,
                aa == mview(a@),
                sym_matrix(aa, m as nat),
                row@.len() == j,
                forall|jj: int| 0 <= jj < j ==> #[trigger] row@[jj] == ind(aa[i as int][jj]),
            decreases m - j,
        {
            assert(a@[i as int]@.len() == m) by { assert(aa[i as int] == a@[i as int]@); }
            if a[i][j] {
                row.push(1);
            } else {
                row.push(0);
            }
            j += 1;
        }
        r.push(row);
        i += 1;
    }
    proof {
        assert forall|k: int, j: int| 0 <= k < m && 0 <= j < m implies r@[k]@[j] + r@[j]@[k] == 2 * ind(aa[k][j]) by {
            assert(r@[k]@[j] == ind(aa[k][j]));
            assert(r@[j]@[k] == ind(aa[j][k]));
        }
        assert forall|k: int| 0 <= k < m implies #[trigger] netout(aa, r@, k, m as nat) == 0 by {
            assert forall|j: int| 0 <= j < m implies #[trigger] flow_term(aa, r@, k)(j) == 0 by {
                assert(r@[k]@[j] == ind(aa[k][j]));
            }
            lemma_total_zero(flow_term(aa, r@, k), m as int);
        }
    }
    r
}

/// Maximum unit-capacity flow from `s` to `t` by shortest augmenting
/// paths: its value, and the vertices still reachable from `s` by positive
/// residual capacities, a part containing `s` but not `t` whose cut equals
/// the flow. Every part containing `s` but not `t` has at least that many
/// edges leaving it.
fn max_flow(a: &Vec<Vec<bool>>, m: usize, s: usize, t: usize) -> (res: (usize, Ghost<Seq<bool>>))
    requires
        sym_matrix(mview(a@), m as nat),
        s < m,
        t < m,
        s != t,
    ensures
        res.1@.len() == m,
        res.1@[s as int],
        !res.1@[t as int],
        res.0 <= m,
        res.0 == matrix_cut(mview(a@), res.1@, m as nat),
        forall|y: Seq<bool>| y.len() == m && y[s as int] && !y[t as int] ==> res.0 <= #[trigger] matrix_cut(mview(a@), y, m as nat),
{
    let ghost aa = mview(a@);
    let ghost mm = m as nat;
    let mut r = zero_flow(a, m);
    let mut flow: usize = 0;
    loop
        invariant
            aa == mview(a@),
            mm == m,
            sym_matrix(aa, mm),
            s < m,
            t < m,
            s != t,
            residual_ok(aa, r@, mm),
            conserves(aa, r@, mm, s as int, t as int, flow as int),
            flow <= m,
        decreases m - flow,
    {
        let (visited, parent, Ghost(pos)) = residual_search(&r, m, s, t);
        if !visited[t] {
            proof {
                lemma_flow_vs_cut(aa, r@, mm, s as int, t as int, flow as int, visited@);
                assert forall|y: Seq<bool>| y.len() == m && y[s as int] && !y[t as int]
                    implies flow <= #[trigger] matrix_cut(aa, y, mm) by {
                    lemma_flow_vs_cut(aa, r@, mm, s as int, t as int, flow as int, y);
                }
            }
            return (flow, Ghost(visited@));
        }
        let ghost rb = r@;
        let mut cur: usize = t;
        while cur != s
            invariant
                aa == mview(a@),
                mm == m,
                sym_matrix(aa, mm),
                s < m,
                t < m,
                s != t,
                flow <= m,
                visited@.len() == m,
                parent@.len() == m,
                pos.len() == m,
                visited@[s as int],
                pos[s as int] == 0,
                forall|v: int| 0 <= v < m && #[trigger] visited@[v] ==> 0 <= pos[v],
                forall|v: int| 0 <= v < m && #[trigger] visited@[v] && v != s ==> {
                    let p = parent@[v] as int;
                    &&& p < m
                    &&& visited@[p]
                    &&& pos[p] < pos[v]
                    &&& rb[p]@[v] > 0
                },
                residual_ok(aa, rb, mm),
                residual_ok(aa, r@, mm),
                cur < m,
                visited@[cur as int],
                visited@[t as int],
                pos[cur as int] <= pos[t as int],
                forall|i: int, j: int| #![trigger r@[i]@[j]] 0 <= i < m && 0 <= j < m && visited@[i] && visited@[j]
                    && pos[i] <= pos[cur as int] && pos[j] <= pos[cur as int] ==> r@[i]@[j] == rb[i]@[j],
                forall|i: int| 0 <= i < m ==> #[trigger] netout(aa, r@, i, mm)
                    == (if i == s { flow as int } else if i == t { -flow } else { 0 })
                        + (if cur != t { (if i == cur { 1int } else { 0int }) - (if i == t { 1int } else { 0int }) } else { 0 }),
            decreases pos[cur as int],
        {
            let p = parent[cur];
            assert(r@[p as int]@[cur as int] == rb[p as int]@[cur as int]);
            assert(r@[p as int]@[cur as int] + r@[cur as int]@[p as int] == 2 * ind(aa[p as int][cur as int]));
            let v1: u8 = r[p][cur] - 1;
            let v2: u8 = r[cur][p] + 1;
            let ghost before = r@;
            set_entry(&mut r, p, cur, v1);
            set_entry(&mut r, cur, p, v2);
            proof {
                assert forall|i: int| 0 <= i < m && i != p && i != cur implies #[trigger] r@[i]@ == before[i]@ by {}
                lemma_push_unit(aa, before, r@, mm, p as int, cur as int);
                assert forall|i: int, j: int| #![trigger r@[i]@[j]] 0 <= i < m && 0 <= j < m && visited@[i] && visited@[j]
                    && pos[i] <= pos[p as int] && pos[j] <= pos[p as int] implies r@[i]@[j] == rb[i]@[j] by {
                    assert(before[i]@[j] == rb[i]@[j]);
                    if i == p as int {
                        assert(j != cur as int);
                    }
                    if i == cur as int {
                        assert(false);
                    }
                }
                assert forall|i: int| 0 <= i < m implies #[trigger] netout(aa, r@, i, mm)
                    == (if i == s { flow as int } else if i == t { -flow } else { 0 })
                        + (if p != t { (if i == p { 1int } else { 0int }) - (if i == t { 1int } else { 0int }) } else { 0 }) by {
                    assert(netout(aa, before, i, mm)
                        == (if i == s { flow as int } else if i == t { -flow } else { 0 })
                        + (if cur != t { (if i == cur { 1int } else { 0int }) - (if i == t { 1int } else { 0int }) } else { 0 }));
                }
            }
            cur = p;
        }
        proof {
            assert forall|i: int| 0 <= i < m implies #[trigger] netout(aa, r@, i, mm)
                == (if i == s { flow + 1 } else if i == t { -(flow + 1) } else { 0 }) by {}
            let single = Seq::new(mm, |i: int| i == s);
            lemma_flow_vs_cut(aa, r@, mm, s as int, t as int, flow + 1, single);
            lemma_single_cut_bound(aa, mm, s as int);
        }
        flow += 1;
    }
}


/// Cuts have no negative size.
proof fn lemma_cut_nonneg(a: Seq<Seq<bool>>, y: Seq<bool>, m: nat)
    ensures
        matrix_cut(a, y, m) >= 0,
{
    let z = |i: int| 0int;
    assert forall|i: int| 0 <= i < m implies #[trigger] z(i) <= cut_row(a, y, m)(i) by {
        if y[i] {
            let zz = |j: int| 0int;
            assert forall|j: int| 0 <= j < m implies #[trigger] zz(j) <= leave_term(a, y, i)(j) by {}
            lemma_total_mono(zz, leave_term(a, y, i), m as int);
            lemma_total_zero(zz, m as int);
        }
    }
    lemma_total_mono(z, cut_row(a, y, m), m as int);
    lemma_total_zero(z, m as int);
}

/// Edge connectivity of the graph with adjacency matrix `a` on `m`
/// vertices: the least maximum flow from vertex 0 to another vertex.
pub(crate) fn matrix_edge_connectivity(a: &Vec<Vec<bool>>, m: usize) -> (r: usize)
    requires
        sym_matrix(mview(a@), m as nat),
    ensures
        is_edge_connectivity(mview(a@), m as nat, r as int),
{
    let ghost aa = mview(a@);
    let ghost mm = m as nat;
    if m <= 1 {
        return 0;
    }
    let (first, Ghost(first_part)) = max_flow(a, m, 0, 1);
    let mut best: usize = first;
    let ghost mut wit: Seq<bool> = first_part;
    proof {
        assert(wit[0] && !wit[1]);
        assert forall|y: Seq<bool>| proper_part(y, mm) implies #[trigger] matrix_cut(aa, y, mm) >= 0 by {
            lemma_cut_nonneg(aa, y, mm);
        }
    }
    if best == 0 {
        return 0;
    }
    let mut t: usize = 2;
    while t < m
        invariant
            aa == mview(a@),
            mm == m,
            m >= 2,
            sym_matrix(aa, mm),
            2 <= t <= m,
            proper_part(wit, mm) && matrix_cut(aa, wit, mm) == best,
            forall|y: Seq<bool>, q: int| #![trigger matrix_cut(aa, y, mm), y[q]]
                1 <= q < t && y.len() == m && y[0] && !y[q] ==> best <= matrix_cut(aa, y, mm),
        decreases m - t,
    {
        let (f, Ghost(part)) = max_flow(a, m, 0, t);
        proof {
            assert(part[0]);
            assert(!part[t as int]);
        }
        if f < best {
            best = f;
            proof {
                wit = part;
                assert(wit[0] && !wit[t as int]);
                assert(proper_part(wit, mm));
                assert(matrix_cut(aa, wit, mm) == best);
            }
            if best == 0 {
                proof {
                    assert forall|y: Seq<bool>| proper_part(y, mm) implies #[trigger] matrix_cut(aa, y, mm) >= 0 by {
                        lemma_cut_nonneg(aa, y, mm);
                    }
                }
                return 0;
            }
        }
        t += 1;
    }
    proof {
        assert forall|y: Seq<bool>| proper_part(y, mm) implies #[trigger] matrix_cut(aa, y, mm) >= best by {
            if y[0] {
                let q = choose|j: int| 0 <= j < mm && !#[trigger] y[j];
                assert(matrix_cut(aa, y, mm) >= best);
            } else {
                let yc = Seq::new(mm, |i: int| !y[i]);
                let q = choose|i: int| 0 <= i < mm && #[trigger] y[i];
                assert(yc[0] && !yc[q]);
                assert(matrix_cut(aa, yc, mm) >= best);
                lemma_cut_complement(aa, y, mm);
            }
        }
    }
    best
}

/// The adjacency of `vertices` (by position) in the graph whose vertex `u`
/// lists its neighbours in `adj[u]`: positions `i` and `j` are adjacent when
/// they differ and either vertex lists the other.
pub open spec fn listed_matrix(vertices: Seq<usize>, adj: Seq<Vec<usize>>) -> Seq<Seq<bool>> {
    Seq::new(vertices.len(), |i: int| Seq::new(vertices.len(), |j: int|
        i != j && (adj[vertices[i] as int]@.contains(vertices[j]) || adj[vertices[j] as int]@.contains(vertices[i]))))
}

/// Whether `w` occurs in the list.
fn list_has(list: &Vec<usize>, w: usize) -> (r: bool)
    ensures
        r == list@.contains(w),
{
    let mut k: usize = 0;
    while k < list.len()
        invariant
            k <= list@.len(),
            forall|x: int| 0 <= x < k ==> list@[x] != w,
        decreases list.len() - k,
    {
        if list[k] == w {
            return true;
        }
        k += 1;
    }
    false
}

/// The positions of `vertices` as an adjacency matrix, by the rule of
/// [`listed_matrix`].
fn listed_adjacency(vertices: &[usize], adj: &[Vec<usize>]) -> (a: Vec<Vec<bool>>)
    requires
        forall|i: int| 0 <= i < vertices@.len() ==> (#[trigger] vertices@[i]) < adj@.len(),
    ensures
        mview(a@) == listed_matrix(vertices@, adj@),
{
    let m = vertices.len();
    let mut a: Vec<Vec<bool>> = Vec::new();
    let mut i: usize = 0;
    while i < m
        invariant
            m == vertices@.len(),
            i <= m,
            a@.len() == i,
            forall|i: int| 0 <= i < vertices@.len() ==> (#[trigger] vertices@[i]) < adj@.len(),
            forall|k: int| 0 <= k < i ==> (#[trigger] a@[k])@ == listed_matrix(vertices@, adj@)[k],
        decreases m - i,
    {
        let mut row: Vec<bool> = Vec::new();
        let mut j: usize = 0;
        while j < m
            invariant
                m == vertices@.len(),
                i < m,
                j <= m,
                row@.len() == j,
                forall|i: int| 0 <= i < vertices@.len() ==> (#[trigger] vertices@[i]) < adj@.len(),
                forall|jj: int| 0 <= jj < j ==> #[trigger] row@[jj] == listed_matrix(vertices@, adj@)[i as int][jj],
            decreases m - j,
        {
            let b = i != j && (list_has(&adj[vertices[i]], vertices[j]) || list_has(&adj[vertices[j]], vertices[i]));
            row.push(b);
            j += 1;
        }
        proof {
            assert(row@ =~= listed_matrix(vertices@, adj@)[i as int]);
        }
        a.push(row);
        i += 1;
    }
    proof {
        assert(mview(a@) =~= listed_matrix(vertices@, adj@));
    }
    a
}

/// Edge connectivity of the subgraph on `vertices` (listed once each) of
/// the graph whose vertex `u` lists its neighbours in `adj[u]`, an edge
/// joining two of the vertices when either lists the other: 0 for at most
/// one vertex, else the fewest edges between a proper part of the vertices
/// and the rest.
pub fn edge_connectivity(vertices: &[usize], adj: &[Vec<usize>]) -> (r: usize)
    requires
        forall|i: int| 0 <= i < vertices@.len() ==> (#[trigger] vertices@[i]) < adj@.len(),
        forall|i: int, j: int| 0 <= i < j < vertices@.len() ==> vertices@[i] != vertices@[j],
    ensures
        is_edge_connectivity(listed_matrix(vertices@, adj@), vertices@.len(), r as int),
{
    let a = listed_adjacency(vertices, adj);
    let m = vertices.len();
    proof {
        let aa = listed_matrix(vertices@, adj@);
        assert forall|i: int| 0 <= i < m implies (#[trigger] aa[i]).len() == m by {}
        assert forall|i: int, j: int| 0 <= i < m && 0 <= j < m implies aa[i][j] == aa[j][i] by {}
        assert forall|i: int| 0 <= i < m implies !(#[trigger] aa[i])[i] by {}
    }
    matrix_edge_connectivity(&a, m)
}


/// The adjacency of `vertices` (by position) under the edge list:
/// positions `i` and `j` are adjacent when they differ and some edge joins
/// their vertices.
pub open spec fn edges_matrix(edges: Seq<(usize, usize)>, vertices: Seq<usize>) -> Seq<Seq<bool>> {
    Seq::new(vertices.len(), |i: int| Seq::new(vertices.len(), |j: int|
        i != j && adjacent_in(edges, vertices[i] as int, vertices[j] as int)))
}

/// The adjacency of `vertices` (by position) in the graph.
pub open spec fn induced_matrix(g: SimpleGraph, vertices: Seq<usize>) -> Seq<Seq<bool>> {
    edges_matrix(g.edge_seq(), vertices)
}

/// `vertices` form a feasible cluster of the graph: a single vertex, or at
/// least three vertices whose induced subgraph has edge connectivity above
/// half their number (every proper part has more than half as many edges
/// leaving it as there are vertices).
pub open spec fn feasible_cluster(g: SimpleGraph, vertices: Seq<usize>) -> bool {
    let m = vertices.len();
    m == 1 || (m >= 3 && forall|y: Seq<bool>| proper_part(y, m) ==> 2 * #[trigger] matrix_cut(induced_matrix(g, vertices), y, m) > m)
}

/// Whether some edge joins `u` and `v`, in either orientation.
pub(crate) fn list_adjacent(edges: &Vec<(usize, usize)>, u: usize, v: usize) -> (r: bool)
    ensures
        r == adjacent_in(edges@, u as int, v as int),
{
    let mut i: usize = 0;
    while i < edges.len()
        invariant
            i <= edges@.len(),
            forall|j: int| 0 <= j < i ==> !(((#[trigger] edges@[j]).0 == u && edges@[j].1 == v)
                || (edges@[j].0 == v && edges@[j].1 == u)),
        decreases edges.len() - i,
    {
        let (a, b) = edges[i];
        if (a == u && b == v) || (a == v && b == u) {
            assert(edges@[i as int] == (a, b));
            return true;
        }
        i += 1;
    }
    false
}

/// The adjacency matrix of the vertices under the edge list, by the rule
/// of [`edges_matrix`]; it is symmetric with a false diagonal.
pub(crate) fn edges_adjacency(edges: &Vec<(usize, usize)>, vertices: &[usize]) -> (a: Vec<Vec<bool>>)
    ensures
        mview(a@) == edges_matrix(edges@, vertices@),
        sym_matrix(mview(a@), vertices@.len()),
{
    let m = vertices.len();
    let ghost im = edges_matrix(edges@, vertices@);
    let mut a: Vec<Vec<bool>> = Vec::new();
    let mut i: usize = 0;
    while i < m
        invariant
            m == vertices@.len(),
            im == edges_matrix(edges@, vertices@),
            i <= m,
            a@.len() == i,
            forall|k: int| 0 <= k < i ==> (#[trigger] a@[k])@ == im[k],
        decreases m - i,
    {
        let mut row: Vec<bool> = Vec::new();
        let mut j: usize = 0;
        while j < m
            invariant
                m == vertices@.len(),
                im == edges_matrix(edges@, vertices@),
                i < m,
                j <= m,
                row@.len() == j,
                forall|jj: int| 0 <= jj < j ==> #[trigger] row@[jj] == im[i as int][jj],
            decreases m - j,
        {
            let b = i != j && list_adjacent(edges, vertices[i], vertices[j]);
            row.push(b);
            j += 1;
        }
        proof {
            assert(row@ =~= im[i as int]);
        }
        a.push(row);
        i += 1;
    }
    proof {
        assert(mview(a@) =~= im);
        assert forall|i: int| 0 <= i < m implies (#[trigger] im[i]).len() == m by {}
        assert forall|i: int, j: int| 0 <= i < m && 0 <= j < m implies im[i][j] == im[j][i] by {
            let u = vertices@[i] as int;
            let w = vertices@[j] as int;
            if adjacent_in(edges@, u, w) {
                let k = choose|k: int| 0 <= k < edges@.len()
                    && (((#[trigger] edges@[k]).0 as int == u && edges@[k].1 as int == w)
                        || (edges@[k].0 as int == w && edges@[k].1 as int == u));
                assert(adjacent_in(edges@, w, u));
            }
            if adjacent_in(edges@, w, u) {
                let k = choose|k: int| 0 <= k < edges@.len()
                    && (((#[trigger] edges@[k]).0 as int == w && edges@[k].1 as int == u)
                        || (edges@[k].0 as int == u && edges@[k].1 as int == w));
                assert(adjacent_in(edges@, u, w));
            }
        }
        assert forall|i: int| 0 <= i < m implies !(#[trigger] im[i])[i] by {}
    }
    a
}

/// Whether the vertices (listed once each) form a feasible cluster.
pub fn is_feasible_cluster(graph: &SimpleGraph, vertices: &[usize]) -> (r: bool)
    requires
        forall|i: int, j: int| 0 <= i < j < vertices@.len() ==> vertices@[i] != vertices@[j],
    ensures
        r == feasible_cluster(*graph, vertices@),
{
    let m = vertices.len();
    if m == 0 || m == 2 {
        return false;
    }
    if m == 1 {
        return true;
    }
    let ghost im = induced_matrix(*graph, vertices@);
    let a = edges_adjacency(graph.edge_list(), vertices);
    let lambda = matrix_edge_connectivity(&a, m);
    let r = 2 * (lambda as u128) > m as u128;
    proof {
        let w = choose|y: Seq<bool>| proper_part(y, m as nat) && #[trigger] matrix_cut(im, y, m as nat) == lambda as int;
        if r {
            assert forall|y: Seq<bool>| proper_part(y, m as nat) implies 2 * #[trigger] matrix_cut(im, y, m as nat) > m by {}
        } else {
            assert(!(2 * matrix_cut(im, w, m as nat) > m));
        }
    }
    r
}

/// Number of the first `k` edges whose ends are both among the vertices.
pub open spec fn induced_count(edges: Seq<(usize, usize)>, vertices: Seq<usize>, k: int) -> nat
    decreases k,
{
    if k <= 0 {
        0
    } else {
        induced_count(edges, vertices, k - 1)
            + if vertices.contains(edges[k - 1].0) && vertices.contains(edges[k - 1].1) { 1nat } else { 0nat }
    }
}

/// Whether `w` occurs among the vertices.
fn slice_has(list: &[usize], w: usize) -> (r: bool)
    ensures
        r == list@.contains(w),
{
    let mut k: usize = 0;
    while k < list.len()
        invariant
            k <= list@.len(),
            forall|x: int| 0 <= x < k ==> list@[x] != w,
        decreases list.len() - k,
    {
        if list[k] == w {
            return true;
        }
        k += 1;
    }
    false
}

/// Number of edges of the graph with both ends among the vertices.
pub fn induced_edge_count(graph: &SimpleGraph, vertices: &[usize]) -> (r: usize)
    ensures
        r == induced_count(graph.edge_seq(), vertices@, graph.edge_seq().len() as int),
{
    let edges = graph.edge_list();
    let mut c: usize = 0;
    let mut k: usize = 0;
    while k < edges.len()
        invariant
            edges@ == graph.edge_seq(),
            k <= edges@.len(),
            c == induced_count(edges@, vertices@, k as int),
            c <= k,
        decreases edges.len() - k,
    {
        let (u, v) = edges[k];
        if slice_has(vertices, u) && slice_has(vertices, v) {
            c += 1;
        }
        k += 1;
    }
    c
}

} // verus!
