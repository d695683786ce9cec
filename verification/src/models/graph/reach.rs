//! Reachability in an undirected edge list, computed in breadth-first rounds.
use vstd::prelude::*;
use crate::topology::{adjacent_in, endpoints_below};

verus! {

/// `v` is reached from `s` by a walk of at most `d` edges of the list.
pub open spec fn reach_within(edges: Seq<(usize, usize)>, s: int, v: int, d: nat) -> bool
    decreases d,
{
    if d == 0 {
        v == s
    } else {
        reach_within(edges, s, v, (d - 1) as nat)
            || exists|u: int| #[trigger] adjacent_in(edges, u, v) && reach_within(edges, s, u, (d - 1) as nat)
    }
}

/// `v` is reached from `s` by some walk of the list.
pub open spec fn reachable(edges: Seq<(usize, usize)>, s: int, v: int) -> bool {
    exists|d: nat| #[trigger] reach_within(edges, s, v, d)
}

/// Number of `true` entries among the first `k`.
pub open spec fn count_marked(m: Seq<bool>, k: int) -> nat
    decreases k,
{
    if k <= 0 { 0 } else { count_marked(m, k - 1) + if m[k - 1] { 1nat } else { 0nat } }
}

proof fn lemma_count_marked_bound(m: Seq<bool>, k: int)
    requires
        0 <= k <= m.len(),
    ensures
        count_marked(m, k) <= k,
    decreases k,
{
    if k > 0 {
        lemma_count_marked_bound(m, k - 1);
    }
}

/// Marking more entries never lowers the count, and marking a new one raises it.
proof fn lemma_count_marked_grows(a: Seq<bool>, b: Seq<bool>, k: int)
    requires
        0 <= k <= a.len(),
        a.len() == b.len(),
        forall|i: int| 0 <= i < a.len() && a[i] ==> b[i],
    ensures
        count_marked(a, k) <= count_marked(b, k),
        (exists|i: int| 0 <= i < k && b[i] && !a[i]) ==> count_marked(a, k) < count_marked(b, k),
    decreases k,
{
    if k > 0 {
        lemma_count_marked_grows(a, b, k - 1);
        if exists|i: int| 0 <= i < k && b[i] && !a[i] {
            let i = choose|i: int| 0 <= i < k && b[i] && !a[i];
            if i < k - 1 {
                assert(exists|j: int| 0 <= j < k - 1 && b[j] && !a[j]);
            }
        }
    }
}

/// A walk of at most `d` edges is also one of at most `e >= d` edges.
pub proof fn lemma_reach_monotone(edges: Seq<(usize, usize)>, s: int, v: int, d: nat, e: nat)
    requires
        d <= e,
        reach_within(edges, s, v, d),
    ensures
        reach_within(edges, s, v, e),
    decreases e - d,
{
    if d < e {
        lemma_reach_monotone(edges, s, v, d, (e - 1) as nat);
    }
}

/// Every vertex reached from a vertex below `n` is below `n`.
proof fn lemma_reach_in_range(edges: Seq<(usize, usize)>, n: nat, s: int, v: int, d: nat)
    requires
        endpoints_below(edges, n),
        0 <= s < n,
        reach_within(edges, s, v, d),
    ensures
        0 <= v < n,
    decreases d,
{
    if d > 0 {
        if !reach_within(edges, s, v, (d - 1) as nat) {
            let u = choose|u: int| #[trigger] adjacent_in(edges, u, v) && reach_within(edges, s, u, (d - 1) as nat);
            let i = choose|i: int| 0 <= i < edges.len() && ((( #[trigger] edges[i]).0 as int == u && edges[i].1 as int == v)
                || (edges[i].0 as int == v && edges[i].1 as int == u));
            assert(edges[i].0 < n && edges[i].1 < n);
        } else {
            lemma_reach_in_range(edges, n, s, v, (d - 1) as nat);
        }
    }
}

/// Once a round adds nothing, no later round adds anything.
proof fn lemma_fixpoint(edges: Seq<(usize, usize)>, n: nat, s: int, k: nat, d: nat)
    requires
        endpoints_below(edges, n),
        0 <= s < n,
        k <= d,
        forall|v: int| 0 <= v < n ==> (#[trigger] reach_within(edges, s, v, k + 1) == reach_within(edges, s, v, k)),
    ensures
        forall|v: int| 0 <= v < n ==> (#[trigger] reach_within(edges, s, v, d) == reach_within(edges, s, v, k)),
    decreases d - k,
{
    if d > k {
        lemma_fixpoint(edges, n, s, k, (d - 1) as nat);
        assert forall|v: int| 0 <= v < n implies (#[trigger] reach_within(edges, s, v, d) == reach_within(edges, s, v, k)) by {
            if reach_within(edges, s, v, d) && !reach_within(edges, s, v, (d - 1) as nat) {
                let u = choose|u: int| #[trigger] adjacent_in(edges, u, v) && reach_within(edges, s, u, (d - 1) as nat);
                lemma_reach_in_range(edges, n, s, u, (d - 1) as nat);
                assert(reach_within(edges, s, u, k));
                assert(reach_within(edges, s, v, k + 1));
            }
            if reach_within(edges, s, v, k) {
                lemma_reach_monotone(edges, s, v, k, d);
            }
        }
    }
}

/// One breadth-first round: marks every vertex adjacent to a marked one.
/// Returns the new marks and whether anything was added.
fn reach_step(n: usize, edges: &[(usize, usize)], cur: &Vec<bool>) -> (r: (Vec<bool>, bool))
    requires
        endpoints_below(edges@, n as nat),
        cur@.len() == n,
    ensures
        r.0@.len() == n,
        forall|v: int| 0 <= v < n ==> (#[trigger] r.0@[v] <==> cur@[v]
            || exists|u: int| #[trigger] adjacent_in(edges@, u, v) && 0 <= u < n && cur@[u]),
        r.1 <==> exists|v: int| 0 <= v < n && r.0@[v] && !cur@[v],
{
    let mut next: Vec<bool> = cur.clone();
    assert(next@ == cur@);
    let mut changed = false;
    let mut k: usize = 0;
    while k < edges.len()
        invariant
            endpoints_below(edges@, n as nat),
            cur@.len() == n,
            next@.len() == n,
            k <= edges@.len(),
            forall|v: int| 0 <= v < n ==> (#[trigger] next@[v] <==> cur@[v]
                || exists|j: int| 0 <= j < k && ((( #[trigger] edges@[j]).1 as int == v && cur@[edges@[j].0 as int])
                    || (edges@[j].0 as int == v && cur@[edges@[j].1 as int]))),
            changed <==> exists|v: int| 0 <= v < n && next@[v] && !cur@[v],
        decreases edges.len() - k,
    {
        let (a, b) = edges[k];
        assert(edges@[k as int] == (a, b));
        assert(a < n && b < n);
        if cur[a] && !next[b] {
            next.set(b, true);
            changed = true;
        }
        if cur[b] && !next[a] {
            next.set(a, true);
            changed = true;
        }
        proof {
            assert forall|v: int| 0 <= v < n implies (#[trigger] next@[v] <==> cur@[v]
                || exists|j: int| 0 <= j < k + 1 && ((( #[trigger] edges@[j]).1 as int == v && cur@[edges@[j].0 as int])
                    || (edges@[j].0 as int == v && cur@[edges@[j].1 as int]))) by {
                if exists|j: int| 0 <= j < k + 1 && ((( #[trigger] edges@[j]).1 as int == v && cur@[edges@[j].0 as int])
                    || (edges@[j].0 as int == v && cur@[edges@[j].1 as int])) {
                    let j = choose|j: int| 0 <= j < k + 1 && ((( #[trigger] edges@[j]).1 as int == v && cur@[edges@[j].0 as int])
                        || (edges@[j].0 as int == v && cur@[edges@[j].1 as int]));
                    if j < k {
                        assert(exists|j: int| 0 <= j < k && ((( #[trigger] edges@[j]).1 as int == v && cur@[edges@[j].0 as int])
                            || (edges@[j].0 as int == v && cur@[edges@[j].1 as int])));
                    }
                }
            }
        }
        k += 1;
    }
    proof {
        assert forall|v: int| 0 <= v < n implies (#[trigger] next@[v] <==> cur@[v]
            || exists|u: int| #[trigger] adjacent_in(edges@, u, v) && 0 <= u < n && cur@[u]) by {
            if exists|j: int| 0 <= j < edges@.len() && ((( #[trigger] edges@[j]).1 as int == v && cur@[edges@[j].0 as int])
                || (edges@[j].0 as int == v && cur@[edges@[j].1 as int])) {
                let j = choose|j: int| 0 <= j < edges@.len() && ((( #[trigger] edges@[j]).1 as int == v && cur@[edges@[j].0 as int])
                    || (edges@[j].0 as int == v && cur@[edges@[j].1 as int]));
                let e = edges@[j];
                if e.1 as int == v && cur@[e.0 as int] {
                    assert(adjacent_in(edges@, e.0 as int, v));
                } else {
                    assert(adjacent_in(edges@, e.1 as int, v));
                }
            }
            if exists|u: int| #[trigger] adjacent_in(edges@, u, v) && 0 <= u < n && cur@[u] {
                let u = choose|u: int| #[trigger] adjacent_in(edges@, u, v) && 0 <= u < n && cur@[u];
                let j = choose|j: int| 0 <= j < edges@.len() && ((( #[trigger] edges@[j]).0 as int == u && edges@[j].1 as int == v)
                    || (edges@[j].0 as int == v && edges@[j].1 as int == u));
                assert(edges@[j].1 as int == v && cur@[edges@[j].0 as int] || edges@[j].0 as int == v && cur@[edges@[j].1 as int]);
            }
        }
    }
    (next, changed)
}

/// The vertices reached from `s` by walks of at most `d` edges.
pub fn reach_capped(n: usize, edges: &[(usize, usize)], s: usize, d: usize) -> (r: Vec<bool>)
    requires
        endpoints_below(edges@, n as nat),
        s < n,
    ensures
        r@.len() == n,
        forall|v: int| 0 <= v < n ==> #[trigger] r@[v] == reach_within(edges@, s as int, v, d as nat),
{
    let mut cur: Vec<bool> = Vec::new();
    let mut x: usize = 0;
    while x < n
        invariant
            x <= n,
            s < n,
            cur@.len() == x,
            forall|y: int| 0 <= y < x ==> #[trigger] cur@[y] == (y == s),
        decreases n - x,
    {
        cur.push(x == s);
        x += 1;
    }
    let mut k: usize = 0;
    let mut moving = true;
    proof { lemma_count_marked_bound(cur@, n as int); }
    while k < d && moving
        invariant
            endpoints_below(edges@, n as nat),
            s < n,
            cur@.len() == n,
            k <= d,
            forall|v: int| 0 <= v < n ==> #[trigger] cur@[v] == reach_within(edges@, s as int, v, k as nat),
            !moving ==> forall|v: int| 0 <= v < n ==>
                (#[trigger] reach_within(edges@, s as int, v, (k + 1) as nat) == reach_within(edges@, s as int, v, k as nat)),
            moving ==> count_marked(cur@, n as int) <= n,
        decreases n + 1 - count_marked(cur@, n as int) + (if moving { 1int } else { 0int }),
    {
        let (next, changed) = reach_step(n, edges, &cur);
        proof {
            lemma_next_layer(edges@, n as nat, s as int, k as nat, cur@, next@);
            lemma_count_marked_bound(next@, n as int);
            lemma_count_marked_bound(cur@, n as int);
            assert forall|i: int| 0 <= i < cur@.len() && cur@[i] implies next@[i] by {}
            lemma_count_marked_grows(cur@, next@, n as int);
        }
        if !changed {
            moving = false;
        }
        proof {
            if !changed {
                assert forall|v: int| 0 <= v < n implies
                    (#[trigger] reach_within(edges@, s as int, v, (k + 1) as nat) == reach_within(edges@, s as int, v, k as nat)) by {
                    assert(next@[v] == cur@[v]);
                }
            }
        }
        cur = next;
        k += 1;
        proof {
            if !moving {
                assert forall|v: int| 0 <= v < n implies
                    (#[trigger] reach_within(edges@, s as int, v, (k + 1) as nat) == reach_within(edges@, s as int, v, k as nat)) by {
                    lemma_fixpoint(edges@, n as nat, s as int, (k - 1) as nat, (k + 1) as nat);
                }
            }
        }
    }
    proof {
        if k < d {
            lemma_fixpoint(edges@, n as nat, s as int, k as nat, d as nat);
        }
    }
    cur
}

/// The marks after one more round are the vertices reached within one more edge.
proof fn lemma_next_layer(edges: Seq<(usize, usize)>, n: nat, s: int, k: nat, cur: Seq<bool>, next: Seq<bool>)
    requires
        endpoints_below(edges, n),
        0 <= s < n,
        cur.len() == n,
        next.len() == n,
        forall|v: int| 0 <= v < n ==> #[trigger] cur[v] == reach_within(edges, s, v, k),
        forall|v: int| 0 <= v < n ==> (#[trigger] next[v] <==> cur[v]
            || exists|u: int| #[trigger] adjacent_in(edges, u, v) && 0 <= u < n && cur[u]),
    ensures
        forall|v: int| 0 <= v < n ==> #[trigger] next[v] == reach_within(edges, s, v, k + 1),
{
    assert forall|v: int| 0 <= v < n implies #[trigger] next[v] == reach_within(edges, s, v, k + 1) by {
        if exists|u: int| #[trigger] adjacent_in(edges, u, v) && reach_within(edges, s, u, k) {
            let u = choose|u: int| #[trigger] adjacent_in(edges, u, v) && reach_within(edges, s, u, k);
            lemma_reach_in_range(edges, n, s, u, k);
            assert(cur[u]);
        }
    }
}

/// The vertices reached from `s` by any walk.
pub fn reach_all(n: usize, edges: &[(usize, usize)], s: usize) -> (r: Vec<bool>)
    requires
        endpoints_below(edges@, n as nat),
        s < n,
    ensures
        r@.len() == n,
        forall|v: int| 0 <= v < n ==> #[trigger] r@[v] == reachable(edges@, s as int, v),
{
    let r = reach_capped(n, edges, s, n);
    proof {
        assert forall|v: int| 0 <= v < n implies #[trigger] r@[v] == reachable(edges@, s as int, v) by {
            if reachable(edges@, s as int, v) {
                let d = choose|d: nat| #[trigger] reach_within(edges@, s as int, v, d);
                lemma_short_walk(edges@, n as nat, s as int, v, d);
            }
        }
    }
    r
}

/// Walks can be shortened to at most `n` edges: the rounds stop growing
/// after at most `n` of them, since each growing round marks a new vertex.
proof fn lemma_short_walk(edges: Seq<(usize, usize)>, n: nat, s: int, v: int, d: nat)
    requires
        endpoints_below(edges, n),
        0 <= s < n,
        0 <= v < n,
        reach_within(edges, s, v, d),
    ensures
        reach_within(edges, s, v, n),
{
    if d <= n {
        lemma_reach_monotone(edges, s, v, d, n);
    } else {
        let k = lemma_stable_round(edges, n, s, 0);
        lemma_fixpoint(edges, n, s, k, d);
        lemma_fixpoint(edges, n, s, k, n);
    }
}

/// Some round `k <= n` adds nothing.
proof fn lemma_stable_round(edges: Seq<(usize, usize)>, n: nat, s: int, k: nat) -> (j: nat)
    requires
        endpoints_below(edges, n),
        0 <= s < n,
        k <= n,
        count_marked(Seq::new(n, |v: int| reach_within(edges, s, v, k)), n as int) >= k,
    ensures
        k <= j <= n,
        forall|v: int| 0 <= v < n ==> (#[trigger] reach_within(edges, s, v, j + 1) == reach_within(edges, s, v, j)),
    decreases n - k,
{
    let a = Seq::new(n, |v: int| reach_within(edges, s, v, k));
    let b = Seq::new(n, |v: int| reach_within(edges, s, v, k + 1));
    assert forall|i: int| 0 <= i < a.len() && a[i] implies b[i] by {
        lemma_reach_monotone(edges, s, i, k, k + 1);
    }
    lemma_count_marked_grows(a, b, n as int);
    lemma_count_marked_bound(b, n as int);
    if forall|v: int| 0 <= v < n ==> (#[trigger] reach_within(edges, s, v, k + 1) == reach_within(edges, s, v, k)) {
        k
    } else {
        let v = choose|v: int| 0 <= v < n && !(#[trigger] reach_within(edges, s, v, k + 1) == reach_within(edges, s, v, k));
        assert(b[v] && !a[v]);
        lemma_stable_round(edges, n, s, k + 1)
    }
}

/// One more edge extends a walk.
pub proof fn lemma_reach_step(edges: Seq<(usize, usize)>, s: int, u: int, w: int, d: nat)
    requires
        reach_within(edges, s, u, d),
        adjacent_in(edges, u, w),
    ensures
        reach_within(edges, s, w, d + 1),
{
    assert(reach_within(edges, s, w, d + 1));
}

/// Walks compose: from `s` to `u`, then from `u` to `w`.
pub proof fn lemma_reach_trans(edges: Seq<(usize, usize)>, s: int, u: int, w: int, d1: nat, d2: nat)
    requires
        reach_within(edges, s, u, d1),
        reach_within(edges, u, w, d2),
    ensures
        reach_within(edges, s, w, d1 + d2),
    decreases d2,
{
    if d2 == 0 {
        assert(w == u);
        lemma_reach_monotone(edges, s, w, d1, d1 + d2);
    } else {
        if reach_within(edges, u, w, (d2 - 1) as nat) {
            lemma_reach_trans(edges, s, u, w, d1, (d2 - 1) as nat);
            lemma_reach_monotone(edges, s, w, (d1 + d2 - 1) as nat, d1 + d2);
        } else {
            let x = choose|x: int| #[trigger] adjacent_in(edges, x, w) && reach_within(edges, u, x, (d2 - 1) as nat);
            lemma_reach_trans(edges, s, u, x, d1, (d2 - 1) as nat);
            lemma_reach_step(edges, s, x, w, (d1 + d2 - 1) as nat);
        }
    }
}

/// Walks reverse: the edges are undirected.
pub proof fn lemma_reach_symm(edges: Seq<(usize, usize)>, s: int, v: int, d: nat)
    requires
        reach_within(edges, s, v, d),
    ensures
        reach_within(edges, v, s, d),
    decreases d,
{
    if d > 0 {
        if reach_within(edges, s, v, (d - 1) as nat) {
            lemma_reach_symm(edges, s, v, (d - 1) as nat);
            lemma_reach_monotone(edges, v, s, (d - 1) as nat, d);
        } else {
            let u = choose|u: int| #[trigger] adjacent_in(edges, u, v) && reach_within(edges, s, u, (d - 1) as nat);
            lemma_reach_symm(edges, s, u, (d - 1) as nat);
            let i = choose|i: int| 0 <= i < edges.len() && (((#[trigger] edges[i]).0 as int == u && edges[i].1 as int == v)
                || (edges[i].0 as int == v && edges[i].1 as int == u));
            assert(adjacent_in(edges, v, u));
            assert(reach_within(edges, v, v, 0));
            lemma_reach_step(edges, v, v, u, 0);
            lemma_reach_trans(edges, v, u, s, 1, (d - 1) as nat);
        }
    }
}

/// Reachability is symmetric.
pub proof fn lemma_reachable_symm(edges: Seq<(usize, usize)>, s: int, v: int)
    requires
        reachable(edges, s, v),
    ensures
        reachable(edges, v, s),
{
    let d = choose|d: nat| #[trigger] reach_within(edges, s, v, d);
    lemma_reach_symm(edges, s, v, d);
}

/// Reachability is transitive.
pub proof fn lemma_reachable_trans(edges: Seq<(usize, usize)>, s: int, u: int, w: int)
    requires
        reachable(edges, s, u),
        reachable(edges, u, w),
    ensures
        reachable(edges, s, w),
{
    let d1 = choose|d: nat| #[trigger] reach_within(edges, s, u, d);
    let d2 = choose|d: nat| #[trigger] reach_within(edges, u, w, d);
    lemma_reach_trans(edges, s, u, w, d1, d2);
}

/// A neighbour of a reached vertex is reached.
pub proof fn lemma_reachable_step(edges: Seq<(usize, usize)>, s: int, u: int, w: int)
    requires
        reachable(edges, s, u),
        adjacent_in(edges, u, w),
    ensures
        reachable(edges, s, w),
{
    let d = choose|d: nat| #[trigger] reach_within(edges, s, u, d);
    lemma_reach_step(edges, s, u, w, d);
}

} // verus!
