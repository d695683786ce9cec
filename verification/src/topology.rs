//! Graph types on which the graph problems are stated.
use vstd::prelude::*;

verus! {

/// Copies a list element by element.
pub fn copy_vec<T: Copy>(v: &[T]) -> (res: Vec<T>)
    ensures
        res@ == v@,
{
    let mut res: Vec<T> = Vec::new();
    let mut i: usize = 0;
    while i < v.len()
        invariant
            i <= v.len(),
            res@ == v@.subrange(0, i as int),
        decreases v.len() - i,
    {
        res.push(v[i]);
        i += 1;
        assert(res@ =~= v@.subrange(0, i as int));
    }
    assert(v@.subrange(0, v.len() as int) =~= v@);
    res
}

/// Every endpoint of every pair is below `n`.
pub open spec fn endpoints_below(edges: Seq<(usize, usize)>, n: nat) -> bool {
    forall|i: int| 0 <= i < edges.len() ==> (#[trigger] edges[i]).0 < n && edges[i].1 < n
}

/// `u` and `v` are joined by some edge of the list, in either orientation.
pub open spec fn adjacent_in(edges: Seq<(usize, usize)>, u: int, v: int) -> bool {
    exists|i: int|
        0 <= i < edges.len() && ((( #[trigger] edges[i]).0 as int == u && edges[i].1 as int == v)
            || (edges[i].0 as int == v && edges[i].1 as int == u))
}

/// An undirected graph on the vertices `0..num_vertices`, given by its edge list.
#[derive(Debug, Clone)]
pub struct SimpleGraph {
    num_vertices: usize,
    edges: Vec<(usize, usize)>,
}

impl SimpleGraph {
    /// Number of vertices.
    pub closed spec fn n(&self) -> nat {
        self.num_vertices as nat
    }

    /// The edge list.
    pub closed spec fn edge_seq(&self) -> Seq<(usize, usize)> {
        self.edges@
    }

    /// Every edge joins two vertices of the graph.
    pub open spec fn wf(&self) -> bool {
        endpoints_below(self.edge_seq(), self.n())
    }

    /// `u` and `v` are adjacent.
    pub open spec fn spec_has_edge(&self, u: int, v: int) -> bool {
        adjacent_in(self.edge_seq(), u, v)
    }

    /// Creates a graph with `num_vertices` vertices and the given edges.
    pub fn new(num_vertices: usize, edges: Vec<(usize, usize)>) -> (g: Self)
        requires
            endpoints_below(edges@, num_vertices as nat),
        ensures
            g.wf(),
            g.n() == num_vertices,
            g.edge_seq() == edges@,
    {
        SimpleGraph { num_vertices, edges }
    }

    /// Creates the path `0 - 1 - ... - (n-1)`.
    pub fn path(n: usize) -> (g: Self)
        ensures
            g.wf(),
            g.n() == n,
            g.edge_seq().len() == if n == 0 { 0 } else { n - 1 },
            forall|i: int| 0 <= i < g.edge_seq().len() ==> #[trigger] g.edge_seq()[i] == (i as usize, (i + 1) as usize),
    {
        let mut edges: Vec<(usize, usize)> = Vec::new();
        let mut i: usize = 1;
        while i < n
            invariant
                1 <= i,
                n == 0 || i <= n,
                n == 0 ==> i == 1,
                edges@.len() == i - 1,
                forall|j: int| 0 <= j < edges@.len() ==> #[trigger] edges@[j] == (j as usize, (j + 1) as usize),
            decreases n - i,
        {
            edges.push((i - 1, i));
            i += 1;
        }
        assert(n == 0 ==> edges@.len() == 0);
        assert(n > 0 ==> i == n);
        assert(endpoints_below(edges@, n as nat)) by {
            assert forall|j: int| 0 <= j < edges@.len() implies (#[trigger] edges@[j]).0 < n && edges@[j].1 < n by {
                assert(edges@[j] == (j as usize, (j + 1) as usize));
            }
        }
        SimpleGraph { num_vertices: n, edges }
    }

    /// Number of vertices.
    pub fn num_vertices(&self) -> (r: usize)
        ensures
            r == self.n(),
    {
        self.num_vertices
    }

    /// Number of edges.
    pub fn num_edges(&self) -> (r: usize)
        ensures
            r == self.edge_seq().len(),
    {
        self.edges.len()
    }

    /// The edges as `(u, v)` pairs.
    pub fn edges(&self) -> (r: Vec<(usize, usize)>)
        ensures
            r@ == self.edge_seq(),
    {
        copy_vec(&self.edges)
    }

    /// The edge list, borrowed.
    pub fn edge_list(&self) -> (r: &Vec<(usize, usize)>)
        ensures
            r@ == self.edge_seq(),
    {
        &self.edges
    }

    /// Whether `u` and `v` are adjacent (in either orientation).
    pub fn has_edge(&self, u: usize, v: usize) -> (r: bool)
        ensures
            r == self.spec_has_edge(u as int, v as int),
    {
        let mut i: usize = 0;
        while i < self.edges.len()
            invariant
                i <= self.edges@.len(),
                forall|j: int| 0 <= j < i ==> #[trigger] self.edges@[j] != (u, v) && self.edges@[j] != (v, u),
            decreases self.edges.len() - i,
        {
            let (a, b) = self.edges[i];
            if (a == u && b == v) || (a == v && b == u) {
                assert(self.edges@[i as int] == (u, v) || self.edges@[i as int] == (v, u));
                return true;
            }
            i += 1;
        }
        false
    }
}

/// A directed graph on the vertices `0..num_vertices`, given by its arc list.
#[derive(Debug, Clone)]
pub struct DirectedGraph {
    num_vertices: usize,
    arcs: Vec<(usize, usize)>,
}

/// Some arc of the list goes from `u` to `v`.
pub open spec fn arc_in(arcs: Seq<(usize, usize)>, u: int, v: int) -> bool {
    exists|i: int| 0 <= i < arcs.len() && (#[trigger] arcs[i]).0 as int == u && arcs[i].1 as int == v
}

impl DirectedGraph {
    /// Number of vertices.
    pub closed spec fn n(&self) -> nat {
        self.num_vertices as nat
    }

    /// The arc list.
    pub closed spec fn arc_seq(&self) -> Seq<(usize, usize)> {
        self.arcs@
    }

    /// Every arc joins two vertices of the graph.
    pub open spec fn wf(&self) -> bool {
        endpoints_below(self.arc_seq(), self.n())
    }

    /// There is an arc from `u` to `v`.
    pub open spec fn spec_has_arc(&self, u: int, v: int) -> bool {
        arc_in(self.arc_seq(), u, v)
    }

    /// Creates a directed graph with `num_vertices` vertices and the given arcs.
    pub fn new(num_vertices: usize, arcs: Vec<(usize, usize)>) -> (g: Self)
        requires
            endpoints_below(arcs@, num_vertices as nat),
        ensures
            g.wf(),
            g.n() == num_vertices,
            g.arc_seq() == arcs@,
    {
        DirectedGraph { num_vertices, arcs }
    }

    /// Number of vertices.
    pub fn num_vertices(&self) -> (r: usize)
        ensures
            r == self.n(),
    {
        self.num_vertices
    }

    /// Number of arcs.
    pub fn num_arcs(&self) -> (r: usize)
        ensures
            r == self.arc_seq().len(),
    {
        self.arcs.len()
    }

    /// The arcs as `(source, target)` pairs.
    pub fn arcs(&self) -> (r: Vec<(usize, usize)>)
        ensures
            r@ == self.arc_seq(),
    {
        copy_vec(&self.arcs)
    }

    /// The arc list, borrowed.
    pub fn arc_list(&self) -> (r: &Vec<(usize, usize)>)
        ensures
            r@ == self.arc_seq(),
    {
        &self.arcs
    }

    /// Whether there is an arc from `u` to `v`.
    pub fn has_arc(&self, u: usize, v: usize) -> (r: bool)
        ensures
            r == self.spec_has_arc(u as int, v as int),
    {
        let mut i: usize = 0;
        while i < self.arcs.len()
            invariant
                i <= self.arcs@.len(),
                forall|j: int| 0 <= j < i ==> #[trigger] self.arcs@[j] != (u, v),
            decreases self.arcs.len() - i,
        {
            if self.arcs[i].0 == u && self.arcs[i].1 == v {
                assert(self.arcs@[i as int] == (u, v));
                return true;
            }
            i += 1;
        }
        false
    }

    /// Whether the graph has no directed cycle.
    pub fn is_dag(&self) -> (r: bool)
        requires
            self.wf(),
        ensures
            r == is_acyclic(self.n(), self.arc_seq()),
    {
        arcs_acyclic(self.num_vertices, self.arcs.as_slice())
    }

    /// Targets of the arcs leaving `u`, in arc order.
    pub fn successors(&self, u: usize) -> (r: Vec<usize>)
        ensures
            forall|k: int| 0 <= k < r@.len() ==> self.spec_has_arc(u as int, #[trigger] r@[k] as int),
            forall|v: int| self.spec_has_arc(u as int, v) ==> r@.contains(v as usize),
    {
        let mut out: Vec<usize> = Vec::new();
        let mut i: usize = 0;
        while i < self.arcs.len()
            invariant
                i <= self.arcs@.len(),
                forall|k: int| 0 <= k < out@.len() ==> self.spec_has_arc(u as int, #[trigger] out@[k] as int),
                forall|j: int| 0 <= j < i && (#[trigger] self.arcs@[j]).0 == u ==> out@.contains(self.arcs@[j].1),
            decreases self.arcs.len() - i,
        {
            if self.arcs[i].0 == u {
                let v = self.arcs[i].1;
                assert(self.arcs@[i as int] == (u, v));
                let ghost before = out@;
                out.push(v);
                assert(out@[out@.len() - 1] == v);
                assert forall|x: usize| before.contains(x) implies out@.contains(x) by {
                    let k = choose|k: int| 0 <= k < before.len() && before[k] == x;
                    assert(out@[k] == x);
                }
            }
            i += 1;
        }
        assert forall|v: int| self.spec_has_arc(u as int, v) implies out@.contains(v as usize) by {
            let j = choose|j: int| 0 <= j < self.arcs@.len() && (#[trigger] self.arcs@[j]).0 as int == u as int && self.arcs@[j].1 as int == v;
            assert(self.arcs@[j].0 == u);
        }
        out
    }
}

/// `pos` numbers the vertices `0..n` so that every arc goes to a larger number.
pub open spec fn topological_numbering(n: nat, arcs: Seq<(usize, usize)>, pos: Seq<int>) -> bool {
    &&& pos.len() == n
    &&& forall|k: int| 0 <= k < arcs.len() ==> {
        let a = #[trigger] arcs[k];
        a.0 < n && a.1 < n && pos[a.0 as int] < pos[a.1 as int]
    }
}

/// The arcs on the vertices `0..n` form no directed cycle: some numbering
/// of the vertices makes every arc go forward.
pub open spec fn is_acyclic(n: nat, arcs: Seq<(usize, usize)>) -> bool {
    exists|pos: Seq<int>| topological_numbering(n, arcs, pos)
}

/// Some arc of the list goes from a vertex that is not removed to `v`.
pub open spec fn has_live_pred(arcs: Seq<(usize, usize)>, removed: Seq<bool>, v: int) -> bool {
    exists|k: int| 0 <= k < arcs.len() && (#[trigger] arcs[k]).1 as int == v && !removed[arcs[k].0 as int]
}

/// If every vertex left has an arc from another vertex left, no numbering
/// makes all arcs go forward: the left vertex with the least number would
/// need a predecessor with a smaller one.
proof fn lemma_stuck_not_acyclic(n: nat, arcs: Seq<(usize, usize)>, removed: Seq<bool>, w: int)
    requires
        removed.len() == n,
        0 <= w < n,
        !removed[w],
        forall|v: int| 0 <= v < n && !removed[v] ==> #[trigger] has_live_pred(arcs, removed, v),
    ensures
        !is_acyclic(n, arcs),
{
    if is_acyclic(n, arcs) {
        let pos = choose|pos: Seq<int>| topological_numbering(n, arcs, pos);
        lemma_best_below(removed, pos, w, n as int);
        let m = best_below(removed, pos, w, n as int);
        assert(has_live_pred(arcs, removed, m));
        let k = choose|k: int| 0 <= k < arcs.len() && (#[trigger] arcs[k]).1 as int == m && !removed[arcs[k].0 as int];
        let a = arcs[k];
        assert(pos[a.0 as int] < pos[a.1 as int]);
    }
}

/// The left vertex below `bound` with the least number, `w` if none is smaller.
spec fn best_below(removed: Seq<bool>, pos: Seq<int>, w: int, bound: int) -> int
    decreases bound,
{
    if bound <= 0 {
        w
    } else {
        let b = best_below(removed, pos, w, bound - 1);
        if !removed[bound - 1] && pos[bound - 1] < pos[b] { bound - 1 } else { b }
    }
}

proof fn lemma_best_below(removed: Seq<bool>, pos: Seq<int>, w: int, bound: int)
    requires
        0 <= w < removed.len(),
        bound <= removed.len(),
        removed.len() == pos.len(),
        !removed[w],
    ensures
        0 <= best_below(removed, pos, w, bound) < removed.len(),
        !removed[best_below(removed, pos, w, bound)],
        pos[best_below(removed, pos, w, bound)] <= pos[w],
        forall|x: int| 0 <= x < bound && !removed[x] ==> pos[best_below(removed, pos, w, bound)] <= #[trigger] pos[x],
    decreases bound,
{
    if bound > 0 {
        lemma_best_below(removed, pos, w, bound - 1);
    }
}

/// Whether the arcs on the vertices `0..n` (endpoints below `n`) contain no
/// directed cycle, by repeatedly removing a vertex without arcs from the
/// vertices left.
pub fn arcs_acyclic(n: usize, arcs: &[(usize, usize)]) -> (r: bool)
    requires
        endpoints_below(arcs@, n as nat),
    ensures
        r == is_acyclic(n as nat, arcs@),
{
    let mut removed: Vec<bool> = Vec::new();
    let mut pos: Vec<usize> = Vec::new();
    let mut x: usize = 0;
    while x < n
        invariant
            x <= n,
            removed@.len() == x,
            pos@.len() == x,
            forall|y: int| 0 <= y < x ==> !#[trigger] removed@[y],
        decreases n - x,
    {
        removed.push(false);
        pos.push(0);
        x += 1;
    }
    let mut step: usize = 0;
    proof { lemma_none_counted(removed@, n as int); }
    while step < n
        invariant
            endpoints_below(arcs@, n as nat),
            removed@.len() == n,
            pos@.len() == n,
            step <= n,
            forall|y: int| 0 <= y < n && #[trigger] removed@[y] ==> pos@[y] < step,
            forall|k: int| 0 <= k < arcs@.len() && #[trigger] removed@[arcs@[k].1 as int]
                ==> removed@[arcs@[k].0 as int] && pos@[arcs@[k].0 as int] < pos@[arcs@[k].1 as int],
            count_removed(removed@, n as int) == step,
        decreases n - step,
    {
        // find a vertex left without an arc from a vertex left
        let mut found: usize = n;
        let mut v: usize = 0;
        while v < n && found == n
            invariant
                endpoints_below(arcs@, n as nat),
                removed@.len() == n,
                v <= n,
                found == n || (found < n && !removed@[found as int] && !has_live_pred(arcs@, removed@, found as int)),
                found == n ==> forall|y: int| 0 <= y < v && !removed@[y] ==> #[trigger] has_live_pred(arcs@, removed@, y),
            decreases n - v,
        {
            if !removed[v] {
                let mut k: usize = 0;
                let mut pred = false;
                while k < arcs.len() && !pred
                    invariant
                        endpoints_below(arcs@, n as nat),
                        removed@.len() == n,
                        v < n,
                        k <= arcs@.len(),
                        !pred ==> forall|j: int| 0 <= j < k ==> !((#[trigger] arcs@[j]).1 == v && !removed@[arcs@[j].0 as int]),
                        pred ==> has_live_pred(arcs@, removed@, v as int),
                    decreases arcs.len() - k,
                {
                    let (a, b) = arcs[k];
                    if b == v && !removed[a] {
                        assert(arcs@[k as int].1 as int == v as int && !removed@[arcs@[k as int].0 as int]);
                        pred = true;
                    }
                    k += 1;
                }
                if !pred {
                    assert(!has_live_pred(arcs@, removed@, v as int));
                    found = v;
                }
            }
            v += 1;
        }
        if found == n {
            proof {
                lemma_some_left(removed@, n as int, step as int);
                let w = choose|w: int| 0 <= w < n && !removed@[w];
                lemma_stuck_not_acyclic(n as nat, arcs@, removed@, w);
            }
            return false;
        }
        let ghost before = removed@;
        proof {
            assert forall|k: int| 0 <= k < arcs@.len() && (#[trigger] arcs@[k]).1 == found
                implies removed@[arcs@[k].0 as int] by {
                if !removed@[arcs@[k].0 as int] {
                    assert(has_live_pred(arcs@, removed@, found as int));
                }
            }
        }
        removed.set(found, true);
        pos.set(found, step);
        proof {
            lemma_count_removed_set(before, found as int, n as int);
        }
        step += 1;
    }
    proof {
        let p = pos@.map_values(|x: usize| x as int);
        assert forall|k: int| 0 <= k < arcs@.len() implies {
            let a = #[trigger] arcs@[k];
            a.0 < n && a.1 < n && p[a.0 as int] < p[a.1 as int]
        } by {
            lemma_all_removed(removed@, n as int);
            assert(removed@[arcs@[k].1 as int]);
        }
        assert(topological_numbering(n as nat, arcs@, p));
    }
    true
}

/// Number of removed vertices below `k`.
spec fn count_removed(removed: Seq<bool>, k: int) -> nat
    decreases k,
{
    if k <= 0 { 0 } else { count_removed(removed, k - 1) + if removed[k - 1] { 1nat } else { 0nat } }
}

proof fn lemma_count_removed_set(removed: Seq<bool>, v: int, k: int)
    requires
        0 <= v < removed.len(),
        0 <= k <= removed.len(),
        !removed[v],
    ensures
        count_removed(removed.update(v, true), k) == count_removed(removed, k) + if v < k { 1nat } else { 0nat },
    decreases k,
{
    if k > 0 {
        lemma_count_removed_set(removed, v, k - 1);
    }
}

proof fn lemma_count_bound(removed: Seq<bool>, k: int)
    requires
        0 <= k <= removed.len(),
    ensures
        count_removed(removed, k) <= k,
        count_removed(removed, k) == k ==> forall|y: int| 0 <= y < k ==> #[trigger] removed[y],
    decreases k,
{
    if k > 0 {
        lemma_count_bound(removed, k - 1);
    }
}

proof fn lemma_some_left(removed: Seq<bool>, n: int, count: int)
    requires
        removed.len() == n,
        count_removed(removed, n) == count,
        count < n,
    ensures
        exists|w: int| 0 <= w < n && !removed[w],
    decreases n,
{
    lemma_count_bound(removed, n);
    if forall|w: int| 0 <= w < n ==> #[trigger] removed[w] {
        lemma_all_counted(removed, n);
    }
}

proof fn lemma_all_counted(removed: Seq<bool>, k: int)
    requires
        0 <= k <= removed.len(),
        forall|w: int| 0 <= w < k ==> #[trigger] removed[w],
    ensures
        count_removed(removed, k) == k,
    decreases k,
{
    if k > 0 {
        lemma_all_counted(removed, k - 1);
    }
}

proof fn lemma_none_counted(removed: Seq<bool>, k: int)
    requires
        0 <= k <= removed.len(),
        forall|w: int| 0 <= w < k ==> !#[trigger] removed[w],
    ensures
        count_removed(removed, k) == 0,
    decreases k,
{
    if k > 0 {
        lemma_none_counted(removed, k - 1);
    }
}

proof fn lemma_all_removed(removed: Seq<bool>, n: int)
    requires
        removed.len() == n,
        count_removed(removed, n) == n,
    ensures
        forall|y: int| 0 <= y < n ==> #[trigger] removed[y],
{
    lemma_count_bound(removed, n);
}

/// `perm` lists each of `0..n` exactly once.
pub open spec fn is_permutation(perm: Seq<usize>, n: nat) -> bool {
    &&& perm.len() == n
    &&& forall|i: int| 0 <= i < perm.len() ==> #[trigger] perm[i] < n
    &&& forall|i: int, j: int| 0 <= i < j < perm.len() ==> #[trigger] perm[i] != #[trigger] perm[j]
}

/// Whether `perm` lists each of `0..n` exactly once.
pub fn check_permutation(perm: &[usize], n: usize) -> (r: bool)
    ensures
        r == is_permutation(perm@, n as nat),
{
    if perm.len() != n {
        return false;
    }
    let mut seen: Vec<bool> = Vec::new();
    let mut k: usize = 0;
    while k < n
        invariant
            k <= n,
            seen@.len() == k,
            forall|j: int| 0 <= j < k ==> !#[trigger] seen@[j],
        decreases n - k,
    {
        seen.push(false);
        k += 1;
    }
    let mut i: usize = 0;
    while i < perm.len()
        invariant
            perm@.len() == n,
            seen@.len() == n,
            i <= n,
            forall|j: int| 0 <= j < i ==> #[trigger] perm@[j] < n,
            forall|a: int, b: int| 0 <= a < b < i ==> #[trigger] perm@[a] != #[trigger] perm@[b],
            forall|v: int| 0 <= v < n ==> (#[trigger] seen@[v] <==> exists|j: int| 0 <= j < i && perm@[j] == v),
        decreases perm.len() - i,
    {
        let v = perm[i];
        if v >= n {
            return false;
        }
        if seen[v] {
            proof {
                let j = choose|j: int| 0 <= j < i && perm@[j] == v;
                assert(perm@[j] == perm@[i as int]);
            }
            return false;
        }
        seen.set(v, true);
        i += 1;
    }
    true
}

} // verus!
