//! Vertex-set properties shared by the graph problems.
use vstd::prelude::*;
use crate::topology::SimpleGraph;

verus! {

/// Position `i` of `sel` is selected (positions beyond the end are not).
pub open spec fn sel_at(sel: Seq<bool>, i: int) -> bool {
    0 <= i < sel.len() && sel[i]
}

/// No edge has both endpoints selected.
pub open spec fn is_independent(g: SimpleGraph, sel: Seq<bool>) -> bool {
    forall|k: int| 0 <= k < g.edge_seq().len() ==>
        !(sel_at(sel, (#[trigger] g.edge_seq()[k]).0 as int) && sel_at(sel, g.edge_seq()[k].1 as int))
}

/// No edge of the list has both endpoints selected.
pub open spec fn edges_independent(edges: Seq<(usize, usize)>, sel: Seq<bool>) -> bool {
    forall|k: int| 0 <= k < edges.len() ==>
        !(sel_at(sel, (#[trigger] edges[k]).0 as int) && sel_at(sel, edges[k].1 as int))
}

/// `v` has a selected neighbour.
pub open spec fn has_selected_neighbor(g: SimpleGraph, sel: Seq<bool>, v: int) -> bool {
    exists|u: int| #[trigger] g.spec_has_edge(v, u) && sel_at(sel, u)
}

/// Whether no edge of `graph` has both endpoints selected.
pub fn check_independent(graph: &SimpleGraph, config: &[bool]) -> (r: bool)
    ensures
        r == is_independent(*graph, config@),
{
    let edges = graph.edge_list();
    let mut k: usize = 0;
    while k < edges.len()
        invariant
            edges@ == graph.edge_seq(),
            k <= edges@.len(),
            forall|j: int| 0 <= j < k ==>
                !(sel_at(config@, (#[trigger] edges@[j]).0 as int) && sel_at(config@, edges@[j].1 as int)),
        decreases edges.len() - k,
    {
        let (u, v) = edges[k];
        let su = u < config.len() && config[u];
        let sv = v < config.len() && config[v];
        if su && sv {
            assert(edges@[k as int] == (u, v));
            return false;
        }
        k += 1;
    }
    true
}

/// Whether some neighbour of `v` is selected.
pub fn check_selected_neighbor(graph: &SimpleGraph, config: &[bool], v: usize) -> (r: bool)
    ensures
        r == has_selected_neighbor(*graph, config@, v as int),
{
    let edges = graph.edge_list();
    let mut k: usize = 0;
    while k < edges.len()
        invariant
            edges@ == graph.edge_seq(),
            k <= edges@.len(),
            forall|j: int| 0 <= j < k ==> {
                let e = #[trigger] edges@[j];
                &&& (e.0 == v ==> !sel_at(config@, e.1 as int))
                &&& (e.1 == v ==> !sel_at(config@, e.0 as int))
            },
        decreases edges.len() - k,
    {
        let (a, b) = edges[k];
        assert(edges@[k as int] == (a, b));
        if a == v && b < config.len() && config[b] {
            assert(graph.spec_has_edge(v as int, b as int));
            return true;
        }
        if b == v && a < config.len() && config[a] {
            assert(graph.spec_has_edge(v as int, a as int));
            return true;
        }
        k += 1;
    }
    assert(!has_selected_neighbor(*graph, config@, v as int)) by {
        if has_selected_neighbor(*graph, config@, v as int) {
            let u = choose|u: int| #[trigger] graph.spec_has_edge(v as int, u) && sel_at(config@, u);
            let j = choose|j: int| 0 <= j < edges@.len() && (((#[trigger] edges@[j]).0 as int == v as int && edges@[j].1 as int == u)
                || (edges@[j].0 as int == u && edges@[j].1 as int == v as int));
            let e = edges@[j];
        }
    }
    false
}

/// Number of `true` entries.
pub open spec fn count_true(sel: Seq<bool>) -> nat
    decreases sel.len(),
{
    if sel.len() == 0 {
        0
    } else {
        count_true(sel.drop_last()) + if sel.last() { 1nat } else { 0nat }
    }
}

/// Counts the `true` entries.
pub fn count_selected(config: &[bool]) -> (r: usize)
    ensures
        r == count_true(config@),
{
    let mut c: usize = 0;
    let mut i: usize = 0;
    while i < config.len()
        invariant
            i <= config@.len(),
            c == count_true(config@.take(i as int)),
            c <= i,
        decreases config.len() - i,
    {
        assert(config@.take(i as int + 1).drop_last() =~= config@.take(i as int));
        if config[i] {
            c += 1;
        }
        i += 1;
    }
    assert(config@.take(config@.len() as int) =~= config@);
    c
}

/// Every two selected positions are adjacent.
pub open spec fn pairwise_adjacent(g: SimpleGraph, sel: Seq<bool>) -> bool {
    forall|i: int, j: int| 0 <= i < j < sel.len() && sel[i] && sel[j] ==> #[trigger] g.spec_has_edge(i, j)
}

/// Whether every two selected positions are adjacent.
pub fn check_pairwise_adjacent(graph: &SimpleGraph, config: &[bool]) -> (r: bool)
    ensures
        r == pairwise_adjacent(*graph, config@),
{
    let mut i: usize = 0;
    while i < config.len()
        invariant
            i <= config@.len(),
            forall|a: int, b: int|
                0 <= a < i && a < b < config@.len() && config@[a] && config@[b] ==> #[trigger] graph.spec_has_edge(a, b),
        decreases config.len() - i,
    {
        if config[i] {
            let mut j: usize = i + 1;
            while j < config.len()
                invariant
                    i < config@.len(),
                    config@[i as int],
                    i + 1 <= j <= config@.len(),
                    forall|a: int, b: int|
                        0 <= a < i && a < b < config@.len() && config@[a] && config@[b] ==> #[trigger] graph.spec_has_edge(a, b),
                    forall|b: int| i < b < j && config@[b] ==> #[trigger] graph.spec_has_edge(i as int, b),
                decreases config.len() - j,
            {
                if config[j] && !graph.has_edge(i, j) {
                    return false;
                }
                j += 1;
            }
        }
        i += 1;
    }
    true
}

} // verus!
