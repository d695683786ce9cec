//! Problems on graphs.
use vstd::prelude::*;
use crate::models::graph::acyclic_partition::{max_endpoint_plus_one, lemma_max_endpoint_grows, lemma_max_endpoint_bounds};
use crate::topology::{SimpleGraph, DirectedGraph};
use crate::types::ConstructionError;

pub mod props;
pub mod reach;
pub mod vertex_weights;
pub mod acyclic_partition;
pub mod bounded_diameter_spanning_tree;
pub mod biconnectivity_augmentation;
pub mod bottleneck_traveling_salesman;
pub mod bounded_component_spanning_forest;
pub mod clique;
pub mod maximum_achromatic_number;
pub mod minimum_capacitated_spanning_tree;
pub mod min_max_multicenter;
pub mod highly_connected_deletion;
pub mod edge_cuts;
pub mod edge_connectivity;
pub mod kth_best_spanning_tree;
pub mod degree_constrained_spanning_tree;
pub mod longest_path;
pub mod maximum_contact_map_overlap;
pub mod maximum_common_edge_subgraph;
pub mod integral_flow_bundles;
pub mod integral_flow_with_multipliers;
pub mod integral_flow_homologous_arcs;
pub mod kcoloring;
pub mod matching;
pub mod dominating_set;
pub mod independent_set;
pub mod coloring;
pub mod kernel;
pub mod maximum_independent_set;
pub mod maximal_is;
pub mod kclique;
pub mod max_cut;
pub mod maximum_matching;
pub mod maximum_co_k_plex;
pub mod maximum_edge_weighted_k_clique;
pub mod hamiltonian_path_between_two_vertices;
pub mod directed_hamiltonian_path;
pub mod hamiltonian_circuit;
pub mod eulerian_path;

verus! {

/// `n` copies of `d`: the domain sizes of `n` variables with `d` values each.
pub fn uniform_dims(n: usize, d: usize) -> (r: Vec<usize>)
    ensures
        r@.len() == n,
        forall|i: int| 0 <= i < r@.len() ==> #[trigger] r@[i] == d,
{
    let mut r: Vec<usize> = Vec::new();
    let mut i: usize = 0;
    while i < n
        invariant
            i <= n,
            r@.len() == i,
            forall|k: int| 0 <= k < r@.len() ==> #[trigger] r@[k] == d,
        decreases n - i,
    {
        r.push(d);
        i += 1;
    }
    r
}

/// No edge joins a vertex to itself.
pub open spec fn no_self_loops(edges: Seq<(usize, usize)>) -> bool {
    forall|i: int| 0 <= i < edges.len() ==> (#[trigger] edges[i]).0 != edges[i].1
}

/// The vertex count a listed graph gets: the given one, or one more than
/// the largest endpoint.
pub open spec fn listed_vertex_count(edges: Seq<(usize, usize)>, num_vertices: Option<usize>) -> int {
    match num_vertices {
        Some(nv) => nv as int,
        None => max_endpoint_plus_one(edges, edges.len() as int),
    }
}

/// An edge list with an optional vertex count describes a simple graph:
/// not both missing, no loops, and the vertex count neither overflowing nor
/// below an endpoint.
pub open spec fn listed_graph_ok(edges: Seq<(usize, usize)>, num_vertices: Option<usize>) -> bool {
    &&& !(edges.len() == 0 && num_vertices is None)
    &&& no_self_loops(edges)
    &&& max_endpoint_plus_one(edges, edges.len() as int) <= usize::MAX
    &&& max_endpoint_plus_one(edges, edges.len() as int) <= listed_vertex_count(edges, num_vertices)
}

/// The error for a listed graph that is not a simple graph: `InvalidValue`
/// when both parts are missing or an edge is a loop, else `OutOfRange`.
pub open spec fn listed_graph_error(edges: Seq<(usize, usize)>, num_vertices: Option<usize>) -> ConstructionError {
    if (edges.len() == 0 && num_vertices is None) || !no_self_loops(edges) {
        ConstructionError::InvalidValue
    } else {
        ConstructionError::OutOfRange
    }
}

/// Builds a simple graph from an edge list and an optional vertex count: an
/// error (`InvalidValue`) when both are missing or an edge is a loop, and
/// (`OutOfRange`) when the vertex count would overflow or is below an endpoint.
pub fn simple_graph_from_create(edges: Vec<(usize, usize)>, num_vertices: Option<usize>) -> (r: Result<SimpleGraph, ConstructionError>)
    ensures
        edges@.len() == 0 && num_vertices is None ==> r == Err::<SimpleGraph, ConstructionError>(ConstructionError::InvalidValue),
        !(edges@.len() == 0 && num_vertices is None) && !no_self_loops(edges@)
            ==> r == Err::<SimpleGraph, ConstructionError>(ConstructionError::InvalidValue),
        r is Ok <==> !(edges@.len() == 0 && num_vertices is None) && no_self_loops(edges@)
            && max_endpoint_plus_one(edges@, edges@.len() as int) <= usize::MAX
            && max_endpoint_plus_one(edges@, edges@.len() as int) <= listed_vertex_count(edges@, num_vertices),
        r matches Ok(g) ==> g.wf() && g.edge_seq() == edges@ && g.n() == listed_vertex_count(edges@, num_vertices),
        r matches Err(e) ==> e == listed_graph_error(edges@, num_vertices),
{
    if edges.len() == 0 && num_vertices.is_none() {
        return Err(ConstructionError::InvalidValue);
    }
    let mut i: usize = 0;
    while i < edges.len()
        invariant
            i <= edges@.len(),
            forall|j: int| 0 <= j < i ==> (#[trigger] edges@[j]).0 != edges@[j].1,
        decreases edges.len() - i,
    {
        if edges[i].0 == edges[i].1 {
            return Err(ConstructionError::InvalidValue);
        }
        i += 1;
    }
    let mut inferred: usize = 0;
    let mut k: usize = 0;
    while k < edges.len()
        invariant
            k <= edges@.len(),
            no_self_loops(edges@),
            inferred as int == max_endpoint_plus_one(edges@, k as int),
        decreases edges.len() - k,
    {
        let (u, v) = edges[k];
        let hi = if u >= v { u } else { v };
        if hi == usize::MAX {
            proof { lemma_max_endpoint_grows(edges@, k as int + 1, edges@.len() as int); }
            return Err(ConstructionError::OutOfRange);
        }
        if hi + 1 > inferred {
            inferred = hi + 1;
        }
        k += 1;
    }
    let n = match num_vertices {
        Some(nv) => nv,
        None => inferred,
    };
    if n < inferred {
        return Err(ConstructionError::OutOfRange);
    }
    proof { lemma_max_endpoint_bounds(edges@, edges@.len() as int); }
    Ok(SimpleGraph::new(n, edges))
}

/// Builds a directed graph from a non-empty arc list and an optional vertex
/// count: an error (`InvalidValue`) without arcs, and (`OutOfRange`) when the
/// vertex count would overflow or is below an endpoint.
pub fn directed_graph_from_create(arcs: Vec<(usize, usize)>, num_vertices: Option<usize>) -> (r: Result<DirectedGraph, ConstructionError>)
    ensures
        arcs@.len() == 0 ==> r == Err::<DirectedGraph, ConstructionError>(ConstructionError::InvalidValue),
        r is Ok <==> arcs@.len() > 0
            && max_endpoint_plus_one(arcs@, arcs@.len() as int) <= usize::MAX
            && max_endpoint_plus_one(arcs@, arcs@.len() as int) <= listed_vertex_count(arcs@, num_vertices),
        r matches Ok(g) ==> g.wf() && g.arc_seq() == arcs@ && g.n() == listed_vertex_count(arcs@, num_vertices),
{
    if arcs.len() == 0 {
        return Err(ConstructionError::InvalidValue);
    }
    let mut inferred: usize = 0;
    let mut k: usize = 0;
    while k < arcs.len()
        invariant
            k <= arcs@.len(),
            inferred as int == max_endpoint_plus_one(arcs@, k as int),
        decreases arcs.len() - k,
    {
        let (u, v) = arcs[k];
        let hi = if u >= v { u } else { v };
        if hi == usize::MAX {
            proof { lemma_max_endpoint_grows(arcs@, k as int + 1, arcs@.len() as int); }
            return Err(ConstructionError::OutOfRange);
        }
        if hi + 1 > inferred {
            inferred = hi + 1;
        }
        k += 1;
    }
    let n = match num_vertices {
        Some(nv) => nv,
        None => inferred,
    };
    if n < inferred {
        return Err(ConstructionError::OutOfRange);
    }
    proof { lemma_max_endpoint_bounds(arcs@, arcs@.len() as int); }
    Ok(DirectedGraph::new(n, arcs))
}

} // verus!

verus! {

/// Whether every entry of `v` is below `n`.
pub fn all_below(v: &[usize], n: usize) -> (r: bool)
    ensures
        r == forall|i: int| 0 <= i < v@.len() ==> #[trigger] v@[i] < n,
{
    let mut i: usize = 0;
    while i < v.len()
        invariant
            i <= v@.len(),
            forall|k: int| 0 <= k < i ==> #[trigger] v@[k] < n,
        decreases v.len() - i,
    {
        if v[i] >= n {
            return false;
        }
        i += 1;
    }
    true
}


/// The given weights, or `n` weights of 1 when none are given.
pub fn weights_or_ones(weights: Option<Vec<i64>>, n: usize) -> (r: Vec<i64>)
    ensures
        weights matches Some(w) ==> r@ == w@,
        weights is None ==> r@.len() == n && forall|i: int| 0 <= i < n ==> #[trigger] r@[i] == 1,
{
    match weights {
        Some(w) => w,
        None => {
            let mut r: Vec<i64> = Vec::new();
            let mut i: usize = 0;
            while i < n
                invariant
                    i <= n,
                    r@.len() == i,
                    forall|k: int| 0 <= k < i ==> #[trigger] r@[k] == 1,
                decreases n - i,
            {
                r.push(1);
                i += 1;
            }
            r
        },
    }
}

} // verus!
