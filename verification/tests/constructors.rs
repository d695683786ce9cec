use problemreductions::models::graph::kclique::KClique;
use problemreductions::models::graph::max_cut::MaxCut;
use problemreductions::models::graph::maximal_is::MaximalIS;
use problemreductions::models::graph::maximum_co_k_plex::MaximumCoKPlex;
use problemreductions::models::graph::maximum_edge_weighted_k_clique::MaximumEdgeWeightedKClique;
use problemreductions::models::graph::maximum_independent_set::MaximumIndependentSet;
use problemreductions::models::graph::maximum_matching::MaximumMatching;
use problemreductions::models::graph::min_max_multicenter::MinMaxMulticenter;
use problemreductions::models::graph::minimum_capacitated_spanning_tree::MinimumCapacitatedSpanningTree;
use problemreductions::topology::SimpleGraph;
use problemreductions::types::ConstructionError;

fn path3() -> SimpleGraph {
    SimpleGraph::new(3, vec![(0, 1), (1, 2)])
}

#[test]
fn kclique_from_listed_parts() {
    let p = KClique::try_from_spec(vec![(0, 1), (1, 2)], None, 2).unwrap();
    assert_eq!(p.num_vertices(), 3);
    assert_eq!(p.k(), 2);
    assert_eq!(KClique::try_from_spec(vec![], Some(4), 3).unwrap().num_vertices(), 4);
    assert_eq!(KClique::try_from_spec(vec![], None, 1).err(), Some(ConstructionError::InvalidValue));
    assert_eq!(KClique::try_from_spec(vec![(1, 1)], None, 1).err(), Some(ConstructionError::InvalidValue));
    assert_eq!(KClique::try_from_spec(vec![(0, 5)], Some(3), 1).err(), Some(ConstructionError::OutOfRange));
    assert_eq!(KClique::try_from_spec(vec![(0, usize::MAX)], None, 1).err(), Some(ConstructionError::OutOfRange));
    assert_eq!(KClique::try_from_spec(vec![(0, 1)], None, 0).err(), Some(ConstructionError::InvalidValue));
    assert_eq!(KClique::try_from_spec(vec![(0, 1)], None, 3).err(), Some(ConstructionError::OutOfRange));
}

#[test]
fn weighted_graphs_from_listed_parts() {
    let mis = MaximumIndependentSet::try_from_spec(vec![(0, 1)], Some(3), None).unwrap();
    assert_eq!(mis.weights(), &[1, 1, 1]);
    let mis = MaximumIndependentSet::try_from_spec(vec![(0, 1)], None, Some(vec![4, 5])).unwrap();
    assert_eq!(mis.weights(), &[4, 5]);
    assert_eq!(
        MaximumIndependentSet::try_from_spec(vec![(0, 1)], None, Some(vec![4])).err(),
        Some(ConstructionError::LengthMismatch)
    );
    let mm = MaximumMatching::try_from_spec(vec![(0, 1), (1, 2)], None, None).unwrap();
    assert_eq!(mm.weights(), vec![1, 1]);
    assert_eq!(
        MaximumMatching::try_from_spec(vec![(0, 1), (1, 2)], None, Some(vec![1])).err(),
        Some(ConstructionError::LengthMismatch)
    );
    let mc = MaxCut::try_from_spec(vec![(0, 1), (1, 2)], Some(4), Some(vec![3, 7])).unwrap();
    assert_eq!(mc.edge_weights(), vec![3, 7]);
    assert_eq!(mc.num_vertices(), 4);
    assert_eq!(MaxCut::try_from_spec(vec![(2, 2)], None, None).err(), Some(ConstructionError::InvalidValue));
    assert_eq!(
        MaxCut::try_from_spec(vec![(0, 1)], None, Some(vec![])).err(),
        Some(ConstructionError::LengthMismatch)
    );
}

#[test]
fn vertex_weighted_from_graph() {
    assert!(MaximalIS::try_from_spec(path3(), vec![1, 2, 3]).is_ok());
    assert_eq!(MaximalIS::try_from_spec(path3(), vec![1, 2]).err(), Some(ConstructionError::LengthMismatch));
    let ckp = MaximumCoKPlex::try_from_spec(path3(), vec![1, 1, 1], 2).unwrap();
    assert_eq!(ckp.bound_k(), 2);
    assert_eq!(
        MaximumCoKPlex::try_from_spec(path3(), vec![1, 1], 2).err(),
        Some(ConstructionError::LengthMismatch)
    );
    assert_eq!(
        MaximumCoKPlex::try_from_spec(path3(), vec![1, 1, 1], 0).err(),
        Some(ConstructionError::InvalidValue)
    );
    let kc = MaximumEdgeWeightedKClique::try_from_spec(path3(), None, 2).unwrap();
    assert_eq!(kc.edge_weights(), &[1, 1]);
    assert_eq!(
        MaximumEdgeWeightedKClique::try_from_spec(path3(), Some(vec![2]), 2).err(),
        Some(ConstructionError::LengthMismatch)
    );
    assert_eq!(
        MaximumEdgeWeightedKClique::try_from_spec(path3(), None, 4).err(),
        Some(ConstructionError::OutOfRange)
    );
}

#[test]
fn multicenter_from_listed_parts() {
    let p = MinMaxMulticenter::try_from_spec(vec![(0, 1), (1, 2)], None, None, Some(vec![2, 3]), 1).unwrap();
    assert_eq!(p.vertex_weights(), &[1, 1, 1]);
    assert_eq!(p.edge_lengths(), &[2, 3]);
    let e = |w: Option<Vec<i32>>, l: Option<Vec<i32>>, k: usize| {
        MinMaxMulticenter::try_from_spec(vec![(0, 1), (1, 2)], None, w, l, k).err()
    };
    assert_eq!(e(Some(vec![1, 1]), None, 1), Some(ConstructionError::LengthMismatch));
    assert_eq!(e(None, Some(vec![1]), 1), Some(ConstructionError::LengthMismatch));
    assert_eq!(e(Some(vec![1, -1, 1]), None, 1), Some(ConstructionError::InvalidValue));
    assert_eq!(e(None, Some(vec![1, -2]), 1), Some(ConstructionError::InvalidValue));
    assert_eq!(e(None, None, 0), Some(ConstructionError::OutOfRange));
    assert_eq!(e(None, None, 4), Some(ConstructionError::OutOfRange));
}

#[test]
fn capacitated_tree_from_parts() {
    let p = MinimumCapacitatedSpanningTree::try_from_spec(path3(), None, 0, vec![0, 1, 1], 2).unwrap();
    assert_eq!(p.weights(), &[1, 1]);
    assert_eq!(p.root(), 0);
    assert_eq!(*p.capacity(), 2);
    assert_eq!(
        MinimumCapacitatedSpanningTree::try_from_spec(path3(), Some(vec![1]), 0, vec![0, 1, 1], 2).err(),
        Some(ConstructionError::LengthMismatch)
    );
    assert_eq!(
        MinimumCapacitatedSpanningTree::try_from_spec(SimpleGraph::new(1, vec![]), None, 0, vec![0], 2).err(),
        Some(ConstructionError::InvalidValue)
    );
    assert_eq!(
        MinimumCapacitatedSpanningTree::try_from_spec(path3(), None, 0, vec![0, 1], 2).err(),
        Some(ConstructionError::LengthMismatch)
    );
    assert_eq!(
        MinimumCapacitatedSpanningTree::try_from_spec(path3(), None, 3, vec![0, 1, 1], 2).err(),
        Some(ConstructionError::OutOfRange)
    );
}

#[test]
fn matching_vertex_incidence() {
    let mm = MaximumMatching::try_from_spec(vec![(0, 1), (1, 2), (0, 2)], Some(4), None).unwrap();
    assert_eq!(mm.vertex_to_edges(), vec![vec![0, 2], vec![0, 1], vec![1, 2], vec![]]);
}
