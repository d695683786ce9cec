use problemreductions::models::graph::directed_hamiltonian_path::DirectedHamiltonianPath;
use problemreductions::models::graph::eulerian_path::EulerianPath;
use problemreductions::models::graph::hamiltonian_circuit::HamiltonianCircuit;
use problemreductions::models::graph::hamiltonian_path_between_two_vertices::HamiltonianPathBetweenTwoVertices;
use problemreductions::models::graph::kclique::KClique;
use problemreductions::models::graph::kernel::Kernel;
use problemreductions::models::graph::max_cut::MaxCut;
use problemreductions::models::graph::maximal_is::MaximalIS;
use problemreductions::models::graph::maximum_co_k_plex::MaximumCoKPlex;
use problemreductions::models::graph::maximum_edge_weighted_k_clique::MaximumEdgeWeightedKClique;
use problemreductions::models::graph::maximum_independent_set::MaximumIndependentSet;
use problemreductions::models::graph::maximum_matching::MaximumMatching;
use problemreductions::models::decision::Decision;
use problemreductions::topology::{DirectedGraph, SimpleGraph};
use problemreductions::types::{EvaluationError, Max, Or};

fn path4() -> SimpleGraph {
    SimpleGraph::new(4, vec![(0, 1), (1, 2), (2, 3)])
}

#[test]
fn kernel_of_directed_path() {
    // 0 -> 1 -> 2: {2, 0} is a kernel (independent, every other vertex points into it).
    let problem = Kernel::new(DirectedGraph::new(3, vec![(0, 1), (1, 2)]));
    assert_eq!(problem.evaluate(&[1, 0, 1]), Or(true));
    assert_eq!(problem.evaluate(&[0, 1, 0]), Or(false));
    assert_eq!(problem.evaluate(&[1, 1, 1]), Or(false));
    assert_eq!(problem.dims(), vec![2, 2, 2]);
}

#[test]
fn maximum_independent_set_values() {
    let problem = MaximumIndependentSet::new(path4(), vec![1, 2, 3, 4]);
    assert_eq!(problem.evaluate(&vec![false, true, false, true]), Ok(Max(Some(6))));
    assert_eq!(problem.evaluate(&vec![true, true, false, false]), Ok(Max(None)));
    assert_eq!(problem.evaluate(&vec![true]), Err(EvaluationError::InvalidConfiguration));
    assert!(problem.is_weighted());
}

#[test]
fn maximum_independent_set_overflow() {
    let problem = MaximumIndependentSet::new(SimpleGraph::new(2, vec![]), vec![i64::MAX, 1]);
    assert_eq!(problem.evaluate(&vec![true, true]), Err(EvaluationError::IntegerOverflow));
}

#[test]
fn maximal_is_requires_maximality() {
    let problem = MaximalIS::new(path4(), vec![1, 1, 1, 1]);
    // {0, 3} is independent but 1 and 2 ... 1 has neighbour 0, 2 has neighbour 3: maximal.
    assert_eq!(problem.evaluate(&vec![true, false, false, true]), Ok(Max(Some(2))));
    // {0} alone is not maximal: 2 and 3 could be added.
    assert_eq!(problem.evaluate(&vec![true, false, false, false]), Ok(Max(None)));
    assert!(problem.is_valid_solution(&[false, true, false, true]));
}

#[test]
fn kclique_triangle() {
    let g = SimpleGraph::new(4, vec![(0, 1), (1, 2), (0, 2), (2, 3)]);
    let problem = KClique::new(g, 3);
    let config = KClique::config_from_vertices(4, &[0, 1, 2]);
    assert_eq!(config, vec![true, true, true, false]);
    assert_eq!(problem.evaluate(&config), Ok(Or(true)));
    assert_eq!(problem.evaluate(&vec![false, true, true, true]), Ok(Or(false)));
}

#[test]
fn max_cut_of_triangle() {
    let g = SimpleGraph::new(3, vec![(0, 1), (1, 2), (0, 2)]);
    let problem = MaxCut::new(g, vec![1, 2, 3]);
    // {0} against {1, 2}: edges (0,1) and (0,2) are cut.
    assert_eq!(problem.evaluate(&vec![true, false, false]), Ok(Max(Some(4))));
    assert_eq!(problem.cut_size(&[false, false, false]), Ok(0));
    assert_eq!(problem.edge_weight(1, 2), Some(&2));
    assert_eq!(problem.edge_weight(2, 1), Some(&2));
}

#[test]
fn maximum_matching_values() {
    let problem = MaximumMatching::new(path4(), vec![5, 1, 7]);
    assert_eq!(problem.evaluate(&vec![true, false, true]), Ok(Max(Some(12))));
    assert_eq!(problem.evaluate(&vec![true, true, false]), Ok(Max(None)));
    assert_eq!(problem.edge_endpoints(1), Some((1, 2)));
    assert_eq!(problem.edge_endpoints(3), None);
}

#[test]
fn co_k_plex_degree_bound() {
    // Triangle plus a pendant vertex; with k = 2 each selected vertex may have one selected neighbour.
    let g = SimpleGraph::new(4, vec![(0, 1), (1, 2), (0, 2), (2, 3)]);
    let problem = MaximumCoKPlex::with_k(g, vec![1, 1, 1, 1], 2);
    assert_eq!(problem.evaluate(&vec![true, true, false, false]), Ok(Max(Some(2))));
    assert_eq!(problem.evaluate(&vec![true, true, true, false]), Ok(Max(None)));
    assert_eq!(problem.bound_k(), 2);
}

#[test]
fn edge_weighted_k_clique() {
    let g = SimpleGraph::new(4, vec![(0, 1), (1, 2), (0, 2), (2, 3)]);
    let problem = MaximumEdgeWeightedKClique::new(g, vec![1, 2, 3, 4], 3).unwrap();
    assert_eq!(problem.evaluate(&[1, 1, 1, 0]), Ok(Max(Some(6))));
    assert_eq!(problem.evaluate(&[0, 1, 1, 1]), Ok(Max(None)));
}

#[test]
fn hamiltonian_st_path() {
    let problem = HamiltonianPathBetweenTwoVertices::new(path4(), 0, 3);
    assert_eq!(problem.evaluate(&[0, 1, 2, 3]), Or(true));
    assert_eq!(problem.evaluate(&[3, 2, 1, 0]), Or(false));
    assert!(!problem.is_valid_solution(&[0, 2, 1, 3]));
}

#[test]
fn directed_hamiltonian_path_orders() {
    let problem = DirectedHamiltonianPath::new(DirectedGraph::new(3, vec![(0, 1), (1, 2)]));
    assert_eq!(problem.evaluate(&vec![0, 1, 2]), Ok(Or(true)));
    assert_eq!(problem.evaluate(&vec![2, 1, 0]), Ok(Or(false)));
    assert_eq!(problem.evaluate(&vec![0, 1]), Err(EvaluationError::InvalidConfiguration));
}

#[test]
fn hamiltonian_circuit_square() {
    let g = SimpleGraph::new(4, vec![(0, 1), (1, 2), (2, 3), (3, 0)]);
    let problem = HamiltonianCircuit::new(g);
    assert_eq!(problem.evaluate(&vec![0, 1, 2, 3]), Ok(Or(true)));
    assert_eq!(problem.evaluate(&vec![0, 2, 1, 3]), Ok(Or(false)));
    assert_eq!(problem.evaluate(&vec![0, 1, 2, 7]), Err(EvaluationError::InvalidConfiguration));
}

#[test]
fn eulerian_trail() {
    let problem = EulerianPath::new(DirectedGraph::new(3, vec![(0, 1), (1, 2), (2, 0)]));
    assert_eq!(problem.evaluate(&vec![0, 1, 2]), Ok(Or(true)));
    assert_eq!(problem.evaluate(&vec![1, 2, 0]), Ok(Or(true)));
    assert_eq!(problem.evaluate(&vec![0, 2, 1]), Ok(Or(false)));
}

#[test]
fn decision_independent_set_sizes() {
    let d = Decision::new(MaximumIndependentSet::new(path4(), vec![1, 2, 3, 4]), 5);
    assert_eq!(d.num_vertices(), 4);
    assert_eq!(d.num_edges(), 3);
    assert_eq!(*d.bound(), 5);
}

#[test]
fn co_k_plex_with_compile_time_k() {
    let g = SimpleGraph::new(4, vec![(0, 1), (1, 2), (0, 2), (2, 3)]);
    let problem = MaximumCoKPlex::new::<1>(g, vec![1, 1, 1, 1]);
    assert_eq!(problem.bound_k(), 1);
    assert_eq!(problem.evaluate(&vec![true, false, false, true]), Ok(Max(Some(2))));
    assert_eq!(problem.evaluate(&vec![true, true, false, false]), Ok(Max(None)));
}
