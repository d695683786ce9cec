use problemreductions::models::graph::acyclic_partition::AcyclicPartition;
use problemreductions::models::graph::biconnectivity_augmentation::BiconnectivityAugmentation;
use problemreductions::models::graph::bottleneck_traveling_salesman::BottleneckTravelingSalesman;
use problemreductions::models::graph::bounded_component_spanning_forest::BoundedComponentSpanningForest;
use problemreductions::models::graph::bounded_diameter_spanning_tree::BoundedDiameterSpanningTree;
use problemreductions::models::graph::degree_constrained_spanning_tree::DegreeConstrainedSpanningTree;
use problemreductions::models::graph::directed_hamiltonian_path::DirectedHamiltonianPath;
use problemreductions::models::graph::eulerian_path::EulerianPath;
use problemreductions::models::graph::hamiltonian_circuit::HamiltonianCircuit;
use problemreductions::models::graph::hamiltonian_path_between_two_vertices::HamiltonianPathBetweenTwoVertices;
use problemreductions::models::graph::highly_connected_deletion::HighlyConnectedDeletion;
use problemreductions::models::graph::integral_flow_bundles::IntegralFlowBundles;
use problemreductions::models::graph::integral_flow_homologous_arcs::IntegralFlowHomologousArcs;
use problemreductions::models::graph::integral_flow_with_multipliers::IntegralFlowWithMultipliers;
use problemreductions::models::graph::kclique::KClique;
use problemreductions::models::graph::kernel::Kernel;
use problemreductions::models::graph::kth_best_spanning_tree::KthBestSpanningTree;
use problemreductions::models::graph::longest_path::LongestPath;
use problemreductions::models::graph::max_cut::MaxCut;
use problemreductions::models::graph::maximal_is::MaximalIS;
use problemreductions::models::graph::maximum_achromatic_number::MaximumAchromaticNumber;
use problemreductions::models::graph::maximum_co_k_plex::MaximumCoKPlex;
use problemreductions::models::graph::maximum_common_edge_subgraph::{LabelledArc, LabelledDigraph, MaximumCommonEdgeSubgraph};
use problemreductions::models::graph::maximum_contact_map_overlap::MaximumContactMapOverlap;
use problemreductions::models::graph::maximum_edge_weighted_k_clique::MaximumEdgeWeightedKClique;
use problemreductions::models::graph::maximum_independent_set::MaximumIndependentSet;
use problemreductions::models::graph::maximum_matching::MaximumMatching;
use problemreductions::models::graph::min_max_multicenter::MinMaxMulticenter;
use problemreductions::models::graph::minimum_capacitated_spanning_tree::MinimumCapacitatedSpanningTree;
use problemreductions::topology::{DirectedGraph, SimpleGraph};
use problemreductions::types::{Max, Min, Or};

fn petersen() -> SimpleGraph {
    SimpleGraph::new(
        10,
        vec![
            (0, 1), (1, 2), (2, 3), (3, 4), (4, 0), (5, 7), (7, 9), (9, 6), (6, 8), (8, 5),
            (0, 5), (1, 6), (2, 7), (3, 8), (4, 9),
        ],
    )
}

#[test]
fn example_acyclic_partition() {
    let g = DirectedGraph::new(6, vec![(0, 1), (0, 2), (1, 3), (1, 4), (2, 4), (2, 5), (3, 5), (4, 5)]);
    let problem = AcyclicPartition::new(g, vec![2, 3, 2, 1, 3, 1], vec![1; 8], 5, 5);
    assert_eq!(problem.evaluate(&[0, 1, 0, 2, 2, 2]), Ok(Or(true)));
}

#[test]
fn example_biconnectivity_augmentation() {
    let problem = BiconnectivityAugmentation::new(
        SimpleGraph::path(6),
        vec![(0, 2, 1), (0, 3, 2), (0, 4, 3), (1, 3, 1), (1, 4, 2), (1, 5, 3), (2, 4, 1), (2, 5, 2), (3, 5, 1)],
        4,
    );
    let config = vec![true, false, false, true, false, false, true, false, true];
    assert_eq!(problem.evaluate(&config), Ok(Or(true)));
    assert_eq!(problem.evaluate(&vec![false; 9]), Ok(Or(false)));
}

#[test]
fn example_bottleneck_traveling_salesman() {
    let g = SimpleGraph::new(
        5,
        vec![(0, 1), (0, 2), (0, 3), (0, 4), (1, 2), (1, 3), (1, 4), (2, 3), (2, 4), (3, 4)],
    );
    let problem = BottleneckTravelingSalesman::new(g, vec![5, 4, 4, 5, 4, 1, 2, 1, 5, 4]);
    assert_eq!(problem.evaluate(&[0, 1, 1, 0, 1, 0, 1, 0, 0, 1]), Ok(Min(Some(4))));
}

#[test]
fn example_bounded_component_spanning_forest() {
    let g = SimpleGraph::new(8, vec![(0, 1), (1, 2), (2, 3), (3, 4), (4, 5), (5, 6), (6, 7), (0, 7), (1, 5), (2, 6)]);
    let problem = BoundedComponentSpanningForest::new(g, vec![2, 3, 1, 2, 3, 1, 2, 1], 3, 6);
    assert!(problem.evaluate(&[0, 0, 1, 1, 1, 2, 2, 0]));
}

#[test]
fn example_bounded_diameter_spanning_tree() {
    let g = SimpleGraph::new(5, vec![(0, 1), (0, 2), (0, 3), (1, 2), (1, 4), (2, 3), (3, 4)]);
    let problem = BoundedDiameterSpanningTree::new(g, vec![1, 2, 1, 1, 2, 1, 1], 5, 3);
    assert_eq!(problem.evaluate(&vec![true, false, true, false, false, true, true]), Ok(Or(true)));
}

#[test]
fn example_degree_constrained_spanning_tree() {
    let g = SimpleGraph::new(5, vec![(0, 1), (0, 2), (0, 3), (1, 2), (1, 4), (2, 3), (3, 4)]);
    let problem = DegreeConstrainedSpanningTree::new(g, 2);
    assert_eq!(problem.evaluate(&vec![false, true, true, true, true, false, false]), Ok(Or(true)));
}

#[test]
fn example_directed_hamiltonian_path() {
    let g = DirectedGraph::new(
        6,
        vec![(0, 1), (0, 3), (1, 3), (1, 4), (2, 0), (2, 4), (3, 2), (3, 5), (4, 5), (5, 1)],
    );
    let problem = DirectedHamiltonianPath::new(g);
    assert_eq!(problem.evaluate(&vec![0, 1, 3, 2, 4, 5]), Ok(Or(true)));
}

#[test]
fn example_eulerian_path() {
    let problem = EulerianPath::new(DirectedGraph::new(3, vec![(0, 1), (0, 1), (1, 2), (2, 0)]));
    assert_eq!(problem.evaluate(&vec![0, 2, 3, 1]), Ok(Or(true)));
}

#[test]
fn example_hamiltonian_circuit() {
    let g = SimpleGraph::new(6, vec![(0, 1), (1, 2), (2, 0), (3, 4), (4, 5), (5, 3), (0, 3), (1, 4), (2, 5)]);
    let problem = HamiltonianCircuit::new(g);
    assert_eq!(problem.evaluate(&vec![0, 1, 2, 5, 4, 3]), Ok(Or(true)));
}

#[test]
fn example_hamiltonian_path_between_two_vertices() {
    let g = SimpleGraph::new(6, vec![(0, 1), (0, 3), (1, 2), (1, 4), (2, 5), (3, 4), (4, 5), (2, 3)]);
    let problem = HamiltonianPathBetweenTwoVertices::new(g, 0, 5);
    assert_eq!(problem.evaluate(&[0, 3, 2, 1, 4, 5]), Or(true));
}

#[test]
fn example_highly_connected_deletion() {
    let problem = HighlyConnectedDeletion::new(SimpleGraph::new(4, vec![(0, 1), (0, 2), (1, 2), (2, 3)]));
    assert_eq!(problem.evaluate(&[0, 0, 0, 1]), Ok(Min(Some(1))));
}

#[test]
fn example_integral_flow_bundles() {
    let g = DirectedGraph::new(4, vec![(0, 1), (0, 2), (1, 3), (2, 3), (1, 2), (2, 1)]);
    let problem = IntegralFlowBundles::new(g, 0, 3, vec![vec![0, 1], vec![2, 5], vec![3, 4]], vec![1, 1, 1], 1);
    assert_eq!(problem.evaluate(&vec![1, 0, 1, 0, 0, 0]), Ok(Or(true)));
}

#[test]
fn example_integral_flow_homologous_arcs() {
    let g = DirectedGraph::new(6, vec![(0, 1), (0, 2), (1, 3), (2, 3), (1, 4), (2, 4), (3, 5), (4, 5)]);
    let problem = IntegralFlowHomologousArcs::new(g, vec![1; 8], 0, 5, 2, vec![(2, 5), (4, 3)]);
    assert_eq!(problem.evaluate(&vec![1, 1, 1, 0, 0, 1, 1, 1]), Ok(Or(true)));
}

#[test]
fn example_integral_flow_with_multipliers() {
    let g = DirectedGraph::new(
        8,
        vec![(0, 1), (0, 2), (0, 3), (0, 4), (0, 5), (0, 6), (1, 7), (2, 7), (3, 7), (4, 7), (5, 7), (6, 7)],
    );
    let problem = IntegralFlowWithMultipliers::new(
        g,
        0,
        7,
        vec![1, 2, 3, 4, 5, 6, 4, 1],
        vec![1, 1, 1, 1, 1, 1, 2, 3, 4, 5, 6, 4],
        12,
    )
    .unwrap();
    assert_eq!(problem.evaluate(&vec![1, 0, 1, 0, 1, 0, 2, 0, 4, 0, 6, 0]), Ok(Or(true)));
}

#[test]
fn example_kclique() {
    let problem = KClique::new(SimpleGraph::new(5, vec![(0, 1), (0, 2), (1, 3), (2, 3), (2, 4), (3, 4)]), 3);
    assert_eq!(problem.evaluate(&vec![false, false, true, true, true]), Ok(Or(true)));
}

#[test]
fn example_kernel() {
    let g = DirectedGraph::new(5, vec![(0, 1), (0, 2), (1, 3), (2, 3), (3, 4), (4, 0), (4, 1)]);
    assert_eq!(Kernel::new(g).evaluate(&[1, 0, 0, 1, 0]), Or(true));
}

#[test]
fn example_kth_best_spanning_tree() {
    let g = SimpleGraph::new(4, vec![(0, 1), (0, 2), (0, 3), (1, 2), (1, 3), (2, 3)]);
    let problem = KthBestSpanningTree::new(g, vec![1, 1, 2, 2, 2, 3], 2, 4);
    let trees = vec![vec![true, true, true, false, false, false], vec![true, true, false, false, true, false]];
    assert_eq!(problem.evaluate(&trees), Ok(Or(true)));
}

#[test]
fn example_longest_path() {
    let g = SimpleGraph::new(
        7,
        vec![(0, 1), (0, 2), (1, 3), (2, 3), (2, 4), (3, 5), (4, 5), (4, 6), (5, 6), (1, 6)],
    );
    let problem = LongestPath::new(g, vec![3, 2, 4, 1, 5, 2, 3, 2, 4, 1], 0, 6);
    let config = vec![true, false, true, true, true, false, true, false, true, false];
    assert_eq!(problem.evaluate(&config), Ok(Max(Some(20))));
}

#[test]
fn example_max_cut() {
    let problem = MaxCut::unweighted(SimpleGraph::new(5, vec![(0, 1), (0, 2), (1, 3), (2, 3), (2, 4), (3, 4)]));
    assert_eq!(problem.evaluate(&vec![true, false, false, true, false]), Ok(Max(Some(5))));
    let seven = MaxCut::unweighted(SimpleGraph::new(5, vec![(0, 1), (0, 2), (0, 3), (1, 2), (1, 4), (2, 3), (3, 4)]));
    assert_eq!(seven.evaluate(&vec![false, true, false, true, false]), Ok(Max(Some(6))));
}

#[test]
fn example_maximal_is() {
    let problem = MaximalIS::new(SimpleGraph::new(5, vec![(0, 1), (1, 2), (2, 3), (3, 4)]), vec![1; 5]);
    assert_eq!(problem.evaluate(&vec![true, false, true, false, true]), Ok(Max(Some(3))));
}

#[test]
fn example_maximum_achromatic_number() {
    let problem = MaximumAchromaticNumber::new(SimpleGraph::new(6, vec![(0, 1), (1, 2), (2, 3), (3, 4), (4, 5), (5, 0)]));
    assert_eq!(problem.evaluate(&[0, 1, 2, 0, 1, 2]), Max(Some(3)));
}

#[test]
fn example_maximum_co_k_plex() {
    let g = SimpleGraph::new(5, vec![(0, 1), (1, 2), (2, 3), (3, 4), (4, 0)]);
    let problem = MaximumCoKPlex::with_k(g, vec![5, 1, 4, 1, 3], 2);
    assert_eq!(problem.evaluate(&vec![true, false, true, false, true]), Ok(Max(Some(12))));
}

#[test]
fn example_maximum_common_edge_subgraph() {
    let g1 = LabelledDigraph::new(
        5,
        vec![
            LabelledArc::new(0, 0, 1),
            LabelledArc::new(1, 1, 2),
            LabelledArc::new(0, 2, 2),
            LabelledArc::new(2, 0, 3),
            LabelledArc::new(1, 3, 3),
            LabelledArc::new(3, 1, 4),
        ],
    );
    let g2 = LabelledDigraph::new(
        4,
        vec![
            LabelledArc::new(0, 0, 1),
            LabelledArc::new(1, 1, 2),
            LabelledArc::new(0, 2, 2),
            LabelledArc::new(2, 0, 3),
            LabelledArc::new(1, 3, 3),
            LabelledArc::new(0, 1, 3),
        ],
    );
    let problem = MaximumCommonEdgeSubgraph::new(g1, g2);
    assert_eq!(problem.evaluate(&vec![0, 1, 2, 3, 4]), Ok(Max(Some(5))));
}

#[test]
fn example_maximum_contact_map_overlap() {
    let problem = MaximumContactMapOverlap::new(4, vec![(0, 2), (1, 3)], 5, vec![(0, 3), (1, 4), (0, 2)]);
    assert_eq!(problem.evaluate(&[1, 2, 4, 5]), Ok(Max(Some(2))));
}

#[test]
fn example_maximum_edge_weighted_k_clique() {
    let g = SimpleGraph::new(4, vec![(0, 1), (0, 2), (1, 2), (0, 3), (1, 3)]);
    let problem = MaximumEdgeWeightedKClique::new(g, vec![5, 4, -1, 1, 0], 3).unwrap();
    assert_eq!(problem.evaluate(&[1, 1, 1, 0]), Ok(Max(Some(8))));
}

#[test]
fn example_maximum_independent_set() {
    let config = vec![true, false, true, false, false, false, false, false, true, true];
    let unit = MaximumIndependentSet::new(petersen(), vec![1; 10]);
    assert_eq!(unit.evaluate(&config), Ok(Max(Some(4))));
    let weighted = MaximumIndependentSet::new(petersen(), vec![5, 1, 1, 1, 1, 3, 1, 1, 1, 3]);
    assert_eq!(weighted.evaluate(&config), Ok(Max(Some(10))));
}

#[test]
fn example_maximum_matching() {
    let problem = MaximumMatching::unit_weights(SimpleGraph::new(5, vec![(0, 1), (0, 2), (1, 3), (2, 3), (2, 4), (3, 4)]));
    assert_eq!(problem.evaluate(&vec![true, false, false, false, true, false]), Ok(Max(Some(2))));
}

#[test]
fn example_min_max_multicenter() {
    let g = SimpleGraph::new(6, vec![(0, 1), (1, 2), (2, 3), (3, 4), (4, 5), (0, 5), (1, 4)]);
    let problem = MinMaxMulticenter::new(g, vec![1; 6], vec![1; 7], 2);
    assert_eq!(problem.evaluate(&[0, 1, 0, 0, 1, 0]), Ok(Min(Some(1))));
}

#[test]
fn example_minimum_capacitated_spanning_tree() {
    let g = SimpleGraph::new(5, vec![(0, 1), (0, 2), (0, 3), (1, 2), (1, 4), (2, 3), (2, 4), (3, 4)]);
    let problem = MinimumCapacitatedSpanningTree::new(g, vec![2, 1, 4, 3, 1, 2, 3, 1], 0, vec![0, 1, 1, 1, 1], 3);
    let config = vec![true, true, false, false, true, false, false, true];
    assert_eq!(problem.evaluate(&config), Ok(Min(Some(5))));
}

#[test]
fn integral_flow_bundles_from_listed_parts() {
    let arcs = vec![(0, 1), (0, 2), (1, 3), (2, 3), (1, 2), (2, 1)];
    let bundles = vec![vec![0, 1], vec![2, 5], vec![3, 4]];
    let problem = IntegralFlowBundles::try_from_spec(arcs.clone(), None, bundles.clone(), vec![1, 1, 1], 0, 3, 1).unwrap();
    assert_eq!(problem.num_vertices(), 4);
    assert_eq!(problem.evaluate(&vec![1, 0, 1, 0, 0, 0]), Ok(Or(true)));
    assert_eq!(problem.is_valid_solution(&vec![1, 0, 1, 0, 0, 0]), Ok(true));
    assert_eq!(problem.is_valid_solution(&vec![0, 0, 0, 0, 0, 0]), Ok(false));
    assert!(problem.is_valid_solution(&vec![1, 0]).is_err());
    assert!(IntegralFlowBundles::try_from_spec(vec![], Some(3), vec![], vec![], 0, 1, 1).is_err());
    assert!(IntegralFlowBundles::try_from_spec(arcs.clone(), Some(2), bundles.clone(), vec![1, 1, 1], 0, 1, 1).is_err());
    assert!(IntegralFlowBundles::try_from_spec(arcs, None, bundles, vec![1, 1, 1], 0, 9, 1).is_err());
}
