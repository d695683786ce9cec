use problemreductions::models::graph::directed_hamiltonian_path::{decode_lehmer, lehmer_dims, DirectedHamiltonianPath};
use problemreductions::models::graph::edge_connectivity::{edge_connectivity, induced_edge_count, is_feasible_cluster};
use problemreductions::models::graph::acyclic_partition::AcyclicPartition;
use problemreductions::models::graph::biconnectivity_augmentation::{is_biconnected, BiconnectivityAugmentation};
use problemreductions::models::graph::bottleneck_traveling_salesman::BottleneckTravelingSalesman;
use problemreductions::models::graph::bounded_component_spanning_forest::BoundedComponentSpanningForest;
use problemreductions::models::graph::bounded_diameter_spanning_tree::BoundedDiameterSpanningTree;
use problemreductions::models::graph::degree_constrained_spanning_tree::DegreeConstrainedSpanningTree;
use problemreductions::models::graph::integral_flow_bundles::IntegralFlowBundles;
use problemreductions::models::graph::integral_flow_homologous_arcs::IntegralFlowHomologousArcs;
use problemreductions::models::graph::integral_flow_with_multipliers::IntegralFlowWithMultipliers;
use problemreductions::models::graph::kcoloring::KColoring;
use problemreductions::models::graph::kth_best_spanning_tree::KthBestSpanningTree;
use problemreductions::models::graph::longest_path::LongestPath;
use problemreductions::models::graph::maximum_achromatic_number::MaximumAchromaticNumber;
use problemreductions::models::graph::maximum_common_edge_subgraph::{LabelledArc, LabelledDigraph, MaximumCommonEdgeSubgraph};
use problemreductions::models::graph::maximum_contact_map_overlap::MaximumContactMapOverlap;
use problemreductions::topology::{DirectedGraph, SimpleGraph};
use problemreductions::types::{ConstructionError, EvaluationError, Max, Min, Or};

fn triangle() -> SimpleGraph {
    SimpleGraph::new(3, vec![(0, 1), (1, 2), (0, 2)])
}

#[test]
fn acyclic_partition_quotient_must_be_acyclic() {
    let g = DirectedGraph::new(3, vec![(0, 1), (1, 2)]);
    let problem = AcyclicPartition::new(g, vec![1, 1, 1], vec![1, 1], 2, 1);
    assert_eq!(problem.evaluate(&[0, 0, 1]), Ok(Or(true)));
    // Parts {0, 2} and {1}: arcs go both ways between them.
    assert_eq!(problem.evaluate(&[0, 1, 0]), Ok(Or(false)));
    // Part {0, 1, 2} weighs 3 > 2.
    assert_eq!(problem.evaluate(&[0, 0, 0]), Ok(Or(false)));
}

#[test]
fn bounded_diameter_spanning_tree_bounds() {
    let problem = BoundedDiameterSpanningTree::new(triangle(), vec![1, 1, 5], 3, 2);
    assert_eq!(problem.evaluate(&vec![true, true, false]), Ok(Or(true)));
    assert_eq!(problem.evaluate(&vec![true, false, true]), Ok(Or(false)));
    assert_eq!(problem.evaluate(&vec![true, true]), Err(EvaluationError::InvalidConfiguration));
}

#[test]
fn biconnectivity_of_small_graphs() {
    assert!(is_biconnected(3, &[(0, 1), (1, 2), (0, 2)]));
    assert!(!is_biconnected(3, &[(0, 1), (1, 2)]));
    let path = SimpleGraph::new(3, vec![(0, 1), (1, 2)]);
    let problem = BiconnectivityAugmentation::new(path, vec![(0, 2, 1)], 1);
    assert_eq!(problem.evaluate(&vec![true]), Ok(Or(true)));
    assert_eq!(problem.evaluate(&vec![false]), Ok(Or(false)));
    assert_eq!(problem.evaluate(&vec![]), Err(EvaluationError::InvalidConfiguration));
}

#[test]
fn biconnectivity_augmentation_budget() {
    let path = SimpleGraph::new(3, vec![(0, 1), (1, 2)]);
    let problem = BiconnectivityAugmentation::new(path, vec![(0, 2, 5)], 4);
    assert_eq!(problem.evaluate(&vec![true]), Ok(Or(false)));
}

#[test]
fn bottleneck_tsp_square() {
    let g = SimpleGraph::new(4, vec![(0, 1), (1, 2), (2, 3), (3, 0)]);
    let problem = BottleneckTravelingSalesman::new(g, vec![1, 2, 3, 4]);
    assert_eq!(problem.evaluate(&[1, 1, 1, 1]), Ok(Min(Some(4))));
    assert_eq!(problem.evaluate(&[1, 1, 1, 0]), Ok(Min(None)));
}

#[test]
fn longest_path_lengths() {
    let g = SimpleGraph::new(4, vec![(0, 1), (1, 2), (2, 3)]);
    let problem = LongestPath::new(g, vec![2, 3, 4], 0, 3);
    assert_eq!(problem.evaluate(&vec![true, true, true]), Ok(Max(Some(9))));
    assert_eq!(problem.evaluate(&vec![true, true, false]), Ok(Max(None)));
    assert_eq!(problem.evaluate(&vec![true]), Err(EvaluationError::InvalidConfiguration));
}

#[test]
fn kth_best_spanning_trees() {
    let problem = KthBestSpanningTree::new(triangle(), vec![1, 2, 3], 2, 4);
    let a = vec![true, true, false];
    let b = vec![true, false, true];
    assert_eq!(problem.evaluate(&vec![a.clone(), b]), Ok(Or(true)));
    assert_eq!(problem.evaluate(&vec![a.clone(), a.clone()]), Ok(Or(false)));
    assert_eq!(problem.evaluate(&vec![a]), Err(EvaluationError::InvalidConfiguration));
}

#[test]
fn degree_constrained_tree() {
    let tight = DegreeConstrainedSpanningTree::new(triangle(), 1);
    assert_eq!(tight.evaluate(&vec![true, true, false]), Ok(Or(false)));
    let loose = DegreeConstrainedSpanningTree::new(triangle(), 2);
    assert_eq!(loose.evaluate(&vec![true, true, false]), Ok(Or(true)));
}

#[test]
fn bounded_component_forest() {
    let g = SimpleGraph::new(3, vec![(0, 1), (1, 2)]);
    let problem = BoundedComponentSpanningForest::new(g, vec![1, 1, 1], 2, 2);
    assert!(problem.evaluate(&[0, 0, 1]));
    assert!(!problem.evaluate(&[0, 1, 0]));
}

#[test]
fn achromatic_number_of_path() {
    let problem = MaximumAchromaticNumber::new(SimpleGraph::new(3, vec![(0, 1), (1, 2)]));
    assert_eq!(problem.evaluate(&[0, 1, 0]), Max(Some(2)));
    assert_eq!(problem.evaluate(&[0, 1, 2]), Max(None));
    assert_eq!(problem.evaluate(&[0, 0, 1]), Max(None));
}

#[test]
fn three_coloring_of_triangle() {
    let problem = KColoring::<3>::new(3, vec![(0, 1), (1, 2), (0, 2)]);
    assert!(problem.evaluate(&[0, 1, 2]));
    assert!(!problem.evaluate(&[0, 0, 1]));
}

#[test]
fn homologous_flow() {
    let g = DirectedGraph::new(3, vec![(0, 1), (1, 2)]);
    let problem = IntegralFlowHomologousArcs::new(g, vec![2, 2], 0, 2, 2, vec![(0, 1)]);
    assert_eq!(problem.evaluate(&vec![2, 2]), Ok(Or(true)));
    assert_eq!(problem.evaluate(&vec![2, 1]), Ok(Or(false)));
    assert_eq!(problem.evaluate(&vec![1, 1]), Ok(Or(false)));
}

#[test]
fn flow_with_multipliers() {
    let g = DirectedGraph::new(3, vec![(0, 1), (1, 2)]);
    let problem = IntegralFlowWithMultipliers::new(g, 0, 2, vec![1, 2, 1], vec![2, 4], 4).unwrap();
    assert_eq!(problem.evaluate(&vec![2, 4]), Ok(Or(true)));
    assert_eq!(problem.evaluate(&vec![2, 2]), Ok(Or(false)));
}

#[test]
fn flow_with_multipliers_rejects_equal_endpoints() {
    let g = DirectedGraph::new(3, vec![(0, 1), (1, 2)]);
    assert_eq!(
        IntegralFlowWithMultipliers::new(g, 1, 1, vec![1, 2, 1], vec![2, 4], 4).err(),
        Some(ConstructionError::InvalidValue)
    );
}

#[test]
fn flow_with_bundles() {
    let g = DirectedGraph::new(3, vec![(0, 1), (1, 2)]);
    let problem = IntegralFlowBundles::new(g, 0, 2, vec![vec![0], vec![1]], vec![2, 2], 2);
    assert_eq!(problem.evaluate(&vec![2, 2]), Ok(Or(true)));
    assert_eq!(problem.evaluate(&vec![1, 1]), Ok(Or(false)));
}

#[test]
fn common_edge_subgraph() {
    let g1 = LabelledDigraph::new(2, vec![LabelledArc::new(0, 0, 1)]);
    let g2 = LabelledDigraph::new(2, vec![LabelledArc::new(1, 0, 0)]);
    let problem = MaximumCommonEdgeSubgraph::new(g1, g2);
    assert_eq!(problem.evaluate(&vec![1, 0]), Ok(Max(Some(1))));
    assert_eq!(problem.evaluate(&vec![0, 1]), Ok(Max(Some(0))));
    assert_eq!(problem.evaluate(&vec![3, 0]), Err(EvaluationError::InvalidConfiguration));
}

#[test]
fn contact_map_overlap() {
    let problem = MaximumContactMapOverlap::new(3, vec![(0, 2)], 3, vec![(0, 2)]);
    assert_eq!(problem.evaluate(&[1, 2, 3]), Ok(Max(Some(1))));
    assert_eq!(problem.evaluate(&[1, 0, 3]), Ok(Max(Some(1))));
    assert_eq!(problem.evaluate(&[3, 2, 1]), Ok(Max(None)));
}

use problemreductions::models::graph::highly_connected_deletion::HighlyConnectedDeletion;
use problemreductions::models::graph::min_max_multicenter::MinMaxMulticenter;
use problemreductions::models::graph::minimum_capacitated_spanning_tree::MinimumCapacitatedSpanningTree;

#[test]
fn capacitated_spanning_tree() {
    let problem = MinimumCapacitatedSpanningTree::new(triangle(), vec![1, 1, 5], 0, vec![0, 1, 1], 1);
    // Star at the root: each leaf carries only itself.
    assert_eq!(problem.evaluate(&vec![true, false, true]), Ok(Min(Some(6))));
    // Path 0-1-2: vertex 1 carries 1 and 2.
    assert_eq!(problem.evaluate(&vec![true, true, false]), Ok(Min(None)));
    assert_eq!(problem.evaluate(&vec![true]), Err(EvaluationError::InvalidConfiguration));
    let roomy = MinimumCapacitatedSpanningTree::new(triangle(), vec![1, 1, 5], 0, vec![0, 1, 1], 2);
    assert_eq!(roomy.evaluate(&vec![true, true, false]), Ok(Min(Some(2))));
    assert_eq!(roomy.is_valid_solution(&[true, true, true]), Ok(false));
}

#[test]
fn capacitated_spanning_tree_overflow() {
    let problem = MinimumCapacitatedSpanningTree::new(triangle(), vec![1, 1, 1], 0, vec![0, i64::MAX, 1], i64::MAX);
    assert_eq!(problem.evaluate(&vec![true, true, false]), Err(EvaluationError::IntegerOverflow));
}

#[test]
fn multicenter_example() {
    let g = SimpleGraph::new(6, vec![(0, 1), (1, 2), (2, 3), (3, 4), (4, 5), (0, 5), (1, 4)]);
    let problem = MinMaxMulticenter::new(g, vec![1; 6], vec![1; 7], 2);
    assert_eq!(problem.evaluate(&[0, 1, 0, 0, 1, 0]), Ok(Min(Some(1))));
    assert_eq!(problem.evaluate(&[1, 1, 0, 0, 0, 0]), Ok(Min(Some(2))));
    assert_eq!(problem.evaluate(&[1, 0, 0, 0, 0, 0]), Ok(Min(None)));
    assert_eq!(problem.evaluate(&[2, 0, 0, 0, 0, 0]), Ok(Min(None)));
}

#[test]
fn multicenter_weighted_and_unreachable() {
    let g = SimpleGraph::new(3, vec![(0, 1), (1, 2)]);
    let problem = MinMaxMulticenter::new(g, vec![1, 2, 3], vec![4, 5], 1);
    // Center 0: distances 0, 4, 9; weighted 0, 8, 27.
    assert_eq!(problem.evaluate(&[1, 0, 0]), Ok(Min(Some(27))));
    let split = MinMaxMulticenter::new(SimpleGraph::new(2, vec![]), vec![1, 1], vec![], 1);
    assert_eq!(split.evaluate(&[1, 0]), Ok(Min(None)));
}

#[test]
fn highly_connected_deletion() {
    let problem = HighlyConnectedDeletion::new(triangle());
    assert_eq!(problem.evaluate(&[0, 0, 0]), Ok(Min(Some(0))));
    let path = HighlyConnectedDeletion::new(SimpleGraph::new(3, vec![(0, 1), (1, 2)]));
    assert_eq!(path.evaluate(&[0, 0]), Ok(Min(None)));
    assert_eq!(path.evaluate(&[1, 1]), Ok(Min(Some(2))));
    // Deleting one edge leaves a two-vertex component.
    assert_eq!(path.evaluate(&[1, 0]), Ok(Min(None)));
    assert_eq!(path.evaluate(&[1]), Ok(Min(None)));
}

#[test]
fn test_edge_connectivity_by_max_flow() {
    let k4: Vec<Vec<usize>> = vec![vec![1, 2, 3], vec![0, 2, 3], vec![0, 1, 3], vec![0, 1, 2]];
    assert_eq!(edge_connectivity(&[0, 1, 2, 3], &k4), 3);
    assert_eq!(edge_connectivity(&[0, 1, 2], &k4), 2);
    assert_eq!(edge_connectivity(&[2], &k4), 0);
    assert_eq!(edge_connectivity(&[], &k4), 0);
    // A path 0 - 1 - 2 listed on one side only.
    let path: Vec<Vec<usize>> = vec![vec![1], vec![2], vec![]];
    assert_eq!(edge_connectivity(&[0, 1, 2], &path), 1);
    // Two separate edges.
    let two: Vec<Vec<usize>> = vec![vec![1], vec![0], vec![3], vec![2]];
    assert_eq!(edge_connectivity(&[0, 1, 2, 3], &two), 0);
    // A 5-cycle, with a neighbour outside the vertex set ignored.
    let cycle: Vec<Vec<usize>> = vec![vec![1, 4, 5], vec![2], vec![3], vec![4], vec![0], vec![0]];
    assert_eq!(edge_connectivity(&[0, 1, 2, 3, 4], &cycle), 2);
}

#[test]
fn test_feasible_cluster_and_induced_edges() {
    let g = SimpleGraph::new(5, vec![(0, 1), (1, 2), (0, 2), (2, 3), (3, 4)]);
    assert!(is_feasible_cluster(&g, &[0, 1, 2]));
    assert!(is_feasible_cluster(&g, &[4]));
    assert!(!is_feasible_cluster(&g, &[]));
    assert!(!is_feasible_cluster(&g, &[2, 3]));
    assert!(!is_feasible_cluster(&g, &[1, 2, 3]));
    assert!(!is_feasible_cluster(&g, &[0, 1, 3]));
    assert_eq!(induced_edge_count(&g, &[0, 1, 2]), 3);
    assert_eq!(induced_edge_count(&g, &[2, 3, 4]), 2);
    assert_eq!(induced_edge_count(&g, &[0, 4]), 0);
}

#[test]
fn lehmer_codes_decode_to_permutations() {
    assert_eq!(decode_lehmer(&[0, 0, 0]), vec![0, 1, 2]);
    assert_eq!(decode_lehmer(&[2, 1, 0]), vec![2, 1, 0]);
    assert_eq!(decode_lehmer(&[1, 1, 0]), vec![1, 2, 0]);
    assert_eq!(decode_lehmer(&[5, 5, 5]), vec![2, 1, 0]);
    assert_eq!(decode_lehmer(&[]), Vec::<usize>::new());
    assert_eq!(lehmer_dims(3), vec![3, 2, 1]);
    let dhp = DirectedHamiltonianPath::new(DirectedGraph::new(4, vec![(0, 1)]));
    assert_eq!(dhp.dimensions(), vec![4, 3, 2, 1]);
}
