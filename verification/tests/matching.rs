use problemreductions::solvers::BruteForce;
use problemreductions::models::graph::matching::{Matching, is_matching};

#[test]
fn test_matching_creation() {
    let problem = Matching::new(4, vec![(0, 1, 1), (1, 2, 2), (2, 3, 3)]);
    assert_eq!(problem.num_vertices(), 4);
    assert_eq!(problem.num_edges(), 3);
    assert_eq!(problem.num_variables(), 3);
}

#[test]
fn test_matching_unweighted() {
    let problem = Matching::unweighted(3, vec![(0, 1), (1, 2)]);
    assert_eq!(problem.num_edges(), 2);
}

#[test]
fn test_edge_endpoints() {
    let problem = Matching::new(3, vec![(0, 1, 1), (1, 2, 2)]);
    assert_eq!(problem.edge_endpoints(0), Some((0, 1)));
    assert_eq!(problem.edge_endpoints(1), Some((1, 2)));
    assert_eq!(problem.edge_endpoints(2), None);
}

#[test]
fn test_is_valid_matching() {
    let problem = Matching::new(4, vec![(0, 1, 1), (1, 2, 1), (2, 3, 1)]);

    // Valid: select edge 0 only
    assert!(problem.is_valid_matching(&[1, 0, 0]));

    // Valid: select edges 0 and 2 (disjoint)
    assert!(problem.is_valid_matching(&[1, 0, 1]));

    // Invalid: edges 0 and 1 share vertex 1
    assert!(!problem.is_valid_matching(&[1, 1, 0]));
}

#[test]
fn test_solution_size() {
    let problem = Matching::new(4, vec![(0, 1, 5), (1, 2, 10), (2, 3, 3)]);

    let sol = problem.solution_size(&[1, 0, 1]);
    assert!(sol.is_valid);
    assert_eq!(sol.size, 8); // 5 + 3

    let sol = problem.solution_size(&[0, 1, 0]);
    assert!(sol.is_valid);
    assert_eq!(sol.size, 10);
}

#[test]
fn test_is_matching_function() {
    let edges = vec![(0, 1), (1, 2), (2, 3)];

    assert!(is_matching(4, &edges, &[true, false, true])); // Disjoint
    assert!(is_matching(4, &edges, &[false, true, false])); // Single edge
    assert!(!is_matching(4, &edges, &[true, true, false])); // Share vertex 1
    assert!(is_matching(4, &edges, &[false, false, false])); // Empty is valid
}

#[test]
fn matching_test_energy_mode() {
    let problem = Matching::unweighted(2, vec![(0, 1)]);
    assert!(problem.energy_mode().is_maximization());
}

#[test]
fn matching_test_empty_graph() {
    let problem = Matching::unweighted(3, vec![]);
    let sol = problem.solution_size(&[]);
    assert!(sol.is_valid);
    assert_eq!(sol.size, 0);
}

#[test]
fn matching_test_constraints() {
    let problem = Matching::unweighted(3, vec![(0, 1), (1, 2)]);
    let constraints = problem.constraints();
    // Vertex 1 has degree 2, so 1 constraint
    assert_eq!(constraints.len(), 1);
}

#[test]
fn matching_test_edges() {
    let problem = Matching::new(3, vec![(0, 1, 5), (1, 2, 10)]);
    let edges = problem.edges();
    assert_eq!(edges.len(), 2);
}

#[test]
fn matching_test_is_satisfied() {
    let problem = Matching::unweighted(4, vec![(0, 1), (1, 2), (2, 3)]);

    assert!(problem.is_satisfied(&[1, 0, 1])); // Valid matching
    assert!(problem.is_satisfied(&[0, 1, 0])); // Valid matching
    assert!(!problem.is_satisfied(&[1, 1, 0])); // Share vertex 1
}

#[test]
fn matching_test_objectives() {
    let problem = Matching::new(3, vec![(0, 1, 5), (1, 2, 10)]);
    let objectives = problem.objectives();
    assert_eq!(objectives.len(), 2);
}

#[test]
fn matching_test_set_weights() {
    let mut problem = Matching::unweighted(3, vec![(0, 1), (1, 2)]);
    assert!(!problem.is_weighted()); // Initially uniform
    problem.set_weights(vec![1, 2]);
    assert!(problem.is_weighted());
    assert_eq!(problem.weights(), vec![1, 2]);
}

#[test]
fn matching_test_is_weighted_empty() {
    let problem = Matching::unweighted(2, vec![]);
    assert!(!problem.is_weighted());
}

#[test]
fn test_is_matching_wrong_len() {
    let edges = vec![(0, 1), (1, 2)];
    assert!(!is_matching(3, &edges, &[true])); // Wrong length
}

#[test]
fn test_is_matching_out_of_bounds() {
    let edges = vec![(0, 5)]; // Vertex 5 doesn't exist
    assert!(!is_matching(3, &edges, &[true]));
}

#[test]
fn matching_test_problem_size() {
    let problem = Matching::unweighted(5, vec![(0, 1), (1, 2), (2, 3)]);
    let size = problem.problem_size();
    assert_eq!(size.get("num_vertices"), Some(5));
    assert_eq!(size.get("num_edges"), Some(3));
}

#[test]
fn matching_test_brute_force_path() {
    // Path 0-1-2-3 with unit weights
    let problem = Matching::unweighted(4, vec![(0, 1), (1, 2), (2, 3)]);
    let solver = BruteForce::new();

    let solutions = solver.find_best(&problem);
    // Maximum matching has 2 edges: {0-1, 2-3}
    assert!(solutions.contains(&vec![1, 0, 1]));
    for sol in &solutions {
        assert_eq!(problem.solution_size(sol).size, 2);
    }
}

#[test]
fn matching_test_brute_force_triangle() {
    let problem = Matching::unweighted(3, vec![(0, 1), (1, 2), (0, 2)]);
    let solver = BruteForce::new();

    let solutions = solver.find_best(&problem);
    // Maximum matching has 1 edge (any of the 3)
    for sol in &solutions {
        assert_eq!(sol.iter().sum::<usize>(), 1);
        assert!(problem.solution_size(sol).is_valid);
    }
}

#[test]
fn matching_test_brute_force_weighted() {
    // Prefer heavy edge even if it excludes more edges
    let problem = Matching::new(4, vec![(0, 1, 100), (0, 2, 1), (1, 3, 1)]);
    let solver = BruteForce::new();

    let solutions = solver.find_best(&problem);
    // Edge 0-1 (weight 100) alone beats edges 0-2 + 1-3 (weight 2)
    assert!(solutions.contains(&vec![1, 0, 0]));
}

#[test]
fn test_perfect_matching() {
    // K4: can have perfect matching (2 edges covering all 4 vertices)
    let problem = Matching::unweighted(
        4,
        vec![(0, 1), (0, 2), (0, 3), (1, 2), (1, 3), (2, 3)],
    );
    let solver = BruteForce::new();

    let solutions = solver.find_best(&problem);
    // Perfect matching has 2 edges
    for sol in &solutions {
        assert_eq!(problem.solution_size(sol).size, 2);
        // Check it's a valid matching using 4 vertices
        let mut used = [false; 4];
        for (idx, &sel) in sol.iter().enumerate() {
            if sel == 1 {
                if let Some((u, v)) = problem.edge_endpoints(idx) {
                    used[u] = true;
                    used[v] = true;
                }
            }
        }
        assert!(used.iter().all(|&u| u)); // All vertices matched
    }
}
