use problemreductions::solvers::BruteForce;
use problemreductions::models::graph::independent_set::{IndependentSet, is_independent_set};

#[test]
fn test_independent_set_creation() {
    let problem = IndependentSet::new(4, vec![(0, 1), (1, 2), (2, 3)]);
    assert_eq!(problem.num_vertices(), 4);
    assert_eq!(problem.num_edges(), 3);
    assert_eq!(problem.num_variables(), 4);
    assert_eq!(problem.num_flavors(), 2);
}

#[test]
fn test_independent_set_with_weights() {
    let problem = IndependentSet::with_weights(3, vec![(0, 1)], vec![1, 2, 3]);
    assert_eq!(problem.weights(), vec![1, 2, 3]);
    assert!(problem.is_weighted());
}

#[test]
fn test_independent_set_unweighted() {
    let problem = IndependentSet::new(3, vec![(0, 1)]);
    assert!(!problem.is_weighted());
}

#[test]
fn independent_set_test_has_edge() {
    let problem = IndependentSet::new(3, vec![(0, 1), (1, 2)]);
    assert!(problem.has_edge(0, 1));
    assert!(problem.has_edge(1, 0)); // Undirected
    assert!(problem.has_edge(1, 2));
    assert!(!problem.has_edge(0, 2));
}

#[test]
fn independent_set_test_solution_size_valid() {
    let problem = IndependentSet::new(4, vec![(0, 1), (2, 3)]);

    // Valid: select 0 and 2 (not adjacent)
    let sol = problem.solution_size(&[1, 0, 1, 0]);
    assert!(sol.is_valid);
    assert_eq!(sol.size, 2);

    // Valid: select 1 and 3 (not adjacent)
    let sol = problem.solution_size(&[0, 1, 0, 1]);
    assert!(sol.is_valid);
    assert_eq!(sol.size, 2);
}

#[test]
fn independent_set_test_solution_size_invalid() {
    let problem = IndependentSet::new(4, vec![(0, 1), (2, 3)]);

    // Invalid: 0 and 1 are adjacent
    let sol = problem.solution_size(&[1, 1, 0, 0]);
    assert!(!sol.is_valid);
    assert_eq!(sol.size, 2);

    // Invalid: 2 and 3 are adjacent
    let sol = problem.solution_size(&[0, 0, 1, 1]);
    assert!(!sol.is_valid);
}

#[test]
fn independent_set_test_solution_size_empty() {
    let problem = IndependentSet::new(3, vec![(0, 1), (1, 2)]);
    let sol = problem.solution_size(&[0, 0, 0]);
    assert!(sol.is_valid);
    assert_eq!(sol.size, 0);
}

#[test]
fn independent_set_test_weighted_solution() {
    let problem = IndependentSet::with_weights(3, vec![(0, 1)], vec![10, 20, 30]);

    // Select vertex 2 (weight 30)
    let sol = problem.solution_size(&[0, 0, 1]);
    assert!(sol.is_valid);
    assert_eq!(sol.size, 30);

    // Select vertices 0 and 2 (weights 10 + 30 = 40)
    let sol = problem.solution_size(&[1, 0, 1]);
    assert!(sol.is_valid);
    assert_eq!(sol.size, 40);
}

#[test]
fn independent_set_test_constraints() {
    let problem = IndependentSet::new(3, vec![(0, 1), (1, 2)]);
    let constraints = problem.constraints();
    assert_eq!(constraints.len(), 2); // One per edge
}

#[test]
fn independent_set_test_objectives() {
    let problem = IndependentSet::with_weights(3, vec![(0, 1)], vec![5, 10, 15]);
    let objectives = problem.objectives();
    assert_eq!(objectives.len(), 3); // One per vertex
}

#[test]
fn test_is_independent_set_function() {
    assert!(is_independent_set(3, &[(0, 1)], &[true, false, true]));
    assert!(is_independent_set(3, &[(0, 1)], &[false, true, true]));
    assert!(!is_independent_set(3, &[(0, 1)], &[true, true, false]));
    assert!(is_independent_set(
        3,
        &[(0, 1), (1, 2)],
        &[true, false, true]
    ));
    assert!(!is_independent_set(
        3,
        &[(0, 1), (1, 2)],
        &[false, true, true]
    ));
}

#[test]
fn independent_set_test_problem_size() {
    let problem = IndependentSet::new(5, vec![(0, 1), (1, 2), (2, 3)]);
    let size = problem.problem_size();
    assert_eq!(size.get("num_vertices"), Some(5));
    assert_eq!(size.get("num_edges"), Some(3));
}

#[test]
fn independent_set_test_energy_mode() {
    let problem = IndependentSet::new(3, vec![(0, 1)]);
    assert!(problem.energy_mode().is_maximization());
}

#[test]
fn independent_set_test_edges() {
    let problem = IndependentSet::new(4, vec![(0, 1), (2, 3)]);
    let edges = problem.edges();
    assert_eq!(edges.len(), 2);
    assert!(edges.contains(&(0, 1)) || edges.contains(&(1, 0)));
    assert!(edges.contains(&(2, 3)) || edges.contains(&(3, 2)));
}

#[test]
fn independent_set_test_set_weights() {
    let mut problem = IndependentSet::new(3, vec![(0, 1)]);
    problem.set_weights(vec![5, 10, 15]);
    assert_eq!(problem.weights(), vec![5, 10, 15]);
}

#[test]
fn independent_set_test_is_satisfied() {
    let problem = IndependentSet::new(3, vec![(0, 1), (1, 2)]);

    assert!(problem.is_satisfied(&[1, 0, 1])); // Valid IS
    assert!(problem.is_satisfied(&[0, 1, 0])); // Valid IS
    assert!(!problem.is_satisfied(&[1, 1, 0])); // Invalid: 0-1 adjacent
    assert!(!problem.is_satisfied(&[0, 1, 1])); // Invalid: 1-2 adjacent
}

#[test]
fn independent_set_test_brute_force_triangle() {
    // Triangle graph: maximum IS has size 1
    let problem = IndependentSet::new(3, vec![(0, 1), (1, 2), (0, 2)]);
    let solver = BruteForce::new();

    let solutions = solver.find_best(&problem);
    // All solutions should have exactly 1 vertex selected
    assert_eq!(solutions.len(), 3); // Three equivalent solutions
    for sol in &solutions {
        assert_eq!(sol.iter().sum::<usize>(), 1);
    }
}

#[test]
fn independent_set_test_brute_force_path() {
    // Path graph 0-1-2-3: maximum IS = {0,2} or {1,3} or {0,3}
    let problem = IndependentSet::new(4, vec![(0, 1), (1, 2), (2, 3)]);
    let solver = BruteForce::new();

    let solutions = solver.find_best(&problem);
    // Maximum size is 2
    for sol in &solutions {
        let size: usize = sol.iter().sum();
        assert_eq!(size, 2);
        // Verify it's valid
        let sol_result = problem.solution_size(sol);
        assert!(sol_result.is_valid);
    }
}

#[test]
fn independent_set_test_brute_force_weighted() {
    // Graph with weights: vertex 1 has high weight but is connected to both 0 and 2
    let problem = IndependentSet::with_weights(3, vec![(0, 1), (1, 2)], vec![1, 100, 1]);
    let solver = BruteForce::new();

    let solutions = solver.find_best(&problem);
    assert_eq!(solutions.len(), 1);
    // Should select vertex 1 (weight 100) over vertices 0+2 (weight 2)
    assert_eq!(solutions[0], vec![0, 1, 0]);
}

#[test]
fn independent_set_test_empty_graph() {
    let problem = IndependentSet::new(3, vec![]);
    let solver = BruteForce::new();

    let solutions = solver.find_best(&problem);
    assert_eq!(solutions.len(), 1);
    // All vertices can be selected
    assert_eq!(solutions[0], vec![1, 1, 1]);
}
