use problemreductions::models::graph::coloring::Coloring;
use problemreductions::models::graph::dominating_set::DominatingSet;
use problemreductions::models::graph::independent_set::IndependentSet;
use problemreductions::models::graph::matching::Matching;
use problemreductions::solvers::BruteForce;

#[test]
fn exhaustive_search_returns_every_optimum_in_order() {
    let solver = BruteForce::new();
    let is = IndependentSet::new(4, vec![(0, 1), (1, 2), (2, 3)]);
    assert_eq!(solver.find_best(&is), vec![vec![0, 1, 0, 1], vec![1, 0, 0, 1], vec![1, 0, 1, 0]]);
    let ds = DominatingSet::new(4, vec![(0, 1), (0, 2), (0, 3)]);
    assert_eq!(solver.find_best(&ds), vec![vec![1, 0, 0, 0]]);
    let mm = Matching::unweighted(4, vec![(0, 1), (1, 2), (2, 3)]);
    assert_eq!(solver.find_best(&mm), vec![vec![1, 0, 1]]);
    let three = Coloring::new(3, 3, vec![(0, 1), (1, 2), (0, 2)]);
    let colorings = solver.find_best(&three);
    assert_eq!(colorings.len(), 6);
    assert_eq!(colorings[0], vec![0, 1, 2]);
    let two = Coloring::new(3, 2, vec![(0, 1), (1, 2), (0, 2)]);
    assert!(solver.find_best(&two).is_empty());
}
