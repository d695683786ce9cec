use problemreductions::models::algebraic::algebraic_equations_over_gf2::AlgebraicEquationsOverGF2;
use problemreductions::models::algebraic::closest_vector_problem::ClosestVectorProblem;
use problemreductions::models::algebraic::consecutive_ones_matrix_augmentation::ConsecutiveOnesMatrixAugmentation;
use problemreductions::models::algebraic::equilibrium_point::EquilibriumPoint;
use problemreductions::models::algebraic::feasible_basis_extension::FeasibleBasisExtension;
use problemreductions::models::algebraic::integer_expression_membership::IntegerExpressionMembership;
use problemreductions::models::algebraic::minimum_matrix_domination::MinimumMatrixDomination;
use problemreductions::models::algebraic::minimum_weight_solution_to_linear_equations::MinimumWeightSolutionToLinearEquations;
use problemreductions::models::algebraic::quadratic_congruences::QuadraticCongruences;
use problemreductions::models::algebraic::quadratic_diophantine_equations::QuadraticDiophantineEquations;
use problemreductions::models::algebraic::qubo::QUBO;
use problemreductions::models::algebraic::simultaneous_incongruences::SimultaneousIncongruences;
use problemreductions::models::algebraic::sparse_matrix_compression::SparseMatrixCompression;
use problemreductions::models::decision::Decision;
use problemreductions::models::formula::ksat::KSatisfiability;
use problemreductions::models::formula::maximum_2_satisfiability::Maximum2Satisfiability;
use problemreductions::models::formula::non_tautology::NonTautology;
use problemreductions::models::formula::one_in_three_satisfiability::OneInThreeSatisfiability;
use problemreductions::models::formula::planar_3_satisfiability::Planar3Satisfiability;
use problemreductions::models::formula::sat::{CNFClause, Satisfiability};
use problemreductions::types::{Max, Min, Or};

fn clauses(lits: &[&[i32]]) -> Vec<CNFClause> {
    lits.iter().map(|c| CNFClause::new(c.to_vec())).collect()
}

#[test]
fn example_algebraic_equations_over_gf2() {
    let problem = AlgebraicEquationsOverGF2::new(
        3,
        vec![vec![vec![0, 1], vec![2]], vec![vec![1, 2], vec![0], vec![]], vec![vec![0], vec![1], vec![2], vec![]]],
    )
    .unwrap();
    assert_eq!(problem.evaluate(&[1, 0, 0]), Or(true));
}

#[test]
fn example_closest_vector_problem() {
    let problem = ClosestVectorProblem::new(vec![vec![2, 0], vec![1, 2]], vec![3, 2]).unwrap();
    assert_eq!(problem.evaluate(&[1, 1]), Ok(Min(Some(0))));
}

#[test]
fn example_consecutive_ones_matrix_augmentation() {
    let problem = ConsecutiveOnesMatrixAugmentation::new(
        vec![
            vec![true, false, false, true, true],
            vec![true, true, false, false, false],
            vec![false, true, true, false, true],
            vec![false, false, true, true, false],
        ],
        2,
    );
    assert_eq!(problem.evaluate(&vec![0, 1, 4, 2, 3]), Ok(Or(true)));
}

#[test]
fn example_equilibrium_point() {
    let polynomials = vec![
        vec![vec![0, 1, 0, 0], vec![0, 0, 1, 0], vec![0, 0, 0, 1]],
        vec![vec![1, -1, 0, 0], vec![0, 0, 1, 0]],
        vec![vec![0, 1, 0, 0], vec![1, 0, 0, -1]],
    ];
    let problem = EquilibriumPoint::new(polynomials, vec![vec![0, 1], vec![0, 1], vec![0, 1]]).unwrap();
    assert_eq!(problem.evaluate(&[0, 1, 0]), Or(true));
}

#[test]
fn example_feasible_basis_extension() {
    let problem = FeasibleBasisExtension::new(
        vec![vec![1, 0, 1, 2, -1, 0], vec![0, 1, 0, 1, 1, 2], vec![0, 0, 1, 1, 0, 1]],
        vec![7, 5, 3],
        vec![0, 1],
    );
    assert_eq!(problem.evaluate(&[1, 0, 0, 0]), Or(true));
}

#[test]
fn example_integer_expression_membership() {
    let problem = IntegerExpressionMembership::new(vec![vec![1, 2], vec![1, 6], vec![1, 7], vec![1, 9]], 15);
    assert_eq!(problem.evaluate(&[0, 1, 1, 0]), Or(true));
}

#[test]
fn example_minimum_matrix_domination() {
    let matrix = vec![
        vec![false, true, false, false, false, false],
        vec![true, false, true, false, false, false],
        vec![false, true, false, true, false, false],
        vec![false, false, true, false, true, false],
        vec![false, false, false, true, false, true],
        vec![false, false, false, false, true, false],
    ];
    let problem = MinimumMatrixDomination::new(matrix);
    let config = vec![true, true, false, false, false, false, true, true, false, false];
    assert_eq!(problem.evaluate(&config), Ok(Min(Some(4))));
}

#[test]
fn example_minimum_weight_solution_to_linear_equations() {
    let problem = MinimumWeightSolutionToLinearEquations::new(
        vec![vec![1, 0, 1], vec![1, 0, 0], vec![1, 0, 0], vec![0, 1, 1], vec![0, 1, 1], vec![0, 1, 0]],
        vec![1; 6],
        2,
    );
    assert_eq!(problem.evaluate(&[1, 1, 0]), Or(true));
}

#[test]
fn example_quadratic_congruences() {
    assert_eq!(QuadraticCongruences::new(4, 15, 10).evaluate(&[1]), Or(true));
}

#[test]
fn example_quadratic_diophantine_equations() {
    assert_eq!(QuadraticDiophantineEquations::new(3, 5, 53).evaluate(&[0]), Or(true));
}

#[test]
fn example_qubo_and_its_decision_version() {
    let problem = QUBO::from_matrix(vec![vec![-1, 2, 0], vec![0, -1, 2], vec![0, 0, -1]]).unwrap();
    let value = problem.evaluate(&vec![true, false, true]);
    assert_eq!(value, Ok(Min(Some(-2))));
    let decision = Decision::new(problem, -2);
    assert_eq!(decision.evaluate_min(value), Ok(Or(true)));
}

#[test]
fn example_simultaneous_incongruences() {
    let problem = SimultaneousIncongruences::new(vec![(2, 2), (1, 3), (2, 5), (3, 7)]).unwrap();
    assert_eq!(problem.evaluate(&5), Ok(Or(true)));
}

#[test]
fn example_sparse_matrix_compression() {
    let problem = SparseMatrixCompression::new(
        vec![
            vec![true, false, false, true],
            vec![false, true, false, false],
            vec![false, false, true, false],
            vec![true, false, false, false],
        ],
        2,
    );
    assert_eq!(problem.evaluate(&vec![1, 1, 1, 0]), Ok(Or(true)));
}

#[test]
fn example_ksatisfiability() {
    let problem = KSatisfiability::<3>::new(3, clauses(&[&[1, 2, 3], &[-1, -2, 3], &[1, -2, -3]]));
    assert_eq!(problem.evaluate(&vec![false, false, true]), Ok(Or(true)));
}

#[test]
fn example_maximum_2_satisfiability() {
    let problem = Maximum2Satisfiability::new(
        4,
        clauses(&[&[1, 2], &[1, -2], &[-1, 3], &[-1, -3], &[2, 4], &[-3, -4], &[3, 4]]),
    );
    assert_eq!(problem.evaluate(&vec![true, true, false, true]), Ok(Max(Some(6))));
}

#[test]
fn example_non_tautology() {
    let problem = NonTautology::new(2, vec![vec![1, 2], vec![-1, -2]]);
    assert_eq!(problem.evaluate(&[1, 0]), Or(true));
}

#[test]
fn example_one_in_three_satisfiability() {
    let problem = OneInThreeSatisfiability::new(4, clauses(&[&[1, 2, 3], &[-1, 3, 4], &[2, -3, -4]]));
    assert_eq!(problem.evaluate(&[1, 0, 0, 1]), Or(true));
}

#[test]
fn example_planar_3_satisfiability() {
    let problem = Planar3Satisfiability::new(4, clauses(&[&[1, 2, 3], &[-1, 2, 4], &[1, -3, 4], &[-2, 3, -4]]));
    assert_eq!(problem.evaluate(&vec![true, true, true, false]), Ok(Or(true)));
}

#[test]
fn example_satisfiability() {
    let problem = Satisfiability::new(3, clauses(&[&[1, 2], &[-1, 3], &[-2, -3]]));
    assert_eq!(problem.evaluate(&[0, 1, 0]), Or(true));
}
