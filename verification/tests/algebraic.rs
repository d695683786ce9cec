use problemreductions::models::algebraic::algebraic_equations_over_gf2::AlgebraicEquationsOverGF2;
use problemreductions::models::algebraic::closest_vector_problem::ClosestVectorProblem;
use problemreductions::models::algebraic::equilibrium_point::EquilibriumPoint;
use problemreductions::models::algebraic::feasible_basis_extension::FeasibleBasisExtension;
use problemreductions::models::algebraic::ilp::{is_feasible, normalize_constraint, normalize_constraints, num_nonzeros, Comparison, IntegerVariable, LinearConstraint};
use problemreductions::models::algebraic::integer_expression_membership::IntegerExpressionMembership;
use problemreductions::models::algebraic::minimum_matrix_domination::MinimumMatrixDomination;
use problemreductions::models::algebraic::minimum_weight_solution_to_linear_equations::MinimumWeightSolutionToLinearEquations;
use problemreductions::models::algebraic::multivariate_quadratic::{MultivariateQuadratic, QuadraticPoly};
use problemreductions::models::algebraic::quadratic_congruences::QuadraticCongruences;
use problemreductions::models::algebraic::quadratic_programming::QuadraticProgramming;
use problemreductions::models::algebraic::quadratic_diophantine_equations::QuadraticDiophantineEquations;
use problemreductions::models::algebraic::qubo::QUBO;
use problemreductions::models::algebraic::simultaneous_incongruences::SimultaneousIncongruences;
use problemreductions::models::algebraic::sparse_matrix_compression::SparseMatrixCompression;
use problemreductions::types::{ConstructionError, EvaluationError, Min, Or};

fn basis_example() -> FeasibleBasisExtension {
    FeasibleBasisExtension::new(
        vec![vec![1, 0, 1, 2, -1, 0], vec![0, 1, 0, 1, 1, 2], vec![0, 0, 1, 1, 0, 1]],
        vec![7, 5, 3],
        vec![0, 1],
    )
}

#[test]
fn feasible_basis_extension_example() {
    let problem = basis_example();
    assert_eq!(problem.num_rows(), 3);
    assert_eq!(problem.num_columns(), 6);
    assert_eq!(problem.dims(), vec![2, 2, 2, 2]);
    // Columns {0, 1, 2}: x = (4, 5, 3) >= 0.
    assert_eq!(problem.evaluate(&[1, 0, 0, 0]), Or(true));
    // Columns {0, 1, 3}: x = (1, 2, 3) >= 0.
    assert_eq!(problem.evaluate(&[0, 1, 0, 0]), Or(true));
}

#[test]
fn feasible_basis_extension_rejections() {
    let problem = basis_example();
    // Columns {0, 1, 4}: the last row of A_B is zero, so A_B is singular.
    assert_eq!(problem.evaluate(&[0, 0, 1, 0]), Or(false));
    // Columns {0, 1, 5}: x = (7, -1, 3) has a negative entry.
    assert_eq!(problem.evaluate(&[0, 0, 0, 1]), Or(false));
    // Two extra columns, wrong length, a value above 1.
    assert_eq!(problem.evaluate(&[1, 1, 0, 0]), Or(false));
    assert_eq!(problem.evaluate(&[1, 0, 0]), Or(false));
    assert_eq!(problem.evaluate(&[2, 0, 0, 0]), Or(false));
}

#[test]
fn closest_vector_squared_distance() {
    let problem = ClosestVectorProblem::new(vec![vec![2, 0], vec![1, 2]], vec![3, 2]).unwrap();
    assert_eq!(problem.evaluate(&[1, 1]), Ok(Min(Some(0))));
    // 0 * (2, 0) + 1 * (1, 2) = (1, 2): distance^2 to (3, 2) is 4.
    assert_eq!(problem.evaluate(&[0, 1]), Ok(Min(Some(4))));
    assert_eq!(problem.evaluate(&[1]), Err(EvaluationError::InvalidConfiguration));
    assert_eq!(problem.evaluate(&[i64::MAX, 1]), Err(EvaluationError::IntegerOverflow));
    let rows = problem.independent_rows().unwrap();
    assert_eq!(rows.len(), 2);
    assert_ne!(rows[0], rows[1]);
}

#[test]
fn closest_vector_construction_errors() {
    assert_eq!(
        ClosestVectorProblem::new(vec![vec![1, 2], vec![2, 4]], vec![0, 0]).err(),
        Some(ConstructionError::InvalidValue)
    );
    assert_eq!(
        ClosestVectorProblem::new(vec![vec![1, 2, 3]], vec![0, 0]).err(),
        Some(ConstructionError::LengthMismatch)
    );
    assert_eq!(
        ClosestVectorProblem::new(vec![vec![1], vec![2]], vec![0]).err(),
        Some(ConstructionError::InvalidValue)
    );
    assert!(ClosestVectorProblem::new(vec![], vec![1, 2]).is_ok());
}

#[test]
fn gf2_equations() {
    // x0 x1 + 1 = 0 holds only for x0 = x1 = 1.
    let problem = AlgebraicEquationsOverGF2::new(2, vec![vec![vec![0, 1], vec![]]]).unwrap();
    assert_eq!(problem.evaluate(&[1, 1]), Or(true));
    assert_eq!(problem.evaluate(&[1, 0]), Or(false));
    assert!(AlgebraicEquationsOverGF2::new(2, vec![vec![vec![1, 0]]]).is_err());
    assert!(AlgebraicEquationsOverGF2::new(2, vec![vec![vec![2]]]).is_err());
}

#[test]
fn multivariate_quadratic_over_gf2() {
    // x0 x1 + x0 + 0 = 0 holds unless x0 = 1 and x1 = 0.
    let poly = QuadraticPoly { quadratic_terms: vec![(0, 1)], linear_terms: vec![0], constant: false };
    assert!(poly.evaluate(&[1, 1]));
    assert!(!poly.evaluate(&[1, 0]));
    let problem = MultivariateQuadratic::new(2, vec![poly]);
    assert!(problem.evaluate(&[0, 1]));
    assert!(!problem.evaluate(&[1, 0]));
}

#[test]
fn integer_variables_and_constraints() {
    assert!(IntegerVariable::binary().contains(1));
    assert!(!IntegerVariable::binary().contains(2));
    assert!(IntegerVariable::nonnegative().contains(1000));
    assert!(!IntegerVariable::nonnegative().contains(-1));
    assert!(IntegerVariable::free().contains(i64::MIN));
    assert!(IntegerVariable::new(Some(3), Some(1)).is_err());
    let c = LinearConstraint::le(vec![(0, 2), (1, 3)], 10);
    assert_eq!(c.evaluate_lhs(&[2, 2]), Ok(10));
    assert_eq!(c.is_satisfied(&[2, 2]), Ok(true));
    assert_eq!(c.is_satisfied(&[2, 3]), Ok(false));
    assert_eq!(c.evaluate_lhs(&[i64::MAX, 0]), Err(EvaluationError::IntegerOverflow));
    assert_eq!(c.variables(), vec![0, 1]);
}

#[test]
fn integer_expression_membership() {
    let problem = IntegerExpressionMembership::new(vec![vec![1, 2], vec![3, 4]], 6);
    assert_eq!(problem.evaluate(&[1, 1]), Or(true));
    assert_eq!(problem.evaluate(&[0, 0]), Or(false));
    assert_eq!(problem.dims(), vec![2, 2]);
}

#[test]
fn matrix_domination() {
    let problem = MinimumMatrixDomination::new(vec![vec![true, true], vec![false, true]]);
    assert_eq!(problem.ones(), &[(0, 0), (0, 1), (1, 1)]);
    assert_eq!(problem.evaluate(&vec![false, true, false]), Ok(Min(Some(1))));
    assert_eq!(problem.evaluate(&vec![false, false, false]), Ok(Min(None)));
}

#[test]
fn weight_bounded_linear_solution() {
    let problem = MinimumWeightSolutionToLinearEquations::new(vec![vec![1, 1, 0], vec![0, 1, 1]], vec![1, 1], 1);
    assert_eq!(problem.evaluate(&[0, 1, 0]), Or(true));
    assert_eq!(problem.evaluate(&[1, 0, 1]), Or(false));
}

#[test]
fn quadratic_congruences() {
    let problem = QuadraticCongruences::new(1, 3, 3);
    assert_eq!(problem.evaluate(&[0]), Or(true));
    assert_eq!(problem.evaluate(&[1]), Or(true));
    assert_eq!(QuadraticCongruences::new(2, 3, 10).evaluate(&[0]), Or(false));
    assert!(QuadraticCongruences::try_new(3, 3, 1).is_err());
}

#[test]
fn quadratic_congruences_search_space_bound() {
    let p = QuadraticCongruences::new(4, 15, 10);
    let q = QuadraticCongruences::new(4, 15, 2);
    assert_eq!(p.evaluate(&[1]), Or(true));
    assert_eq!(p.evaluate(&[0]), Or(false));
    assert_eq!(q.evaluate(&[1]), Or(false));
    assert_eq!(p.evaluate(&[8]), Or(false));
    assert_eq!(p.evaluate(&[9]), Or(false));
    assert_eq!(p.evaluate(&[usize::MAX]), Or(false));
}

#[test]
fn quadratic_diophantine() {
    let problem = QuadraticDiophantineEquations::new(1, 1, 5);
    assert_eq!(problem.check_x(1), Some(4));
    assert_eq!(problem.check_x(3), None);
    assert_eq!(QuadraticDiophantineEquations::isqrt(17), 4);
    assert_eq!(problem.max_x(), 2);
    assert_eq!(problem.evaluate(&[0]), Or(true));
    assert!(QuadraticDiophantineEquations::try_new(0, 1, 1).is_err());
}

#[test]
fn simultaneous_incongruences() {
    let problem = SimultaneousIncongruences::new(vec![(1, 2)]).unwrap();
    assert_eq!(problem.evaluate(&0), Ok(Or(true)));
    assert_eq!(problem.evaluate(&1), Ok(Or(false)));
    assert_eq!(problem.lcm_moduli(), 2);
    assert!(SimultaneousIncongruences::new(vec![(3, 2)]).is_err());
}

#[test]
fn sparse_matrix_compression() {
    let problem = SparseMatrixCompression::new(vec![vec![true, false], vec![true, false]], 2);
    assert_eq!(problem.storage_vector(&[0, 1]), Some(vec![1, 2, 0, 0]));
    assert_eq!(problem.evaluate(&vec![0, 1]), Ok(Or(true)));
    assert_eq!(problem.evaluate(&vec![0, 0]), Ok(Or(false)));
}

#[test]
fn equilibrium_of_one_player() {
    // One player whose payoff is its own strategy value.
    let problem = EquilibriumPoint::new(vec![vec![vec![0, 1]]], vec![vec![0, 1]]).unwrap();
    assert_eq!(problem.evaluate(&[1]), Or(true));
    assert_eq!(problem.evaluate(&[0]), Or(false));
}

#[test]
fn qubo_from_sparse_entries() {
    let problem = QUBO::from_entries(2, vec![(0, 0, -1), (0, 1, 3)]).unwrap();
    assert_eq!(problem.get(0, 1), Some(&3));
    assert_eq!(problem.get(1, 0), Some(&0));
    assert_eq!(problem.evaluate(&vec![true, false]), Ok(Min(Some(-1))));
    assert_eq!(problem.evaluate(&vec![true, true]), Ok(Min(Some(2))));
    assert_eq!(QUBO::from_entries(2, vec![(0, 2, 1)]).err(), Some(ConstructionError::OutOfRange));
    assert_eq!(
        QUBO::from_entries(2, vec![(0, 1, 1), (0, 1, 2)]).err(),
        Some(ConstructionError::InvalidValue)
    );
}

#[test]
fn constraint_normalization() {
    let c = LinearConstraint::le(vec![(2, 1), (0, 3), (2, -1), (1, 0), (0, 2)], 7);
    let n = normalize_constraint(c, 3, 0).unwrap();
    assert_eq!(n.terms(), &[(0, 5)]);
    assert_eq!(n.comparison(), Comparison::Le);
    assert_eq!(n.rhs(), 7);
    let sorted = normalize_constraint(LinearConstraint::ge(vec![(2, 4), (1, -1)], 0), 3, 1).unwrap();
    assert_eq!(sorted.terms(), &[(1, -1), (2, 4)]);
    assert_eq!(
        normalize_constraint(LinearConstraint::eq(vec![(3, 1)], 0), 3, 2).err(),
        Some(ConstructionError::OutOfRange)
    );
    assert_eq!(
        normalize_constraint(LinearConstraint::eq(vec![(0, i64::MAX), (0, 1)], 0), 3, 3).err(),
        Some(ConstructionError::IntegerOverflow)
    );
}

#[test]
fn normalized_constraint_is_satisfied_alike() {
    let c = LinearConstraint::le(vec![(2, 1), (0, 3), (2, -1), (1, 0), (0, 2)], 7);
    let n = normalize_constraint(c.clone(), 3, 0).unwrap();
    for values in [[0i64, 0, 0], [1, 5, -9], [2, 0, 4], [-3, 7, 100], [1, 1, 1]] {
        assert_eq!(n.is_satisfied(&values), c.is_satisfied(&values));
        assert_eq!(n.evaluate_lhs(&values), c.evaluate_lhs(&values));
    }
    let g = LinearConstraint::ge(vec![(1, 2), (0, 1), (1, 3)], 4);
    let m = normalize_constraint(g.clone(), 2, 0).unwrap();
    for values in [[0i64, 0], [4, 0], [0, 1], [-1, 1], [3, -1]] {
        assert_eq!(m.is_satisfied(&values), g.is_satisfied(&values));
    }
}

#[test]
fn test_normalize_constraints_reports_first_failure() {
    let ok = normalize_constraints(
        vec![LinearConstraint::le(vec![(1, 2), (0, 1), (1, 3)], 4), LinearConstraint::eq(vec![(0, 1), (0, -1)], 0)],
        2,
    )
    .unwrap();
    assert_eq!(ok.len(), 2);
    assert_eq!(ok[0].terms(), &[(0, 1), (1, 5)]);
    assert!(ok[1].terms().is_empty());
    let err = normalize_constraints(
        vec![
            LinearConstraint::le(vec![(0, 1)], 1),
            LinearConstraint::le(vec![(0, i64::MAX), (0, 1)], 1),
            LinearConstraint::le(vec![(7, 1)], 1),
        ],
        2,
    );
    assert_eq!(err.err(), Some(ConstructionError::IntegerOverflow));
}

#[test]
fn test_ilp_feasibility_checks_bounds_then_constraints() {
    let vars = vec![IntegerVariable::binary(), IntegerVariable::nonnegative()];
    let cons = vec![LinearConstraint::le(vec![(0, 1), (1, 1)], 3), LinearConstraint::ge(vec![(1, 1)], 1)];
    assert_eq!(is_feasible(&vars, &cons, &[1, 2]), Ok(true));
    assert_eq!(is_feasible(&vars, &cons, &[1, 3]), Ok(false));
    assert_eq!(is_feasible(&vars, &cons, &[0, 0]), Ok(false));
    assert_eq!(is_feasible(&vars, &cons, &[2, 1]), Ok(false));
    assert_eq!(is_feasible(&vars, &cons, &[1]), Err(EvaluationError::InvalidConfiguration));
    let bad = vec![LinearConstraint::le(vec![(5, 1)], 0)];
    assert_eq!(is_feasible(&vars, &bad, &[0, 0]), Err(EvaluationError::InvalidConfiguration));
    let overflow = vec![LinearConstraint::le(vec![(1, i64::MAX)], 0)];
    assert_eq!(is_feasible(&vars, &overflow, &[0, 2]), Err(EvaluationError::IntegerOverflow));
    assert_eq!(num_nonzeros(&cons), 3);
}

fn partition_program() -> QuadraticProgramming {
    QuadraticProgramming::new(
        3,
        1,
        vec![
            LinearConstraint::le(vec![(0, -1)], 0),
            LinearConstraint::le(vec![(1, -1)], 0),
            LinearConstraint::le(vec![(2, -1)], 0),
            LinearConstraint::le(vec![(0, 1), (1, 1), (2, 2)], 2),
            LinearConstraint::le(vec![(0, -1), (1, -1), (2, -2)], -2),
        ],
    )
}

#[test]
fn quadratic_programming_decodes_and_checks() {
    let qp = partition_program();
    assert_eq!(qp.num_vars(), 3);
    assert_eq!(qp.bound(), 1);
    assert_eq!(qp.num_constraints(), 5);
    assert_eq!(qp.dims(), vec![3, 3, 3]);
    assert_eq!(qp.config_to_values(&[2, 2, 1]), vec![1, 1, 0]);
    assert_eq!(qp.config_to_values(&[0, 1, 2]), vec![-1, 0, 1]);
    assert_eq!(qp.constraints_satisfied(&[1, 1, 0]), Ok(true));
    assert_eq!(qp.constraints_satisfied(&[0, 0, 1]), Ok(true));
    assert_eq!(qp.constraints_satisfied(&[-1, 1, 1]), Ok(false));
    assert_eq!(qp.constraints_satisfied(&[1, 1]), Err(EvaluationError::InvalidConfiguration));
    assert_eq!(qp.feasible_values(&[2, 2, 1]), Ok(Some(vec![1, 1, 0])));
    assert_eq!(qp.feasible_values(&[0, 0, 0]), Ok(None));
    assert_eq!(qp.feasible_values(&[2, 2]), Ok(None));
    let wide = QuadraticProgramming::new(1, 2, vec![LinearConstraint::le(vec![(0, i64::MAX), (0, i64::MAX)], 0)]);
    assert_eq!(wide.feasible_values(&[4]), Err(EvaluationError::IntegerOverflow));
    assert_eq!(wide.feasible_values(&[2]), Ok(Some(vec![0])));
}
