use problemreductions::models::formula::ksat::{first_n_odd_primes, is_prime, KSatisfiability};
use problemreductions::models::formula::maximum_2_satisfiability::Maximum2Satisfiability;
use problemreductions::models::formula::non_tautology::NonTautology;
use problemreductions::models::formula::one_in_three_satisfiability::OneInThreeSatisfiability;
use problemreductions::models::formula::planar_3_satisfiability::Planar3Satisfiability;
use problemreductions::models::formula::sat::{
    config_to_assignment, is_satisfying_assignment, literal_value, literal_variable, validate_cnf_literals, CNFClause,
    SatVariableAllocator, Satisfiability,
};
use problemreductions::types::{ConstructionError, EvaluationError, Max, Or};

#[test]
fn literals_and_clauses() {
    assert_eq!(literal_variable(3), 2);
    assert_eq!(literal_variable(-1), 0);
    assert!(literal_value(-2, &[true, false]));
    let clause = CNFClause::new(vec![1, -2]);
    assert!(clause.is_satisfied(&[false, false]));
    assert!(!clause.is_satisfied(&[false, true]));
    assert_eq!(clause.variables(), vec![0, 1]);
    assert_eq!(clause.len(), 2);
}

#[test]
fn satisfiability_evaluates_assignments() {
    let problem = Satisfiability::new(2, vec![CNFClause::new(vec![1, 2]), CNFClause::new(vec![-1])]);
    assert_eq!(problem.evaluate(&[0, 1]), Or(true));
    assert_eq!(problem.evaluate(&[1, 1]), Or(false));
    assert_eq!(problem.count_satisfied(&[true, true]), 1);
    assert_eq!(problem.num_literals(), 3);
    assert_eq!(config_to_assignment(&[1, 0, 1]), vec![true, false, true]);
}

#[test]
fn satisfiability_rejects_bad_literals() {
    assert!(Satisfiability::try_new(2, vec![CNFClause::new(vec![3])]).is_err());
    assert!(Satisfiability::try_new(2, vec![CNFClause::new(vec![0])]).is_err());
    assert!(validate_cnf_literals(2, &[CNFClause::new(vec![-2, 1])]).is_ok());
}

#[test]
fn plain_clause_lists() {
    let clauses = vec![vec![1, 2], vec![-1]];
    assert!(is_satisfying_assignment(2, &clauses, &[false, true]));
    assert!(!is_satisfying_assignment(2, &clauses, &[true, true]));
}

#[test]
fn variable_allocation() {
    let mut alloc = SatVariableAllocator::new("test", 3).unwrap();
    assert_eq!(alloc.allocate(), Ok(4));
    assert_eq!(alloc.allocate_many(3), Ok(vec![5, 6, 7]));
    assert_eq!(alloc.num_vars(), 7);
    let mut full = SatVariableAllocator::new("test", i32::MAX as usize).unwrap();
    assert!(full.allocate().is_err());
}

#[test]
fn k_satisfiability_clause_lengths() {
    let ok = KSatisfiability::<2>::try_new(2, vec![CNFClause::new(vec![1, 2])]);
    assert!(ok.is_ok());
    let short = KSatisfiability::<2>::try_new(2, vec![CNFClause::new(vec![1])]);
    assert_eq!(short.err(), Some(ConstructionError::LengthMismatch));
    let allowed = KSatisfiability::<2>::try_new_allow_less(2, vec![CNFClause::new(vec![1])]);
    assert!(allowed.is_ok());
    let problem = ok.unwrap();
    assert_eq!(problem.evaluate(&vec![false, true]), Ok(Or(true)));
    assert_eq!(problem.evaluate(&vec![false, false]), Ok(Or(false)));
    assert_eq!(problem.evaluate(&vec![false]), Err(EvaluationError::InvalidConfiguration));
}

#[test]
fn odd_primes() {
    assert_eq!(first_n_odd_primes(5), vec![3, 5, 7, 11, 13]);
    assert!(is_prime(97));
    assert!(!is_prime(91));
    assert!(!is_prime(1));
    assert!(is_prime(2));
}

#[test]
fn max_two_sat_counts_clauses() {
    let problem = Maximum2Satisfiability::new(
        2,
        vec![CNFClause::new(vec![1, 2]), CNFClause::new(vec![-1, 2]), CNFClause::new(vec![-2, -1])],
    );
    assert_eq!(problem.evaluate(&vec![false, true]), Ok(Max(Some(3))));
    assert_eq!(problem.evaluate(&vec![true, true]), Ok(Max(Some(2))));
}

#[test]
fn non_tautology_falsifying_assignments() {
    // x1 OR (NOT x1 AND x2): false exactly when x1 = 0 and x2 = 0.
    let problem = NonTautology::new(2, vec![vec![1], vec![-1, 2]]);
    assert_eq!(problem.evaluate(&[0, 0]), Or(true));
    assert_eq!(problem.evaluate(&[0, 1]), Or(false));
    assert_eq!(problem.evaluate(&[1, 0]), Or(false));
}

#[test]
fn one_in_three() {
    let problem = OneInThreeSatisfiability::new(3, vec![CNFClause::new(vec![1, 2, 3])]);
    assert_eq!(problem.evaluate(&[1, 0, 0]), Or(true));
    assert_eq!(problem.evaluate(&[1, 1, 0]), Or(false));
    assert_eq!(problem.evaluate(&[0, 0, 0]), Or(false));
}

#[test]
fn planar_three_sat() {
    let problem = Planar3Satisfiability::new(3, vec![CNFClause::new(vec![1, -2, 3])]);
    assert_eq!(problem.evaluate(&vec![false, true, false]), Ok(Or(false)));
    assert_eq!(problem.evaluate(&vec![false, false, false]), Ok(Or(true)));
}
