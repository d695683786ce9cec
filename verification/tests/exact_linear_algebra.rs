use problemreductions::big_elim::independent_rows;
use problemreductions::linalg::{back_substitute, nonsingular_nonneg_solution, reduce, Reduction};
use problemreductions::models::decision::{Decision, DecisionCreateSpec};
use problemreductions::types::{EvaluationError, Max, Min, Or};

#[test]
fn nonsingular_system_with_nonnegative_solution() {
    // [[2, 1], [1, 1]] x = [3, 2] has x = (1, 1).
    let a = vec![vec![2i128, 1], vec![1, 1]];
    assert_eq!(nonsingular_nonneg_solution(&a, &vec![3, 2]), Some(true));
    // [[2, 1], [1, 1]] x = [1, 2] has x = (-1, 3).
    assert_eq!(nonsingular_nonneg_solution(&a, &vec![1, 2]), Some(false));
}

#[test]
fn singular_system_is_rejected() {
    let a = vec![vec![1i128, 2], vec![2, 4]];
    assert_eq!(nonsingular_nonneg_solution(&a, &vec![1, 2]), Some(false));
    assert_eq!(nonsingular_nonneg_solution(&vec![], &vec![]), Some(true));
}

#[test]
fn solution_that_needs_a_row_exchange() {
    // The first column's top entry is 0, so the elimination exchanges rows.
    let a = vec![vec![0i128, 1], vec![1, 0]];
    assert_eq!(nonsingular_nonneg_solution(&a, &vec![5, 7]), Some(true));
}

#[test]
fn reduction_and_back_substitution() {
    let mut u = vec![vec![2i128, 1, 3], vec![1, 1, 2]];
    assert_eq!(reduce(&mut u, 2), Reduction::Triangular);
    assert_eq!(u[1][0], 0);
    let rhs = vec![u[0][2], u[1][2]];
    let (x, d) = back_substitute(&u, 2, &rhs).unwrap();
    // The solution is (1, 1): both numerators equal the denominator.
    assert!(d > 0);
    assert_eq!(x, vec![d, d]);
    let mut s = vec![vec![1i128, 2, 0], vec![2, 4, 0]];
    assert_eq!(reduce(&mut s, 2), Reduction::NoPivot(1));
}

#[test]
fn column_independence() {
    assert!(independent_rows(&vec![vec![2, 0], vec![1, 2]], 2).is_some());
    assert_eq!(independent_rows(&vec![vec![1, 2], vec![2, 4]], 2), None);
    assert_eq!(independent_rows(&vec![vec![1], vec![2]], 1), None);
    let rows = independent_rows(&vec![vec![0, 0, 5]], 3).unwrap();
    assert_eq!(rows, vec![2]);
}

#[test]
fn independent_rows_pick_a_nonsingular_minor() {
    assert_eq!(independent_rows(&vec![vec![0, 1]], 2), Some(vec![1]));
    assert_eq!(independent_rows(&vec![vec![1, 2, 3], vec![2, 4, 7]], 3), Some(vec![0, 2]));
    assert_eq!(independent_rows(&vec![], 3), Some(vec![]));
}

#[test]
fn decision_versions() {
    let d = Decision::new("instance", 5);
    assert_eq!(*d.bound(), 5);
    assert_eq!(*d.inner(), "instance");
    assert_eq!(d.evaluate_max(Ok(Max(Some(7)))), Ok(Or(true)));
    assert_eq!(d.evaluate_max(Ok(Max(Some(4)))), Ok(Or(false)));
    assert_eq!(d.evaluate_max(Ok(Max(None))), Ok(Or(false)));
    assert_eq!(d.evaluate_min(Ok(Min(Some(5)))), Ok(Or(true)));
    assert_eq!(d.evaluate_min(Ok(Min(Some(6)))), Ok(Or(false)));
    assert_eq!(d.evaluate_min(Err(EvaluationError::IntegerOverflow)), Err(EvaluationError::IntegerOverflow));
    let reduced = d.reduce_to_aggregate();
    assert_eq!(reduced.extract_value_min(Min(Some(3))), Or(true));
    let spec = DecisionCreateSpec { inner: 1u8, bound: 2 };
    assert_eq!(*spec.into_decision().bound(), 2);
}

#[test]
fn large_systems_fall_back_to_exact_integers() {
    let m: i128 = 1 << 100;
    let a = vec![vec![m, 1], vec![1, m]];
    // x = (1, 1).
    assert_eq!(nonsingular_nonneg_solution(&a, &vec![m + 1, m + 1]), Some(true));
    // x = ((m + 1) / (m - 1), -(m + 1) / (m - 1)).
    assert_eq!(nonsingular_nonneg_solution(&a, &vec![m + 1, -(m + 1)]), Some(false));
    // Singular: the second row is twice the first.
    let s = vec![vec![m, 2], vec![2 * m, 4]];
    assert_eq!(nonsingular_nonneg_solution(&s, &vec![1, 2]), Some(false));
}

#[test]
fn elimination_and_substitution_report_i128_overflow() {
    let m: i128 = 1 << 100;
    let mut u = vec![vec![m, 1, m + 1], vec![1, m, m + 1]];
    assert_eq!(reduce(&mut u, 2), Reduction::Overflow);
    let t = vec![vec![m, m], vec![0, m]];
    assert!(back_substitute(&t, 2, &vec![m, m]).is_none());
    let small = vec![vec![2i128, 1], vec![0, -1]];
    let (x, d) = back_substitute(&small, 2, &vec![3, 1]).unwrap();
    assert_eq!((x, d), (vec![4, -2], 2));
}
