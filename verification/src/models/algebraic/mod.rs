//! Problems over integers, finite fields and matrices.
pub mod algebraic_equations_over_gf2;
pub mod multivariate_quadratic;
pub mod consecutive_ones_matrix_augmentation;
pub mod equilibrium_point;
pub mod ilp;
pub mod integer_expression_membership;
pub mod minimum_matrix_domination;
pub mod qubo;
pub mod minimum_weight_solution_to_linear_equations;
pub mod quadratic_congruences;
pub mod quadratic_diophantine_equations;
pub mod simultaneous_incongruences;
pub mod sparse_matrix_compression;
pub mod feasible_basis_extension;
pub mod closest_vector_problem;
pub mod quadratic_programming;
