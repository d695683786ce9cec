//! Verified models of classic combinatorial decision and optimization problems:
//! instance constructors with their validation rules, and the evaluation of a
//! candidate configuration against each problem's constraints and objective.
pub mod types;
pub mod topology;
pub mod ungraph;
pub mod sums;
pub mod linalg;
pub mod big_elim;
pub mod models;
pub mod solvers;
