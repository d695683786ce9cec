//! Problems on Boolean formulas.
pub mod sat;
pub mod ksat;
pub mod non_tautology;
pub mod one_in_three_satisfiability;
pub mod planar_3_satisfiability;
pub mod maximum_2_satisfiability;
