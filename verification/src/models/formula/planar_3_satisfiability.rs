//! Planar 3-SAT (the planarity of the incidence graph is not checked).
use vstd::prelude::*;
use crate::types::{Or, ConstructionError, EvaluationError};
use crate::models::formula::sat::{CNFClause, valid_cnf, validate_cnf_literals, cnf_true, all_clauses_true};
use crate::models::formula::ksat::{clauses_exactly, check_clause_lengths};

verus! {

/// Satisfiability of a CNF formula with exactly three literals per clause.
#[derive(Debug, Clone)]
pub struct Planar3Satisfiability {
    num_vars: usize,
    clauses: Vec<CNFClause>,
}

impl Planar3Satisfiability {
    /// Number of variables.
    pub closed spec fn spec_num_vars(&self) -> nat {
        self.num_vars as nat
    }

    /// The clauses.
    pub closed spec fn spec_clauses(&self) -> Seq<CNFClause> {
        self.clauses@
    }

    /// Valid literals, three per clause.
    pub open spec fn wf(&self) -> bool {
        valid_cnf(self.spec_num_vars(), self.spec_clauses()) && clauses_exactly(self.spec_clauses(), 3)
    }

    /// Creates an instance; panics on an invalid literal or a clause without three literals.
    pub fn new(num_vars: usize, clauses: Vec<CNFClause>) -> (r: Self)
        requires
            valid_cnf(num_vars as nat, clauses@),
            clauses_exactly(clauses@, 3),
        ensures
            r.wf(),
            r.spec_num_vars() == num_vars,
            r.spec_clauses() == clauses@,
    {
        Planar3Satisfiability { num_vars, clauses }
    }

    /// Creates an instance, or an error on an invalid literal or a clause
    /// without three literals.
    pub fn try_new(num_vars: usize, clauses: Vec<CNFClause>) -> (r: Result<Self, ConstructionError>)
        ensures
            r is Ok <==> valid_cnf(num_vars as nat, clauses@) && clauses_exactly(clauses@, 3),
            r matches Ok(p) ==> p.wf() && p.spec_num_vars() == num_vars && p.spec_clauses() == clauses@,
    {
        if validate_cnf_literals(num_vars, clauses.as_slice()).is_err() {
            return Err(ConstructionError::InvalidValue);
        }
        if !check_clause_lengths(clauses.as_slice(), 3, true) {
            return Err(ConstructionError::LengthMismatch);
        }
        Ok(Planar3Satisfiability { num_vars, clauses })
    }

    /// Number of variables.
    pub fn num_vars(&self) -> (r: usize)
        ensures
            r == self.spec_num_vars(),
    {
        self.num_vars
    }

    /// Number of clauses.
    pub fn num_clauses(&self) -> (r: usize)
        ensures
            r == self.spec_clauses().len(),
    {
        self.clauses.len()
    }

    /// The clauses.
    pub fn clauses(&self) -> (r: &[CNFClause])
        ensures
            r@ == self.spec_clauses(),
    {
        self.clauses.as_slice()
    }

    /// Clause `index`, if it exists.
    pub fn get_clause(&self, index: usize) -> (r: Option<&CNFClause>)
        ensures
            index < self.spec_clauses().len() ==> r == Some(&self.spec_clauses()[index as int]),
            index >= self.spec_clauses().len() ==> r is None,
    {
        if index < self.clauses.len() {
            Some(&self.clauses[index])
        } else {
            None
        }
    }

    /// Whether the assignment makes every clause true.
    pub fn is_satisfying(&self, assignment: &[bool]) -> (r: bool)
        requires
            self.wf(),
        ensures
            r == cnf_true(self.spec_clauses(), assignment@),
    {
        all_clauses_true(self.clauses.as_slice(), assignment)
    }

    /// Evaluates an assignment: an error on a length mismatch, else whether it
    /// satisfies the formula.
    pub fn evaluate(&self, config: &Vec<bool>) -> (r: Result<Or, EvaluationError>)
        requires
            self.wf(),
        ensures
            config@.len() != self.spec_num_vars() ==> r == Err::<Or, EvaluationError>(EvaluationError::InvalidConfiguration),
            config@.len() == self.spec_num_vars() ==> r == Ok::<Or, EvaluationError>(Or(cnf_true(self.spec_clauses(), config@))),
    {
        if config.len() != self.num_vars {
            return Err(EvaluationError::InvalidConfiguration);
        }
        Ok(Or(self.is_satisfying(config.as_slice())))
    }
}

} // verus!
