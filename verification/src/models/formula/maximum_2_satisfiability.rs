//! Maximum 2-Satisfiability.
use vstd::prelude::*;
use crate::types::{Max, ConstructionError, EvaluationError};
use crate::models::formula::sat::{CNFClause, valid_cnf, validate_cnf_literals, count_true_clauses, count_clauses_true};
use crate::models::formula::ksat::{clauses_exactly, check_clause_lengths};

verus! {

/// Given a CNF formula with two literals per clause, find an assignment
/// making as many clauses true as possible.
#[derive(Debug, Clone)]
pub struct Maximum2Satisfiability {
    num_vars: usize,
    clauses: Vec<CNFClause>,
}

impl Maximum2Satisfiability {
    /// Number of variables.
    pub closed spec fn spec_num_vars(&self) -> nat {
        self.num_vars as nat
    }

    /// The clauses.
    pub closed spec fn spec_clauses(&self) -> Seq<CNFClause> {
        self.clauses@
    }

    /// Valid literals, two per clause.
    pub open spec fn wf(&self) -> bool {
        valid_cnf(self.spec_num_vars(), self.spec_clauses()) && clauses_exactly(self.spec_clauses(), 2)
    }

    /// Creates an instance; panics on an invalid literal or a clause without two literals.
    pub fn new(num_vars: usize, clauses: Vec<CNFClause>) -> (r: Self)
        requires
            valid_cnf(num_vars as nat, clauses@),
            clauses_exactly(clauses@, 2),
        ensures
            r.wf(),
            r.spec_num_vars() == num_vars,
            r.spec_clauses() == clauses@,
    {
        Maximum2Satisfiability { num_vars, clauses }
    }

    /// Creates an instance, or an error on an invalid literal or a clause
    /// without two literals.
    pub fn try_new(num_vars: usize, clauses: Vec<CNFClause>) -> (r: Result<Self, ConstructionError>)
        ensures
            r is Ok <==> valid_cnf(num_vars as nat, clauses@) && clauses_exactly(clauses@, 2),
            r matches Ok(p) ==> p.wf() && p.spec_num_vars() == num_vars && p.spec_clauses() == clauses@,
    {
        if validate_cnf_literals(num_vars, clauses.as_slice()).is_err() {
            return Err(ConstructionError::InvalidValue);
        }
        if !check_clause_lengths(clauses.as_slice(), 2, true) {
            return Err(ConstructionError::LengthMismatch);
        }
        Ok(Maximum2Satisfiability { num_vars, clauses })
    }

    /// Number of variables.
    pub fn num_vars(&self) -> (r: usize)
        ensures
            r == self.spec_num_vars(),
    {
        self.num_vars
    }

    /// Number of clauses.
    pub fn num_clauses(&self) -> (r: usize)
        ensures
            r == self.spec_clauses().len(),
    {
        self.clauses.len()
    }

    /// The clauses.
    pub fn clauses(&self) -> (r: &[CNFClause])
        ensures
            r@ == self.spec_clauses(),
    {
        self.clauses.as_slice()
    }

    /// Number of true clauses, or an overflow error when it exceeds `i64`.
    pub fn count_satisfied(&self, assignment: &[bool]) -> (r: Result<i64, EvaluationError>)
        requires
            self.wf(),
        ensures
            ({
                let n = count_true_clauses(self.spec_clauses(), assignment@, self.spec_clauses().len() as int);
                if n <= i64::MAX { r == Ok::<i64, EvaluationError>(n as i64) } else { r == Err::<i64, EvaluationError>(EvaluationError::IntegerOverflow) }
            }),
    {
        let n = count_clauses_true(self.clauses.as_slice(), assignment);
        if n as u64 > 9223372036854775807u64 {
            return Err(EvaluationError::IntegerOverflow);
        }
        Ok(n as i64)
    }

    /// Evaluates an assignment: an error on a length mismatch, else the number
    /// of true clauses.
    pub fn evaluate(&self, config: &Vec<bool>) -> (r: Result<Max<i64>, EvaluationError>)
        requires
            self.wf(),
        ensures
            config@.len() != self.spec_num_vars() ==> r == Err::<Max<i64>, EvaluationError>(EvaluationError::InvalidConfiguration),
            config@.len() == self.spec_num_vars() ==> ({
                let n = count_true_clauses(self.spec_clauses(), config@, self.spec_clauses().len() as int);
                if n <= i64::MAX { r == Ok::<Max<i64>, EvaluationError>(Max(Some(n as i64))) } else { r == Err::<Max<i64>, EvaluationError>(EvaluationError::IntegerOverflow) }
            }),
    {
        if config.len() != self.num_vars {
            return Err(EvaluationError::InvalidConfiguration);
        }
        match self.count_satisfied(config.as_slice()) {
            Ok(n) => Ok(Max(Some(n))),
            Err(e) => Err(e),
        }
    }
}

} // verus!
