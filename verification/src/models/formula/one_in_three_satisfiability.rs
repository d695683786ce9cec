//! One-in-Three Satisfiability.
use vstd::prelude::*;
use crate::types::Or;
use crate::models::formula::sat::{CNFClause, lit_abs, lit_true, config_truth, config_to_assignment, literal_value};

verus! {

/// Number of true literals among the first `k` of a clause.
pub open spec fn true_literal_count(lits: Seq<i32>, a: Seq<bool>, k: int) -> nat
    decreases k,
{
    if k <= 0 {
        0
    } else {
        true_literal_count(lits, a, k - 1) + if lit_true(lits[k - 1], a) { 1nat } else { 0nat }
    }
}

/// Every clause has exactly one true literal.
pub open spec fn one_in_three_true(clauses: Seq<CNFClause>, a: Seq<bool>) -> bool {
    forall|c: int| 0 <= c < clauses.len() ==>
        true_literal_count(#[trigger] clauses[c].literals@, a, clauses[c].literals@.len() as int) == 1
}

/// Every clause has three literals naming variables in `1..=num_vars`.
pub open spec fn valid_three_clauses(num_vars: nat, clauses: Seq<CNFClause>) -> bool {
    forall|c: int| 0 <= c < clauses.len() ==> {
        &&& (#[trigger] clauses[c]).literals@.len() == 3
        &&& forall|i: int| 0 <= i < 3 ==> 1 <= lit_abs(#[trigger] clauses[c].literals@[i]) <= num_vars
    }
}

/// Given a CNF formula with three literals per clause, decide whether some
/// assignment makes exactly one literal of each clause true.
#[derive(Debug, Clone)]
pub struct OneInThreeSatisfiability {
    num_vars: usize,
    clauses: Vec<CNFClause>,
}

impl OneInThreeSatisfiability {
    /// Number of variables.
    pub closed spec fn spec_num_vars(&self) -> nat {
        self.num_vars as nat
    }

    /// The clauses.
    pub closed spec fn spec_clauses(&self) -> Seq<CNFClause> {
        self.clauses@
    }

    /// Three in-range literals per clause.
    pub open spec fn wf(&self) -> bool {
        valid_three_clauses(self.spec_num_vars(), self.spec_clauses())
    }

    /// Creates an instance; panics on a clause without three literals or a
    /// literal naming no variable in range.
    pub fn new(num_vars: usize, clauses: Vec<CNFClause>) -> (r: Self)
        requires
            valid_three_clauses(num_vars as nat, clauses@),
        ensures
            r.wf(),
            r.spec_num_vars() == num_vars,
            r.spec_clauses() == clauses@,
    {
        OneInThreeSatisfiability { num_vars, clauses }
    }

    /// Number of variables.
    pub fn num_vars(&self) -> (r: usize)
        ensures
            r == self.spec_num_vars(),
    {
        self.num_vars
    }

    /// Number of clauses.
    pub fn num_clauses(&self) -> (r: usize)
        ensures
            r == self.spec_clauses().len(),
    {
        self.clauses.len()
    }

    /// The clauses.
    pub fn clauses(&self) -> (r: &[CNFClause])
        ensures
            r@ == self.spec_clauses(),
    {
        self.clauses.as_slice()
    }

    /// Clause `index`, if it exists.
    pub fn get_clause(&self, index: usize) -> (r: Option<&CNFClause>)
        ensures
            index < self.spec_clauses().len() ==> r == Some(&self.spec_clauses()[index as int]),
            index >= self.spec_clauses().len() ==> r is None,
    {
        if index < self.clauses.len() {
            Some(&self.clauses[index])
        } else {
            None
        }
    }

    /// Whether every clause has exactly one true literal.
    pub fn is_one_in_three_satisfying(&self, assignment: &[bool]) -> (r: bool)
        requires
            self.wf(),
        ensures
            r == one_in_three_true(self.spec_clauses(), assignment@),
    {
        let mut c: usize = 0;
        while c < self.clauses.len()
            invariant
                self.wf(),
                c <= self.clauses@.len(),
                forall|j: int| 0 <= j < c ==>
                    true_literal_count(#[trigger] self.clauses@[j].literals@, assignment@, self.clauses@[j].literals@.len() as int) == 1,
            decreases self.clauses.len() - c,
        {
            let lits = &self.clauses[c].literals;
            assert(self.clauses@[c as int].literals@.len() == 3);
            let mut count: usize = 0;
            let mut i: usize = 0;
            while i < lits.len()
                invariant
                    self.wf(),
                    c < self.clauses@.len(),
                    lits@ == self.clauses@[c as int].literals@,
                    lits@.len() == 3,
                    i <= 3,
                    count <= i,
                    count == true_literal_count(lits@, assignment@, i as int),
                decreases lits.len() - i,
            {
                assert(1 <= lit_abs(self.clauses@[c as int].literals@[i as int]));
                if literal_value(lits[i], assignment) {
                    count += 1;
                }
                i += 1;
            }
            if count != 1 {
                return false;
            }
            c += 1;
        }
        true
    }

    /// One binary variable per formula variable.
    pub fn dims(&self) -> (r: Vec<usize>)
        ensures
            r@.len() == self.spec_num_vars(),
            forall|i: int| 0 <= i < r@.len() ==> #[trigger] r@[i] == 2,
    {
        crate::models::graph::uniform_dims(self.num_vars, 2)
    }

    /// Whether the configuration (1 = true) makes exactly one literal of every clause true.
    pub fn evaluate(&self, config: &[usize]) -> (r: Or)
        requires
            self.wf(),
        ensures
            r == Or(one_in_three_true(self.spec_clauses(), config_truth(config@))),
    {
        let assignment = config_to_assignment(config);
        Or(self.is_one_in_three_satisfying(assignment.as_slice()))
    }
}

} // verus!
