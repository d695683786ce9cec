//! Boolean satisfiability in conjunctive normal form.
use vstd::prelude::*;
use crate::types::{Or, ConstructionError};

verus! {

/// Magnitude of a literal.
pub open spec fn lit_abs(lit: i32) -> int {
    if lit < 0 { -(lit as int) } else { lit as int }
}

/// The 0-based variable a literal names.
pub open spec fn lit_var(lit: i32) -> int {
    lit_abs(lit) - 1
}

/// Truth of a literal under an assignment; variables beyond the end are false.
pub open spec fn lit_true(lit: i32, a: Seq<bool>) -> bool {
    let v = lit_var(lit);
    let value = 0 <= v < a.len() && a[v];
    if lit > 0 { value } else { !value }
}

/// Some literal of the clause is true.
pub open spec fn clause_true(lits: Seq<i32>, a: Seq<bool>) -> bool {
    exists|i: int| 0 <= i < lits.len() && #[trigger] lit_true(lits[i], a)
}

/// Scanning the clause from the left for a true literal meets the invalid literal 0 first.
pub open spec fn clause_scan_hits_zero(lits: Seq<i32>, a: Seq<bool>) -> bool {
    exists|i: int| 0 <= i < lits.len() && #[trigger] lits[i] == 0 && forall|j: int| 0 <= j < i ==> !#[trigger] lit_true(lits[j], a)
}

/// Configuration entries equal to 1 as true values.
pub open spec fn config_truth(config: Seq<usize>) -> Seq<bool> {
    config.map_values(|v: usize| v == 1)
}

/// The literal lists as sequences.
pub open spec fn lists_view(c: Seq<Vec<i32>>) -> Seq<Seq<i32>> {
    c.map_values(|x: Vec<i32>| x@)
}

/// Every clause (a list of literals) has a true literal.
pub fn is_satisfying_assignment(_num_vars: usize, clauses: &[Vec<i32>], assignment: &[bool]) -> (r: bool)
    requires
        forall|i: int| 0 <= i < clauses@.len() && (forall|j: int| 0 <= j < i ==> clause_true(#[trigger] lists_view(clauses@)[j], assignment@))
            ==> !clause_scan_hits_zero(#[trigger] lists_view(clauses@)[i], assignment@),
    ensures
        r == forall|i: int| 0 <= i < clauses@.len() ==> clause_true(#[trigger] lists_view(clauses@)[i], assignment@),
{
    let ghost cv = lists_view(clauses@);
    let mut c: usize = 0;
    while c < clauses.len()
        invariant
            cv == lists_view(clauses@),
            c <= clauses@.len(),
            forall|i: int| 0 <= i < clauses@.len() && (forall|j: int| 0 <= j < i ==> clause_true(#[trigger] cv[j], assignment@))
                ==> !clause_scan_hits_zero(#[trigger] cv[i], assignment@),
            forall|j: int| 0 <= j < c ==> clause_true(#[trigger] cv[j], assignment@),
        decreases clauses.len() - c,
    {
        let lits = &clauses[c];
        assert(lits@ == cv[c as int]);
        assert(!clause_scan_hits_zero(cv[c as int], assignment@));
        let mut found = false;
        let mut i: usize = 0;
        while i < lits.len() && !found
            invariant
                lits@ == cv[c as int],
                !clause_scan_hits_zero(lits@, assignment@),
                i <= lits@.len(),
                found ==> clause_true(lits@, assignment@),
                !found ==> forall|j: int| 0 <= j < i ==> !#[trigger] lit_true(lits@[j], assignment@),
            decreases lits.len() - i,
        {
            let lit = lits[i];
            proof {
                if lit == 0 {
                    assert(clause_scan_hits_zero(lits@, assignment@));
                }
            }
            if literal_value(lit, assignment) {
                found = true;
            }
            i += 1;
        }
        if !found {
            return false;
        }
        c += 1;
    }
    true
}

/// The 0-based variable of a nonzero literal.
pub fn literal_variable(lit: i32) -> (r: usize)
    requires
        lit != 0,
    ensures
        r as int == lit_var(lit),
{
    let m: u64 = if lit < 0 { (0i64 - lit as i64) as u64 } else { lit as u64 };
    (m - 1) as usize
}

/// Truth of a nonzero literal under an assignment (missing variables are false).
pub fn literal_value(lit: i32, assignment: &[bool]) -> (r: bool)
    requires
        lit != 0,
    ensures
        r == lit_true(lit, assignment@),
{
    let var = literal_variable(lit);
    let value = var < assignment.len() && assignment[var];
    if lit > 0 { value } else { !value }
}

/// A disjunction of literals; literal `+v` / `-v` is variable `v - 1`
/// (numbered from 1) or its negation.
#[derive(Debug, Clone, PartialEq, Eq, Hash)]
pub struct CNFClause {
    /// The literals.
    pub literals: Vec<i32>,
}

/// Every clause length and literal are valid for `num_vars` variables:
/// `num_vars` fits the literal type, and each literal is nonzero, not
/// `i32::MIN`, and names a variable in `1..=num_vars`.
pub open spec fn valid_cnf(num_vars: nat, clauses: Seq<CNFClause>) -> bool {
    &&& num_vars <= i32::MAX
    &&& forall|c: int, i: int| 0 <= c < clauses.len() && 0 <= i < clauses[c].literals@.len() ==> {
        let lit = #[trigger] clauses[c].literals@[i];
        &&& lit != 0
        &&& lit != i32::MIN
        &&& lit_abs(lit) <= num_vars
    }
}

/// Every clause is true.
pub open spec fn cnf_true(clauses: Seq<CNFClause>, a: Seq<bool>) -> bool {
    forall|c: int| 0 <= c < clauses.len() ==> clause_true(#[trigger] clauses[c].literals@, a)
}

/// Number of true clauses among the first `k`.
pub open spec fn count_true_clauses(clauses: Seq<CNFClause>, a: Seq<bool>, k: int) -> nat
    decreases k,
{
    if k <= 0 {
        0
    } else {
        count_true_clauses(clauses, a, k - 1) + if clause_true(clauses[k - 1].literals@, a) { 1nat } else { 0nat }
    }
}

/// Total number of literals in the first `k` clauses.
pub open spec fn literal_total(clauses: Seq<CNFClause>, k: int) -> nat
    decreases k,
{
    if k <= 0 {
        0
    } else {
        literal_total(clauses, k - 1) + clauses[k - 1].literals@.len()
    }
}

/// Clauses whose literals are all nonzero.
pub open spec fn no_zero_literal(clauses: Seq<CNFClause>) -> bool {
    forall|c: int, i: int| 0 <= c < clauses.len() && 0 <= i < clauses[c].literals@.len() ==> #[trigger] clauses[c].literals@[i] != 0
}

impl CNFClause {
    /// Builds a clause.
    pub fn new(literals: Vec<i32>) -> (r: Self)
        ensures
            r.literals@ == literals@,
    {
        CNFClause { literals }
    }

    /// Whether some literal is true under the assignment. Panics on the literal
    /// 0 if the scan reaches it before a true literal.
    pub fn is_satisfied(&self, assignment: &[bool]) -> (r: bool)
        requires
            !clause_scan_hits_zero(self.literals@, assignment@),
        ensures
            r == clause_true(self.literals@, assignment@),
    {
        let mut i: usize = 0;
        while i < self.literals.len()
            invariant
                i <= self.literals@.len(),
                !clause_scan_hits_zero(self.literals@, assignment@),
                forall|j: int| 0 <= j < i ==> !#[trigger] lit_true(self.literals@[j], assignment@),
            decreases self.literals.len() - i,
        {
            let lit = self.literals[i];
            proof {
                if lit == 0 {
                    assert(clause_scan_hits_zero(self.literals@, assignment@));
                }
            }
            if literal_value(lit, assignment) {
                return true;
            }
            i += 1;
        }
        false
    }

    /// The 0-based variable of each literal. Panics on the literal 0.
    pub fn variables(&self) -> (r: Vec<usize>)
        requires
            forall|i: int| 0 <= i < self.literals@.len() ==> #[trigger] self.literals@[i] != 0,
        ensures
            r@.len() == self.literals@.len(),
            forall|i: int| 0 <= i < r@.len() ==> #[trigger] r@[i] as int == lit_var(self.literals@[i]),
    {
        let mut r: Vec<usize> = Vec::new();
        let mut i: usize = 0;
        while i < self.literals.len()
            invariant
                i <= self.literals@.len(),
                forall|k: int| 0 <= k < self.literals@.len() ==> #[trigger] self.literals@[k] != 0,
                r@.len() == i,
                forall|k: int| 0 <= k < i ==> #[trigger] r@[k] as int == lit_var(self.literals@[k]),
            decreases self.literals.len() - i,
        {
            r.push(literal_variable(self.literals[i]));
            i += 1;
        }
        r
    }

    /// Number of literals.
    pub fn len(&self) -> (r: usize)
        ensures
            r == self.literals@.len(),
    {
        self.literals.len()
    }

    /// Whether the clause has no literal.
    pub fn is_empty(&self) -> (r: bool)
        ensures
            r == (self.literals@.len() == 0),
    {
        self.literals.len() == 0
    }
}

/// Checks the literals of a CNF formula over `num_vars` variables.
pub fn validate_cnf_literals(num_vars: usize, clauses: &[CNFClause]) -> (r: Result<(), ConstructionError>)
    ensures
        r is Ok <==> valid_cnf(num_vars as nat, clauses@),
{
    if num_vars > 2147483647usize {
        return Err(ConstructionError::OutOfRange);
    }
    let mut c: usize = 0;
    while c < clauses.len()
        invariant
            num_vars <= i32::MAX,
            c <= clauses@.len(),
            forall|c2: int, i: int| 0 <= c2 < c && 0 <= i < clauses@[c2].literals@.len() ==> {
                let lit = #[trigger] clauses@[c2].literals@[i];
                &&& lit != 0
                &&& lit != i32::MIN
                &&& lit_abs(lit) <= num_vars
            },
        decreases clauses.len() - c,
    {
        let lits = &clauses[c].literals;
        let mut i: usize = 0;
        while i < lits.len()
            invariant
                num_vars <= i32::MAX,
                c < clauses@.len(),
                lits@ == clauses@[c as int].literals@,
                i <= lits@.len(),
                forall|c2: int, i2: int| 0 <= c2 < c && 0 <= i2 < clauses@[c2].literals@.len() ==> {
                    let lit = #[trigger] clauses@[c2].literals@[i2];
                    &&& lit != 0
                    &&& lit != i32::MIN
                    &&& lit_abs(lit) <= num_vars
                },
                forall|i2: int| 0 <= i2 < i ==> {
                    let lit = #[trigger] lits@[i2];
                    &&& lit != 0
                    &&& lit != i32::MIN
                    &&& lit_abs(lit) <= num_vars
                },
            decreases lits.len() - i,
        {
            let lit = lits[i];
            if lit == 0 || lit == i32::MIN {
                assert(clauses@[c as int].literals@[i as int] == lit);
                return Err(ConstructionError::InvalidValue);
            }
            let m: u64 = if lit < 0 { (0i64 - lit as i64) as u64 } else { lit as u64 };
            if m > num_vars as u64 {
                assert(clauses@[c as int].literals@[i as int] == lit);
                return Err(ConstructionError::OutOfRange);
            }
            i += 1;
        }
        assert forall|c2: int, i2: int| 0 <= c2 < c + 1 && 0 <= i2 < clauses@[c2].literals@.len() implies {
            let lit = #[trigger] clauses@[c2].literals@[i2];
            &&& lit != 0
            &&& lit != i32::MIN
            &&& lit_abs(lit) <= num_vars
        } by {
            if c2 == c {
                assert(lits@[i2] == clauses@[c2].literals@[i2]);
            }
        }
        c += 1;
    }
    Ok(())
}

/// Whether every clause is true (the clauses hold no literal 0).
pub fn all_clauses_true(clauses: &[CNFClause], assignment: &[bool]) -> (r: bool)
    requires
        no_zero_literal(clauses@),
    ensures
        r == cnf_true(clauses@, assignment@),
{
    let mut c: usize = 0;
    while c < clauses.len()
        invariant
            c <= clauses@.len(),
            no_zero_literal(clauses@),
            forall|k: int| 0 <= k < c ==> clause_true(#[trigger] clauses@[k].literals@, assignment@),
        decreases clauses.len() - c,
    {
        proof {
            if clause_scan_hits_zero(clauses@[c as int].literals@, assignment@) {
                let i = choose|i: int| 0 <= i < clauses@[c as int].literals@.len() && #[trigger] clauses@[c as int].literals@[i] == 0
                    && forall|j: int| 0 <= j < i ==> !#[trigger] lit_true(clauses@[c as int].literals@[j], assignment@);
                assert(clauses@[c as int].literals@[i] != 0);
            }
        }
        if !clauses[c].is_satisfied(assignment) {
            return false;
        }
        c += 1;
    }
    true
}

/// Number of true clauses (the clauses hold no literal 0).
pub fn count_clauses_true(clauses: &[CNFClause], assignment: &[bool]) -> (r: usize)
    requires
        no_zero_literal(clauses@),
    ensures
        r == count_true_clauses(clauses@, assignment@, clauses@.len() as int),
{
    let mut c: usize = 0;
    let mut count: usize = 0;
    while c < clauses.len()
        invariant
            c <= clauses@.len(),
            count <= c,
            no_zero_literal(clauses@),
            count == count_true_clauses(clauses@, assignment@, c as int),
        decreases clauses.len() - c,
    {
        proof {
            if clause_scan_hits_zero(clauses@[c as int].literals@, assignment@) {
                let i = choose|i: int| 0 <= i < clauses@[c as int].literals@.len() && #[trigger] clauses@[c as int].literals@[i] == 0
                    && forall|j: int| 0 <= j < i ==> !#[trigger] lit_true(clauses@[c as int].literals@[j], assignment@);
                assert(clauses@[c as int].literals@[i] != 0);
            }
        }
        if clauses[c].is_satisfied(assignment) {
            count += 1;
        }
        c += 1;
    }
    count
}

/// Total number of literals; panics if it does not fit `usize`.
pub fn count_literals(clauses: &[CNFClause]) -> (r: usize)
    requires
        literal_total(clauses@, clauses@.len() as int) <= usize::MAX,
    ensures
        r == literal_total(clauses@, clauses@.len() as int),
{
    let mut c: usize = 0;
    let mut total: usize = 0;
    while c < clauses.len()
        invariant
            c <= clauses@.len(),
            literal_total(clauses@, clauses@.len() as int) <= usize::MAX,
            total == literal_total(clauses@, c as int),
        decreases clauses.len() - c,
    {
        proof {
            lemma_literal_total_monotone(clauses@, c as int + 1, clauses@.len() as int);
        }
        total = total + clauses[c].literals.len();
        c += 1;
    }
    total
}

/// More clauses never have fewer literals.
pub proof fn lemma_literal_total_monotone(clauses: Seq<CNFClause>, a: int, b: int)
    requires
        0 <= a <= b,
    ensures
        literal_total(clauses, a) <= literal_total(clauses, b),
    decreases b - a,
{
    if a < b {
        lemma_literal_total_monotone(clauses, a, b - 1);
    }
}

/// Entries equal to 1 become true.
pub fn config_to_assignment(config: &[usize]) -> (r: Vec<bool>)
    ensures
        r@ == config_truth(config@),
{
    let mut r: Vec<bool> = Vec::new();
    let mut i: usize = 0;
    while i < config.len()
        invariant
            i <= config@.len(),
            r@.len() == i,
            forall|j: int| 0 <= j < i ==> #[trigger] r@[j] == (config@[j] == 1),
        decreases config.len() - i,
    {
        r.push(config[i] == 1);
        i += 1;
    }
    assert(r@ =~= config_truth(config@));
    r
}

/// Given a CNF formula, decide whether some assignment makes every clause true.
#[derive(Debug, Clone)]
pub struct Satisfiability {
    num_vars: usize,
    clauses: Vec<CNFClause>,
}

impl Satisfiability {
    /// Number of variables.
    pub closed spec fn spec_num_vars(&self) -> nat {
        self.num_vars as nat
    }

    /// The clauses.
    pub closed spec fn spec_clauses(&self) -> Seq<CNFClause> {
        self.clauses@
    }

    /// The literals are valid for the variable count.
    pub open spec fn wf(&self) -> bool {
        valid_cnf(self.spec_num_vars(), self.spec_clauses())
    }

    /// Creates a formula; panics on an invalid literal.
    pub fn new(num_vars: usize, clauses: Vec<CNFClause>) -> (r: Self)
        requires
            valid_cnf(num_vars as nat, clauses@),
        ensures
            r.wf(),
            r.spec_num_vars() == num_vars,
            r.spec_clauses() == clauses@,
    {
        Satisfiability { num_vars, clauses }
    }

    /// Creates a formula, or an error on an invalid literal.
    pub fn try_new(num_vars: usize, clauses: Vec<CNFClause>) -> (r: Result<Self, ConstructionError>)
        ensures
            r is Ok <==> valid_cnf(num_vars as nat, clauses@),
            r matches Ok(p) ==> p.wf() && p.spec_num_vars() == num_vars && p.spec_clauses() == clauses@,
    {
        match validate_cnf_literals(num_vars, clauses.as_slice()) {
            Ok(()) => Ok(Satisfiability { num_vars, clauses }),
            Err(e) => Err(e),
        }
    }

    /// Number of variables.
    pub fn num_vars(&self) -> (r: usize)
        ensures
            r == self.spec_num_vars(),
    {
        self.num_vars
    }

    /// Number of clauses.
    pub fn num_clauses(&self) -> (r: usize)
        ensures
            r == self.spec_clauses().len(),
    {
        self.clauses.len()
    }

    /// Total number of literals; panics if it does not fit `usize`.
    pub fn num_literals(&self) -> (r: usize)
        requires
            literal_total(self.spec_clauses(), self.spec_clauses().len() as int) <= usize::MAX,
        ensures
            r == literal_total(self.spec_clauses(), self.spec_clauses().len() as int),
    {
        count_literals(self.clauses.as_slice())
    }

    /// The clauses.
    pub fn clauses(&self) -> (r: &[CNFClause])
        ensures
            r@ == self.spec_clauses(),
    {
        self.clauses.as_slice()
    }

    /// Clause `index`, if it exists.
    pub fn get_clause(&self, index: usize) -> (r: Option<&CNFClause>)
        ensures
            index < self.spec_clauses().len() ==> r == Some(&self.spec_clauses()[index as int]),
            index >= self.spec_clauses().len() ==> r is None,
    {
        if index < self.clauses.len() {
            Some(&self.clauses[index])
        } else {
            None
        }
    }

    /// Number of clauses the assignment makes true.
    pub fn count_satisfied(&self, assignment: &[bool]) -> (r: usize)
        requires
            self.wf(),
        ensures
            r == count_true_clauses(self.spec_clauses(), assignment@, self.spec_clauses().len() as int),
    {
        count_clauses_true(self.clauses.as_slice(), assignment)
    }

    /// Whether the assignment makes every clause true.
    pub fn is_satisfying(&self, assignment: &[bool]) -> (r: bool)
        requires
            self.wf(),
        ensures
            r == cnf_true(self.spec_clauses(), assignment@),
    {
        all_clauses_true(self.clauses.as_slice(), assignment)
    }

    /// One binary variable per formula variable.
    pub fn dims(&self) -> (r: Vec<usize>)
        ensures
            r@.len() == self.spec_num_vars(),
            forall|i: int| 0 <= i < r@.len() ==> #[trigger] r@[i] == 2,
    {
        crate::models::graph::uniform_dims(self.num_vars, 2)
    }

    /// Whether the configuration (1 = true) satisfies the formula.
    pub fn evaluate(&self, config: &[usize]) -> (r: Or)
        requires
            self.wf(),
        ensures
            r == Or(cnf_true(self.spec_clauses(), config_truth(config@))),
    {
        let assignment = config_to_assignment(config);
        Or(self.is_satisfying(assignment.as_slice()))
    }

    /// Whether the configuration (1 = true) satisfies the formula.
    pub fn is_valid_solution(&self, config: &[usize]) -> (r: bool)
        requires
            self.wf(),
        ensures
            r == cnf_true(self.spec_clauses(), config_truth(config@)),
    {
        self.evaluate(config).0
    }
}

/// Hands out fresh SAT variable numbers after the existing ones, within the
/// positive `i32` range.
#[derive(Debug)]
pub struct SatVariableAllocator {
    reduction: &'static str,
    next: u64,
}

impl SatVariableAllocator {
    /// The next number to hand out.
    pub closed spec fn spec_next(&self) -> nat {
        self.next as nat
    }

    /// An allocator after `existing` variables; an error when they exceed the `i32` range.
    pub fn new(reduction: &'static str, existing: usize) -> (r: Result<Self, ConstructionError>)
        ensures
            existing > i32::MAX ==> r is Err,
            existing <= i32::MAX ==> (r matches Ok(a) && a.spec_next() == existing + 1),
    {
        if existing > 2147483647usize {
            return Err(ConstructionError::OutOfRange);
        }
        Ok(SatVariableAllocator { reduction, next: existing as u64 + 1 })
    }

    /// The next variable number, or an error when it would exceed `i32::MAX`.
    pub fn allocate(&mut self) -> (r: Result<i32, ConstructionError>)
        requires
            old(self).spec_next() <= i32::MAX + 1,
        ensures
            old(self).spec_next() > i32::MAX ==> r is Err && final(self).spec_next() == old(self).spec_next(),
            old(self).spec_next() <= i32::MAX ==> r == Ok::<i32, ConstructionError>(old(self).spec_next() as i32)
                && final(self).spec_next() == old(self).spec_next() + 1,
    {
        let variable = self.next;
        if variable > 2147483647u64 {
            return Err(ConstructionError::OutOfRange);
        }
        self.next = self.next + 1;
        Ok(variable as i32)
    }

    /// `count` consecutive fresh variable numbers, or an error when the last
    /// would exceed `i32::MAX`.
    pub fn allocate_many(&mut self, count: usize) -> (r: Result<Vec<i32>, ConstructionError>)
        requires
            old(self).spec_next() <= i32::MAX + 1,
        ensures
            count == 0 ==> (r matches Ok(v) && v@.len() == 0) && final(self).spec_next() == old(self).spec_next(),
            count > 0 && old(self).spec_next() + count - 1 > i32::MAX ==> r is Err && final(self).spec_next() == old(self).spec_next(),
            count > 0 && old(self).spec_next() + count - 1 <= i32::MAX ==> (r matches Ok(v) && v@.len() == count
                && forall|i: int| 0 <= i < count ==> #[trigger] v@[i] == old(self).spec_next() + i)
                && final(self).spec_next() == old(self).spec_next() + count,
    {
        if count == 0 {
            return Ok(Vec::new());
        }
        let c = count as u64;
        if c - 1 > 2147483647u64 || self.next + (c - 1) > 2147483647u64 {
            return Err(ConstructionError::OutOfRange);
        }
        let last = self.next + (c - 1);
        let mut out: Vec<i32> = Vec::new();
        let mut v = self.next;
        while v <= last
            invariant
                self.next <= v <= last + 1,
                last <= i32::MAX,
                last == self.next + (c - 1),
                out@.len() == v - self.next,
                forall|i: int| 0 <= i < out@.len() ==> #[trigger] out@[i] == self.next + i,
            decreases last + 1 - v,
        {
            out.push(v as i32);
            v = v + 1;
        }
        self.next = last + 1;
        Ok(out)
    }

    /// Number of variables handed out so far, including the existing ones.
    pub fn num_vars(&self) -> (r: usize)
        requires
            1 <= self.spec_next() <= i32::MAX + 1,
        ensures
            r == self.spec_next() - 1,
    {
        (self.next - 1) as usize
    }
}

} // verus!
