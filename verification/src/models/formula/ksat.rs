//! k-SAT: satisfiability with clauses of exactly (or at most) `k` literals.
use vstd::prelude::*;
use crate::types::{Or, ConstructionError, EvaluationError};
use crate::models::formula::sat::{CNFClause, valid_cnf, validate_cnf_literals, cnf_true, count_true_clauses,
    literal_total, count_literals, all_clauses_true, count_clauses_true};

verus! {

/// `c` is at least 2 and has no divisor in `2..c`.
pub open spec fn is_prime_spec(c: int) -> bool {
    c >= 2 && forall|d: int| 2 <= d < c ==> #[trigger] (c % d) != 0
}

/// Trial division by odd numbers stays within `u64` arithmetic for `c`:
/// either `c` is small enough, even, or has an odd divisor below `2^32 - 1`.
pub open spec fn trial_division_fits(c: u64) -> bool {
    ||| c <= 18446744065119617025u64
    ||| c % 2 == 0
    ||| exists|d: int| 3 <= d <= 4294967295 && d % 2 == 1 && #[trigger] (c as int % d) == 0
}

proof fn lemma_small_factor(c: int, d: int)
    requires
        2 <= d < c,
        c % d == 0,
    ensures
        exists|e: int| 2 <= e && e * e <= c && #[trigger] (c % e) == 0,
{
    let q = c / d;
    vstd::arithmetic::div_mod::lemma_fundamental_div_mod(c, d);
    assert(c == d * q);
    assert(q >= 1) by (nonlinear_arith)
        requires c == d * q, d < c, d > 0;
    if q == 1 {
        assert(false) by (nonlinear_arith)
            requires c == d * q, q == 1, d < c;
    }
    if d <= q {
        assert(d * d <= c) by (nonlinear_arith)
            requires c == d * q, d <= q, d >= 0;
        assert(c % d == 0);
    } else {
        assert(q * q <= c) by (nonlinear_arith)
            requires c == d * q, q < d, q >= 0;
        vstd::arithmetic::div_mod::lemma_mod_multiples_basic(d, q);
        assert(c == d * q);
        assert(c % q == 0);
    }
}

/// Number of odd primes below `c`.
pub open spec fn odd_primes_below(c: int) -> nat
    decreases c,
{
    if c <= 3 {
        0
    } else {
        odd_primes_below(c - 1) + if (c - 1) % 2 == 1 && is_prime_spec(c - 1) { 1nat } else { 0nat }
    }
}

proof fn lemma_odd_primes_grow(a: int, b: int)
    requires
        a <= b,
    ensures
        odd_primes_below(a) <= odd_primes_below(b),
    decreases b - a,
{
    if a < b {
        lemma_odd_primes_grow(a, b - 1);
    }
}

/// The odd primes below `c`, in increasing order.
pub open spec fn odd_primes_list(c: int) -> Seq<u64>
    decreases c,
{
    if c <= 3 {
        Seq::empty()
    } else {
        let prev = odd_primes_list(c - 1);
        if (c - 1) % 2 == 1 && is_prime_spec(c - 1) { prev.push((c - 1) as u64) } else { prev }
    }
}

proof fn lemma_list_len(c: int)
    ensures
        odd_primes_list(c).len() == odd_primes_below(c),
    decreases c,
{
    if c > 3 {
        lemma_list_len(c - 1);
    }
}

/// The first `count` odd primes, in increasing order; loops past `u64`
/// unless there are that many below the bound where trial division fits.
pub fn first_n_odd_primes(count: usize) -> (r: Vec<u64>)
    requires
        odd_primes_below(18446744065119617026) >= count,
    ensures
        exists|c: int| 3 <= c <= 18446744065119617026 && r@ == odd_primes_list(c) && r@.len() == count,
{
    let mut primes: Vec<u64> = Vec::new();
    let mut candidate: u64 = 3;
    proof { lemma_list_len(3); }
    while primes.len() < count
        invariant
            3 <= candidate <= 18446744065119617025,
            candidate % 2 == 1,
            primes@ == odd_primes_list(candidate as int),
            primes@.len() == odd_primes_below(candidate as int),
            primes@.len() <= count,
            odd_primes_below(18446744065119617026) >= count,
        decreases 18446744065119617026 - candidate,
    {
        if is_prime(candidate) {
            primes.push(candidate);
        }
        proof {
            assert(odd_primes_list(candidate as int + 1) == (if is_prime_spec(candidate as int) {
                odd_primes_list(candidate as int).push(candidate) } else { odd_primes_list(candidate as int) }));
            assert(odd_primes_list(candidate as int + 2) == odd_primes_list(candidate as int + 1));
            lemma_list_len(candidate as int + 2);
        }
        if primes.len() == count {
            return primes;
        }
        proof {
            if candidate + 2 > 18446744065119617025 {
                lemma_odd_primes_grow(18446744065119617026, candidate as int + 2);
            }
        }
        candidate += 2;
    }
    primes
}

/// Whether `candidate` is prime, by trial division. Outside `requires`,
/// the square of the trial divisor overflows.
pub fn is_prime(candidate: u64) -> (r: bool)
    requires
        trial_division_fits(candidate),
    ensures
        r == is_prime_spec(candidate as int),
{
    if candidate < 2 {
        return false;
    }
    if candidate == 2 {
        return true;
    }
    if candidate % 2 == 0 {
        assert(candidate as int % 2 == 0);
        return false;
    }
    let mut divisor: u64 = 3;
    while divisor <= candidate / divisor
        invariant
            candidate >= 3,
            candidate % 2 == 1,
            divisor % 2 == 1,
            3 <= divisor,
            trial_division_fits(candidate),
            forall|d: int| 2 <= d < divisor ==> #[trigger] (candidate as int % d) != 0,
        decreases candidate - divisor,
    {
        if candidate % divisor == 0 {
            assert(divisor < candidate) by (nonlinear_arith)
                requires divisor <= candidate / divisor, divisor >= 3, candidate >= 3;
            return false;
        }
        assert(divisor + 2 <= candidate) by (nonlinear_arith)
            requires divisor <= candidate / divisor, divisor >= 3, candidate % 2 == 1, divisor % 2 == 1, candidate % divisor != 0;
        assert((candidate as int) % ((divisor + 1) as int) != 0) by {
            let e = divisor as int + 1;
            if (candidate as int) % e == 0 {
                assert(e % 2 == 0);
                let c = candidate as int;
                vstd::arithmetic::div_mod::lemma_fundamental_div_mod(c, e);
                vstd::arithmetic::div_mod::lemma_fundamental_div_mod(e, 2);
                let h = e / 2;
                let k = c / e;
                assert(c == (2 * h) * k);
                assert(c == (h * k) * 2) by (nonlinear_arith)
                    requires c == (2 * h) * k;
                vstd::arithmetic::div_mod::lemma_mod_multiples_basic(h * k, 2);
                assert(c % 2 == 0);
            }
        }
        divisor = divisor + 2;
    }
    assert forall|d: int| 2 <= d < candidate implies #[trigger] ((candidate as int) % d) != 0 by {
        if (candidate as int) % d == 0 {
            lemma_small_factor(candidate as int, d);
            let e = choose|e: int| 2 <= e && e * e <= candidate && #[trigger] ((candidate as int) % e) == 0;
            assert(e < divisor) by (nonlinear_arith)
                requires e * e <= candidate, divisor > candidate / divisor, e >= 2, divisor >= 3;
        }
    }
    true
}

/// Satisfiability of a CNF formula whose clauses have `K` literals each
/// (at most `K` when built with [`KSatisfiability::new_allow_less`]);
/// `K = 0` places no bound on clause length.
#[derive(Debug, Clone)]
pub struct KSatisfiability<const K: usize> {
    num_vars: usize,
    clauses: Vec<CNFClause>,
}

/// Every clause has exactly `k` literals (no condition when `k == 0`).
pub open spec fn clauses_exactly(clauses: Seq<CNFClause>, k: nat) -> bool {
    k == 0 || forall|c: int| 0 <= c < clauses.len() ==> (#[trigger] clauses[c]).literals@.len() == k
}

/// Every clause has at most `k` literals (no condition when `k == 0`).
pub open spec fn clauses_at_most(clauses: Seq<CNFClause>, k: nat) -> bool {
    k == 0 || forall|c: int| 0 <= c < clauses.len() ==> (#[trigger] clauses[c]).literals@.len() <= k
}

/// Whether every clause has `k` literals (`exact`) or at most `k`.
pub fn check_clause_lengths(clauses: &[CNFClause], k: usize, exact: bool) -> (r: bool)
    ensures
        exact ==> r == clauses_exactly(clauses@, k as nat),
        !exact ==> r == clauses_at_most(clauses@, k as nat),
{
    if k == 0 {
        return true;
    }
    let mut c: usize = 0;
    while c < clauses.len()
        invariant
            k > 0,
            c <= clauses@.len(),
            forall|j: int| 0 <= j < c ==> if exact {
                (#[trigger] clauses@[j]).literals@.len() == k
            } else {
                clauses@[j].literals@.len() <= k
            },
        decreases clauses.len() - c,
    {
        let len = clauses[c].literals.len();
        if (exact && len != k) || (!exact && len > k) {
            return false;
        }
        c += 1;
    }
    true
}

impl<const K: usize> KSatisfiability<K> {
    /// Number of variables.
    pub closed spec fn spec_num_vars(&self) -> nat {
        self.num_vars as nat
    }

    /// The clauses.
    pub closed spec fn spec_clauses(&self) -> Seq<CNFClause> {
        self.clauses@
    }

    /// The literals are valid for the variable count.
    pub open spec fn wf(&self) -> bool {
        valid_cnf(self.spec_num_vars(), self.spec_clauses())
    }

    /// Creates a formula; panics on an invalid literal or a clause without `K` literals.
    pub fn new(num_vars: usize, clauses: Vec<CNFClause>) -> (r: Self)
        requires
            valid_cnf(num_vars as nat, clauses@),
            clauses_exactly(clauses@, K as nat),
        ensures
            r.wf(),
            r.spec_num_vars() == num_vars,
            r.spec_clauses() == clauses@,
    {
        KSatisfiability { num_vars, clauses }
    }

    /// Creates a formula, or an error on an invalid literal or a clause
    /// without `K` literals.
    pub fn try_new(num_vars: usize, clauses: Vec<CNFClause>) -> (r: Result<Self, ConstructionError>)
        ensures
            r is Ok <==> valid_cnf(num_vars as nat, clauses@) && clauses_exactly(clauses@, K as nat),
            r matches Ok(p) ==> p.wf() && p.spec_num_vars() == num_vars && p.spec_clauses() == clauses@,
    {
        if validate_cnf_literals(num_vars, clauses.as_slice()).is_err() {
            return Err(ConstructionError::InvalidValue);
        }
        if !check_clause_lengths(clauses.as_slice(), K, true) {
            return Err(ConstructionError::LengthMismatch);
        }
        Ok(KSatisfiability { num_vars, clauses })
    }

    /// Creates a formula whose clauses have at most `K` literals; panics otherwise.
    pub fn new_allow_less(num_vars: usize, clauses: Vec<CNFClause>) -> (r: Self)
        requires
            valid_cnf(num_vars as nat, clauses@),
            clauses_at_most(clauses@, K as nat),
        ensures
            r.wf(),
            r.spec_num_vars() == num_vars,
            r.spec_clauses() == clauses@,
    {
        KSatisfiability { num_vars, clauses }
    }

    /// Creates a formula whose clauses have at most `K` literals, or an error.
    pub fn try_new_allow_less(num_vars: usize, clauses: Vec<CNFClause>) -> (r: Result<Self, ConstructionError>)
        ensures
            r is Ok <==> valid_cnf(num_vars as nat, clauses@) && clauses_at_most(clauses@, K as nat),
            r matches Ok(p) ==> p.wf() && p.spec_num_vars() == num_vars && p.spec_clauses() == clauses@,
    {
        if validate_cnf_literals(num_vars, clauses.as_slice()).is_err() {
            return Err(ConstructionError::InvalidValue);
        }
        if !check_clause_lengths(clauses.as_slice(), K, false) {
            return Err(ConstructionError::LengthMismatch);
        }
        Ok(KSatisfiability { num_vars, clauses })
    }

    /// Number of variables.
    pub fn num_vars(&self) -> (r: usize)
        ensures
            r == self.spec_num_vars(),
    {
        self.num_vars
    }

    /// Number of clauses.
    pub fn num_clauses(&self) -> (r: usize)
        ensures
            r == self.spec_clauses().len(),
    {
        self.clauses.len()
    }

    /// The clauses.
    pub fn clauses(&self) -> (r: &[CNFClause])
        ensures
            r@ == self.spec_clauses(),
    {
        self.clauses.as_slice()
    }

    /// Clause `index`, if it exists.
    pub fn get_clause(&self, index: usize) -> (r: Option<&CNFClause>)
        ensures
            index < self.spec_clauses().len() ==> r == Some(&self.spec_clauses()[index as int]),
            index >= self.spec_clauses().len() ==> r is None,
    {
        if index < self.clauses.len() {
            Some(&self.clauses[index])
        } else {
            None
        }
    }

    /// Total number of literals; panics if it does not fit `usize`.
    pub fn num_literals(&self) -> (r: usize)
        requires
            literal_total(self.spec_clauses(), self.spec_clauses().len() as int) <= usize::MAX,
        ensures
            r == literal_total(self.spec_clauses(), self.spec_clauses().len() as int),
    {
        count_literals(self.clauses.as_slice())
    }

    /// Number of true clauses, or an overflow error when it exceeds `i64`.
    pub fn count_satisfied(&self, assignment: &[bool]) -> (r: Result<i64, EvaluationError>)
        requires
            self.wf(),
        ensures
            ({
                let n = count_true_clauses(self.spec_clauses(), assignment@, self.spec_clauses().len() as int);
                if n <= i64::MAX { r == Ok::<i64, EvaluationError>(n as i64) } else { r == Err::<i64, EvaluationError>(EvaluationError::IntegerOverflow) }
            }),
    {
        let n = count_clauses_true(self.clauses.as_slice(), assignment);
        if n as u64 > 9223372036854775807u64 {
            return Err(EvaluationError::IntegerOverflow);
        }
        Ok(n as i64)
    }

    /// Whether the assignment makes every clause true.
    pub fn is_satisfying(&self, assignment: &[bool]) -> (r: bool)
        requires
            self.wf(),
        ensures
            r == cnf_true(self.spec_clauses(), assignment@),
    {
        all_clauses_true(self.clauses.as_slice(), assignment)
    }

    /// Evaluates an assignment: an error on a length mismatch, else whether it
    /// satisfies the formula.
    pub fn evaluate(&self, config: &Vec<bool>) -> (r: Result<Or, EvaluationError>)
        requires
            self.wf(),
        ensures
            config@.len() != self.spec_num_vars() ==> r == Err::<Or, EvaluationError>(EvaluationError::InvalidConfiguration),
            config@.len() == self.spec_num_vars() ==> r == Ok::<Or, EvaluationError>(Or(cnf_true(self.spec_clauses(), config@))),
    {
        if config.len() != self.num_vars {
            return Err(EvaluationError::InvalidConfiguration);
        }
        Ok(Or(self.is_satisfying(config.as_slice())))
    }
}

} // verus!
