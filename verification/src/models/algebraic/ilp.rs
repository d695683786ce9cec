//! Integer variables and linear constraints of integer linear programs.
use vstd::prelude::*;
use crate::types::{EvaluationError, ConstructionError};

verus! {

/// An integer variable with optional lower and upper bounds.
#[derive(Debug, Clone, Copy, PartialEq, Eq, Hash)]
pub struct IntegerVariable {
    lower_bound: Option<i64>,
    upper_bound: Option<i64>,
}

impl IntegerVariable {
    /// The lower bound.
    pub closed spec fn spec_lower(&self) -> Option<i64> {
        self.lower_bound
    }

    /// The upper bound.
    pub closed spec fn spec_upper(&self) -> Option<i64> {
        self.upper_bound
    }

    /// A variable with the given bounds, or an error when the lower bound
    /// exceeds the upper one.
    pub fn new(lower_bound: Option<i64>, upper_bound: Option<i64>) -> (r: Result<Self, ConstructionError>)
        ensures
            (match (lower_bound, upper_bound) {
                (Some(l), Some(u)) => l > u,
                _ => false,
            }) <==> r is Err,
            r matches Ok(v) ==> v.spec_lower() == lower_bound && v.spec_upper() == upper_bound,
    {
        match (lower_bound, upper_bound) {
            (Some(l), Some(u)) => {
                if l > u {
                    return Err(ConstructionError::InvalidValue);
                }
            },
            _ => {},
        }
        Ok(IntegerVariable { lower_bound, upper_bound })
    }

    /// A 0/1 variable.
    pub fn binary() -> (r: Self)
        ensures
            r.spec_lower() == Some(0i64),
            r.spec_upper() == Some(1i64),
    {
        IntegerVariable { lower_bound: Some(0), upper_bound: Some(1) }
    }

    /// A variable bounded below by 0.
    pub fn nonnegative() -> (r: Self)
        ensures
            r.spec_lower() == Some(0i64),
            r.spec_upper() is None,
    {
        IntegerVariable { lower_bound: Some(0), upper_bound: None }
    }

    /// An unbounded variable.
    pub fn free() -> (r: Self)
        ensures
            r.spec_lower() is None,
            r.spec_upper() is None,
    {
        IntegerVariable { lower_bound: None, upper_bound: None }
    }

    /// The lower bound.
    pub fn lower_bound(self) -> (r: Option<i64>)
        ensures
            r == self.spec_lower(),
    {
        self.lower_bound
    }

    /// The upper bound.
    pub fn upper_bound(self) -> (r: Option<i64>)
        ensures
            r == self.spec_upper(),
    {
        self.upper_bound
    }

    /// The value lies within the bounds.
    pub open spec fn spec_contains(&self, value: int) -> bool {
        &&& (self.spec_lower() matches Some(l) ==> value >= l)
        &&& (self.spec_upper() matches Some(u) ==> value <= u)
    }

    /// Whether the value lies within the bounds.
    pub fn contains(self, value: i64) -> (r: bool)
        ensures
            r == self.spec_contains(value as int),
    {
        let lower_ok = match self.lower_bound {
            Some(l) => value >= l,
            None => true,
        };
        let upper_ok = match self.upper_bound {
            Some(u) => value <= u,
            None => true,
        };
        lower_ok && upper_ok
    }
}

/// The kinds of variables an integer program may range over.
pub trait VariableDomain {
    /// Which variable lists the domain accepts.
    spec fn spec_accepts(variables: Seq<IntegerVariable>) -> bool;

    /// The variable a program over this domain uses by default.
    fn default_variable() -> IntegerVariable;

    /// Checks the variables against the domain.
    fn validate_variables(variables: &[IntegerVariable]) -> (r: Result<(), ConstructionError>)
        ensures
            r is Ok <==> Self::spec_accepts(variables@);
}

impl VariableDomain for bool {
    /// Binary programs need every variable bounded to `[0, 1]`.
    open spec fn spec_accepts(variables: Seq<IntegerVariable>) -> bool {
        forall|i: int| 0 <= i < variables.len() ==> (#[trigger] variables[i]).spec_lower() == Some(0i64) && variables[i].spec_upper() == Some(1i64)
    }

    fn default_variable() -> (r: IntegerVariable)
        ensures
            r.spec_lower() == Some(0i64),
            r.spec_upper() == Some(1i64),
    {
        IntegerVariable::binary()
    }

    fn validate_variables(variables: &[IntegerVariable]) -> (r: Result<(), ConstructionError>) {
        let mut i: usize = 0;
        while i < variables.len()
            invariant
                i <= variables@.len(),
                forall|k: int| 0 <= k < i ==> (#[trigger] variables@[k]).spec_lower() == Some(0i64) && variables@[k].spec_upper() == Some(1i64),
            decreases variables.len() - i,
        {
            let v = variables[i];
            let ok = match (v.lower_bound(), v.upper_bound()) {
                (Some(l), Some(u)) => l == 0 && u == 1,
                _ => false,
            };
            if !ok {
                return Err(ConstructionError::InvalidValue);
            }
            i += 1;
        }
        Ok(())
    }
}

impl VariableDomain for i64 {
    /// General integer programs accept any variables.
    open spec fn spec_accepts(variables: Seq<IntegerVariable>) -> bool {
        true
    }

    fn default_variable() -> (r: IntegerVariable)
        ensures
            r.spec_lower() == Some(0i64),
            r.spec_upper() is None,
    {
        IntegerVariable::nonnegative()
    }

    fn validate_variables(variables: &[IntegerVariable]) -> (r: Result<(), ConstructionError>) {
        Ok(())
    }
}

/// The relation of a linear constraint.
#[derive(Debug, Clone, Copy, PartialEq, Eq, Hash)]
pub enum Comparison {
    /// `lhs <= rhs`
    Le,
    /// `lhs >= rhs`
    Ge,
    /// `lhs == rhs`
    Eq,
}

/// Whether an optimization maximizes or minimizes.
#[derive(Debug, Clone, Copy, PartialEq, Eq, Hash)]
pub enum ObjectiveSense {
    /// Larger is better.
    Maximize,
    /// Smaller is better.
    Minimize,
}

/// A linear constraint `sum(coefficient * x[variable]) <cmp> rhs`.
#[derive(Debug, Clone, PartialEq, Eq)]
pub struct LinearConstraint {
    terms: Vec<(usize, i64)>,
    comparison: Comparison,
    rhs: i64,
}

/// Left-hand side after the first `k` terms, summed left to right with
/// checked `i64` products and sums: an invalid-configuration error for a
/// variable without a value, an overflow error for a product or partial
/// sum outside `i64`.
pub open spec fn lhs_fold(terms: Seq<(usize, i64)>, values: Seq<i64>, k: int) -> Result<int, EvaluationError>
    decreases k,
{
    if k <= 0 {
        Ok(0)
    } else {
        match lhs_fold(terms, values, k - 1) {
            Err(e) => Err(e),
            Ok(s) => {
                let t = terms[k - 1];
                if t.0 >= values.len() {
                    Err(EvaluationError::InvalidConfiguration)
                } else {
                    let p = t.1 as int * values[t.0 as int] as int;
                    if p < i64::MIN || p > i64::MAX {
                        Err(EvaluationError::IntegerOverflow)
                    } else if s + p < i64::MIN || s + p > i64::MAX {
                        Err(EvaluationError::IntegerOverflow)
                    } else {
                        Ok(s + p)
                    }
                }
            },
        }
    }
}

/// Sum of the coefficients of variable `v` among the first `k` terms, in
/// order, with checked `i64` addition (`None` once a partial sum leaves `i64`).
pub open spec fn var_total(terms: Seq<(usize, i64)>, v: usize, k: int) -> Option<int>
    decreases k,
{
    if k <= 0 {
        Some(0)
    } else {
        match var_total(terms, v, k - 1) {
            None => None,
            Some(s) => if terms[k - 1].0 == v {
                let t = s + terms[k - 1].1 as int;
                if i64::MIN <= t <= i64::MAX { Some(t) } else { None }
            } else {
                Some(s)
            },
        }
    }
}

/// Variable `v` occurs in some term.
pub open spec fn occurs_in(terms: Seq<(usize, i64)>, v: usize) -> bool {
    exists|i: int| 0 <= i < terms.len() && (#[trigger] terms[i]).0 == v
}

/// `terms` lists, by strictly increasing variable, each variable of `src`
/// once with its merged coefficient when that is not 0.
pub open spec fn normalized_terms(terms: Seq<(usize, i64)>, src: Seq<(usize, i64)>) -> bool {
    &&& forall|i: int, j: int| 0 <= i < j < terms.len() ==> (#[trigger] terms[i]).0 < (#[trigger] terms[j]).0
    &&& forall|i: int| 0 <= i < terms.len() ==> occurs_in(src, (#[trigger] terms[i]).0)
        && var_total(src, terms[i].0, src.len() as int) == Some(terms[i].1 as int) && terms[i].1 != 0
    &&& forall|v: usize| occurs_in(src, v) && var_total(src, v, src.len() as int) != Some(0int)
        ==> exists|i: int| 0 <= i < terms.len() && (#[trigger] terms[i]).0 == v
}

/// Once the merged coefficient overflows it stays overflowed.
proof fn lemma_var_total_none(terms: Seq<(usize, i64)>, v: usize, a: int, b: int)
    requires
        0 <= a <= b,
        var_total(terms, v, a) is None,
    ensures
        var_total(terms, v, b) is None,
    decreases b - a,
{
    if b > a {
        lemma_var_total_none(terms, v, a, b - 1);
    }
}

/// Merges the terms of one variable; `None` on overflow.
fn merged_coefficient(terms: &Vec<(usize, i64)>, v: usize) -> (r: Option<i64>)
    ensures
        r matches Some(c) ==> var_total(terms@, v, terms@.len() as int) == Some(c as int),
        r is None ==> var_total(terms@, v, terms@.len() as int) is None,
{
    let mut acc: i64 = 0;
    let mut k: usize = 0;
    while k < terms.len()
        invariant
            k <= terms@.len(),
            var_total(terms@, v, k as int) == Some(acc as int),
        decreases terms.len() - k,
    {
        let (w, c) = terms[k];
        if w == v {
            acc = match acc.checked_add(c) {
                Some(x) => x,
                None => {
                    proof {
                        lemma_var_total_none(terms@, v, k as int + 1, terms@.len() as int);
                    }
                    return None;
                },
            };
        }
        k += 1;
    }
    Some(acc)
}

/// A constraint over `num_variables` variables with its terms merged: an
/// out-of-range error for a term naming a variable at or past
/// `num_variables`, else an overflow error when merging the coefficients of
/// some variable overflows, else the constraint whose terms list each
/// variable once, in increasing order, with its merged nonzero coefficient.
/// The merged constraint says what the original says: under every
/// assignment of at least `num_variables` values both left-hand sides have
/// the same exact value, and whenever both evaluate without an error they
/// are satisfied alike.
pub fn normalize_constraint(constraint: LinearConstraint, num_variables: usize, constraint_index: usize)
    -> (r: Result<LinearConstraint, ConstructionError>)
    ensures
        (exists|i: int| 0 <= i < constraint.spec_terms().len() && (#[trigger] constraint.spec_terms()[i]).0 >= num_variables)
            ==> r == Err::<LinearConstraint, ConstructionError>(ConstructionError::OutOfRange),
        (forall|i: int| 0 <= i < constraint.spec_terms().len() ==> (#[trigger] constraint.spec_terms()[i]).0 < num_variables)
            ==> (r is Err <==> exists|v: usize| occurs_in(constraint.spec_terms(), v)
                && #[trigger] var_total(constraint.spec_terms(), v, constraint.spec_terms().len() as int) is None),
        r matches Err(e) ==> e == ConstructionError::OutOfRange || e == ConstructionError::IntegerOverflow,
        r == Err::<LinearConstraint, ConstructionError>(ConstructionError::OutOfRange)
            ==> exists|i: int| 0 <= i < constraint.spec_terms().len() && (#[trigger] constraint.spec_terms()[i]).0 >= num_variables,
        r == Err::<LinearConstraint, ConstructionError>(ConstructionError::IntegerOverflow)
            ==> forall|i: int| 0 <= i < constraint.spec_terms().len() ==> (#[trigger] constraint.spec_terms()[i]).0 < num_variables,
        r matches Ok(c) ==> c.spec_comparison() == constraint.spec_comparison() && c.spec_rhs() == constraint.spec_rhs()
            && normalized_terms(c.spec_terms(), constraint.spec_terms()),
        r matches Ok(c) ==> forall|values: Seq<i64>| values.len() >= num_variables ==> #[trigger] exact_lhs(
            c.spec_terms(),
            values,
            c.spec_terms().len() as int,
        ) == exact_lhs(constraint.spec_terms(), values, constraint.spec_terms().len() as int),
        r matches Ok(c) ==> forall|values: Seq<i64>|
            values.len() >= num_variables && satisfied_result(c, values) is Ok && satisfied_result(constraint, values) is Ok
                ==> #[trigger] satisfied_result(c, values) == satisfied_result(constraint, values),
{
    let terms = &constraint.terms;
    let ghost src = terms@;
    assert(src == constraint.spec_terms());
    let mut k: usize = 0;
    while k < terms.len()
        invariant
            k <= src.len(),
            src == terms@,
            src == constraint.spec_terms(),
            forall|i: int| 0 <= i < k ==> (#[trigger] src[i]).0 < num_variables,
        decreases terms.len() - k,
    {
        if terms[k].0 >= num_variables {
            assert(src[k as int].0 >= num_variables);
            return Err(ConstructionError::OutOfRange);
        }
        k += 1;
    }
    let mut out: Vec<(usize, i64)> = Vec::new();
    let mut cursor: usize = 0;
    loop
        invariant
            src == terms@,
            src == constraint.spec_terms(),
            cursor <= num_variables,
            forall|i: int| 0 <= i < src.len() ==> (#[trigger] src[i]).0 < num_variables,
            forall|i: int| 0 <= i < out@.len() ==> (#[trigger] out@[i]).0 < cursor,
            forall|i: int, j: int| 0 <= i < j < out@.len() ==> (#[trigger] out@[i]).0 < (#[trigger] out@[j]).0,
            forall|i: int| 0 <= i < out@.len() ==> occurs_in(src, (#[trigger] out@[i]).0)
                && var_total(src, out@[i].0, src.len() as int) == Some(out@[i].1 as int) && out@[i].1 != 0,
            forall|v: usize| v < cursor && occurs_in(src, v) ==> (#[trigger] var_total(src, v, src.len() as int)) is Some,
            forall|v: usize| v < cursor && occurs_in(src, v) && var_total(src, v, src.len() as int) != Some(0int)
                ==> exists|i: int| 0 <= i < out@.len() && (#[trigger] out@[i]).0 == v,
        ensures
            src == terms@,
            src == constraint.spec_terms(),
            cursor <= num_variables,
            forall|i: int| 0 <= i < src.len() ==> (#[trigger] src[i]).0 < num_variables,
            forall|i: int| 0 <= i < out@.len() ==> (#[trigger] out@[i]).0 < cursor,
            forall|i: int, j: int| 0 <= i < j < out@.len() ==> (#[trigger] out@[i]).0 < (#[trigger] out@[j]).0,
            forall|i: int| 0 <= i < out@.len() ==> occurs_in(src, (#[trigger] out@[i]).0)
                && var_total(src, out@[i].0, src.len() as int) == Some(out@[i].1 as int) && out@[i].1 != 0,
            forall|v: usize| v < cursor && occurs_in(src, v) ==> (#[trigger] var_total(src, v, src.len() as int)) is Some,
            forall|v: usize| v < cursor && occurs_in(src, v) && var_total(src, v, src.len() as int) != Some(0int)
                ==> exists|i: int| 0 <= i < out@.len() && (#[trigger] out@[i]).0 == v,
            forall|w: usize| occurs_in(src, w) ==> w < cursor,
        decreases num_variables - cursor,
    {
        let mut best: Option<usize> = None;
        let mut j: usize = 0;
        while j < terms.len()
            invariant
                j <= src.len(),
                src == terms@,
                best matches Some(b) ==> (b >= cursor && occurs_in(src, b)),
                forall|i: int| 0 <= i < j && (#[trigger] src[i]).0 >= cursor ==> (best matches Some(b) && b <= src[i].0),
            decreases terms.len() - j,
        {
            let w = terms[j].0;
            if w >= cursor {
                match best {
                    Some(b) => {
                        if w < b {
                            best = Some(w);
                        }
                    },
                    None => {
                        best = Some(w);
                    },
                }
            }
            j += 1;
        }
        let v = match best {
            None => {
                proof {
                    assert forall|w: usize| occurs_in(src, w) implies w < cursor by {
                        let i = choose|i: int| 0 <= i < src.len() && (#[trigger] src[i]).0 == w;
                    }
                }
                break;
            },
            Some(b) => b,
        };
        let c = match merged_coefficient(terms, v) {
            Some(c) => c,
            None => return Err(ConstructionError::IntegerOverflow),
        };
        let ghost before = out@;
        if c != 0 {
            out.push((v, c));
        }
        proof {
            assert forall|w: usize| w < v + 1 && occurs_in(src, w) implies (#[trigger] var_total(src, w, src.len() as int)) is Some by {
                if w >= cursor && w != v {
                    let i = choose|i: int| 0 <= i < src.len() && (#[trigger] src[i]).0 == w;
                }
            }
            assert forall|w: usize| w < v + 1 && occurs_in(src, w) && var_total(src, w, src.len() as int) != Some(0int)
                implies exists|i: int| 0 <= i < out@.len() && (#[trigger] out@[i]).0 == w by {
                if w >= cursor && w != v {
                    let i = choose|i: int| 0 <= i < src.len() && (#[trigger] src[i]).0 == w;
                }
                if w == v {
                    assert(out@[out@.len() - 1].0 == v);
                } else {
                    let i = choose|i: int| 0 <= i < before.len() && (#[trigger] before[i]).0 == w;
                    assert(out@[i].0 == w);
                }
            }
        }
        cursor = v + 1;
    }
    let merged = LinearConstraint::new(out, constraint.comparison, constraint.rhs);
    proof {
        assert(terms_in_range(constraint, num_variables));
        if merge_overflows(constraint) {
            let v = choose|v: usize| occurs_in(src, v) && #[trigger] var_total(src, v, src.len() as int) is None;
            assert(v < cursor);
        }
        assert(normalize_error(constraint, num_variables) is None);
        assert(normalized_from(merged, constraint));
        assert forall|values: Seq<i64>| values.len() >= num_variables implies #[trigger] exact_lhs(
            merged.spec_terms(),
            values,
            merged.spec_terms().len() as int,
        ) == exact_lhs(constraint.spec_terms(), values, constraint.spec_terms().len() as int) by {
            law_normalized_constraint_equivalent(constraint, num_variables, merged, values);
        }
        assert forall|values: Seq<i64>|
            values.len() >= num_variables && satisfied_result(merged, values) is Ok && satisfied_result(constraint, values)
                is Ok implies #[trigger] satisfied_result(merged, values) == satisfied_result(constraint, values) by {
            law_normalized_constraint_equivalent(constraint, num_variables, merged, values);
        }
    }
    Ok(merged)
}

/// The relation holds between the two sides.
pub open spec fn compares(cmp: Comparison, lhs: int, rhs: int) -> bool {
    match cmp {
        Comparison::Le => lhs <= rhs,
        Comparison::Ge => lhs >= rhs,
        Comparison::Eq => lhs == rhs,
    }
}

impl LinearConstraint {
    /// The terms `(variable, coefficient)`.
    pub closed spec fn spec_terms(&self) -> Seq<(usize, i64)> {
        self.terms@
    }

    /// The relation.
    pub closed spec fn spec_comparison(&self) -> Comparison {
        self.comparison
    }

    /// The right-hand side.
    pub closed spec fn spec_rhs(&self) -> i64 {
        self.rhs
    }

    fn new(terms: Vec<(usize, i64)>, comparison: Comparison, rhs: i64) -> (r: Self)
        ensures
            r.spec_terms() == terms@,
            r.spec_comparison() == comparison,
            r.spec_rhs() == rhs,
    {
        LinearConstraint { terms, comparison, rhs }
    }

    /// The constraint `terms <= rhs`.
    pub fn le(terms: Vec<(usize, i64)>, rhs: i64) -> (r: Self)
        ensures
            r.spec_terms() == terms@,
            r.spec_comparison() == Comparison::Le,
            r.spec_rhs() == rhs,
    {
        Self::new(terms, Comparison::Le, rhs)
    }

    /// The constraint `terms >= rhs`.
    pub fn ge(terms: Vec<(usize, i64)>, rhs: i64) -> (r: Self)
        ensures
            r.spec_terms() == terms@,
            r.spec_comparison() == Comparison::Ge,
            r.spec_rhs() == rhs,
    {
        Self::new(terms, Comparison::Ge, rhs)
    }

    /// The constraint `terms == rhs`.
    pub fn eq(terms: Vec<(usize, i64)>, rhs: i64) -> (r: Self)
        ensures
            r.spec_terms() == terms@,
            r.spec_comparison() == Comparison::Eq,
            r.spec_rhs() == rhs,
    {
        Self::new(terms, Comparison::Eq, rhs)
    }

    /// The terms.
    pub fn terms(&self) -> (r: &[(usize, i64)])
        ensures
            r@ == self.spec_terms(),
    {
        self.terms.as_slice()
    }

    /// The relation.
    pub fn comparison(&self) -> (r: Comparison)
        ensures
            r == self.spec_comparison(),
    {
        self.comparison
    }

    /// The right-hand side.
    pub fn rhs(&self) -> (r: i64)
        ensures
            r == self.spec_rhs(),
    {
        self.rhs
    }

    /// The left-hand side under the values, with errors as in [`lhs_fold`].
    pub fn evaluate_lhs(&self, values: &[i64]) -> (r: Result<i64, EvaluationError>)
        ensures
            r == (match lhs_fold(self.spec_terms(), values@, self.spec_terms().len() as int) {
                Ok(s) => Ok::<i64, EvaluationError>(s as i64),
                Err(e) => Err(e),
            }),
    {
        let mut sum: i64 = 0;
        let mut k: usize = 0;
        while k < self.terms.len()
            invariant
                k <= self.terms@.len(),
                lhs_fold(self.terms@, values@, k as int) == Ok::<int, EvaluationError>(sum as int),
            decreases self.terms.len() - k,
        {
            let (variable, coefficient) = self.terms[k];
            assert(self.terms@[k as int] == (variable, coefficient));
            if variable >= values.len() {
                proof { lemma_lhs_fold_err_stays(self.terms@, values@, k as int + 1, self.terms@.len() as int); }
                return Err(EvaluationError::InvalidConfiguration);
            }
            let value = values[variable];
            let a: i128 = coefficient as i128;
            let b: i128 = value as i128;
            assert(-9223372036854775808 * 9223372036854775808 <= a * b <= 9223372036854775808 * 9223372036854775808) by (nonlinear_arith)
                requires -9223372036854775808 <= a <= 9223372036854775807, -9223372036854775808 <= b <= 9223372036854775807;
            let p: i128 = a * b;
            if p < -9223372036854775808i128 || p > 9223372036854775807i128 {
                proof { lemma_lhs_fold_err_stays(self.terms@, values@, k as int + 1, self.terms@.len() as int); }
                return Err(EvaluationError::IntegerOverflow);
            }
            let s: i128 = sum as i128 + p;
            if s < -9223372036854775808i128 || s > 9223372036854775807i128 {
                proof { lemma_lhs_fold_err_stays(self.terms@, values@, k as int + 1, self.terms@.len() as int); }
                return Err(EvaluationError::IntegerOverflow);
            }
            sum = s as i64;
            k += 1;
        }
        Ok(sum)
    }

    /// Whether the constraint holds under the values, with the errors of
    /// [`LinearConstraint::evaluate_lhs`].
    pub fn is_satisfied(&self, values: &[i64]) -> (r: Result<bool, EvaluationError>)
        ensures
            r == (match lhs_fold(self.spec_terms(), values@, self.spec_terms().len() as int) {
                Ok(s) => Ok::<bool, EvaluationError>(compares(self.spec_comparison(), s, self.spec_rhs() as int)),
                Err(e) => Err(e),
            }),
    {
        let lhs = match self.evaluate_lhs(values) {
            Ok(v) => v,
            Err(e) => return Err(e),
        };
        Ok(match self.comparison {
            Comparison::Le => lhs <= self.rhs,
            Comparison::Ge => lhs >= self.rhs,
            Comparison::Eq => lhs == self.rhs,
        })
    }

    /// The variables of the terms, in order.
    pub fn variables(&self) -> (r: Vec<usize>)
        ensures
            r@.len() == self.spec_terms().len(),
            forall|i: int| 0 <= i < r@.len() ==> #[trigger] r@[i] == self.spec_terms()[i].0,
    {
        let mut r: Vec<usize> = Vec::new();
        let mut k: usize = 0;
        while k < self.terms.len()
            invariant
                k <= self.terms@.len(),
                r@.len() == k,
                forall|i: int| 0 <= i < k ==> #[trigger] r@[i] == self.terms@[i].0,
            decreases self.terms.len() - k,
        {
            r.push(self.terms[k].0);
            k += 1;
        }
        r
    }
}

/// Once the fold fails it stays failed with the same error.
pub proof fn lemma_lhs_fold_err_stays(terms: Seq<(usize, i64)>, values: Seq<i64>, a: int, b: int)
    requires
        0 <= a <= b,
        lhs_fold(terms, values, a) is Err,
    ensures
        lhs_fold(terms, values, b) == lhs_fold(terms, values, a),
    decreases b - a,
{
    if a < b {
        lemma_lhs_fold_err_stays(terms, values, a, b - 1);
    }
}


/// Every term of the constraint names a variable below `n`.
pub open spec fn terms_in_range(c: LinearConstraint, n: usize) -> bool {
    forall|i: int| 0 <= i < c.spec_terms().len() ==> (#[trigger] c.spec_terms()[i]).0 < n
}

/// Merging the coefficients of some variable of the constraint overflows.
pub open spec fn merge_overflows(c: LinearConstraint) -> bool {
    exists|v: usize| occurs_in(c.spec_terms(), v)
        && #[trigger] var_total(c.spec_terms(), v, c.spec_terms().len() as int) is None
}

/// The error [`normalize_constraint`] reports for the constraint, if any.
pub open spec fn normalize_error(c: LinearConstraint, n: usize) -> Option<ConstructionError> {
    if !terms_in_range(c, n) {
        Some(ConstructionError::OutOfRange)
    } else if merge_overflows(c) {
        Some(ConstructionError::IntegerOverflow)
    } else {
        None
    }
}

/// `out` is `c` with its terms merged.
pub open spec fn normalized_from(out: LinearConstraint, c: LinearConstraint) -> bool {
    &&& out.spec_comparison() == c.spec_comparison()
    &&& out.spec_rhs() == c.spec_rhs()
    &&& normalized_terms(out.spec_terms(), c.spec_terms())
}

/// The constraints of a program over `num_variables` variables, each with
/// its terms merged as [`normalize_constraint`] does; the error of the
/// first constraint that cannot be merged.
pub fn normalize_constraints(constraints: Vec<LinearConstraint>, num_variables: usize)
    -> (r: Result<Vec<LinearConstraint>, ConstructionError>)
    ensures
        r is Ok <==> forall|i: int| 0 <= i < constraints@.len() ==> (#[trigger] normalize_error(constraints@[i], num_variables)) is None,
        r matches Ok(out) ==> out@.len() == constraints@.len()
            && forall|i: int| 0 <= i < out@.len() ==> normalized_from(#[trigger] out@[i], constraints@[i]),
        r matches Ok(out) ==> forall|i: int, values: Seq<i64>|
            0 <= i < out@.len() && values.len() >= num_variables && satisfied_result(out@[i], values) is Ok
                && satisfied_result(constraints@[i], values) is Ok ==> #[trigger] satisfied_result(out@[i], values)
                == satisfied_result(constraints@[i], values),
        r matches Err(e) ==> exists|i: int| 0 <= i < constraints@.len()
            && normalize_error(#[trigger] constraints@[i], num_variables) == Some(e)
            && forall|j: int| 0 <= j < i ==> (#[trigger] normalize_error(constraints@[j], num_variables)) is None,
{
    let ghost all = constraints@;
    let total = constraints.len();
    assert(all.len() == total);
    let mut rest = constraints;
    let mut out: Vec<LinearConstraint> = Vec::new();
    let mut k: usize = 0;
    while rest.len() > 0
        invariant
            k <= all.len() <= usize::MAX,
            all == constraints@,
            rest@ == all.skip(k as int),
            out@.len() == k,
            forall|i: int| 0 <= i < k ==> (#[trigger] normalize_error(all[i], num_variables)) is None,
            forall|i: int| 0 <= i < k ==> normalized_from(#[trigger] out@[i], all[i]),
        decreases rest.len(),
    {
        let c = rest.remove(0);
        assert(c == all[k as int]);
        match normalize_constraint(c, num_variables, k) {
            Ok(n) => {
                out.push(n);
            },
            Err(e) => {
                assert(normalize_error(all[k as int], num_variables) == Some(e));
                return Err(e);
            },
        }
        k += 1;
        assert(rest@ == all.skip(k as int));
    }
    assert(k == all.len());
    proof {
        assert forall|i: int, values: Seq<i64>|
            0 <= i < out@.len() && values.len() >= num_variables && satisfied_result(out@[i], values) is Ok
                && satisfied_result(all[i], values) is Ok implies #[trigger] satisfied_result(out@[i], values)
                == satisfied_result(all[i], values) by {
            assert(normalize_error(all[i], num_variables) is None);
            assert(normalized_from(out@[i], all[i]));
            law_normalized_constraint_equivalent(all[i], num_variables, out@[i], values);
        }
    }
    Ok(out)
}

/// Whether one constraint holds, with the errors of [`lhs_fold`].
pub open spec fn satisfied_result(c: LinearConstraint, values: Seq<i64>) -> Result<bool, EvaluationError> {
    match lhs_fold(c.spec_terms(), values, c.spec_terms().len() as int) {
        Ok(s) => Ok(compares(c.spec_comparison(), s, c.spec_rhs() as int)),
        Err(e) => Err(e),
    }
}

/// The first `k` constraints checked in order: the first error or the
/// first violated constraint decides, else all hold.
pub open spec fn constraints_result(cs: Seq<LinearConstraint>, values: Seq<i64>, k: int) -> Result<bool, EvaluationError>
    decreases k,
{
    if k <= 0 {
        Ok(true)
    } else {
        match constraints_result(cs, values, k - 1) {
            Ok(b) => if b { satisfied_result(cs[k - 1], values) } else { Ok(false) },
            Err(e) => Err(e),
        }
    }
}

/// Feasibility of an assignment: an invalid-configuration error for a
/// wrong number of values, `false` when a value leaves its variable's
/// bounds, else the constraints checked in order.
pub open spec fn feasibility(variables: Seq<IntegerVariable>, cs: Seq<LinearConstraint>, values: Seq<i64>) -> Result<bool, EvaluationError> {
    if values.len() != variables.len() {
        Err(EvaluationError::InvalidConfiguration)
    } else if exists|i: int| 0 <= i < values.len() && !(#[trigger] variables[i]).spec_contains(values[i] as int) {
        Ok(false)
    } else {
        constraints_result(cs, values, cs.len() as int)
    }
}

/// Once decided, the checked prefix keeps its answer.
pub proof fn lemma_constraints_result_stays(cs: Seq<LinearConstraint>, values: Seq<i64>, a: int, b: int)
    requires
        0 <= a <= b,
        constraints_result(cs, values, a) != Ok::<bool, EvaluationError>(true),
    ensures
        constraints_result(cs, values, b) == constraints_result(cs, values, a),
    decreases b - a,
{
    if a < b {
        lemma_constraints_result_stays(cs, values, a, b - 1);
    }
}

/// Whether the values are a feasible assignment of an integer program with
/// these variables and constraints, as [`feasibility`] says.
pub fn is_feasible(variables: &[IntegerVariable], constraints: &[LinearConstraint], values: &[i64])
    -> (r: Result<bool, EvaluationError>)
    ensures
        r == feasibility(variables@, constraints@, values@),
{
    if values.len() != variables.len() {
        return Err(EvaluationError::InvalidConfiguration);
    }
    let mut i: usize = 0;
    while i < values.len()
        invariant
            values@.len() == variables@.len(),
            i <= values@.len(),
            forall|j: int| 0 <= j < i ==> (#[trigger] variables@[j]).spec_contains(values@[j] as int),
        decreases values.len() - i,
    {
        if !variables[i].contains(values[i]) {
            return Ok(false);
        }
        i += 1;
    }
    assert(!exists|j: int| 0 <= j < values@.len() && !(#[trigger] variables@[j]).spec_contains(values@[j] as int));
    let mut k: usize = 0;
    while k < constraints.len()
        invariant
            k <= constraints@.len(),
            values@.len() == variables@.len(),
            forall|j: int| 0 <= j < values@.len() ==> (#[trigger] variables@[j]).spec_contains(values@[j] as int),
            constraints_result(constraints@, values@, k as int) == Ok::<bool, EvaluationError>(true),
        decreases constraints.len() - k,
    {
        let res = constraints[k].is_satisfied(values);
        assert(res == satisfied_result(constraints@[k as int], values@));
        match res {
            Ok(b) => {
                if !b {
                    proof { lemma_constraints_result_stays(constraints@, values@, k as int + 1, constraints@.len() as int); }
                    return Ok(false);
                }
            },
            Err(e) => {
                proof { lemma_constraints_result_stays(constraints@, values@, k as int + 1, constraints@.len() as int); }
                return Err(e);
            },
        }
        k += 1;
    }
    Ok(true)
}

/// Number of terms over the first `k` constraints.
pub open spec fn terms_count(cs: Seq<LinearConstraint>, k: int) -> int
    decreases k,
{
    if k <= 0 { 0 } else { terms_count(cs, k - 1) + cs[k - 1].spec_terms().len() }
}

proof fn lemma_terms_count_mono(cs: Seq<LinearConstraint>, a: int, b: int)
    requires
        0 <= a <= b,
    ensures
        terms_count(cs, a) <= terms_count(cs, b),
    decreases b - a,
{
    if a < b {
        lemma_terms_count_mono(cs, a, b - 1);
    }
}

/// Number of nonzero coefficients over all constraints.
pub fn num_nonzeros(constraints: &[LinearConstraint]) -> (r: usize)
    requires
        terms_count(constraints@, constraints@.len() as int) <= usize::MAX,
    ensures
        r == terms_count(constraints@, constraints@.len() as int),
{
    let mut total: usize = 0;
    let mut k: usize = 0;
    while k < constraints.len()
        invariant
            k <= constraints@.len(),
            total == terms_count(constraints@, k as int),
            terms_count(constraints@, constraints@.len() as int) <= usize::MAX,
        decreases constraints.len() - k,
    {
        proof { lemma_terms_count_mono(constraints@, k as int + 1, constraints@.len() as int); }
        total = total + constraints[k].terms().len();
        k += 1;
    }
    total
}


/// The left-hand side over the first `k` terms in exact integer arithmetic
/// (a term whose variable has no value counts 0).
pub open spec fn exact_lhs(terms: Seq<(usize, i64)>, values: Seq<i64>, k: int) -> int
    decreases k,
{
    if k <= 0 {
        0
    } else {
        let t = terms[k - 1];
        exact_lhs(terms, values, k - 1) + (if t.0 < values.len() { t.1 as int * values[t.0 as int] as int } else { 0 })
    }
}

/// Sum of the coefficients of variable `v` among the first `k` terms, in
/// exact integer arithmetic.
pub open spec fn coefficient_sum(terms: Seq<(usize, i64)>, v: int, k: int) -> int
    decreases k,
{
    if k <= 0 {
        0
    } else {
        coefficient_sum(terms, v, k - 1) + (if terms[k - 1].0 as int == v { terms[k - 1].1 as int } else { 0 })
    }
}

/// `sum over v < n of coefficient_sum(terms, v, k) * values[v]`.
pub open spec fn lhs_by_variable(terms: Seq<(usize, i64)>, values: Seq<i64>, k: int, n: nat) -> int
    decreases n,
{
    if n == 0 {
        0
    } else {
        lhs_by_variable(terms, values, k, (n - 1) as nat) + coefficient_sum(terms, n - 1, k) * values[n - 1] as int
    }
}

/// With no terms, every variable's coefficient sum is 0.
proof fn lemma_lhs_by_variable_empty(terms: Seq<(usize, i64)>, values: Seq<i64>, n: nat)
    ensures
        lhs_by_variable(terms, values, 0, n) == 0,
    decreases n,
{
    if n > 0 {
        lemma_lhs_by_variable_empty(terms, values, (n - 1) as nat);
    }
}

/// One more term adds its product to the variable-wise sum when its
/// variable is below `n`.
proof fn lemma_lhs_by_variable_step(terms: Seq<(usize, i64)>, values: Seq<i64>, k: int, n: nat)
    requires
        1 <= k <= terms.len(),
    ensures
        lhs_by_variable(terms, values, k, n) == lhs_by_variable(terms, values, k - 1, n) + (if (terms[k - 1].0 as int)
            < n {
            terms[k - 1].1 as int * values[terms[k - 1].0 as int] as int
        } else {
            0
        }),
    decreases n,
{
    if n > 0 {
        lemma_lhs_by_variable_step(terms, values, k, (n - 1) as nat);
        let v = n - 1;
        let w = terms[k - 1].0 as int;
        let c = terms[k - 1].1 as int;
        let a = coefficient_sum(terms, v, k - 1);
        let x = values[v] as int;
        let e: int = if w == v { c } else { 0 };
        assert(coefficient_sum(terms, v, k) == a + e);
        assert((a + e) * x == a * x + e * x) by (nonlinear_arith);
        if w == v {
            assert(e * x == c * values[w] as int);
        } else {
            assert(e * x == 0);
        }
    }
}

/// The exact left-hand side regrouped by variable, when every variable is
/// below `n` and has a value.
proof fn lemma_exact_lhs_by_variable(terms: Seq<(usize, i64)>, values: Seq<i64>, k: int, n: nat)
    requires
        0 <= k <= terms.len(),
        n <= values.len(),
        forall|i: int| 0 <= i < k ==> ((#[trigger] terms[i]).0 as int) < n,
    ensures
        exact_lhs(terms, values, k) == lhs_by_variable(terms, values, k, n),
    decreases k,
{
    if k == 0 {
        lemma_lhs_by_variable_empty(terms, values, n);
    } else {
        lemma_exact_lhs_by_variable(terms, values, k - 1, n);
        lemma_lhs_by_variable_step(terms, values, k, n);
        assert((terms[k - 1].0 as int) < n);
    }
}

/// Equal coefficient sums for every variable below `n` give equal
/// variable-wise sums.
proof fn lemma_lhs_by_variable_eq(a: Seq<(usize, i64)>, ka: int, b: Seq<(usize, i64)>, kb: int, values: Seq<i64>, n: nat)
    requires
        forall|v: int| 0 <= v < n ==> #[trigger] coefficient_sum(a, v, ka) == coefficient_sum(b, v, kb),
    ensures
        lhs_by_variable(a, values, ka, n) == lhs_by_variable(b, values, kb, n),
    decreases n,
{
    if n > 0 {
        lemma_lhs_by_variable_eq(a, ka, b, kb, values, (n - 1) as nat);
        assert(coefficient_sum(a, n - 1, ka) == coefficient_sum(b, n - 1, kb));
    }
}

/// A checked merged coefficient is the exact one.
proof fn lemma_var_total_exact(terms: Seq<(usize, i64)>, v: usize, k: int)
    requires
        var_total(terms, v, k) is Some,
    ensures
        var_total(terms, v, k) == Some(coefficient_sum(terms, v as int, k)),
    decreases k,
{
    if k > 0 {
        lemma_var_total_exact(terms, v, k - 1);
    }
}

/// A variable named by none of the first `k` terms has coefficient sum 0.
proof fn lemma_coefficient_sum_absent(terms: Seq<(usize, i64)>, v: int, k: int)
    requires
        forall|i: int| 0 <= i < k ==> (#[trigger] terms[i]).0 as int != v,
    ensures
        coefficient_sum(terms, v, k) == 0,
    decreases k,
{
    if k > 0 {
        lemma_coefficient_sum_absent(terms, v, k - 1);
    }
}

/// With strictly increasing variables, the coefficient sum of the variable
/// of term `i` is that term's coefficient.
proof fn lemma_coefficient_sum_single(terms: Seq<(usize, i64)>, i: int, k: int)
    requires
        0 <= i < k <= terms.len(),
        forall|a: int, b: int| 0 <= a < b < terms.len() ==> (#[trigger] terms[a]).0 < (#[trigger] terms[b]).0,
    ensures
        coefficient_sum(terms, terms[i].0 as int, k) == terms[i].1 as int,
    decreases k,
{
    let v = terms[i].0 as int;
    if k - 1 == i {
        assert forall|j: int| 0 <= j < k - 1 implies (#[trigger] terms[j]).0 as int != v by {
            assert(terms[j].0 < terms[i].0);
        }
        lemma_coefficient_sum_absent(terms, v, k - 1);
    } else {
        lemma_coefficient_sum_single(terms, i, k - 1);
        assert(terms[i].0 < terms[k - 1].0);
    }
}

/// A checked left-hand side that succeeds is the exact one.
proof fn lemma_lhs_fold_exact(terms: Seq<(usize, i64)>, values: Seq<i64>, k: int)
    requires
        lhs_fold(terms, values, k) is Ok,
    ensures
        lhs_fold(terms, values, k) == Ok::<int, EvaluationError>(exact_lhs(terms, values, k)),
    decreases k,
{
    if k > 0 {
        if lhs_fold(terms, values, k - 1) is Err {
            lemma_lhs_fold_err_stays(terms, values, k - 1, k);
        }
        lemma_lhs_fold_exact(terms, values, k - 1);
    }
}

/// Merging the terms of a constraint keeps what it says. For a constraint
/// `c` over `n` variables that [`normalize_constraint`] accepts, and its
/// merged form `out`, both sides have the same exact value under every
/// assignment of at least `n` values; so whenever both are evaluated without
/// an error, they are satisfied alike.
pub proof fn law_normalized_constraint_equivalent(c: LinearConstraint, n: usize, out: LinearConstraint, values: Seq<i64>)
    requires
        normalize_error(c, n) is None,
        normalized_from(out, c),
        values.len() >= n,
    ensures
        exact_lhs(out.spec_terms(), values, out.spec_terms().len() as int) == exact_lhs(
            c.spec_terms(),
            values,
            c.spec_terms().len() as int,
        ),
        satisfied_result(out, values) is Ok && satisfied_result(c, values) is Ok ==> satisfied_result(out, values)
            == satisfied_result(c, values),
{
    let src = c.spec_terms();
    let t = out.spec_terms();
    let nn = n as nat;
    assert forall|i: int| 0 <= i < src.len() implies ((#[trigger] src[i]).0 as int) < nn by {
        assert(src[i].0 < n);
    }
    assert forall|i: int| 0 <= i < t.len() implies ((#[trigger] t[i]).0 as int) < nn by {
        assert(occurs_in(src, t[i].0));
        let j = choose|j: int| 0 <= j < src.len() && (#[trigger] src[j]).0 == t[i].0;
        assert(src[j].0 < n);
    }
    assert forall|v: int| 0 <= v < nn implies #[trigger] coefficient_sum(t, v, t.len() as int) == coefficient_sum(
        src,
        v,
        src.len() as int,
    ) by {
        let vu = v as usize;
        if exists|i: int| 0 <= i < t.len() && (#[trigger] t[i]).0 == vu {
            let i = choose|i: int| 0 <= i < t.len() && (#[trigger] t[i]).0 == vu;
            lemma_coefficient_sum_single(t, i, t.len() as int);
            assert(var_total(src, t[i].0, src.len() as int) == Some(t[i].1 as int));
            lemma_var_total_exact(src, vu, src.len() as int);
        } else {
            assert forall|i: int| 0 <= i < t.len() implies (#[trigger] t[i]).0 as int != v by {
                assert(t[i].0 != vu);
            }
            lemma_coefficient_sum_absent(t, v, t.len() as int);
            if occurs_in(src, vu) {
                if var_total(src, vu, src.len() as int) is None {
                    assert(merge_overflows(c));
                }
                lemma_var_total_exact(src, vu, src.len() as int);
                assert(var_total(src, vu, src.len() as int) == Some(0int));
            } else {
                assert forall|i: int| 0 <= i < src.len() implies (#[trigger] src[i]).0 as int != v by {
                    if src[i].0 == vu {
                        assert(occurs_in(src, vu));
                    }
                }
                lemma_coefficient_sum_absent(src, v, src.len() as int);
            }
        }
    }
    lemma_exact_lhs_by_variable(src, values, src.len() as int, nn);
    lemma_exact_lhs_by_variable(t, values, t.len() as int, nn);
    lemma_lhs_by_variable_eq(t, t.len() as int, src, src.len() as int, values, nn);
    if lhs_fold(t, values, t.len() as int) is Ok && lhs_fold(src, values, src.len() as int) is Ok {
        lemma_lhs_fold_exact(t, values, t.len() as int);
        lemma_lhs_fold_exact(src, values, src.len() as int);
    }
}

} // verus!
