//! Value types that an evaluation returns.
use vstd::prelude::*;
use vstd::string::StringSliceAdditionalSpecFns;

verus! {

/// Value of a maximization problem: `Some(v)` for a feasible configuration
/// of objective `v`, `None` for an infeasible one.
#[derive(Debug, Clone, Copy, PartialEq, Eq)]
pub struct Max<T>(pub Option<T>);

/// Value of a minimization problem: `Some(v)` for a feasible configuration
/// of objective `v`, `None` for an infeasible one.
#[derive(Debug, Clone, Copy, PartialEq, Eq)]
pub struct Min<T>(pub Option<T>);

/// Value of a feasibility (decision) problem.
#[derive(Debug, Clone, Copy, PartialEq, Eq)]
pub struct Or(pub bool);

/// Why a configuration could not be evaluated.
#[derive(Debug, Clone, Copy, PartialEq, Eq)]
pub enum EvaluationError {
    /// The configuration has the wrong number of variables.
    InvalidConfiguration,
    /// The objective does not fit in the value type.
    IntegerOverflow,
}

/// Why an instance could not be built.
#[derive(Debug, Clone, Copy, PartialEq, Eq)]
pub enum ConstructionError {
    /// A list does not have the length the instance needs.
    LengthMismatch,
    /// An index or parameter is out of its allowed range.
    OutOfRange,
    /// A value breaks a rule of the problem.
    InvalidValue,
    /// An integer computed from the inputs leaves its type.
    IntegerOverflow,
}

/// Size of a configuration together with whether it is feasible.
#[derive(Debug, Clone, Copy, PartialEq, Eq)]
pub struct SolutionSize<T> {
    /// Objective value of the configuration.
    pub size: T,
    /// Whether the configuration satisfies every constraint.
    pub is_valid: bool,
}

impl<T> SolutionSize<T> {
    /// Pairs an objective value with its feasibility.
    pub fn new(size: T, is_valid: bool) -> (r: Self)
        ensures
            r.size == size,
            r.is_valid == is_valid,
    {
        SolutionSize { size, is_valid }
    }
}

/// Which direction of the objective is better.
#[derive(Debug, Clone, Copy, PartialEq, Eq)]
pub enum EnergyMode {
    /// Maximization.
    LargerSizeIsBetter,
    /// Minimization.
    SmallerSizeIsBetter,
}

impl EnergyMode {
    /// Whether larger objective values are better.
    pub fn is_maximization(&self) -> (r: bool)
        ensures
            r == (*self is LargerSizeIsBetter),
    {
        match self {
            EnergyMode::LargerSizeIsBetter => true,
            EnergyMode::SmallerSizeIsBetter => false,
        }
    }

    /// Whether smaller objective values are better.
    pub fn is_minimization(&self) -> (r: bool)
        ensures
            r == (*self is SmallerSizeIsBetter),
    {
        match self {
            EnergyMode::LargerSizeIsBetter => false,
            EnergyMode::SmallerSizeIsBetter => true,
        }
    }
}

/// A constraint on a few variables, given as the table of allowed joint values:
/// entry `k` of `spec` tells whether the assignment whose mixed-radix index
/// (first variable most significant) is `k` is allowed.
#[derive(Debug, Clone)]
pub struct LocalConstraint {
    /// Number of values each variable takes.
    pub num_flavors: usize,
    /// The constrained variables.
    pub variables: Vec<usize>,
    /// Allowed assignments.
    pub spec: Vec<bool>,
}

impl LocalConstraint {
    /// Builds a constraint from its parts.
    pub fn new(num_flavors: usize, variables: Vec<usize>, spec: Vec<bool>) -> (r: Self)
        ensures
            r.num_flavors == num_flavors,
            r.variables@ == variables@,
            r.spec@ == spec@,
    {
        LocalConstraint { num_flavors, variables, spec }
    }
}

/// A local objective term, given as the table of its values.
#[derive(Debug, Clone)]
pub struct LocalSolutionSize<T> {
    /// Number of values each variable takes.
    pub num_flavors: usize,
    /// The variables the term depends on.
    pub variables: Vec<usize>,
    /// Value of the term for each joint assignment.
    pub spec: Vec<T>,
}

impl<T> LocalSolutionSize<T> {
    /// Builds an objective term from its parts.
    pub fn new(num_flavors: usize, variables: Vec<usize>, spec: Vec<T>) -> (r: Self)
        ensures
            r.num_flavors == num_flavors,
            r.variables@ == variables@,
            r.spec@ == spec@,
    {
        LocalSolutionSize { num_flavors, variables, spec }
    }
}

/// Named size parameters of an instance.
#[derive(Debug, Clone)]
pub struct ProblemSize {
    /// `(name, value)` pairs.
    pub components: Vec<(&'static str, usize)>,
}

/// The two names have the same bytes.
pub open spec fn same_name(a: &str, b: &str) -> bool {
    a.spec_bytes() == b.spec_bytes()
}

/// Byte-wise comparison of two names.
pub fn names_equal(a: &str, b: &str) -> (r: bool)
    ensures
        r == same_name(a, b),
{
    let x = a.as_bytes();
    let y = b.as_bytes();
    if x.len() != y.len() {
        return false;
    }
    let mut i: usize = 0;
    while i < x.len()
        invariant
            x@ == a.spec_bytes(),
            y@ == b.spec_bytes(),
            x@.len() == y@.len(),
            i <= x@.len(),
            forall|j: int| 0 <= j < i ==> x@[j] == y@[j],
        decreases x.len() - i,
    {
        if x[i] != y[i] {
            return false;
        }
        i += 1;
    }
    assert(x@ =~= y@);
    true
}

impl ProblemSize {
    /// Builds the size record from `(name, value)` pairs.
    pub fn new(components: Vec<(&'static str, usize)>) -> (r: Self)
        ensures
            r.components@ == components@,
    {
        ProblemSize { components }
    }

    /// The value of the first parameter called `name`, if any.
    pub fn get(&self, name: &str) -> (r: Option<usize>)
        ensures
            r matches Some(v) ==> exists|k: int|
                0 <= k < self.components@.len() && same_name(self.components@[k].0, name)
                    && self.components@[k].1 == v
                    && forall|j: int| 0 <= j < k ==> !same_name(#[trigger] self.components@[j].0, name),
            r is None ==> forall|j: int|
                0 <= j < self.components@.len() ==> !same_name(#[trigger] self.components@[j].0, name),
    {
        let mut i: usize = 0;
        while i < self.components.len()
            invariant
                i <= self.components@.len(),
                forall|j: int| 0 <= j < i ==> !same_name(#[trigger] self.components@[j].0, name),
            decreases self.components.len() - i,
        {
            if names_equal(self.components[i].0, name) {
                return Some(self.components[i].1);
            }
            i += 1;
        }
        None
    }
}

} // verus!
