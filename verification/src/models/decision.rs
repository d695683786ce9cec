//! Decision versions of optimization problems: "is there a configuration
//! whose objective meets the bound?"
use vstd::prelude::*;
use crate::types::{EvaluationError, Max, Min, Or};

verus! {

/// The name under which an optimization problem's decision version is known.
pub trait DecisionProblemMeta {
    /// The decision problem's name.
    fn decision_name() -> &'static str;
}

/// A maximization value meets a lower bound: it is feasible and at least
/// the bound.
pub open spec fn max_meets(value: Max<i64>, bound: i64) -> bool {
    value.0 matches Some(v) && v >= bound
}

/// A minimization value meets an upper bound: it is feasible and at most
/// the bound.
pub open spec fn min_meets(value: Min<i64>, bound: i64) -> bool {
    value.0 matches Some(v) && v <= bound
}

impl Max<i64> {
    /// Whether the value is feasible and at least `bound`.
    pub fn meets_bound(&self, bound: &i64) -> (r: bool)
        ensures
            r == max_meets(*self, *bound),
    {
        match self.0 {
            Some(v) => v >= *bound,
            None => false,
        }
    }
}

impl Min<i64> {
    /// Whether the value is feasible and at most `bound`.
    pub fn meets_bound(&self, bound: &i64) -> (r: bool)
        ensures
            r == min_meets(*self, *bound),
    {
        match self.0 {
            Some(v) => v <= *bound,
            None => false,
        }
    }
}

/// An optimization problem paired with a bound on its objective.
#[derive(Debug, Clone)]
pub struct Decision<P> {
    inner: P,
    bound: i64,
}

/// The inputs of a decision instance: the optimization instance and the bound.
#[derive(Debug, Clone)]
pub struct DecisionCreateSpec<P> {
    /// The optimization instance.
    pub inner: P,
    /// The bound on its objective.
    pub bound: i64,
}

impl<P> DecisionCreateSpec<P> {
    /// The decision instance these inputs describe.
    pub fn into_decision(self) -> (r: Decision<P>)
        ensures
            r.spec_inner() == self.inner,
            r.spec_bound() == self.bound,
    {
        Decision::new(self.inner, self.bound)
    }
}

impl<P> Decision<P> {
    /// The optimization instance.
    pub closed spec fn spec_inner(&self) -> P {
        self.inner
    }

    /// The bound.
    pub closed spec fn spec_bound(&self) -> i64 {
        self.bound
    }

    /// Pairs an instance with a bound.
    pub fn new(inner: P, bound: i64) -> (r: Self)
        ensures
            r.spec_inner() == inner,
            r.spec_bound() == bound,
    {
        Decision { inner, bound }
    }

    /// The optimization instance.
    pub fn inner(&self) -> (r: &P)
        ensures
            *r == self.spec_inner(),
    {
        &self.inner
    }

    /// The bound.
    pub fn bound(&self) -> (r: &i64)
        ensures
            *r == self.spec_bound(),
    {
        &self.bound
    }

    /// The decision answer for a configuration whose maximization value the
    /// inner problem gave: errors pass through, else whether the value meets
    /// the bound.
    pub fn evaluate_max(&self, inner_value: Result<Max<i64>, EvaluationError>) -> (r: Result<Or, EvaluationError>)
        ensures
            r == (match inner_value {
                Ok(v) => Ok::<Or, EvaluationError>(Or(max_meets(v, self.spec_bound()))),
                Err(e) => Err(e),
            }),
    {
        match inner_value {
            Ok(v) => Ok(Or(v.meets_bound(&self.bound))),
            Err(e) => Err(e),
        }
    }

    /// The decision answer for a configuration whose minimization value the
    /// inner problem gave: errors pass through, else whether the value meets
    /// the bound.
    pub fn evaluate_min(&self, inner_value: Result<Min<i64>, EvaluationError>) -> (r: Result<Or, EvaluationError>)
        ensures
            r == (match inner_value {
                Ok(v) => Ok::<Or, EvaluationError>(Or(min_meets(v, self.spec_bound()))),
                Err(e) => Err(e),
            }),
    {
        match inner_value {
            Ok(v) => Ok(Or(v.meets_bound(&self.bound))),
            Err(e) => Err(e),
        }
    }
}

impl<P: Clone> Decision<P> {
    /// Reduction to the optimization problem: solve the inner instance,
    /// then compare its optimum with the bound.
    pub fn reduce_to_aggregate(&self) -> (r: DecisionToOptimizationResult<P>)
        ensures
            r.spec_bound() == self.spec_bound(),
            cloned::<P>(self.spec_inner(), r.spec_target()),
    {
        DecisionToOptimizationResult { target: self.inner.clone(), bound: self.bound }
    }

    /// Reduction to the optimization problem for witnesses: a configuration
    /// of the inner instance is one of the decision instance.
    pub fn reduce_to(&self) -> (r: DecisionToOptimizationWitnessResult<P>)
        ensures
            cloned::<P>(self.spec_inner(), r.spec_target()),
    {
        DecisionToOptimizationWitnessResult { target: self.inner.clone() }
    }
}

/// The optimization instance behind a decision instance, with the bound
/// that turns its optimum into the decision answer.
#[derive(Debug, Clone)]
pub struct DecisionToOptimizationResult<P> {
    target: P,
    bound: i64,
}

impl<P> DecisionToOptimizationResult<P> {
    /// The bound.
    pub closed spec fn spec_bound(&self) -> i64 {
        self.bound
    }

    /// The optimization instance.
    pub closed spec fn spec_target(&self) -> P {
        self.target
    }

    /// The optimization instance.
    pub fn target_problem(&self) -> (r: &P)
        ensures
            *r == self.spec_target(),
    {
        &self.target
    }

    /// The decision answer from the optimum of a maximization problem.
    pub fn extract_value_max(&self, target_value: Max<i64>) -> (r: Or)
        ensures
            r == Or(max_meets(target_value, self.spec_bound())),
    {
        Or(target_value.meets_bound(&self.bound))
    }

    /// The decision answer from the optimum of a minimization problem.
    pub fn extract_value_min(&self, target_value: Min<i64>) -> (r: Or)
        ensures
            r == Or(min_meets(target_value, self.spec_bound())),
    {
        Or(target_value.meets_bound(&self.bound))
    }
}

/// The optimization instance behind a decision instance, for carrying
/// witnesses back unchanged.
#[derive(Debug, Clone)]
pub struct DecisionToOptimizationWitnessResult<P> {
    target: P,
}

impl<P> DecisionToOptimizationWitnessResult<P> {
    /// The optimization instance.
    pub closed spec fn spec_target(&self) -> P {
        self.target
    }

    /// The optimization instance.
    pub fn target_problem(&self) -> (r: &P)
        ensures
            *r == self.spec_target(),
    {
        &self.target
    }

    /// A witness of the optimization instance is one of the decision
    /// instance.
    pub fn extract_solution(&self, target_solution: &[usize]) -> (r: Vec<usize>)
        ensures
            r@ == target_solution@,
    {
        crate::topology::copy_vec(target_solution)
    }
}

} // verus!
